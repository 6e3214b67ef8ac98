//! Pending updates of Arch Linux.

use vstd::prelude::*;

use crate::backoff::{self, Backoff, Delay};
use crate::bytes;
use crate::bytes::ProgramOutput;
use crate::markup;
use crate::numeral;
use crate::polybar_module::{PolybarModuleEnv, RenderablePolybarModule};
use crate::text;
use crate::theme::{Color, Palette, ICON_WARNING};

verus! {

broadcast use crate::text::texts_push;

#[derive(Clone, Copy, Debug, PartialEq, Eq, Structural)]
pub struct ArchUpdatesModuleState {
    pub repo_update_count: usize,
    pub repo_security_update_count: usize,
    pub aur_update_count: usize,
}

/// `arch-audit` exited with an error.
#[derive(Clone, Copy, Debug, PartialEq, Eq, Structural)]
pub struct AuditFailed;

pub struct ArchUpdatesModule {
    pub env: PolybarModuleEnv,
    pub server_error_backoff: Backoff,
}

/// Packages that an output of `checkupdates` tells of: the first word of each line.
pub open spec fn packages_in(s: Seq<char>) -> Seq<Seq<char>> {
    let ls = text::line_seq(s);
    Seq::new(ls.len(), |i: int| text::fields_of(ls[i], ' ')[0])
}

/// Number of lines that are one of the packages.
pub open spec fn count_listed(lines: Seq<Seq<char>>, packages: Seq<Seq<char>>) -> nat
    decreases lines.len(),
{
    if lines.len() == 0 {
        0
    } else {
        count_listed(lines.drop_last(), packages) + if packages.contains(lines.last()) {
            1nat
        } else {
            0nat
        }
    }
}

/// Reads the packages in a text of `checkupdates`.
pub fn read_packages(s: &str) -> (r: Vec<String>)
    ensures
        text::texts(r@) == packages_in(s@),
{
    let lines = text::lines(s);
    let ghost all = text::line_seq(s@);
    let mut r: Vec<String> = Vec::new();
    let mut i: usize = 0;
    assert(text::texts(r@) =~= packages_in(s@).take(0));
    while i < lines.len()
        invariant
            i <= lines.len(),
            all == text::texts(lines@),
            all == text::line_seq(s@),
            text::texts(r@) == packages_in(s@).take(i as int),
        decreases lines.len() - i,
    {
        let fields = text::split(lines[i].as_str(), ' ');
        assert(all[i as int] == lines[i as int]@);
        assert(text::texts(fields@)[0] == fields[0]@);
        r.push(fields[0].clone());
        i += 1;
        assert(packages_in(s@).take(i as int) =~= packages_in(s@).take(i - 1).push(
            packages_in(s@)[i - 1],
        ));
    }
    assert(packages_in(s@).take(i as int) =~= packages_in(s@));
    r
}

/// Counts the lines that are one of the packages.
pub fn count_lines_in(s: &str, packages: &Vec<String>) -> (r: usize)
    ensures
        r == count_listed(text::line_seq(s@), text::texts(packages@)),
{
    let lines = text::lines(s);
    let ghost all = text::line_seq(s@);
    let mut r: usize = 0;
    let mut i: usize = 0;
    while i < lines.len()
        invariant
            i <= lines.len(),
            r <= i,
            all == text::texts(lines@),
            r == count_listed(all.take(i as int), text::texts(packages@)),
        decreases lines.len() - i,
    {
        assert(all.take(i + 1).drop_last() =~= all.take(i as int));
        assert(all.take(i + 1).last() == lines[i as int]@);
        if text::contains_text(packages, lines[i].as_str()) {
            r += 1;
        }
        i += 1;
    }
    assert(all.take(i as int) =~= all);
    r
}

/// There are no more security updates than lines that tell of one.
pub proof fn listed_at_most_all(lines: Seq<Seq<char>>, packages: Seq<Seq<char>>)
    ensures
        count_listed(lines, packages) <= lines.len(),
        packages.len() == 0 ==> count_listed(lines, packages) == 0,
    decreases lines.len(),
{
    if lines.len() > 0 {
        listed_at_most_all(lines.drop_last(), packages);
    }
}

impl ArchUpdatesModule {
    pub fn new(env: PolybarModuleEnv) -> (r: Self)
        ensures
            r.env == env,
            r.server_error_backoff.starts_as("3"@, 15 * 60, 6 * 60 * 60),
    {
        proof {
            reveal_strlit("3");
        }
        ArchUpdatesModule {
            env,
            server_error_backoff: Backoff::new("3", 15 * 60, 6 * 60 * 60),
        }
    }

    /// Whether an output of `checkupdates` tells of an update, of which it is then to be found out
    /// whether it concerns security.
    pub fn needs_audit(checkupdates: &[u8]) -> (r: bool)
        ensures
            r == (packages_in(bytes::lossy_text(checkupdates@)).len() > 0),
    {
        let s = bytes::from_utf8_lossy(checkupdates);
        let packages = read_packages(s.as_str());
        assert(text::texts(packages@).len() == packages.len());
        packages.len() > 0
    }

    /// Arguments of `arch-audit`.
    pub fn audit_args(db_dir: &str) -> (r: Vec<String>)
        ensures
            text::texts(r@) == seq!["-u"@, "-b"@, db_dir@, "-f"@, "%n"@],
    {
        let mut r: Vec<String> = Vec::new();
        r.push("-u".to_owned());
        r.push("-b".to_owned());
        r.push(db_dir.to_owned());
        r.push("-f".to_owned());
        r.push("%n".to_owned());
        assert(text::texts(r@) =~= seq!["-u"@, "-b"@, db_dir@, "-f"@, "%n"@]);
        r
    }

    /// Counts from the texts of `checkupdates`, `arch-audit` and the AUR helper.
    pub fn count_updates(checkupdates: &str, audit: &str, aur: &str) -> (r: ArchUpdatesModuleState)
        ensures
            r.repo_update_count == packages_in(checkupdates@).len(),
            r.repo_security_update_count == count_listed(
                text::line_seq(audit@),
                packages_in(checkupdates@),
            ),
            r.aur_update_count == text::line_seq(aur@).len(),
    {
        let packages = read_packages(checkupdates);
        let aur_lines = text::lines(aur);
        assert(text::texts(packages@).len() == packages.len());
        assert(text::texts(aur_lines@).len() == aur_lines.len());
        ArchUpdatesModuleState {
            repo_update_count: packages.len(),
            repo_security_update_count: count_lines_in(audit, &packages),
            aur_update_count: aur_lines.len(),
        }
    }

    /// State from what `checkupdates` and the AUR helper wrote, and from what `arch-audit` left,
    /// which is looked at only where there is an update.
    pub fn try_update(checkupdates: &[u8], audit: &ProgramOutput, aur: &[u8]) -> (r: Result<
        ArchUpdatesModuleState,
        AuditFailed,
    >)
        ensures
            ({
                let packages = packages_in(bytes::lossy_text(checkupdates@));
                match r {
                    Ok(s) => {
                        &&& packages.len() == 0 || audit.success
                        &&& s.repo_update_count == packages.len()
                        &&& s.repo_security_update_count == count_listed(
                            text::line_seq(bytes::lossy_text(audit.stdout@)),
                            packages,
                        )
                        &&& s.aur_update_count == text::line_seq(bytes::lossy_text(aur@)).len()
                    },
                    Err(_) => packages.len() > 0 && !audit.success,
                }
            }),
    {
        if Self::needs_audit(checkupdates) && !audit.success {
            return Err(AuditFailed);
        }
        let a = bytes::from_utf8_lossy(checkupdates);
        let b = bytes::from_utf8_lossy(audit.stdout.as_slice());
        let c = bytes::from_utf8_lossy(aur);
        Ok(Self::count_updates(a.as_str(), b.as_str(), c.as_str()))
    }

    /// Wait before the next update; `last` tells whether the last one succeeded.
    pub fn wait_update(&mut self, last: Option<bool>) -> (r: Delay)
        requires
            old(self).server_error_backoff.wf(),
        ensures
            final(self).env == old(self).env,
            backoff::waits(
                old(self).server_error_backoff,
                final(self).server_error_backoff,
                last,
                10_800_000_000_000,
                r,
            ),
    {
        self.server_error_backoff.delay_after(last, 10_800_000_000_000)
    }
}

pub open spec fn state_text(state: ArchUpdatesModuleState) -> Seq<char> {
    if state.repo_update_count == 0 && state.aur_update_count == 0 {
        Seq::empty()
    } else {
        let head = markup::styled(
            Palette::SolarizedDark,
            "\u{ebff}"@,
            Some(Color::MainIcon),
            None,
        ) + " "@ + numeral::decimal_text(state.repo_update_count as nat);
        let security = if state.repo_security_update_count > 0 {
            markup::styled(
                Palette::SolarizedDark,
                "("@ + numeral::decimal_text(state.repo_security_update_count as nat) + ")"@,
                Some(Color::Attention),
                None,
            )
        } else {
            Seq::empty()
        };
        let aur = if state.aur_update_count > 0 {
            "+"@ + numeral::decimal_text(state.aur_update_count as nat)
        } else {
            Seq::empty()
        };
        head + security + aur
    }
}

impl RenderablePolybarModule for ArchUpdatesModule {
    type State = Option<ArchUpdatesModuleState>;

    open spec fn renderable(&self, state: &Option<ArchUpdatesModuleState>) -> bool {
        true
    }

    open spec fn rendered(&self, state: &Option<ArchUpdatesModuleState>) -> Seq<char> {
        match state {
            Some(s) => state_text(*s),
            None => markup::styled(
                Palette::SolarizedDark,
                ICON_WARNING@,
                Some(Color::Attention),
                None,
            ),
        }
    }

    fn can_render(&self, state: &Option<ArchUpdatesModuleState>) -> (r: bool) {
        true
    }

    fn render(&self, state: &Option<ArchUpdatesModuleState>) -> (r: String) {
        match state {
            Some(state) => {
                if state.repo_update_count == 0 && state.aur_update_count == 0 {
                    return String::new();
                }
                let mut r = markup::style(
                    Palette::SolarizedDark,
                    "\u{ebff}",
                    Some(Color::MainIcon),
                    None,
                );
                r.append(" ");
                let n = numeral::decimal(state.repo_update_count as u64);
                r.append(n.as_str());
                if state.repo_security_update_count > 0 {
                    let mut s = "(".to_owned();
                    let n = numeral::decimal(state.repo_security_update_count as u64);
                    s.append(n.as_str());
                    s.append(")");
                    let styled = markup::style(
                        Palette::SolarizedDark,
                        s.as_str(),
                        Some(Color::Attention),
                        None,
                    );
                    r.append(styled.as_str());
                }
                if state.aur_update_count > 0 {
                    r.append("+");
                    let n = numeral::decimal(state.aur_update_count as u64);
                    r.append(n.as_str());
                }
                assert(r@ =~= state_text(*state));
                r
            },
            None => markup::style(
                Palette::SolarizedDark,
                ICON_WARNING,
                Some(Color::Attention),
                None,
            ),
        }
    }
}

// What the counts stand for

/// Every line tells of one package, whose name goes up to the first space of the line, and no
/// further.
pub proof fn packages_are_first_words(s: Seq<char>, i: int)
    requires
        0 <= i < text::line_seq(s).len(),
    ensures
        packages_in(s).len() == text::line_seq(s).len(),
        !packages_in(s)[i].contains(' '),
        packages_in(s)[i] == text::line_seq(s)[i] || {
            let n = packages_in(s)[i].len() as int;
            let l = text::line_seq(s)[i];
            n < l.len() && l.take(n) == packages_in(s)[i] && l[n] == ' '
        },
{
    text::first_field_goes_to_the_separator(text::line_seq(s)[i], ' ');
}

/// A line with a name, a space and anything else tells of the package of that name.
pub proof fn names_end_at_a_space(name: Seq<char>, rest: Seq<char>)
    requires
        !name.contains(' '),
        !(name + seq![' '] + rest).contains('\n'),
    ensures
        packages_in(name + seq![' '] + rest) == seq![name],
{
    let l = name + seq![' '] + rest;
    text::an_open_line_is_a_line(l);
    text::fields_of_both(name, rest, ' ');
    text::whole_is_a_field(name, ' ');
    assert(packages_in(l) =~= seq![name]);
}

/// A package is to be updated exactly if a line of `checkupdates` is its name, or starts with its
/// name and a space; a line of an audit counts exactly if it is the name of such a package.
pub proof fn audited_packages_are_counted(s: Seq<char>, audit: Seq<Seq<char>>, name: Seq<char>)
    requires
        !name.contains(' '),
    ensures
        packages_in(s).contains(name) <==> exists|i: int|
            0 <= i < text::line_seq(s).len() && {
                let l = #[trigger] text::line_seq(s)[i];
                l == name || (name.len() < l.len() && l.take(name.len() as int) == name
                    && l[name.len() as int] == ' ')
            },
        count_listed(audit.push(name), packages_in(s)) == count_listed(audit, packages_in(s))
            + if packages_in(s).contains(name) {
            1nat
        } else {
            0nat
        },
        count_listed(Seq::empty(), packages_in(s)) == 0,
{
    let ls = text::line_seq(s);
    let ps = packages_in(s);
    assert(audit.push(name).drop_last() =~= audit);
    if ps.contains(name) {
        let i = choose|i: int| 0 <= i < ps.len() && ps[i] == name;
        packages_are_first_words(s, i);
        assert(ls[i] == name || ls[i].take(name.len() as int) == name);
    }
    assert forall|i: int|
        0 <= i < ls.len() && {
            let l = #[trigger] ls[i];
            l == name || (name.len() < l.len() && l.take(name.len() as int) == name
                && l[name.len() as int] == ' ')
        } implies ps.contains(name) by {
        let l = ls[i];
        if l == name {
            text::whole_is_a_field(l, ' ');
        } else {
            let rest = l.skip(name.len() as int + 1);
            assert(l =~= name + seq![' '] + rest);
            text::fields_of_both(name, rest, ' ');
            text::whole_is_a_field(name, ' ');
        }
        assert(ps[i] == name);
    }
}

/// Nothing is shown exactly where nothing is to be updated; the security updates are added in
/// brackets, and those of the AUR behind a plus, where there are any.
pub proof fn counts_are_added_up(repo: usize, security: usize, aur: usize)
    ensures
        ({
            let shown = |r: usize, s: usize, a: usize|
                state_text(
                    ArchUpdatesModuleState {
                        repo_update_count: r,
                        repo_security_update_count: s,
                        aur_update_count: a,
                    },
                );
            &&& shown(repo, security, aur).len() == 0 <==> repo == 0 && aur == 0
            &&& aur > 0 && repo > 0 ==> shown(repo, security, aur) == shown(repo, security, 0)
                + "+"@ + numeral::decimal_text(aur as nat)
            &&& security > 0 && repo > 0 ==> shown(repo, security, 0) == shown(repo, 0, 0)
                + markup::colored(
                Palette::SolarizedDark,
                "("@ + numeral::decimal_text(security as nat) + ")"@,
                Color::Attention,
            )
            &&& repo > 0 ==> shown(repo, 0, 0) == markup::colored(
                Palette::SolarizedDark,
                "\u{ebff}"@,
                Color::MainIcon,
            ) + " "@ + numeral::decimal_text(repo as nat)
        }),
{
    reveal_strlit("%{F-}");
    let shown = |r: usize, s: usize, a: usize|
        state_text(
            ArchUpdatesModuleState {
                repo_update_count: r,
                repo_security_update_count: s,
                aur_update_count: a,
            },
        );
    if repo > 0 {
        assert(shown(repo, security, aur) =~= shown(repo, security, 0) + if aur > 0 {
            "+"@ + numeral::decimal_text(aur as nat)
        } else {
            Seq::empty()
        });
        assert(shown(repo, security, 0) =~= shown(repo, 0, 0) + if security > 0 {
            markup::colored(
                Palette::SolarizedDark,
                "("@ + numeral::decimal_text(security as nat) + ")"@,
                Color::Attention,
            )
        } else {
            Seq::empty()
        });
        assert(shown(repo, security, 0) =~= shown(repo, security, 0) + Seq::empty());
        assert(aur > 0 ==> shown(repo, security, aur) =~= shown(repo, security, 0) + "+"@
            + numeral::decimal_text(aur as nat));
        assert(shown(repo, 0, 0) =~= markup::colored(
            Palette::SolarizedDark,
            "\u{ebff}"@,
            Color::MainIcon,
        ) + " "@ + numeral::decimal_text(repo as nat));
    }
}

/// A line is counted exactly if it is one of the packages.
pub proof fn listed_lines_are_counted(
    lines: Seq<Seq<char>>,
    line: Seq<char>,
    packages: Seq<Seq<char>>,
)
    ensures
        count_listed(Seq::empty(), packages) == 0,
        count_listed(lines.push(line), packages) == count_listed(lines, packages) + if exists|
            i: int,
        |
            0 <= i < packages.len() && #[trigger] packages[i] == line {
            1nat
        } else {
            0nat
        },
{
    assert(lines.push(line).drop_last() =~= lines);
    assert(packages.contains(line) <==> exists|i: int|
        0 <= i < packages.len() && #[trigger] packages[i] == line);
}

}
