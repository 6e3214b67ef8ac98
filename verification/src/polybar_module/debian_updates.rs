//! Pending updates of Debian.

use vstd::prelude::*;

use crate::backoff::{self, Delay};
use crate::bytes;
use crate::bytes::ProgramOutput;
use crate::markup;
use crate::numeral;
use crate::polybar_module::arch_updates;
use crate::polybar_module::{PolybarModuleEnv, RenderablePolybarModule};
use crate::text;
use crate::theme::{Color, Palette};

verus! {

broadcast use crate::text::texts_push;

#[derive(Clone, Copy, Debug, PartialEq, Eq, Structural)]
pub struct DebianUpdatesModuleState {
    pub update_count: usize,
    pub security_update_count: usize,
}

#[derive(Clone, Copy, Debug, PartialEq, Eq, Structural)]
pub enum DebianUpdatesError {
    /// `lsb_release` exited with an error.
    Release,
    /// `apt` exited with an error.
    Apt,
    /// `debsecan` exited with an error.
    Debsecan,
}

pub struct DebianUpdatesModule {
    pub env: PolybarModuleEnv,
    pub debian_relase_codename: String,
}

/// Packages in the lines of `apt list`: what stands in front of the first slash of each line with
/// a bracket.
pub open spec fn packages_of(lines: Seq<Seq<char>>) -> Seq<Seq<char>>
    decreases lines.len(),
{
    if lines.len() == 0 {
        Seq::empty()
    } else {
        let before = packages_of(lines.drop_last());
        if lines.last().contains('[') {
            before.push(text::fields_of(lines.last(), '/')[0])
        } else {
            before
        }
    }
}

/// Packages that a text of `apt list` tells of.
pub open spec fn packages_in(s: Seq<char>) -> Seq<Seq<char>> {
    packages_of(text::line_seq(s))
}

fn has_bracket(s: &str) -> (r: bool)
    ensures
        r == s@.contains('['),
{
    let v = text::chars_of(s);
    let mut i: usize = 0;
    while i < v.len()
        invariant
            i <= v.len(),
            v@ == s@,
            forall|j: int| 0 <= j < i ==> v@[j] != '[',
        decreases v.len() - i,
    {
        if v[i] == '[' {
            assert(s@[i as int] == '[');
            return true;
        }
        i += 1;
    }
    false
}

/// Reads the packages in a text of `apt list`.
pub fn read_packages(s: &str) -> (r: Vec<String>)
    ensures
        text::texts(r@) == packages_in(s@),
{
    let lines = text::lines(s);
    let ghost all = text::line_seq(s@);
    let mut r: Vec<String> = Vec::new();
    let mut i: usize = 0;
    assert(text::texts(r@) =~= packages_of(all.take(0)));
    while i < lines.len()
        invariant
            i <= lines.len(),
            all == text::texts(lines@),
            text::texts(r@) == packages_of(all.take(i as int)),
        decreases lines.len() - i,
    {
        assert(all.take(i + 1).drop_last() =~= all.take(i as int));
        assert(all.take(i + 1).last() == lines[i as int]@);
        if has_bracket(lines[i].as_str()) {
            let fields = text::split(lines[i].as_str(), '/');
            assert(text::texts(fields@)[0] == fields[0]@);
            r.push(fields[0].clone());
        }
        i += 1;
    }
    assert(all.take(i as int) =~= all);
    r
}

impl DebianUpdatesModule {
    /// A module for the release that `lsb_release` wrote.
    pub fn new(env: PolybarModuleEnv, lsb_release: &ProgramOutput) -> (r: Result<
        Self,
        DebianUpdatesError,
    >)
        ensures
            match r {
                Ok(m) => {
                    &&& lsb_release.success
                    &&& m.env == env
                    &&& m.debian_relase_codename@ == text::trimmed_end(
                        bytes::lossy_text(lsb_release.stdout@),
                    )
                },
                Err(e) => !lsb_release.success && e == DebianUpdatesError::Release,
            },
    {
        if !lsb_release.success {
            return Err(DebianUpdatesError::Release);
        }
        let s = bytes::from_utf8_lossy(lsb_release.stdout.as_slice());
        Ok(DebianUpdatesModule { env, debian_relase_codename: text::trim_end(s.as_str()) })
    }

    /// Arguments of `debsecan`.
    pub fn debsecan_args(&self) -> (r: Vec<String>)
        ensures
            text::texts(r@) == seq![
                "--only-fixed"@,
                "--suite="@ + self.debian_relase_codename@,
                "--format=packages"@,
            ],
    {
        let mut suite = "--suite=".to_owned();
        suite.append(self.debian_relase_codename.as_str());
        let mut r: Vec<String> = Vec::new();
        r.push("--only-fixed".to_owned());
        r.push(suite);
        r.push("--format=packages".to_owned());
        assert(text::texts(r@) =~= seq![
            "--only-fixed"@,
            "--suite="@ + self.debian_relase_codename@,
            "--format=packages"@,
        ]);
        r
    }

    /// Whether an output of `apt list` tells of an update, of which it is then to be found out
    /// whether it concerns security.
    pub fn needs_debsecan(apt: &ProgramOutput) -> (r: bool)
        ensures
            r == (apt.success && packages_in(bytes::lossy_text(apt.stdout@)).len() > 0),
    {
        apt.success && {
            let s = bytes::from_utf8_lossy(apt.stdout.as_slice());
            let packages = read_packages(s.as_str());
            assert(text::texts(packages@).len() == packages.len());
            packages.len() > 0
        }
    }

    /// Counts from the texts of `apt` and `debsecan`.
    pub fn count_updates(apt: &str, debsecan: &str) -> (r: DebianUpdatesModuleState)
        ensures
            r.update_count == packages_in(apt@).len(),
            r.security_update_count == arch_updates::count_listed(
                text::line_seq(debsecan@),
                packages_in(apt@),
            ),
    {
        let packages = read_packages(apt);
        assert(text::texts(packages@).len() == packages.len());
        DebianUpdatesModuleState {
            update_count: packages.len(),
            security_update_count: arch_updates::count_lines_in(debsecan, &packages),
        }
    }

    /// State from what `apt` left, and from what `debsecan` left, which is looked at only where
    /// there is an update.
    pub fn try_update(apt: &ProgramOutput, debsecan: &ProgramOutput) -> (r: Result<
        DebianUpdatesModuleState,
        DebianUpdatesError,
    >)
        ensures
            ({
                let packages = packages_in(bytes::lossy_text(apt.stdout@));
                match r {
                    Ok(s) => {
                        &&& apt.success
                        &&& packages.len() == 0 || debsecan.success
                        &&& s.update_count == packages.len()
                        &&& s.security_update_count == arch_updates::count_listed(
                            text::line_seq(bytes::lossy_text(debsecan.stdout@)),
                            packages,
                        )
                    },
                    Err(e) => if !apt.success {
                        e == DebianUpdatesError::Apt
                    } else {
                        &&& packages.len() > 0
                        &&& !debsecan.success
                        &&& e == DebianUpdatesError::Debsecan
                    },
                }
            }),
    {
        if !apt.success {
            return Err(DebianUpdatesError::Apt);
        }
        if Self::needs_debsecan(apt) && !debsecan.success {
            return Err(DebianUpdatesError::Debsecan);
        }
        let a = bytes::from_utf8_lossy(apt.stdout.as_slice());
        let b = bytes::from_utf8_lossy(debsecan.stdout.as_slice());
        Ok(Self::count_updates(a.as_str(), b.as_str()))
    }

    /// Wait before the next update; `last` tells whether the last one succeeded.
    pub fn wait_update(&mut self, last: Option<bool>) -> (r: Delay)
        requires
            old(self).env.wf(),
        ensures
            final(self).debian_relase_codename == old(self).debian_relase_codename,
            final(self).env.same_files(old(self).env),
            backoff::waits(
                old(self).env.network_error_backoff,
                final(self).env.network_error_backoff,
                last,
                180_000_000_000,
                r,
            ),
    {
        self.env.network_error_backoff.delay_after(last, 180_000_000_000)
    }
}

pub open spec fn state_text(state: DebianUpdatesModuleState) -> Seq<char> {
    if state.update_count == 0 {
        Seq::empty()
    } else {
        let head = markup::styled(
            Palette::SolarizedDark,
            "\u{e915}"@,
            Some(Color::MainIcon),
            None,
        ) + " "@ + numeral::decimal_text(state.update_count as nat);
        let security = if state.security_update_count > 0 {
            markup::styled(
                Palette::SolarizedDark,
                "("@ + numeral::decimal_text(state.security_update_count as nat) + ")"@,
                Some(Color::Attention),
                None,
            )
        } else {
            Seq::empty()
        };
        head + security
    }
}

impl RenderablePolybarModule for DebianUpdatesModule {
    type State = Option<DebianUpdatesModuleState>;

    open spec fn renderable(&self, state: &Option<DebianUpdatesModuleState>) -> bool {
        true
    }

    open spec fn rendered(&self, state: &Option<DebianUpdatesModuleState>) -> Seq<char> {
        match state {
            Some(s) => state_text(*s),
            None => markup::styled(
                Palette::SolarizedDark,
                "\u{e904}"@,
                Some(Color::Attention),
                None,
            ),
        }
    }

    fn can_render(&self, state: &Option<DebianUpdatesModuleState>) -> (r: bool) {
        true
    }

    fn render(&self, state: &Option<DebianUpdatesModuleState>) -> (r: String) {
        match state {
            Some(state) => {
                if state.update_count == 0 {
                    return String::new();
                }
                let mut r = markup::style(
                    Palette::SolarizedDark,
                    "\u{e915}",
                    Some(Color::MainIcon),
                    None,
                );
                r.append(" ");
                let n = numeral::decimal(state.update_count as u64);
                r.append(n.as_str());
                if state.security_update_count > 0 {
                    let mut s = "(".to_owned();
                    let n = numeral::decimal(state.security_update_count as u64);
                    s.append(n.as_str());
                    s.append(")");
                    let styled = markup::style(
                        Palette::SolarizedDark,
                        s.as_str(),
                        Some(Color::Attention),
                        None,
                    );
                    r.append(styled.as_str());
                }
                assert(r@ =~= state_text(*state));
                r
            },
            None => markup::style(
                Palette::SolarizedDark,
                "\u{e904}",
                Some(Color::Attention),
                None,
            ),
        }
    }
}

// What the counts stand for

/// A line tells of a package exactly if it holds a bracket; the name of the package goes up to the
/// first slash of the line, and no further.
pub proof fn packages_stand_in_front_of_a_slash(
    lines: Seq<Seq<char>>,
    line: Seq<char>,
    name: Seq<char>,
    rest: Seq<char>,
)
    ensures
        packages_of(Seq::empty()).len() == 0,
        (forall|i: int| 0 <= i < line.len() ==> #[trigger] line[i] != '[') ==> packages_of(
            lines.push(line),
        ) == packages_of(lines),
        !name.contains('/') && (name + seq!['/'] + rest).contains('[') ==> packages_of(
            lines.push(name + seq!['/'] + rest),
        ) == packages_of(lines).push(name),
        !line.contains('/') && line.contains('[') ==> packages_of(lines.push(line))
            == packages_of(lines).push(line),
{
    let l = name + seq!['/'] + rest;
    assert(lines.push(line).drop_last() =~= lines);
    assert(lines.push(l).drop_last() =~= lines);
    if !name.contains('/') {
        text::fields_of_both(name, rest, '/');
        text::whole_is_a_field(name, '/');
    }
    if !line.contains('/') {
        text::whole_is_a_field(line, '/');
    }
}

/// Nothing is shown exactly where nothing is to be updated; the security updates are added in
/// brackets where there are any.
pub proof fn security_updates_are_added(count: usize, security: usize)
    ensures
        ({
            let shown = |n: usize, s: usize|
                state_text(
                    DebianUpdatesModuleState { update_count: n, security_update_count: s },
                );
            &&& shown(count, security).len() == 0 <==> count == 0
            &&& count > 0 && security > 0 ==> shown(count, security) == shown(count, 0)
                + markup::colored(
                Palette::SolarizedDark,
                "("@ + numeral::decimal_text(security as nat) + ")"@,
                Color::Attention,
            )
            &&& count > 0 ==> shown(count, 0) == markup::colored(
                Palette::SolarizedDark,
                "\u{e915}"@,
                Color::MainIcon,
            ) + " "@ + numeral::decimal_text(count as nat)
        }),
{
    let shown = |n: usize, s: usize|
        state_text(DebianUpdatesModuleState { update_count: n, security_update_count: s });
    reveal_strlit(" ");
    if count > 0 {
        assert(shown(count, 0) =~= markup::colored(
            Palette::SolarizedDark,
            "\u{e915}"@,
            Color::MainIcon,
        ) + " "@ + numeral::decimal_text(count as nat));
        if security > 0 {
            assert(shown(count, security) =~= shown(count, 0) + markup::colored(
                Palette::SolarizedDark,
                "("@ + numeral::decimal_text(security as nat) + ")"@,
                Color::Attention,
            ));
        }
    }
}

}
