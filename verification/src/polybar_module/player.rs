//! What a media player plays.

use vstd::prelude::*;

use crate::markup;
use crate::polybar_module::RenderablePolybarModule;
use crate::text;
use crate::theme;
use crate::theme::{Color, Palette};

verus! {

broadcast use crate::text::texts_push;

pub struct PlayerModule {
    pub max_len: usize,
}

#[derive(Debug, PartialEq, Eq)]
pub struct PlayerModuleState {
    pub player: String,
    pub status: String,
    pub artist: String,
    pub album: String,
    pub title: String,
}

/// Format that `playerctl` is asked to follow.
pub const FORMAT: &'static str = "{{playerName}}│{{status}}│{{ artist }}│{{album}}│{{ title }}";

impl PlayerModule {
    pub fn new(max_len: usize) -> (r: Self)
        ensures
            r.max_len == max_len,
    {
        PlayerModule { max_len }
    }

    /// State from a line of `playerctl`: none where it is empty.
    pub fn update(&self, line: &str) -> (r: Option<PlayerModuleState>)
        requires
            line@.len() > 0 ==> text::fields_of(line@, '│').len() >= 5,
        ensures
            match r {
                Some(s) => {
                    let fields = text::fields_of(line@, '│');
                    &&& line@.len() > 0
                    &&& s.player@ == fields[0]
                    &&& s.status@ == fields[1]
                    &&& s.artist@ == fields[2]
                    &&& s.album@ == fields[3]
                    &&& s.title@ == fields[4]
                },
                None => line@.len() == 0,
            },
    {
        if line.is_empty() {
            None
        } else {
            let fields = text::split(line, '│');
            let ghost all = text::texts(fields@);
            assert(all[0] == fields[0]@ && all[1] == fields[1]@ && all[2] == fields[2]@ && all[3]
                == fields[3]@ && all[4] == fields[4]@);
            Some(
                PlayerModuleState {
                    player: fields[0].clone(),
                    status: fields[1].clone(),
                    artist: fields[2].clone(),
                    album: fields[3].clone(),
                    title: fields[4].clone(),
                },
            )
        }
    }

    /// Whether a line of `playerctl` has all the fields.
    pub fn can_update(&self, line: &str) -> (r: bool)
        ensures
            r == (line@.len() > 0 ==> text::fields_of(line@, '│').len() >= 5),
    {
        line.is_empty() || {
            let fields = text::split(line, '│');
            assert(text::texts(fields@).len() == fields.len());
            fields.len() >= 5
        }
    }
}

pub open spec fn status_text(status: Seq<char>) -> Seq<char> {
    if status == "Playing"@ {
        "\u{f04b}"@
    } else if status == "Paused"@ {
        "\u{f04c}"@
    } else if status == "Stopped"@ {
        "\u{f04d}"@
    } else {
        status
    }
}

pub open spec fn player_text(player: Seq<char>) -> Seq<char> {
    if player == "mpv"@ {
        "\u{f36e}"@
    } else {
        player
    }
}

/// What is shown of the state, from the most to the least: all, without the player, without the
/// album, without the artist.
pub open spec fn candidate(state: PlayerModuleState, level: int) -> Seq<Seq<char>> {
    let player = player_text(state.player@);
    let status = status_text(state.status@);
    if level == 0 {
        seq![player, status, state.artist@, state.album@, state.title@]
    } else if level == 1 {
        seq![status, state.artist@, state.album@, state.title@]
    } else if level == 2 {
        seq![status, state.artist@, state.title@]
    } else {
        seq![status, state.title@]
    }
}

/// How many of the tokens stand in front.
pub open spec fn lead(level: int) -> int {
    if level == 0 {
        2
    } else {
        1
    }
}

/// The tokens that are not empty.
pub open spec fn nonempty(tokens: Seq<Seq<char>>) -> Seq<Seq<char>>
    decreases tokens.len(),
{
    if tokens.len() == 0 {
        tokens
    } else if tokens.last().len() == 0 {
        nonempty(tokens.drop_last())
    } else {
        nonempty(tokens.drop_last()).push(tokens.last())
    }
}

pub open spec fn tokens_text(tokens: Seq<Seq<char>>, lead: int) -> Seq<char> {
    markup::styled(Palette::OkSolar, "\u{ec1b}"@, Some(Color::MainIcon), None) + " "@
        + text::joined(tokens.take(lead), " "@) + " "@ + text::joined(
        tokens.skip(lead),
        markup::styled(Palette::OkSolar, " / "@, Some(Color::Unfocused), None),
    )
}

/// The markup of what is shown at a level.
pub open spec fn level_text(state: PlayerModuleState, level: int) -> Seq<char> {
    tokens_text(nonempty(candidate(state, level)), lead(level))
}

pub open spec fn fits(state: PlayerModuleState, level: int, max_len: usize) -> bool {
    text::byte_len(level_text(state, level)) <= max_len
}

/// Whether there is a token for the front at a level.
pub open spec fn level_ok(state: PlayerModuleState, level: int) -> bool {
    lead(level) <= nonempty(candidate(state, level)).len()
}

/// Whether there are enough tokens at the levels that are tried, and room for an ellipsis where
/// none fits.
pub open spec fn showable(state: PlayerModuleState, max_len: usize) -> bool {
    &&& level_ok(state, 0)
    &&& !fits(state, 0, max_len) ==> {
        &&& level_ok(state, 1)
        &&& !fits(state, 1, max_len) ==> {
            &&& level_ok(state, 2)
            &&& !fits(state, 2, max_len) ==> {
                &&& level_ok(state, 3)
                &&& !fits(state, 3, max_len) ==> theme::can_shorten(
                    level_text(state, 3),
                    Some(max_len),
                )
            }
        }
    }
}

/// The first level that fits, else the last one cut short.
pub open spec fn shown(state: PlayerModuleState, max_len: usize) -> Seq<char> {
    if fits(state, 0, max_len) {
        level_text(state, 0)
    } else if fits(state, 1, max_len) {
        level_text(state, 1)
    } else if fits(state, 2, max_len) {
        level_text(state, 2)
    } else if fits(state, 3, max_len) {
        level_text(state, 3)
    } else {
        theme::shortened(level_text(state, 3), Some(max_len))
    }
}

fn push_nonempty(tokens: &mut Vec<String>, t: &str)
    ensures
        text::texts(final(tokens)@) == if t@.len() == 0 {
            text::texts(old(tokens)@)
        } else {
            text::texts(old(tokens)@).push(t@)
        },
{
    if !t.is_empty() {
        tokens.push(t.to_owned());
    }
}

fn level_tokens(state: &PlayerModuleState, level: usize) -> (r: Vec<String>)
    requires
        level < 4,
    ensures
        text::texts(r@) == nonempty(candidate(*state, level as int)),
{
    let status = if text::same(state.status.as_str(), "Playing") {
        "\u{f04b}"
    } else if text::same(state.status.as_str(), "Paused") {
        "\u{f04c}"
    } else if text::same(state.status.as_str(), "Stopped") {
        "\u{f04d}"
    } else {
        state.status.as_str()
    };
    let player = if text::same(state.player.as_str(), "mpv") {
        "\u{f36e}"
    } else {
        state.player.as_str()
    };
    let ghost c = candidate(*state, level as int);
    let mut r: Vec<String> = Vec::new();
    proof {
        reveal_with_fuel(nonempty, 6);
    }
    assert(text::texts(r@) =~= nonempty(c.take(0)));
    if level == 0 {
        push_nonempty(&mut r, player);
        assert(c.take(1).drop_last() =~= c.take(0));
        assert(text::texts(r@) == nonempty(c.take(1)));
    }
    let ghost k: int = if level == 0 { 1 } else { 0 };
    push_nonempty(&mut r, status);
    assert(c.take(k + 1).drop_last() =~= c.take(k));
    assert(text::texts(r@) == nonempty(c.take(k + 1)));
    let ghost mut n: int = k + 1;
    if level < 3 {
        push_nonempty(&mut r, state.artist.as_str());
        assert(c.take(n + 1).drop_last() =~= c.take(n));
        assert(text::texts(r@) == nonempty(c.take(n + 1)));
        proof {
            n = n + 1;
        }
    }
    if level < 2 {
        push_nonempty(&mut r, state.album.as_str());
        assert(c.take(n + 1).drop_last() =~= c.take(n));
        assert(text::texts(r@) == nonempty(c.take(n + 1)));
        proof {
            n = n + 1;
        }
    }
    push_nonempty(&mut r, state.title.as_str());
    assert(c.take(n + 1).drop_last() =~= c.take(n));
    assert(text::texts(r@) == nonempty(c.take(n + 1)));
    assert(c.take(n + 1) =~= c);
    r
}

fn write_tokens(tokens: &Vec<String>, lead: usize) -> (r: String)
    requires
        lead <= tokens.len(),
    ensures
        r@ == tokens_text(text::texts(tokens@), lead as int),
{
    let ghost all = text::texts(tokens@);
    let mut first: Vec<String> = Vec::new();
    let mut other: Vec<String> = Vec::new();
    let mut i: usize = 0;
    assert(text::texts(first@) =~= all.take(lead as int).take(0));
    assert(text::texts(other@) =~= Seq::empty());
    while i < tokens.len()
        invariant
            i <= tokens.len(),
            lead <= tokens.len(),
            all == text::texts(tokens@),
            text::texts(first@) == all.take(if i < lead {
                i as int
            } else {
                lead as int
            }),
            text::texts(other@) == if i < lead {
                Seq::empty()
            } else {
                all.subrange(lead as int, i as int)
            },
        decreases tokens.len() - i,
    {
        assert(all[i as int] == tokens[i as int]@);
        if i < lead {
            first.push(tokens[i].clone());
            assert(all.take(i + 1) =~= all.take(i as int).push(all[i as int]));
            assert(i + 1 == lead ==> all.subrange(lead as int, i + 1) =~= Seq::empty());
        } else {
            other.push(tokens[i].clone());
            assert(all.subrange(lead as int, i + 1) =~= all.subrange(lead as int, i as int).push(
                all[i as int],
            ));
        }
        i += 1;
    }
    assert(lead == 0 && tokens.len() == 0 ==> all.skip(0) =~= Seq::empty());
    assert(all.subrange(lead as int, all.len() as int) =~= all.skip(lead as int));
    let sep = markup::style(Palette::OkSolar, " / ", Some(Color::Unfocused), None);
    let mut r = markup::style(Palette::OkSolar, "\u{ec1b}", Some(Color::MainIcon), None);
    r.append(" ");
    let a = text::join(&first, " ");
    r.append(a.as_str());
    r.append(" ");
    let b = text::join(&other, sep.as_str());
    r.append(b.as_str());
    r
}

fn lead_of(level: usize) -> (r: usize)
    ensures
        r == lead(level as int),
{
    if level == 0 {
        2
    } else {
        1
    }
}

fn write_level(state: &PlayerModuleState, level: usize) -> (r: Option<String>)
    requires
        level < 4,
    ensures
        match r {
            Some(s) => level_ok(*state, level as int) && s@ == level_text(*state, level as int),
            None => !level_ok(*state, level as int),
        },
{
    let tokens = level_tokens(state, level);
    assert(text::texts(tokens@).len() == tokens.len());
    let n: usize = lead_of(level);
    if n <= tokens.len() {
        Some(write_tokens(&tokens, n))
    } else {
        None
    }
}

/// A state that fits at the first level is shown whole.
pub proof fn whole_state_is_preferred(state: PlayerModuleState, max_len: usize)
    requires
        fits(state, 0, max_len),
    ensures
        shown(state, max_len) == level_text(state, 0),
{
}

/// What is shown, markup included, has at most `max_len` characters.
pub proof fn shown_is_short(state: PlayerModuleState, max_len: usize)
    requires
        showable(state, max_len),
    ensures
        shown(state, max_len).len() <= max_len,
{
    text::chars_take_bytes(level_text(state, 0));
    text::chars_take_bytes(level_text(state, 1));
    text::chars_take_bytes(level_text(state, 2));
    text::chars_take_bytes(level_text(state, 3));
    if !fits(state, 0, max_len) && !fits(state, 1, max_len) && !fits(state, 2, max_len) && !fits(
        state,
        3,
        max_len,
    ) {
        theme::shortened_is_short(level_text(state, 3), max_len);
    }
}

impl PlayerModule {
    fn try_render(&self, state: &PlayerModuleState) -> (r: Option<String>)
        ensures
            match r {
                Some(s) => showable(*state, self.max_len) && s@ == shown(*state, self.max_len),
                None => !showable(*state, self.max_len),
            },
    {
        match write_level(state, 0) {
            None => {
                return None;
            },
            Some(s) => if text::len_bytes(s.as_str()) <= self.max_len {
                return Some(s);
            },
        }
        match write_level(state, 1) {
            None => {
                return None;
            },
            Some(s) => if text::len_bytes(s.as_str()) <= self.max_len {
                return Some(s);
            },
        }
        match write_level(state, 2) {
            None => {
                return None;
            },
            Some(s) => if text::len_bytes(s.as_str()) <= self.max_len {
                return Some(s);
            },
        }
        match write_level(state, 3) {
            None => None,
            Some(s) => if text::len_bytes(s.as_str()) <= self.max_len {
                Some(s)
            } else if theme::can_ellipsis(s.as_str(), Some(self.max_len)) {
                Some(theme::ellipsis(s.as_str(), Some(self.max_len)))
            } else {
                None
            },
        }
    }
}

impl RenderablePolybarModule for PlayerModule {
    type State = Option<PlayerModuleState>;

    open spec fn renderable(&self, state: &Option<PlayerModuleState>) -> bool {
        match state {
            Some(s) => showable(*s, self.max_len),
            None => true,
        }
    }

    open spec fn rendered(&self, state: &Option<PlayerModuleState>) -> Seq<char> {
        match state {
            Some(s) => shown(*s, self.max_len),
            None => Seq::empty(),
        }
    }

    fn can_render(&self, state: &Option<PlayerModuleState>) -> (r: bool) {
        match state {
            Some(s) => self.try_render(s).is_some(),
            None => true,
        }
    }

    fn render(&self, state: &Option<PlayerModuleState>) -> (r: String) {
        match state {
            Some(s) => match self.try_render(s) {
                Some(r) => r,
                None => String::new(),
            },
            None => String::new(),
        }
    }
}

// What is shown

/// The states of a player have a symbol each; any other one is shown as it is.
pub proof fn states_have_symbols(status: Seq<char>, player: Seq<char>)
    ensures
        status_text("Playing"@) == "\u{f04b}"@,
        status_text("Paused"@) == "\u{f04c}"@,
        status_text("Stopped"@) == "\u{f04d}"@,
        status != "Playing"@ && status != "Paused"@ && status != "Stopped"@ ==> status_text(status)
            == status,
        player_text("mpv"@) == "\u{f36e}"@,
        player != "mpv"@ ==> player_text(player) == player,
{
    reveal_strlit("Playing");
    reveal_strlit("Paused");
    reveal_strlit("Stopped");
    assert("Playing"@.len() == 7 && "Paused"@.len() == 6 && "Stopped"@[0] == 'S');
    assert("Playing"@[0] == 'P');
}

/// The player goes first, then the album, then the artist; the title and the state always stay, and
/// the order too.
pub proof fn least_goes_first(state: PlayerModuleState)
    ensures
        candidate(state, 0) == seq![
            player_text(state.player@),
            status_text(state.status@),
            state.artist@,
            state.album@,
            state.title@,
        ],
        candidate(state, 1) == candidate(state, 0).remove(0),
        candidate(state, 2) == candidate(state, 1).remove(2),
        candidate(state, 3) == candidate(state, 2).remove(1),
        forall|level: int|
            0 <= level < 4 ==> (#[trigger] candidate(state, level)).last() == state.title@,
        forall|level: int| 0 <= level < 4 ==> #[trigger] lead(level) == if level > 0 {
            1int
        } else {
            2int
        },
{
    assert(candidate(state, 1) =~= candidate(state, 0).remove(0));
    assert(candidate(state, 2) =~= candidate(state, 1).remove(2));
    assert(candidate(state, 3) =~= candidate(state, 2).remove(1));
}

/// Empty texts are left out, one by one, and no others.
pub proof fn empty_texts_are_left_out(a: Seq<Seq<char>>, b: Seq<Seq<char>>, t: Seq<char>)
    ensures
        nonempty(a + b) == nonempty(a) + nonempty(b),
        t.len() > 0 ==> nonempty(seq![t]) == seq![t],
        t.len() == 0 ==> nonempty(seq![t]) == Seq::<Seq<char>>::empty(),
    decreases b.len(),
{
    reveal_with_fuel(nonempty, 2);
    let e = Seq::<Seq<char>>::empty();
    assert(seq![t].drop_last() =~= e);
    assert(e.push(t) =~= seq![t]);
    if b.len() == 0 {
        assert(a + b =~= a);
        assert(nonempty(a) + nonempty(b) =~= nonempty(a));
    } else {
        empty_texts_are_left_out(a, b.drop_last(), t);
        assert((a + b).drop_last() =~= a + b.drop_last());
        assert(nonempty(a + b) =~= nonempty(a) + nonempty(b));
    }
}

/// What is shown is the most that fits; where nothing does, the least of it is cut.
pub proof fn the_most_that_fits_is_shown(state: PlayerModuleState, max_len: usize, level: int)
    requires
        0 <= level <= 4,
        forall|k: int|
            0 <= k < level ==> text::byte_len(#[trigger] level_text(state, k)) > max_len,
        level < 4 ==> text::byte_len(level_text(state, level)) <= max_len,
    ensures
        shown(state, max_len) == if level < 4 {
            level_text(state, level)
        } else {
            theme::shortened(level_text(state, 3), Some(max_len))
        },
{
    assert(level > 0 ==> !fits(state, 0, max_len));
    assert(level > 1 ==> !fits(state, 1, max_len));
    assert(level > 2 ==> !fits(state, 2, max_len));
    assert(level > 3 ==> !fits(state, 3, max_len));
}

/// Spaces part the texts in front, and slashes the others.
pub proof fn slashes_part_the_texts(front: Seq<char>, first: Seq<char>, second: Seq<char>)
    ensures
        tokens_text(seq![front, first, second], 1) == markup::colored(
            Palette::OkSolar,
            "\u{ec1b}"@,
            Color::MainIcon,
        ) + " "@ + front + " "@ + (first + markup::colored(
            Palette::OkSolar,
            " / "@,
            Color::Unfocused,
        ) + second),
        tokens_text(seq![front, first, second], 2) == markup::colored(
            Palette::OkSolar,
            "\u{ec1b}"@,
            Color::MainIcon,
        ) + " "@ + (front + " "@ + first) + " "@ + second,
{
    let t = seq![front, first, second];
    let slash = markup::colored(Palette::OkSolar, " / "@, Color::Unfocused);
    assert(t.take(1) =~= seq![front]);
    assert(t.skip(1) =~= seq![first].push(second));
    assert(t.take(2) =~= seq![front].push(first));
    assert(t.skip(2) =~= seq![second]);
    text::separators_stand_between(seq![first], second, slash);
    text::separators_stand_between(seq![front], first, " "@);
    text::separators_stand_between(Seq::empty(), first, slash);
    text::separators_stand_between(Seq::empty(), front, " "@);
    text::separators_stand_between(Seq::empty(), second, slash);
}

}
