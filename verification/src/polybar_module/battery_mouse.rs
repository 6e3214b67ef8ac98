//! Battery levels of wireless mice.

use vstd::prelude::*;

use crate::markup;
use crate::numeral;
use crate::polybar_module::RenderablePolybarModule;
use crate::text;
use crate::theme;
use crate::theme::{Color, Palette};

verus! {

broadcast use crate::text::texts_push;

pub struct BatteryMouseModule {}

#[derive(Debug, PartialEq, Eq)]
pub struct BatteryMouseModuleState {
    pub levels: Vec<(String, Option<u8>)>,
}

/// Whether a text is one of the capacity levels of the kernel.
pub open spec fn is_capacity_level(s: Seq<char>) -> bool {
    s == "Full"@ || s == "High"@ || s == "Normal"@ || s == "Low"@ || s == "Critical"@ || s
        == "Unknown"@
}

/// Percentage that a capacity level of the kernel stands for.
pub open spec fn level_percent(s: Seq<char>) -> Option<u8> {
    if s == "Full"@ {
        Some(100)
    } else if s == "High"@ {
        Some(80)
    } else if s == "Normal"@ {
        Some(60)
    } else if s == "Low"@ {
        Some(30)
    } else if s == "Critical"@ {
        Some(10)
    } else {
        None
    }
}

/// Level of a battery, from its capacity file where it can be read, else from its level file:
/// nothing where neither tells it.
pub open spec fn battery_level(capacity: Option<Seq<char>>, level: Option<Seq<char>>) -> Option<
    Option<u8>,
> {
    match capacity {
        Some(c) => match numeral::unsigned_value(text::trimmed_end(c), 255) {
            Some(n) => Some(Some(n as u8)),
            None => None,
        },
        None => match level {
            Some(l) => Some(level_percent(text::trimmed_end(l))),
            None => None,
        },
    }
}

pub open spec fn text_of(s: Option<&str>) -> Option<Seq<char>> {
    match s {
        Some(t) => Some(t@),
        None => None,
    }
}

impl BatteryMouseModule {
    pub fn new() -> Self {
        BatteryMouseModule {  }
    }

    /// Percentage that a capacity level of the kernel stands for.
    pub fn sysfs_capacity_level_to_prct(s: &str) -> (r: Option<u8>)
        requires
            is_capacity_level(s@),
        ensures
            r == level_percent(s@),
    {
        if text::same(s, "Full") {
            Some(100)
        } else if text::same(s, "High") {
            Some(80)
        } else if text::same(s, "Normal") {
            Some(60)
        } else if text::same(s, "Low") {
            Some(30)
        } else if text::same(s, "Critical") {
            Some(10)
        } else {
            None
        }
    }

    /// Whether a text is one of the capacity levels of the kernel.
    pub fn is_known_level(s: &str) -> (r: bool)
        ensures
            r == is_capacity_level(s@),
    {
        text::same(s, "Full") || text::same(s, "High") || text::same(s, "Normal") || text::same(
            s,
            "Low",
        ) || text::same(s, "Critical") || text::same(s, "Unknown")
    }

    /// Level of a battery, from those of its files that can be read: nothing where they do not tell
    /// it.
    pub fn read_level(capacity: Option<&str>, capacity_level: Option<&str>) -> (r: Option<
        Option<u8>,
    >)
        requires
            capacity is None ==> match capacity_level {
                Some(l) => is_capacity_level(text::trimmed_end(l@)),
                None => true,
            },
        ensures
            r == battery_level(text_of(capacity), text_of(capacity_level)),
    {
        match capacity {
            Some(c) => {
                let t = text::trim_end(c);
                match numeral::parse_unsigned(t.as_str(), 255) {
                    Some(n) => Some(Some(n as u8)),
                    None => None,
                }
            },
            None => match capacity_level {
                Some(l) => {
                    let t = text::trim_end(l);
                    Some(Self::sysfs_capacity_level_to_prct(t.as_str()))
                },
                None => None,
            },
        }
    }

    /// Entry of a mouse, from those of its files that can be read: none where its level or its
    /// name is not known.
    pub fn read_mouse(
        capacity: Option<&str>,
        capacity_level: Option<&str>,
        model_name: Option<&str>,
    ) -> (r: Option<(String, Option<u8>)>)
        requires
            capacity is None ==> match capacity_level {
                Some(l) => is_capacity_level(text::trimmed_end(l@)),
                None => true,
            },
            battery_level(text_of(capacity), text_of(capacity_level)) is Some ==> match model_name {
                Some(n) => theme::has_short_name(text::trimmed_end(n@)),
                None => true,
            },
        ensures
            match r {
                Some(e) => {
                    &&& battery_level(text_of(capacity), text_of(capacity_level)) == Some(e.1)
                    &&& match model_name {
                        Some(n) => e.0@ == theme::short_name(text::trimmed_end(n@)),
                        None => false,
                    }
                },
                None => {
                    ||| battery_level(text_of(capacity), text_of(capacity_level)) is None
                    ||| model_name is None
                },
            },
    {
        let level: Option<u8> = match Self::read_level(capacity, capacity_level) {
            Some(level) => level,
            None => {
                return None;
            },
        };
        match model_name {
            Some(n) => {
                let t = text::trim_end(n);
                Some((theme::shorten_model_name(t.as_str()), level))
            },
            None => None,
        }
    }
}

pub open spec fn mouse_fragment(name: Seq<char>, level: Option<u8>) -> Seq<char> {
    match level {
        Some(n) => markup::styled(
            Palette::SolarizedDark,
            name + " "@ + numeral::decimal_text(n as nat) + "%"@,
            if n < 40 {
                Some(Color::Attention)
            } else if n < 50 {
                Some(Color::Notice)
            } else {
                None
            },
            None,
        ),
        None => name + " ?"@,
    }
}

/// Parts of the markup: the icon, then the mice; nothing without a mouse.
pub open spec fn fragments(levels: Seq<(String, Option<u8>)>) -> Seq<Seq<char>> {
    if levels.len() == 0 {
        Seq::empty()
    } else {
        seq![markup::styled(Palette::SolarizedDark, "\u{e91c}"@, Some(Color::MainIcon), None)]
            + Seq::new(levels.len(), |i: int| mouse_fragment(levels[i].0@, levels[i].1))
    }
}

fn mouse_markup(name: &str, level: Option<u8>) -> (r: String)
    ensures
        r@ == mouse_fragment(name@, level),
{
    match level {
        Some(n) => {
            let mut s = name.to_owned();
            s.append(" ");
            let d = numeral::decimal(n as u64);
            s.append(d.as_str());
            s.append("%");
            markup::style(
                Palette::SolarizedDark,
                s.as_str(),
                if n < 40 {
                    Some(Color::Attention)
                } else if n < 50 {
                    Some(Color::Notice)
                } else {
                    None
                },
                None,
            )
        },
        None => {
            let mut s = name.to_owned();
            s.append(" ?");
            s
        },
    }
}

impl RenderablePolybarModule for BatteryMouseModule {
    type State = BatteryMouseModuleState;

    open spec fn renderable(&self, state: &BatteryMouseModuleState) -> bool {
        true
    }

    open spec fn rendered(&self, state: &BatteryMouseModuleState) -> Seq<char> {
        text::joined(fragments(state.levels@), " "@)
    }

    fn can_render(&self, state: &BatteryMouseModuleState) -> (r: bool) {
        true
    }

    #[verifier::loop_isolation(false)]
    fn render(&self, state: &BatteryMouseModuleState) -> (r: String) {
        let mut parts: Vec<String> = Vec::new();
        let ghost target = fragments(state.levels@);
        assert(text::texts(parts@) =~= Seq::empty());
        if state.levels.len() > 0 {
            parts.push(
                markup::style(Palette::SolarizedDark, "\u{e91c}", Some(Color::MainIcon), None),
            );
            assert(text::texts(parts@) =~= target.take(1));
            let mut i: usize = 0;
            while i < state.levels.len()
                invariant
                    i <= state.levels.len(),
                    text::texts(parts@) == target.take(i + 1),
                decreases state.levels.len() - i,
            {
                let part = mouse_markup(state.levels[i].0.as_str(), state.levels[i].1);
                assert(part@ == target[i + 1]);
                parts.push(part);
                i += 1;
                assert(target.take(i + 1) =~= target.take(i as int).push(target[i as int]));
            }
            assert(target.take(i + 1) =~= target);
        }
        text::join(&parts, " ")
    }
}

// What the levels stand for

/// The capacity decides where it can be read, whatever the level says; it is read as a percentage
/// with a line feed behind it. The level stands in for it, and without both nothing is known.
pub proof fn the_capacity_comes_first(n: nat, level: Option<Seq<char>>)
    requires
        n <= 255,
    ensures
        battery_level(Some(numeral::decimal_text(n).push('\n')), level) == Some(Some(n as u8)),
        battery_level(None, None) is None,
{
    numeral::lines_of_digits_are_read(n, 255);
}

/// A level of the kernel with a line feed behind it stands for a percentage, and a fuller one for a
/// higher one.
pub proof fn levels_stand_for_percentages()
    ensures
        battery_level(None, Some("Full"@.push('\n'))) == Some(Some(100u8)),
        battery_level(None, Some("High"@.push('\n'))) == Some(Some(80u8)),
        battery_level(None, Some("Normal"@.push('\n'))) == Some(Some(60u8)),
        battery_level(None, Some("Low"@.push('\n'))) == Some(Some(30u8)),
        battery_level(None, Some("Critical"@.push('\n'))) == Some(Some(10u8)),
        battery_level(None, Some("Unknown"@.push('\n'))) == Some(None::<u8>),
{
    reveal_strlit("Full");
    reveal_strlit("High");
    reveal_strlit("Normal");
    reveal_strlit("Low");
    reveal_strlit("Critical");
    reveal_strlit("Unknown");
    text::white_space_is_cut_off("Full"@, '\n');
    text::white_space_is_cut_off("High"@, '\n');
    text::white_space_is_cut_off("Normal"@, '\n');
    text::white_space_is_cut_off("Low"@, '\n');
    text::white_space_is_cut_off("Critical"@, '\n');
    text::white_space_is_cut_off("Unknown"@, '\n');
    assert("Full"@[0] == 'F' && "High"@[0] == 'H' && "Normal"@[0] == 'N');
    assert("Low"@[0] == 'L' && "Critical"@[0] == 'C' && "Unknown"@[0] == 'U');
}

/// A mouse is shown with its percentage, or a question mark; the less there is left, the louder the
/// color: it starts below a half, and is the louder one below two fifths.
pub proof fn low_levels_are_colored(name: Seq<char>, n: u8)
    ensures
        ({
            let t = name + " "@ + numeral::decimal_text(n as nat) + "%"@;
            &&& n >= 50 ==> mouse_fragment(name, Some(n)) == t
            &&& 40 <= n < 50 ==> mouse_fragment(name, Some(n)) == markup::colored(
                Palette::SolarizedDark,
                t,
                Color::Notice,
            )
            &&& n < 40 ==> mouse_fragment(name, Some(n)) == markup::colored(
                Palette::SolarizedDark,
                t,
                Color::Attention,
            )
        }),
        mouse_fragment(name, None) == name + " ?"@,
{
}

/// The levels of the kernel are those that stand for a percentage, and the unknown one.
pub proof fn levels_are_known(s: Seq<char>)
    ensures
        is_capacity_level("Full"@),
        is_capacity_level("High"@),
        is_capacity_level("Normal"@),
        is_capacity_level("Low"@),
        is_capacity_level("Critical"@),
        is_capacity_level("Unknown"@),
        is_capacity_level(s) && s != "Unknown"@ ==> level_percent(s) is Some,
        !is_capacity_level(s) ==> level_percent(s) is None,
        level_percent("Unknown"@) is None,
{
    levels_stand_for_percentages();
    reveal_strlit("Unknown");
    reveal_strlit("Full");
    reveal_strlit("High");
    reveal_strlit("Normal");
    reveal_strlit("Low");
    reveal_strlit("Critical");
    assert("Full"@[0] == 'F' && "High"@[0] == 'H' && "Normal"@[0] == 'N');
    assert("Low"@[0] == 'L' && "Critical"@[0] == 'C' && "Unknown"@[0] == 'U');
}

}
