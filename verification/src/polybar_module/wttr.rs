//! Weather from wttr.in.

use vstd::prelude::*;

use crate::backoff::{self, Delay};
use crate::markup;
use crate::markup::Markup;
use crate::numeral;
use crate::polybar_module::{PolybarModuleEnv, RenderablePolybarModule};
use crate::text;
use crate::theme::{Color, Palette, ICON_WARNING};

verus! {

pub struct WttrModule {
    pub url: String,
    pub env: PolybarModuleEnv,
}

#[derive(Clone, Copy, Debug, PartialEq, Eq)]
pub struct WttrModuleState {
    pub sky: &'static str,
    pub temp: i8,
}

#[derive(Clone, Copy, Debug, PartialEq, Eq, Structural)]
pub enum WttrError {
    /// The sky is not known.
    Sky,
    /// The temperature is missing.
    Missing,
    /// The temperature is no number.
    Temperature,
}

/// Icon for the symbol of a sky.
pub open spec fn sky_icon(sky: Seq<char>) -> Option<Seq<char>> {
    if sky == "\u{2728}"@ {
        Some("?"@)
    } else if sky == "\u{2601}\u{fe0f}"@ {
        Some("\u{f0e6e}"@)
    } else if sky == "\u{1f32b}"@ {
        Some("\u{f0591}"@)
    } else if sky == "\u{1f327}"@ {
        Some("\u{f0597}"@)
    } else if sky == "\u{2744}\u{fe0f}"@ {
        Some("\u{f0f36}"@)
    } else if sky == "\u{1f326}"@ {
        Some("\u{f0597}"@)
    } else if sky == "\u{1f328}"@ {
        Some("\u{f0598}"@)
    } else if sky == "\u{26c5}\u{fe0f}"@ {
        Some("\u{f0595}"@)
    } else if sky == "\u{2600}\u{fe0f}"@ {
        Some("\u{f0599}"@)
    } else if sky == "\u{1f329}"@ {
        Some("\u{f067e}"@)
    } else if sky == "\u{26c8}"@ {
        Some("\u{f067e}"@)
    } else {
        None
    }
}

fn find_icon(sky: &str) -> (r: Option<&'static str>)
    ensures
        match (r, sky_icon(sky@)) {
            (Some(a), Some(b)) => a@ == b,
            (None, None) => true,
            _ => false,
        },
{
    if text::same(sky, "\u{2728}") {
        Some("?")
    } else if text::same(sky, "\u{2601}\u{fe0f}") {
        Some("\u{f0e6e}")
    } else if text::same(sky, "\u{1f32b}") {
        Some("\u{f0591}")
    } else if text::same(sky, "\u{1f327}") {
        Some("\u{f0597}")
    } else if text::same(sky, "\u{2744}\u{fe0f}") {
        Some("\u{f0f36}")
    } else if text::same(sky, "\u{1f326}") {
        Some("\u{f0597}")
    } else if text::same(sky, "\u{1f328}") {
        Some("\u{f0598}")
    } else if text::same(sky, "\u{26c5}\u{fe0f}") {
        Some("\u{f0595}")
    } else if text::same(sky, "\u{2600}\u{fe0f}") {
        Some("\u{f0599}")
    } else if text::same(sky, "\u{1f329}") {
        Some("\u{f067e}")
    } else if text::same(sky, "\u{26c8}") {
        Some("\u{f067e}")
    } else {
        None
    }
}

/// Icon and temperature in a reply: the symbol of the sky, a slash, and the degrees.
pub open spec fn weather_in(s: Seq<char>) -> Result<(Seq<char>, int), WttrError> {
    let parts = text::fields_of(s, '/');
    match sky_icon(text::trimmed(parts[0])) {
        None => Err(WttrError::Sky),
        Some(icon) => if parts.len() < 2 {
            Err(WttrError::Missing)
        } else {
            match numeral::signed_value(
                text::fields_of(text::trimmed(parts[1]), '°')[0],
                -128,
                127,
            ) {
                None => Err(WttrError::Temperature),
                Some(t) => Ok((icon, t)),
            }
        },
    }
}

impl WttrModule {
    /// A module for the given place, or for where the service takes the caller to be.
    pub fn new(location: Option<&str>, env: PolybarModuleEnv) -> (r: Self)
        ensures
            r.env == env,
            r.url@ == "https://wttr.in/"@ + (match location {
                Some(l) => l@,
                None => Seq::empty(),
            }) + "?format=%c/%t"@,
    {
        let mut url = "https://wttr.in/".to_owned();
        if let Some(l) = location {
            url.append(l);
        }
        url.append("?format=%c/%t");
        assert(url@ =~= "https://wttr.in/"@ + (match location {
            Some(l) => l@,
            None => Seq::empty(),
        }) + "?format=%c/%t"@);
        WttrModule { url, env }
    }

    /// State from a reply.
    pub fn parse(reply: &str) -> (r: Result<WttrModuleState, WttrError>)
        ensures
            match (r, weather_in(reply@)) {
                (Ok(s), Ok(w)) => s.sky@ == w.0 && s.temp == w.1,
                (Err(a), Err(b)) => a == b,
                _ => false,
            },
    {
        let parts = text::split(reply, '/');
        let ghost all = text::texts(parts@);
        assert(all[0] == parts[0]@);
        assert(all.len() == parts.len());
        let symbol = text::trim(parts[0].as_str());
        let sky = match find_icon(symbol.as_str()) {
            Some(i) => i,
            None => {
                return Err(WttrError::Sky);
            },
        };
        if parts.len() < 2 {
            return Err(WttrError::Missing);
        }
        assert(all[1] == parts[1]@);
        let degrees = text::trim(parts[1].as_str());
        let fields = text::split(degrees.as_str(), '°');
        assert(text::texts(fields@)[0] == fields[0]@);
        match numeral::parse_signed(fields[0].as_str(), -128, 127) {
            Some(t) => Ok(WttrModuleState { sky, temp: t as i8 }),
            None => Err(WttrError::Temperature),
        }
    }

    /// Wait before the next update; `last` tells whether the last one succeeded.
    pub fn wait_update(&mut self, last: Option<bool>) -> (r: Delay)
        requires
            old(self).env.wf(),
        ensures
            final(self).url == old(self).url,
            final(self).env.same_files(old(self).env),
            backoff::waits(
                old(self).env.network_error_backoff,
                final(self).env.network_error_backoff,
                last,
                300_000_000_000,
                r,
            ),
    {
        self.env.network_error_backoff.delay_after(last, 300_000_000_000)
    }
}

impl RenderablePolybarModule for WttrModule {
    type State = Option<WttrModuleState>;

    open spec fn renderable(&self, state: &Option<WttrModuleState>) -> bool {
        true
    }

    open spec fn rendered(&self, state: &Option<WttrModuleState>) -> Seq<char> {
        match state {
            Some(s) => markup::colored(Palette::OkSolar, s.sky@, Color::MainIcon) + " "@
                + numeral::signed_text(s.temp as int) + "°C"@,
            None => markup::colored(Palette::OkSolar, ICON_WARNING@, Color::Attention),
        }
    }

    fn can_render(&self, state: &Option<WttrModuleState>) -> (r: bool) {
        true
    }

    fn render(&self, state: &Option<WttrModuleState>) -> (r: String) {
        match state {
            Some(s) => {
                let mut r = Markup::new(s.sky).fg(Color::MainIcon).into_string();
                r.append(" ");
                let t = numeral::signed_decimal(s.temp as i64);
                r.append(t.as_str());
                r.append("°C");
                r
            },
            None => Markup::new(ICON_WARNING).fg(Color::Attention).into_string(),
        }
    }
}

/// A reply with the symbol of a known sky, a slash and the degrees tells the icon of the sky and the
/// degrees, with their sign.
pub proof fn replies_tell_sky_and_degrees(sky: Seq<char>, temp: int)
    requires
        -128 <= temp <= 127,
        !sky.contains('/'),
        sky_icon(text::trimmed(sky)) is Some,
    ensures
        weather_in(sky + seq!['/'] + numeral::signed_text(temp) + seq!['°', 'C']) == Ok::<
            _,
            WttrError,
        >((sky_icon(text::trimmed(sky))->0, temp)),
        temp >= 0 ==> weather_in(
            sky + seq!['/', '+'] + numeral::decimal_text(temp as nat) + seq!['°', 'C'],
        ) == Ok::<_, WttrError>((sky_icon(text::trimmed(sky))->0, temp)),
        weather_in(sky) == Err::<(Seq<char>, int), _>(WttrError::Missing),
{
    numeral::signed_reads_back(temp, -128, 127);
    let m = if temp < 0 {
        (-temp) as nat
    } else {
        temp as nat
    };
    numeral::decimal_reads_back(m);
    let d = numeral::decimal_text(m);
    let t = numeral::signed_text(temp);
    assert forall|i: int| 0 <= i < t.len() implies numeral::is_digit(#[trigger] t[i]) || t[i] == '-'
        || t[i] == '+' by {
        if temp < 0 && i > 0 {
            assert(t[i] == d[i - 1]);
        }
    }
    degrees_are_read(sky, t);
    assert(sky + seq!['/'] + numeral::signed_text(temp) + seq!['°', 'C'] =~= sky + seq!['/'] + (
    numeral::signed_text(temp) + seq!['°', 'C']));
    if temp >= 0 {
        let p = seq!['+'] + d;
        assert forall|i: int| 0 <= i < p.len() implies numeral::is_digit(#[trigger] p[i]) || p[i]
            == '-' || p[i] == '+' by {
            if i > 0 {
                assert(p[i] == d[i - 1]);
            }
        }
        degrees_are_read(sky, p);
        assert(sky + seq!['/', '+'] + d + seq!['°', 'C'] =~= sky + seq!['/'] + (p + seq![
            '°',
            'C',
        ]));
    }
    text::whole_is_a_field(sky, '/');
}

proof fn degrees_are_read(sky: Seq<char>, degrees: Seq<char>)
    requires
        !sky.contains('/'),
        sky_icon(text::trimmed(sky)) is Some,
        degrees.len() > 0,
        forall|i: int|
            0 <= i < degrees.len() ==> numeral::is_digit(#[trigger] degrees[i]) || degrees[i] == '-'
                || degrees[i] == '+',
    ensures
        weather_in(sky + seq!['/'] + (degrees + seq!['°', 'C'])) == match numeral::signed_value(
            degrees,
            -128,
            127,
        ) {
            Some(t) => Ok((sky_icon(text::trimmed(sky))->0, t)),
            None => Err(WttrError::Temperature),
        },
{
    let right = degrees + seq!['°', 'C'];
    assert(right[0] == degrees[0]);
    assert(right.last() == 'C');
    assert forall|i: int| 0 <= i < right.len() implies right[i] != '/' by {
        if i < degrees.len() {
            assert(right[i] == degrees[i]);
        }
    }
    assert forall|i: int| 0 <= i < degrees.len() implies degrees[i] != '°' by {}
    text::fields_of_both(sky, right, '/');
    text::whole_is_a_field(sky, '/');
    text::whole_is_a_field(right, '/');
    let c = seq!['C'];
    assert(right =~= degrees + seq!['°'] + c);
    text::fields_of_both(degrees, c, '°');
    text::whole_is_a_field(degrees, '°');
    assert(text::trimmed(right) == right);
}

/// Each symbol of a sky has its icon, and any other text none.
pub proof fn skies_have_icons(sky: Seq<char>)
    ensures
        sky_icon("\u{2728}"@) == Some("?"@),
        sky_icon("\u{2601}\u{fe0f}"@) == Some("\u{f0e6e}"@),
        sky_icon("\u{1f32b}"@) == Some("\u{f0591}"@),
        sky_icon("\u{1f327}"@) == Some("\u{f0597}"@),
        sky_icon("\u{2744}\u{fe0f}"@) == Some("\u{f0f36}"@),
        sky_icon("\u{1f326}"@) == Some("\u{f0597}"@),
        sky_icon("\u{1f328}"@) == Some("\u{f0598}"@),
        sky_icon("\u{26c5}\u{fe0f}"@) == Some("\u{f0595}"@),
        sky_icon("\u{2600}\u{fe0f}"@) == Some("\u{f0599}"@),
        sky_icon("\u{1f329}"@) == Some("\u{f067e}"@),
        sky_icon("\u{26c8}"@) == Some("\u{f067e}"@),
        sky.len() == 0 || sky.len() > 2 ==> sky_icon(sky) is None,
{
    reveal_strlit("\u{2728}");
    reveal_strlit("\u{2601}\u{fe0f}");
    reveal_strlit("\u{1f32b}");
    reveal_strlit("\u{1f327}");
    reveal_strlit("\u{2744}\u{fe0f}");
    reveal_strlit("\u{1f326}");
    reveal_strlit("\u{1f328}");
    reveal_strlit("\u{26c5}\u{fe0f}");
    reveal_strlit("\u{2600}\u{fe0f}");
    reveal_strlit("\u{1f329}");
    reveal_strlit("\u{26c8}");
    assert("\u{2728}"@[0] == '\u{2728}' && "\u{2601}\u{fe0f}"@[0] == '\u{2601}');
    assert("\u{1f32b}"@[0] == '\u{1f32b}' && "\u{1f327}"@[0] == '\u{1f327}');
    assert("\u{2744}\u{fe0f}"@[0] == '\u{2744}' && "\u{1f326}"@[0] == '\u{1f326}');
    assert("\u{1f328}"@[0] == '\u{1f328}' && "\u{26c5}\u{fe0f}"@[0] == '\u{26c5}');
    assert("\u{2600}\u{fe0f}"@[0] == '\u{2600}' && "\u{1f329}"@[0] == '\u{1f329}');
    assert("\u{26c8}"@[0] == '\u{26c8}');
}

}
