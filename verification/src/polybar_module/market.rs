//! Trend of a stock market index.

use vstd::arithmetic::power2::*;
use vstd::prelude::*;

use crate::backoff::{self, Delay};
use crate::double::Double;
use crate::fixed_digits;
use crate::markup;
use crate::polybar_module::{PolybarModuleEnv, RenderablePolybarModule, WaitStep};
use crate::text;
use crate::theme::{Color, Palette, ICON_WARNING};

verus! {

/// Page with the values.
pub const URL: &'static str = "https://www.boursorama.com/bourse/indices/cours/1rPCAC/";

/// A value on the page.
#[derive(Clone, Copy, Debug, PartialEq, Eq, Structural)]
pub enum MarketValue {
    Value,
    Delta,
    Ma50,
    Ma100,
}

#[derive(Clone, Copy, Debug, PartialEq, Eq, Structural)]
pub struct MarketModuleState {
    pub val: Double,
    pub delta_prct: Double,
    pub ma50: Double,
    pub ma100: Double,
}

pub struct MarketModule {
    pub env: PolybarModuleEnv,
}

// The page

/// Inner HTML of the first element of a page that a selector matches: what `scraper` finds.
pub uninterp spec fn selected_html(page: Seq<char>, selector: Seq<char>) -> Option<Seq<char>>;

/// Selector of a value.
pub open spec fn selector_of(value: MarketValue) -> Seq<char> {
    match value {
        MarketValue::Value =>
            ".l-quotepage__header .c-faceplate__price > span:nth-child(1)"@,
        MarketValue::Delta =>
            ".l-quotepage__header .c-faceplate__fluctuation .c-instrument--variation"@,
        MarketValue::Ma50 => "tr.c-table__row:nth-child(11) > td:nth-child(4)"@,
        MarketValue::Ma100 => "tr.c-table__row:nth-child(12) > td:nth-child(4)"@,
    }
}

/// Bytes by which a parser may make the texts of a page longer: two for each null character, which
/// is replaced, and one for each character reference.
pub open spec fn parsed_growth(page: Seq<char>) -> nat
    decreases page.len(),
{
    if page.len() == 0 {
        0
    } else {
        parsed_growth(page.drop_last()) + if page.last() == '\0' {
            2nat
        } else if page.last() == '&' {
            1nat
        } else {
            0nat
        }
    }
}

/// Bytes that the texts of a page may have once it is parsed.
pub open spec fn parsed_len(page: Seq<char>) -> nat {
    text::byte_len(page) + parsed_growth(page)
}

/// Bytes to which a text of a page can grow.
pub const MAX_PAGE_BYTES: usize = 0x8000_0000;

/// Whether a page is short enough to be parsed.
pub fn can_parse(page: &str) -> (r: bool)
    ensures
        r == (parsed_len(page@) <= MAX_PAGE_BYTES),
{
    let len: usize = text::len_bytes(page);
    if len > MAX_PAGE_BYTES {
        return false;
    }
    proof {
        text::chars_take_bytes(page@);
    }
    let mut growth: u64 = 0;
    for c in it: page.chars()
        invariant
            it.seq() == page@,
            page@.len() <= MAX_PAGE_BYTES,
            growth == parsed_growth(page@.take(it.index() as int)),
            growth <= 2 * it.index(),
    {
        let ghost i = it.index() as int;
        assert(page@.take(i + 1).drop_last() =~= page@.take(i));
        if c == '\0' {
            growth += 2;
        } else if c == '&' {
            growth += 1;
        }
    }
    assert(page@.take(page@.len() as int) =~= page@);
    len as u64 + growth <= MAX_PAGE_BYTES as u64
}

/// `scraper::Html::parse_document`, `select` and `inner_html`: the inner HTML of the first element
/// that the selector matches; nothing where there is none. How the page and the selector are read is
/// not stated. The texts of a page are kept in buffers that grow by powers of two and that 32 bits
/// count, so none may grow beyond half of what these can tell.
#[verifier::external_body]
fn select_html(page: &str, selector: &str) -> (r: Option<String>)
    requires
        parsed_len(page@) <= MAX_PAGE_BYTES,
        exists|value: MarketValue| selector@ == #[trigger] selector_of(value),
    ensures
        match r {
            Some(s) => selected_html(page@, selector@) == Some(s@),
            None => selected_html(page@, selector@) is None,
        },
{
    let selector = scraper::Selector::parse(selector).ok()?;
    let document = scraper::Html::parse_document(page);
    let element = document.select(&selector).next()?;
    Some(element.inner_html())
}

/// A text without white space, with points for commas.
pub open spec fn plain_number(s: Seq<char>) -> Seq<char>
    decreases s.len(),
{
    if s.len() == 0 {
        s
    } else if text::is_space(s.last()) {
        plain_number(s.drop_last())
    } else if s.last() == ',' {
        plain_number(s.drop_last()).push('.')
    } else {
        plain_number(s.drop_last()).push(s.last())
    }
}

/// A text as a number is written elsewhere, without a percent sign at the end.
pub open spec fn number_text(s: Seq<char>) -> Seq<char> {
    let p = plain_number(s);
    if p.len() > 0 && p.last() == '%' {
        p.drop_last()
    } else {
        p
    }
}

/// Rewrites a number of the page as it is written elsewhere.
pub fn clean_number(s: &str) -> (r: String)
    ensures
        r@ == number_text(s@),
{
    let mut r = String::new();
    for c in it: s.chars()
        invariant
            it.seq() == s@,
            r@ == plain_number(s@.take(it.index() as int)),
    {
        let ghost i = it.index() as int;
        assert(s@.take(i + 1).drop_last() =~= s@.take(i));
        if !text::is_whitespace(c) {
            if c == ',' {
                r.push('.');
            } else {
                r.push(c);
            }
        }
    }
    assert(s@.take(s@.len() as int) =~= s@);
    let v = text::chars_of(r.as_str());
    let n: usize = v.len();
    if n > 0 && v[n - 1] == '%' {
        assert(v@.subrange(0, n - 1) =~= r@.drop_last());
        text::slice_text(&v, 0, n - 1)
    } else {
        r
    }
}

impl MarketModule {
    pub fn new(env: PolybarModuleEnv) -> (r: Self)
        ensures
            r.env == env,
    {
        MarketModule { env }
    }

    /// Text of a value on the page, as a number is written elsewhere; nothing where the page does
    /// not hold it, or is too long to be parsed.
    pub fn extract_number(page: &str, value: MarketValue) -> (r: Option<String>)
        ensures
            match r {
                Some(s) => {
                    &&& parsed_len(page@) <= MAX_PAGE_BYTES
                    &&& selected_html(page@, selector_of(value)) matches Some(h) && s@
                        == number_text(h)
                },
                None => {
                    ||| parsed_len(page@) > MAX_PAGE_BYTES
                    ||| selected_html(page@, selector_of(value)) is None
                },
            },
    {
        if !can_parse(page) {
            return None;
        }
        let selector = match value {
            MarketValue::Value => ".l-quotepage__header .c-faceplate__price > span:nth-child(1)",
            MarketValue::Delta =>
                ".l-quotepage__header .c-faceplate__fluctuation .c-instrument--variation",
            MarketValue::Ma50 => "tr.c-table__row:nth-child(11) > td:nth-child(4)",
            MarketValue::Ma100 => "tr.c-table__row:nth-child(12) > td:nth-child(4)",
        };
        assert(selector@ == selector_of(value));
        match select_html(page, selector) {
            Some(h) => Some(clean_number(h.as_str())),
            None => None,
        }
    }

    /// Wait before the next update; `last` tells whether the last one succeeded.
    pub fn wait_update(&mut self, last: Option<bool>) -> (r: Delay)
        requires
            old(self).env.wf(),
        ensures
            final(self).env.same_files(old(self).env),
            backoff::waits(
                old(self).env.network_error_backoff,
                final(self).env.network_error_backoff,
                last,
                1_800_000_000_000,
                r,
            ),
    {
        self.env.network_error_backoff.delay_after(last, 1_800_000_000_000)
    }

    /// One look at whether it is a working day, the days counted from Monday as 0: where it is
    /// not, eight hours are waited before the next look.
    pub fn wait_working_day(day_num: u32, did_wait: bool) -> (r: WaitStep)
        ensures
            r == crate::polybar_module::wait_step(day_num <= 4, did_wait),
    {
        if day_num <= 4 {
            WaitStep::Done(did_wait)
        } else {
            WaitStep::Wait
        }
    }

    /// Whether a working day is to be waited for: only after an update that succeeded.
    pub fn needs_working_day(last: Option<bool>) -> (r: bool)
        ensures
            r == (last == Some(true)),
    {
        match last {
            Some(ok) => ok,
            None => false,
        }
    }

    /// Whether the waits for the network and for a working day are over: neither may have taken
    /// any time, as the other may have come to an end meanwhile.
    pub fn waits_are_over(did_wait_mode: bool, did_wait_workday: bool) -> (r: bool)
        ensures
            r == (!did_wait_mode && !did_wait_workday),
    {
        !did_wait_mode && !did_wait_workday
    }
}

/// Color of a change in percent: good above 1, bad below -1 and below -2.
pub open spec fn delta_color(delta: Double) -> Option<Color> {
    if delta.is_above(1, 0) {
        Some(Color::Good)
    } else if !delta.is_nan() && !delta.is_at_least(-2, 0) {
        Some(Color::Attention)
    } else if !delta.is_nan() && !delta.is_at_least(-1, 0) {
        Some(Color::Notice)
    } else {
        None
    }
}

impl RenderablePolybarModule for MarketModule {
    type State = Option<MarketModuleState>;

    open spec fn renderable(&self, state: &Option<MarketModuleState>) -> bool {
        true
    }

    open spec fn rendered(&self, state: &Option<MarketModuleState>) -> Seq<char> {
        match state {
            Some(s) => markup::styled(
                Palette::SolarizedDark,
                if s.ma50.is_not_below(s.ma100) {
                    "\u{e9e6}"@
                } else {
                    "\u{e9e5}"@
                },
                Some(Color::MainIcon),
                None,
            ) + " "@ + fixed_digits::whole_text(s.val) + " "@ + markup::styled(
                Palette::SolarizedDark,
                fixed_digits::signed_hundredths_text(s.delta_prct) + "%"@,
                delta_color(s.delta_prct),
                None,
            ),
            None => markup::styled(
                Palette::SolarizedDark,
                ICON_WARNING@,
                Some(Color::Attention),
                None,
            ),
        }
    }

    fn can_render(&self, state: &Option<MarketModuleState>) -> (r: bool) {
        true
    }

    fn render(&self, state: &Option<MarketModuleState>) -> (r: String) {
        match state {
            Some(s) => {
                let icon = if s.ma50.not_below(s.ma100) {
                    "\u{e9e6}"
                } else {
                    "\u{e9e5}"
                };
                let mut r = markup::style(
                    Palette::SolarizedDark,
                    icon,
                    Some(Color::MainIcon),
                    None,
                );
                r.append(" ");
                let val = fixed_digits::whole(s.val);
                r.append(val.as_str());
                r.append(" ");
                let color = if s.delta_prct.above(1, 0) {
                    Some(Color::Good)
                } else if !s.delta_prct.nan() && !s.delta_prct.at_least(-2, 0) {
                    Some(Color::Attention)
                } else if !s.delta_prct.nan() && !s.delta_prct.at_least(-1, 0) {
                    Some(Color::Notice)
                } else {
                    None
                };
                let mut delta = fixed_digits::signed_hundredths(s.delta_prct);
                delta.append("%");
                let styled = markup::style(Palette::SolarizedDark, delta.as_str(), color, None);
                r.append(styled.as_str());
                r
            },
            None => markup::style(
                Palette::SolarizedDark,
                ICON_WARNING,
                Some(Color::Attention),
                None,
            ),
        }
    }
}

// What the texts and figures stand for

/// A number is cleaned one character after the other: white space goes, a comma becomes a point, and
/// anything else stays.
pub proof fn characters_are_cleaned_alone(a: Seq<char>, b: Seq<char>, c: char)
    ensures
        plain_number(a + b) == plain_number(a) + plain_number(b),
        text::is_space(c) ==> plain_number(seq![c]) == Seq::<char>::empty(),
        plain_number(seq![',']) == seq!['.'],
        !text::is_space(c) && c != ',' ==> plain_number(seq![c]) == seq![c],
        plain_number(Seq::empty()) == Seq::<char>::empty(),
    decreases b.len(),
{
    reveal_with_fuel(plain_number, 2);
    let e = Seq::<char>::empty();
    assert(seq![c].drop_last() =~= e);
    assert(seq![','].drop_last() =~= e);
    assert(e.push(c) =~= seq![c]);
    assert(e.push('.') =~= seq!['.']);
    if b.len() == 0 {
        assert(a + b =~= a);
        assert(plain_number(a) + plain_number(b) =~= plain_number(a));
    } else {
        characters_are_cleaned_alone(a, b.drop_last(), c);
        assert((a + b).drop_last() =~= a + b.drop_last());
        assert(plain_number(a + b) =~= plain_number(a) + plain_number(b));
    }
}

/// One percent sign at the end is dropped, and nothing else.
pub proof fn a_percent_sign_is_dropped(s: Seq<char>)
    ensures
        number_text(s.push('%')) == plain_number(s),
        plain_number(s).len() == 0 || plain_number(s).last() != '%' ==> number_text(s)
            == plain_number(s),
{
    assert(s.push('%').drop_last() =~= s);
    assert(plain_number(s).push('%').drop_last() =~= plain_number(s));
}

/// A rise of more than one percent is good, a fall of more than one is marked, and one of more than
/// two is louder.
pub proof fn changes_are_colored(delta: Double)
    requires
        !delta.is_nan(),
    ensures
        ({
            let one = pow2(1074) as int;
            &&& delta_color(delta) == Some(Color::Good) <==> delta.units() > one
            &&& delta_color(delta) is None <==> -one <= delta.units() <= one
            &&& delta_color(delta) == Some(Color::Notice) <==> -2 * one <= delta.units() < -one
            &&& delta_color(delta) == Some(Color::Attention) <==> delta.units() < -2 * one
        }),
{
    lemma_pow2_pos(1074);
    lemma2_to64();
    let u = delta.units();
    assert(u * pow2(0) == u) by (nonlinear_arith)
        requires
            pow2(0) == 1,
    ;
}

/// The texts of a page may grow by what each of its characters adds.
pub proof fn growth_adds_up(a: Seq<char>, b: Seq<char>, c: char)
    ensures
        parsed_growth(a + b) == parsed_growth(a) + parsed_growth(b),
        parsed_growth(seq!['\0']) == 2,
        parsed_growth(seq!['&']) == 1,
        c != '\0' && c != '&' ==> parsed_growth(seq![c]) == 0,
        parsed_len(a) >= text::byte_len(a),
    decreases b.len(),
{
    reveal_with_fuel(parsed_growth, 2);
    assert(seq!['\0'].drop_last() =~= Seq::<char>::empty());
    assert(seq!['&'].drop_last() =~= Seq::<char>::empty());
    assert(seq![c].drop_last() =~= Seq::<char>::empty());
    if b.len() == 0 {
        assert(a + b =~= a);
    } else {
        growth_adds_up(a, b.drop_last(), c);
        assert((a + b).drop_last() =~= a + b.drop_last());
    }
}

/// Each value of the page has its own place.
pub proof fn values_have_their_places()
    ensures
        selector_of(MarketValue::Value)
            == ".l-quotepage__header .c-faceplate__price > span:nth-child(1)"@,
        selector_of(MarketValue::Delta)
            == ".l-quotepage__header .c-faceplate__fluctuation .c-instrument--variation"@,
        selector_of(MarketValue::Ma50) == "tr.c-table__row:nth-child(11) > td:nth-child(4)"@,
        selector_of(MarketValue::Ma100) == "tr.c-table__row:nth-child(12) > td:nth-child(4)"@,
{
}

/// The trend is shown as rising exactly if the shorter average is not below the longer one.
pub proof fn the_averages_tell_the_trend(m: MarketModule, s: MarketModuleState)
    ensures
        m.rendered(&Some(s)) == markup::colored(
            Palette::SolarizedDark,
            if !s.ma50.is_nan() && !s.ma100.is_nan() && s.ma50.units() >= s.ma100.units() {
                "\u{e9e6}"@
            } else {
                "\u{e9e5}"@
            },
            Color::MainIcon,
        ) + " "@ + fixed_digits::whole_text(s.val) + " "@ + markup::styled(
            Palette::SolarizedDark,
            fixed_digits::signed_hundredths_text(s.delta_prct) + "%"@,
            delta_color(s.delta_prct),
            None,
        ),
{
}

}
