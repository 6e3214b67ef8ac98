//! Markup that polybar understands.

use vstd::arithmetic::power2::*;
use vstd::prelude::*;

use crate::double::Double;
use crate::numeral;
use crate::text;
use crate::theme;
use crate::theme::{Color, Palette};

verus! {

/// Mouse event that an action is bound to.
#[derive(Clone, Copy, Debug, PartialEq, Eq, Structural)]
pub enum PolybarActionType {
    ClickLeft,
    ClickMiddle,
    ClickRight,
    ScrollUp,
    ScrollDown,
    DoubleClickLeft,
    DoubleClickMiddle,
    DoubleClickRight,
}

/// Number of the mouse event in the markup.
pub open spec fn action_number(type_: PolybarActionType) -> nat {
    match type_ {
        PolybarActionType::ClickLeft => 1,
        PolybarActionType::ClickMiddle => 2,
        PolybarActionType::ClickRight => 3,
        PolybarActionType::ScrollUp => 4,
        PolybarActionType::ScrollDown => 5,
        PolybarActionType::DoubleClickLeft => 6,
        PolybarActionType::DoubleClickMiddle => 7,
        PolybarActionType::DoubleClickRight => 8,
    }
}

impl PolybarActionType {
    fn number(self) -> (r: u64)
        ensures
            r == action_number(self),
    {
        match self {
            PolybarActionType::ClickLeft => 1,
            PolybarActionType::ClickMiddle => 2,
            PolybarActionType::ClickRight => 3,
            PolybarActionType::ScrollUp => 4,
            PolybarActionType::ScrollDown => 5,
            PolybarActionType::DoubleClickLeft => 6,
            PolybarActionType::DoubleClickMiddle => 7,
            PolybarActionType::DoubleClickRight => 8,
        }
    }
}

/// Decoration of a text.
pub enum MarkupOp {
    Foreground(Color),
    Underline(Color),
    Overline(Color),
    Background(Color),
    Font(u8),
    Action { type_: PolybarActionType, command: String },
}

/// A command with a backslash in front of every colon.
pub open spec fn escaped(command: Seq<char>) -> Seq<char>
    decreases command.len(),
{
    if command.len() == 0 {
        command
    } else if command.last() == ':' {
        escaped(command.drop_last()).push('\\').push(':')
    } else {
        escaped(command.drop_last()).push(command.last())
    }
}

/// A text without the character in front of every colon.
pub open spec fn unescaped(s: Seq<char>) -> Seq<char>
    decreases s.len(),
{
    if s.len() == 0 {
        s
    } else if s.last() == ':' && s.len() >= 2 {
        unescaped(s.drop_last().drop_last()).push(':')
    } else {
        unescaped(s.drop_last()).push(s.last())
    }
}

/// Escaping loses nothing: the command can be read back.
pub proof fn escaping_can_be_undone(command: Seq<char>)
    ensures
        unescaped(escaped(command)) == command,
    decreases command.len(),
{
    if command.len() > 0 {
        escaping_can_be_undone(command.drop_last());
        let inner = escaped(command.drop_last());
        if command.last() == ':' {
            assert(escaped(command).drop_last().drop_last() =~= inner);
        } else {
            assert(escaped(command).drop_last() =~= inner);
        }
        assert(command.drop_last().push(command.last()) =~= command);
    }
}

/// No colon of an escaped command can be taken for the end of the command: a backslash stands in
/// front of each.
pub proof fn escaped_colons_are_guarded(command: Seq<char>, i: int)
    requires
        0 <= i < escaped(command).len(),
        escaped(command)[i] == ':',
    ensures
        i > 0,
        escaped(command)[i - 1] == '\\',
    decreases command.len(),
{
    if command.len() > 0 {
        let inner = escaped(command.drop_last());
        if i < inner.len() {
            escaped_colons_are_guarded(command.drop_last(), i);
        }
    }
}

pub open spec fn hex_color(palette: Palette, color: Color) -> Seq<char> {
    numeral::hex_text(theme::rgb_of(palette, color) as nat, 6)
}

/// Tag that opens a decoration.
pub open spec fn opening(palette: Palette, op: MarkupOp) -> Seq<char> {
    match op {
        MarkupOp::Foreground(c) => "%{F#"@ + hex_color(palette, c) + "}"@,
        MarkupOp::Underline(c) => "%{u#"@ + hex_color(palette, c) + "}%{+u}"@,
        MarkupOp::Overline(c) => "%{o#"@ + hex_color(palette, c) + "}%{+o}"@,
        MarkupOp::Background(c) => "%{b#"@ + hex_color(palette, c) + "}"@,
        MarkupOp::Font(n) => "%{T"@ + numeral::decimal_text(n as nat) + "}"@,
        MarkupOp::Action { type_, command } => "%{A"@ + numeral::decimal_text(action_number(type_))
            + ":"@ + escaped(command@) + ":}"@,
    }
}

/// Tag that closes a decoration.
pub open spec fn closing(op: MarkupOp) -> Seq<char> {
    match op {
        MarkupOp::Foreground(_) => "%{F-}"@,
        MarkupOp::Underline(_) => "%{-u}"@,
        MarkupOp::Overline(_) => "%{-o}"@,
        MarkupOp::Background(_) => "%{b-}"@,
        MarkupOp::Font(_) => "%{T-}"@,
        MarkupOp::Action { .. } => "%{A}"@,
    }
}

/// `inner` inside its decorations: a later one stands outside the earlier ones.
pub open spec fn decorated(palette: Palette, inner: Seq<char>, ops: Seq<MarkupOp>) -> Seq<char>
    decreases ops.len(),
{
    if ops.len() == 0 {
        inner
    } else {
        opening(palette, ops.last()) + decorated(palette, inner, ops.drop_last()) + closing(
            ops.last(),
        )
    }
}

/// A text and its decorations, from the inside out.
pub struct Markup {
    pub palette: Palette,
    pub inner: String,
    pub ops: Vec<MarkupOp>,
}

impl View for Markup {
    type V = Seq<char>;

    /// The text with its tags.
    open spec fn view(&self) -> Seq<char> {
        decorated(self.palette, self.inner@, self.ops@)
    }
}

spec fn openings(palette: Palette, ops: Seq<MarkupOp>) -> Seq<char>
    decreases ops.len(),
{
    if ops.len() == 0 {
        Seq::empty()
    } else {
        opening(palette, ops.last()) + openings(palette, ops.drop_last())
    }
}

spec fn closings(ops: Seq<MarkupOp>) -> Seq<char>
    decreases ops.len(),
{
    if ops.len() == 0 {
        Seq::empty()
    } else {
        closings(ops.drop_last()) + closing(ops.last())
    }
}

proof fn tags_surround(palette: Palette, inner: Seq<char>, ops: Seq<MarkupOp>)
    ensures
        decorated(palette, inner, ops) == openings(palette, ops) + inner + closings(ops),
    decreases ops.len(),
{
    if ops.len() == 0 {
        assert(openings(palette, ops) + inner + closings(ops) =~= inner);
    } else {
        tags_surround(palette, inner, ops.drop_last());
        assert(decorated(palette, inner, ops) =~= openings(palette, ops) + inner + closings(ops));
    }
}

fn escape(command: &str) -> (r: String)
    ensures
        r@ == escaped(command@),
{
    let mut r = String::new();
    for c in it: command.chars()
        invariant
            it.seq() == command@,
            r@ == escaped(command@.take(it.index() as int)),
    {
        let ghost i = it.index() as int;
        assert(command@.take(i + 1).drop_last() =~= command@.take(i));
        if c == ':' {
            r.push('\\');
        }
        r.push(c);
    }
    assert(command@.take(command@.len() as int) =~= command@);
    r
}

fn append_color(r: &mut String, palette: Palette, color: Color)
    ensures
        final(r)@ == old(r)@ + hex_color(palette, color),
{
    let h = numeral::hexadecimal(palette.rgb(color), 6);
    r.append(h.as_str());
}

fn append_opening(r: &mut String, palette: Palette, op: &MarkupOp)
    ensures
        final(r)@ == old(r)@ + opening(palette, *op),
{
    let ghost before = r@;
    match op {
        MarkupOp::Foreground(c) => {
            r.append("%{F#");
            append_color(r, palette, *c);
            r.append("}");
        },
        MarkupOp::Underline(c) => {
            r.append("%{u#");
            append_color(r, palette, *c);
            r.append("}%{+u}");
        },
        MarkupOp::Overline(c) => {
            r.append("%{o#");
            append_color(r, palette, *c);
            r.append("}%{+o}");
        },
        MarkupOp::Background(c) => {
            r.append("%{b#");
            append_color(r, palette, *c);
            r.append("}");
        },
        MarkupOp::Font(n) => {
            r.append("%{T");
            let d = numeral::decimal(*n as u64);
            r.append(d.as_str());
            r.append("}");
        },
        MarkupOp::Action { type_, command } => {
            r.append("%{A");
            let d = numeral::decimal(type_.number());
            r.append(d.as_str());
            r.append(":");
            let c = escape(command.as_str());
            r.append(c.as_str());
            r.append(":}");
        },
    }
    assert(r@ =~= before + opening(palette, *op));
}

fn append_closing(r: &mut String, op: &MarkupOp)
    ensures
        final(r)@ == old(r)@ + closing(*op),
{
    match op {
        MarkupOp::Foreground(_) => r.append("%{F-}"),
        MarkupOp::Underline(_) => r.append("%{-u}"),
        MarkupOp::Overline(_) => r.append("%{-o}"),
        MarkupOp::Background(_) => r.append("%{b-}"),
        MarkupOp::Font(_) => r.append("%{T-}"),
        MarkupOp::Action { .. } => r.append("%{A}"),
    }
}

impl Markup {
    /// A text without decoration, in the default palette.
    pub fn new(inner: &str) -> (r: Self)
        ensures
            r.palette == Palette::OkSolar,
            r.inner@ == inner@,
            r.ops@.len() == 0,
            r@ == inner@,
    {
        Markup { palette: Palette::OkSolar, inner: inner.to_owned(), ops: Vec::new() }
    }

    /// A text without decoration, in the given palette.
    pub fn with_palette(palette: Palette, inner: &str) -> (r: Self)
        ensures
            r.palette == palette,
            r.inner@ == inner@,
            r.ops@.len() == 0,
            r@ == inner@,
    {
        Markup { palette, inner: inner.to_owned(), ops: Vec::new() }
    }

    fn with(self, op: MarkupOp) -> (r: Self)
        ensures
            r.palette == self.palette,
            r.inner == self.inner,
            r.ops@ == self.ops@.push(op),
            r@ == opening(self.palette, op) + self@ + closing(op),
    {
        let mut ops = self.ops;
        let ghost before = ops@;
        ops.push(op);
        assert(ops@.drop_last() =~= before);
        Markup { palette: self.palette, inner: self.inner, ops }
    }

    /// Colors the text.
    pub fn fg(self, color: Color) -> (r: Self)
        ensures
            r.palette == self.palette,
            r.inner == self.inner,
            r.ops@ == self.ops@.push(MarkupOp::Foreground(color)),
            r@ == "%{F#"@ + hex_color(self.palette, color) + "}"@ + self@ + "%{F-}"@,
    {
        self.with(MarkupOp::Foreground(color))
    }

    /// Draws a line under the text.
    pub fn underline(self, color: Color) -> (r: Self)
        ensures
            r.palette == self.palette,
            r.inner == self.inner,
            r.ops@ == self.ops@.push(MarkupOp::Underline(color)),
            r@ == "%{u#"@ + hex_color(self.palette, color) + "}%{+u}"@ + self@ + "%{-u}"@,
    {
        self.with(MarkupOp::Underline(color))
    }

    /// Draws a line over the text.
    pub fn overline(self, color: Color) -> (r: Self)
        ensures
            r.palette == self.palette,
            r.inner == self.inner,
            r.ops@ == self.ops@.push(MarkupOp::Overline(color)),
            r@ == "%{o#"@ + hex_color(self.palette, color) + "}%{+o}"@ + self@ + "%{-o}"@,
    {
        self.with(MarkupOp::Overline(color))
    }

    /// Colors the background of the text.
    pub fn bg(self, color: Color) -> (r: Self)
        ensures
            r.palette == self.palette,
            r.inner == self.inner,
            r.ops@ == self.ops@.push(MarkupOp::Background(color)),
            r@ == "%{b#"@ + hex_color(self.palette, color) + "}"@ + self@ + "%{b-}"@,
    {
        self.with(MarkupOp::Background(color))
    }

    /// Draws the text in the font with the given index.
    pub fn font(self, index: u8) -> (r: Self)
        ensures
            r.palette == self.palette,
            r.inner == self.inner,
            r.ops@ == self.ops@.push(MarkupOp::Font(index)),
            r@ == "%{T"@ + numeral::decimal_text(index as nat) + "}"@ + self@ + "%{T-}"@,
    {
        self.with(MarkupOp::Font(index))
    }

    /// Runs a command on a mouse event over the text.
    pub fn action(self, type_: PolybarActionType, command: &str) -> (r: Self)
        ensures
            r.palette == self.palette,
            r.inner == self.inner,
            r@ == "%{A"@ + numeral::decimal_text(action_number(type_)) + ":"@ + escaped(command@)
                + ":}"@ + self@ + "%{A}"@,
    {
        self.with(MarkupOp::Action { type_, command: command.to_owned() })
    }

    /// The text with its tags.
    pub fn into_string(self) -> (r: String)
        ensures
            r@ == self@,
    {
        let mut r = String::new();
        let n: usize = self.ops.len();
        let mut i: usize = n;
        let ghost ops = self.ops@;
        let ghost inner = self.inner@;
        let palette = self.palette;
        assert(ops.take(n as int) =~= ops);
        assert(r@ + openings(palette, ops) =~= openings(palette, ops));
        while i > 0
            invariant
                n == self.ops.len(),
                ops == self.ops@,
                i <= n,
                r@ + openings(palette, ops.take(i as int)) == openings(palette, ops),
            decreases i,
        {
            assert(ops.take(i as int).drop_last() =~= ops.take(i - 1));
            let ghost before = r@;
            append_opening(&mut r, palette, &self.ops[i - 1]);
            assert(r@ + openings(palette, ops.take(i - 1)) =~= before + openings(
                palette,
                ops.take(i as int),
            ));
            i -= 1;
        }
        assert(r@ =~= openings(palette, ops));
        r.append(self.inner.as_str());
        let ghost front = r@;
        assert(front + closings(ops.take(0)) =~= front);
        while i < n
            invariant
                n == self.ops.len(),
                ops == self.ops@,
                i <= n,
                r@ == front + closings(ops.take(i as int)),
            decreases n - i,
        {
            assert(ops.take(i + 1).drop_last() =~= ops.take(i as int));
            append_closing(&mut r, &self.ops[i]);
            assert(r@ =~= front + closings(ops.take(i + 1)));
            i += 1;
        }
        proof {
            tags_surround(palette, inner, ops);
        }
        r
    }
}

// Decorated texts

/// `s` in a color.
pub open spec fn colored(palette: Palette, s: Seq<char>, color: Color) -> Seq<char> {
    "%{F#"@ + hex_color(palette, color) + "}"@ + s + "%{F-}"@
}

/// `s` over a line.
pub open spec fn underlined(palette: Palette, s: Seq<char>, color: Color) -> Seq<char> {
    "%{u#"@ + hex_color(palette, color) + "}%{+u}"@ + s + "%{-u}"@
}

/// `s` in a color and over a line, as far as these are given; the line stands outside.
pub open spec fn styled(
    palette: Palette,
    s: Seq<char>,
    fg: Option<Color>,
    underline: Option<Color>,
) -> Seq<char> {
    let t = match fg {
        Some(c) => colored(palette, s, c),
        None => s,
    };
    match underline {
        Some(c) => underlined(palette, t, c),
        None => t,
    }
}

/// `s` with a command bound to a mouse event.
pub open spec fn clickable(s: Seq<char>, type_: PolybarActionType, command: Seq<char>) -> Seq<char> {
    "%{A"@ + numeral::decimal_text(action_number(type_)) + ":"@ + escaped(command) + ":}"@ + s
        + "%{A}"@
}

/// Colors and underlines a text.
pub fn style(palette: Palette, s: &str, fg: Option<Color>, underline: Option<Color>) -> (r: String)
    ensures
        r@ == styled(palette, s@, fg, underline),
{
    let mut m = Markup::with_palette(palette, s);
    if let Some(c) = fg {
        m = m.fg(c);
    }
    if let Some(c) = underline {
        m = m.underline(c);
    }
    m.into_string()
}

/// Binds a command to a mouse event over a text.
pub fn action(s: &str, type_: PolybarActionType, command: &str) -> (r: String)
    ensures
        r@ == clickable(s@, type_, command@),
{
    Markup::new(s).action(type_, command).into_string()
}

// Gauges

/// Icon set rendering a fraction, from empty to full.
pub struct Gauge {
    /// Icon of an exactly empty gauge.
    pub empty: String,
    /// Icons between empty and full, in increasing order of fill.
    pub levels: Vec<String>,
    /// Icon of an exactly full gauge.
    pub full: String,
}

/// The icon whose fill is closest to a fraction: only what is not above 0 is empty, and only what
/// is not below 1 is full.
pub open spec fn gauge_icon(gauge: Gauge, frac: Double) -> Seq<char> {
    let level = frac.round_times(3);
    if !frac.is_nan() && !frac.is_above(0, 0) {
        gauge.empty@
    } else if frac.is_at_least(1, 0) {
        gauge.full@
    } else if frac.is_nan() || level < 1 {
        gauge.levels@[0]@
    } else if level > 7 {
        gauge.levels@[6]@
    } else {
        gauge.levels@[level - 1]@
    }
}

impl Gauge {
    /// A gauge has an icon for each eighth between empty and full.
    pub open spec fn wf(&self) -> bool {
        self.levels@.len() == 7
    }

    /// A gauge drawn with circle slices.
    pub fn circle_slices(empty: &str) -> (r: Self)
        ensures
            r.wf(),
            r.empty@ == empty@,
            text::texts(r.levels@) == seq![
                "\u{f0a9e}"@,
                "\u{f0a9f}"@,
                "\u{f0aa0}"@,
                "\u{f0aa1}"@,
                "\u{f0aa2}"@,
                "\u{f0aa3}"@,
                "\u{f0aa4}"@,
            ],
            r.full@ == "\u{f0aa5}"@,
    {
        let mut levels: Vec<String> = Vec::new();
        levels.push("\u{f0a9e}".to_owned());
        levels.push("\u{f0a9f}".to_owned());
        levels.push("\u{f0aa0}".to_owned());
        levels.push("\u{f0aa1}".to_owned());
        levels.push("\u{f0aa2}".to_owned());
        levels.push("\u{f0aa3}".to_owned());
        levels.push("\u{f0aa4}".to_owned());
        Gauge { empty: empty.to_owned(), levels, full: "\u{f0aa5}".to_owned() }
    }

    /// A gauge drawn with vertical bars.
    pub fn ramp() -> (r: Self)
        ensures
            r.wf(),
            r.empty@ == "—"@,
            text::texts(r.levels@) == seq!["▁"@, "▂"@, "▃"@, "▄"@, "▅"@, "▆"@, "▇"@],
            r.full@ == "█"@,
    {
        let mut levels: Vec<String> = Vec::new();
        levels.push("▁".to_owned());
        levels.push("▂".to_owned());
        levels.push("▃".to_owned());
        levels.push("▄".to_owned());
        levels.push("▅".to_owned());
        levels.push("▆".to_owned());
        levels.push("▇".to_owned());
        Gauge { empty: "—".to_owned(), levels, full: "█".to_owned() }
    }

    /// Renders a fraction as the icon whose fill is closest to it.
    pub fn render(&self, frac: Double, color: Color) -> (r: String)
        requires
            self.wf(),
        ensures
            r@ == colored(Palette::OkSolar, gauge_icon(*self, frac), color),
    {
        let icon = if !frac.nan() && !frac.above(0, 0) {
            self.empty.as_str()
        } else if frac.at_least(1, 0) {
            self.full.as_str()
        } else {
            let level: u64 = frac.round_scaled(3);
            let index: usize = if frac.nan() || level < 1 {
                0
            } else if level > 7 {
                6
            } else {
                (level - 1) as usize
            };
            self.levels[index].as_str()
        };
        Markup::new(icon).fg(color).into_string()
    }
}

/// A gauge is drawn empty exactly for what is not above 0, whatever its icons.
pub proof fn gauge_is_empty_only_at_zero(gauge: Gauge, frac: Double)
    requires
        gauge.wf(),
        !frac.is_nan(),
        gauge.empty@ != gauge.full@,
        forall|i: int| 0 <= i < 7 ==> #[trigger] gauge.levels@[i]@ != gauge.empty@,
    ensures
        gauge_icon(gauge, frac) == gauge.empty@ <==> !frac.is_above(0, 0),
{
}

/// Step of a bar of eight for a fraction: the first whose eighth is not below it; the last for
/// what is not a number.
pub open spec fn ramp_step(frac: Double) -> int {
    if frac.is_nan() || frac.is_above(7, 3) {
        8
    } else if frac.is_above(6, 3) {
        7
    } else if frac.is_above(5, 3) {
        6
    } else if frac.is_above(4, 3) {
        5
    } else if frac.is_above(3, 3) {
        4
    } else if frac.is_above(2, 3) {
        3
    } else if frac.is_above(1, 3) {
        2
    } else {
        1
    }
}

pub open spec fn ramp_icon(step: int) -> Seq<char> {
    if step == 1 {
        "▁"@
    } else if step == 2 {
        "▂"@
    } else if step == 3 {
        "▃"@
    } else if step == 4 {
        "▄"@
    } else if step == 5 {
        "▅"@
    } else if step == 6 {
        "▆"@
    } else if step == 7 {
        "▇"@
    } else {
        "█"@
    }
}

/// Renders a fraction as a bar that is at least as high.
pub fn ramp(frac: Double, color: Color) -> (r: String)
    ensures
        r@ == colored(Palette::OkSolar, ramp_icon(ramp_step(frac)), color),
{
    let icon = if frac.nan() || frac.above(7, 3) {
        "█"
    } else if frac.above(6, 3) {
        "▇"
    } else if frac.above(5, 3) {
        "▆"
    } else if frac.above(4, 3) {
        "▅"
    } else if frac.above(3, 3) {
        "▄"
    } else if frac.above(2, 3) {
        "▃"
    } else if frac.above(1, 3) {
        "▂"
    } else {
        "▁"
    };
    Markup::new(icon).fg(color).into_string()
}

/// A backslash is put in front of every colon, and nothing else is changed.
pub proof fn only_colons_are_escaped(a: Seq<char>, b: Seq<char>, c: char)
    ensures
        escaped(a + b) == escaped(a) + escaped(b),
        escaped(seq![':']) == seq!['\\', ':'],
        c != ':' ==> escaped(seq![c]) == seq![c],
    decreases b.len(),
{
    reveal_with_fuel(escaped, 2);
    let e = Seq::<char>::empty();
    assert(seq![c].drop_last() =~= e);
    assert(seq![':'].drop_last() =~= e);
    assert(e.push('\\').push(':') =~= seq!['\\', ':']);
    assert(e.push(c) =~= seq![c]);
    if b.len() == 0 {
        assert(a + b =~= a);
        assert(escaped(a) + escaped(b) =~= escaped(a));
    } else {
        only_colons_are_escaped(a, b.drop_last(), c);
        assert((a + b).drop_last() =~= a + b.drop_last());
        assert(escaped(a + b) =~= escaped(a) + escaped(b));
    }
}

/// A decoration stands around what it decorates, and the last one is the outermost.
pub proof fn decorations_surround(
    palette: Palette,
    inner: Seq<char>,
    ops: Seq<MarkupOp>,
    color: Color,
)
    ensures
        decorated(palette, inner, Seq::empty()) == inner,
        decorated(palette, inner, ops.push(MarkupOp::Foreground(color))) == "%{F#"@ + hex_color(
            palette,
            color,
        ) + "}"@ + decorated(palette, inner, ops) + "%{F-}"@,
        decorated(palette, inner, ops.push(MarkupOp::Underline(color))) == "%{u#"@ + hex_color(
            palette,
            color,
        ) + "}%{+u}"@ + decorated(palette, inner, ops) + "%{-u}"@,
        decorated(palette, inner, ops.push(MarkupOp::Overline(color))) == "%{o#"@ + hex_color(
            palette,
            color,
        ) + "}%{+o}"@ + decorated(palette, inner, ops) + "%{-o}"@,
        decorated(palette, inner, ops.push(MarkupOp::Background(color))) == "%{b#"@ + hex_color(
            palette,
            color,
        ) + "}"@ + decorated(palette, inner, ops) + "%{b-}"@,
{
    assert(ops.push(MarkupOp::Foreground(color)).drop_last() =~= ops);
    assert(ops.push(MarkupOp::Underline(color)).drop_last() =~= ops);
    assert(ops.push(MarkupOp::Overline(color)).drop_last() =~= ops);
    assert(ops.push(MarkupOp::Background(color)).drop_last() =~= ops);
}

/// A font and a command stand around what they decorate; each mouse event has a number of its own,
/// from the left click on.
pub proof fn fonts_and_commands_surround(
    palette: Palette,
    inner: Seq<char>,
    ops: Seq<MarkupOp>,
    font: u8,
    type_: PolybarActionType,
    command: String,
)
    ensures
        decorated(palette, inner, ops.push(MarkupOp::Font(font))) == "%{T"@ + numeral::decimal_text(
            font as nat,
        ) + "}"@ + decorated(palette, inner, ops) + "%{T-}"@,
        decorated(palette, inner, ops.push(MarkupOp::Action { type_, command }))
            == "%{A"@ + numeral::decimal_text(action_number(type_)) + ":"@ + escaped(command@)
            + ":}"@ + decorated(palette, inner, ops) + "%{A}"@,
        action_number(PolybarActionType::ClickLeft) == 1,
        action_number(PolybarActionType::ClickMiddle) == 2,
        action_number(PolybarActionType::ClickRight) == 3,
        action_number(PolybarActionType::ScrollUp) == 4,
        action_number(PolybarActionType::ScrollDown) == 5,
        action_number(PolybarActionType::DoubleClickLeft) == 6,
        action_number(PolybarActionType::DoubleClickMiddle) == 7,
        action_number(PolybarActionType::DoubleClickRight) == 8,
{
    assert(ops.push(MarkupOp::Font(font)).drop_last() =~= ops);
    assert(ops.push(MarkupOp::Action { type_, command }).drop_last() =~= ops);
}

/// A text with a color is the same as one with that decoration, and so is one with a line or with a
/// command; a line stands outside of a color.
pub proof fn styles_are_decorations(palette: Palette, s: Seq<char>, fg: Color, line: Color)
    ensures
        styled(palette, s, None, None) == s,
        styled(palette, s, Some(fg), None) == decorated(
            palette,
            s,
            seq![MarkupOp::Foreground(fg)],
        ),
        styled(palette, s, None, Some(line)) == decorated(
            palette,
            s,
            seq![MarkupOp::Underline(line)],
        ),
        styled(palette, s, Some(fg), Some(line)) == decorated(
            palette,
            s,
            seq![MarkupOp::Foreground(fg), MarkupOp::Underline(line)],
        ),
{
    let e = Seq::<MarkupOp>::empty();
    let f = seq![MarkupOp::Foreground(fg)];
    let u = seq![MarkupOp::Underline(line)];
    decorations_surround(palette, s, e, fg);
    decorations_surround(palette, s, e, line);
    decorations_surround(palette, s, f, line);
    assert(e.push(MarkupOp::Foreground(fg)) =~= f);
    assert(e.push(MarkupOp::Underline(line)) =~= u);
    assert(f.push(MarkupOp::Underline(line)) =~= seq![
        MarkupOp::Foreground(fg),
        MarkupOp::Underline(line),
    ]);
}

/// The step of a bar is the first whose eighth is not below the fraction, and the last where none
/// is.
pub proof fn steps_are_the_next_eighth(frac: Double)
    requires
        !frac.is_nan(),
    ensures
        1 <= ramp_step(frac) <= 8,
        ramp_step(frac) < 8 ==> 8 * frac.units() <= ramp_step(frac) * pow2(1074),
        ramp_step(frac) > 1 ==> 8 * frac.units() > (ramp_step(frac) - 1) * pow2(1074),
{
    lemma2_to64();
    let u = frac.units();
    assert(u * pow2(3) == 8 * u) by (nonlinear_arith)
        requires
            pow2(3) == 8,
    ;
}

/// The bars are the eight blocks of growing height.
pub proof fn bars_are_blocks(step: int)
    requires
        1 <= step <= 8,
    ensures
        ramp_icon(step) == seq!["▁▂▃▄▅▆▇█"@[step - 1]],
{
    reveal_strlit("▁▂▃▄▅▆▇█");
    reveal_strlit("▁");
    reveal_strlit("▂");
    reveal_strlit("▃");
    reveal_strlit("▄");
    reveal_strlit("▅");
    reveal_strlit("▆");
    reveal_strlit("▇");
    reveal_strlit("█");
    assert(ramp_icon(step) =~= seq!["▁▂▃▄▅▆▇█"@[step - 1]]);
}

/// A gauge is full exactly from one on, empty exactly up to zero, and else shows the icon whose
/// eighth is closest to the fraction, of those between empty and full.
pub proof fn gauges_show_the_closest_eighth(gauge: Gauge, frac: Double, k: int)
    requires
        gauge.wf(),
        !frac.is_nan(),
        1 <= k <= 7,
    ensures
        frac.units() <= 0 ==> gauge_icon(gauge, frac) == gauge.empty@,
        frac.units() >= pow2(1074) ==> gauge_icon(gauge, frac) == gauge.full@,
        0 < frac.units() < pow2(1074) && (k == 1 || (2 * k - 1) * pow2(1074) <= 16 * frac.units())
            && (k == 7 || 16 * frac.units() < (2 * k + 1) * pow2(1074)) ==> gauge_icon(gauge, frac)
            == gauge.levels@[k - 1]@,
{
    lemma2_to64();
    lemma_pow2_pos(1074);
    let p = pow2(1074) as int;
    let u = frac.units();
    assert(u * pow2(0) == u) by (nonlinear_arith)
        requires
            pow2(0) == 1,
    ;
    if 0 < u < p {
        let m = frac.magnitude() as int;
        assert(m == u);
        let level = frac.round_times(3) as int;
        assert(2 * frac.magnitude() * pow2(3) == 16 * m) by (nonlinear_arith)
            requires
                pow2(3) == 8,
                m == frac.magnitude(),
        ;
        assert(level == (16 * m + p) / (2 * p));
        assert(2 * p * level <= 16 * m + p < 2 * p * (level + 1)) by (nonlinear_arith)
            requires
                p > 0,
                level == (16 * m + p) / (2 * p),
        ;
        assert(2 * p * level == 2 * (p * level)) by (nonlinear_arith);
        assert(2 * p * (level + 1) == 2 * (p * level) + 2 * p) by (nonlinear_arith);
        if (k == 1 || (2 * k - 1) * p <= 16 * u) && (k == 7 || 16 * u < (2 * k + 1) * p) {
            assert((2 * k - 1) * p == 2 * (p * k) - p) by (nonlinear_arith);
            assert((2 * k + 1) * p == 2 * (p * k) + p) by (nonlinear_arith);
            if k < 7 {
                assert(p * level < p * (k + 1)) by {
                    assert(p * (k + 1) == p * k + p) by (nonlinear_arith);
                }
                assert(level < k + 1) by (nonlinear_arith)
                    requires
                        p > 0,
                        p * level < p * (k + 1),
                ;
            }
            if k > 1 {
                assert(p * (level + 1) > p * k) by {
                    assert(p * (level + 1) == p * level + p) by (nonlinear_arith);
                }
                assert(level + 1 > k) by (nonlinear_arith)
                    requires
                        p > 0,
                        p * (level + 1) > p * k,
                ;
            }
        }
    }
}

/// A text with a command is the same as one with that decoration.
pub proof fn clicks_are_decorations(
    palette: Palette,
    s: Seq<char>,
    type_: PolybarActionType,
    command: String,
)
    ensures
        clickable(s, type_, command@) == decorated(
            palette,
            s,
            seq![MarkupOp::Action { type_, command }],
        ),
{
    let e = Seq::<MarkupOp>::empty();
    fonts_and_commands_surround(palette, s, e, 0, type_, command);
    assert(e.push(MarkupOp::Action { type_, command }) =~= seq![MarkupOp::Action { type_, command }]);
}

}
