//! Memory, clocks, temperature and power of an Nvidia graphics card.

use vstd::prelude::*;

use crate::bytes;
use crate::bytes::ProgramOutput;
use crate::double::Double;
use crate::markup;
use crate::numeral;
use crate::polybar_module::RenderablePolybarModule;
use crate::quotient;
use crate::text;
use crate::theme::{Color, Palette};

verus! {

broadcast use crate::text::texts_push;

pub struct GpuNvidiaModule {}

#[derive(Clone, Copy, Debug, PartialEq, Eq, Structural)]
pub struct GpuNvidiaModuleState {
    pub mem_used: u16,
    pub mem_total: u16,
    pub freq_graphics: u16,
    pub freq_mem: u16,
    pub throttle: bool,
    pub temp: u8,
    pub power_draw: u16,
}

#[derive(Clone, Copy, Debug, PartialEq, Eq, Structural)]
pub enum GpuNvidiaError {
    /// `nvidia-smi` exited with an error.
    ExitStatus,
    /// A field is missing.
    Missing,
    /// A field is no number.
    Number,
}

pub const OVERHEAT_TEMP_THRESHOLD: u8 = 70;

// Reading

/// Fields in a text of `nvidia-smi`.
pub open spec fn fields_in(s: Seq<char>) -> Seq<Seq<char>> {
    let fs = text::fields_of(text::trimmed_end(s), ',');
    Seq::new(fs.len(), |i: int| text::trimmed_start(fs[i]))
}

/// A field as a number of at most `max`.
pub open spec fn number_at(fields: Seq<Seq<char>>, i: int, max: nat) -> Result<nat, GpuNvidiaError> {
    if i >= fields.len() {
        Err(GpuNvidiaError::Missing)
    } else {
        match numeral::unsigned_value(fields[i], max) {
            Some(n) => Ok(n),
            None => Err(GpuNvidiaError::Number),
        }
    }
}

/// State that the fields tell; `power` is the last field read as a number, where it is one. The
/// first field that is wrong decides the error.
pub open spec fn state_in(fields: Seq<Seq<char>>, power: Option<Double>) -> Result<
    GpuNvidiaModuleState,
    GpuNvidiaError,
> {
    match number_at(fields, 0, 65535) {
        Err(e) => Err(e),
        Ok(mem_used) => match number_at(fields, 1, 65535) {
            Err(e) => Err(e),
            Ok(mem_total) => match number_at(fields, 2, 65535) {
                Err(e) => Err(e),
                Ok(freq_graphics) => match number_at(fields, 3, 65535) {
                    Err(e) => Err(e),
                    Ok(freq_mem) => if fields.len() <= 4 {
                        Err(GpuNvidiaError::Missing)
                    } else {
                        match number_at(fields, 5, 255) {
                            Err(e) => Err(e),
                            Ok(temp) => if fields.len() <= 6 {
                                Err(GpuNvidiaError::Missing)
                            } else {
                                match power {
                                    None => Err(GpuNvidiaError::Number),
                                    Some(p) => Ok(
                                        GpuNvidiaModuleState {
                                            mem_used: mem_used as u16,
                                            mem_total: mem_total as u16,
                                            freq_graphics: freq_graphics as u16,
                                            freq_mem: freq_mem as u16,
                                            throttle: fields[4] == "Active"@,
                                            temp: temp as u8,
                                            power_draw: p.truncated_into(0, 65535) as u16,
                                        },
                                    ),
                                }
                            },
                        }
                    },
                },
            },
        },
    }
}

/// Reads the fields in a text of `nvidia-smi`.
pub fn read_fields(s: &str) -> (r: Vec<String>)
    ensures
        text::texts(r@) == fields_in(s@),
{
    let t = text::trim_end(s);
    let parts = text::split(t.as_str(), ',');
    let ghost all = text::fields_of(t@, ',');
    let mut r: Vec<String> = Vec::new();
    let mut i: usize = 0;
    assert(text::texts(r@) =~= fields_in(s@).take(0));
    while i < parts.len()
        invariant
            i <= parts.len(),
            all == text::texts(parts@),
            all == text::fields_of(text::trimmed_end(s@), ','),
            text::texts(r@) == fields_in(s@).take(i as int),
        decreases parts.len() - i,
    {
        assert(all[i as int] == parts[i as int]@);
        r.push(text::trim_start(parts[i].as_str()));
        i += 1;
        assert(fields_in(s@).take(i as int) =~= fields_in(s@).take(i - 1).push(
            fields_in(s@)[i - 1],
        ));
    }
    assert(fields_in(s@).take(i as int) =~= fields_in(s@));
    r
}

fn read_number(fields: &Vec<String>, i: usize, max: u64) -> (r: Result<u64, GpuNvidiaError>)
    ensures
        match (r, number_at(text::texts(fields@), i as int, max as nat)) {
            (Ok(a), Ok(b)) => a == b && a <= max,
            (Err(a), Err(b)) => a == b,
            _ => false,
        },
{
    assert(text::texts(fields@).len() == fields.len());
    if i >= fields.len() {
        Err(GpuNvidiaError::Missing)
    } else {
        assert(text::texts(fields@)[i as int] == fields[i as int]@);
        match numeral::parse_unsigned(fields[i].as_str(), max) {
            Some(n) => Ok(n),
            None => Err(GpuNvidiaError::Number),
        }
    }
}

impl GpuNvidiaModule {
    pub fn new() -> Self {
        GpuNvidiaModule {  }
    }

    /// State from the fields; `power` is the last of them read as a number, where it is one.
    pub fn read_state(fields: &Vec<String>, power: Option<Double>) -> (r: Result<
        GpuNvidiaModuleState,
        GpuNvidiaError,
    >)
        ensures
            r == state_in(text::texts(fields@), power),
    {
        assert(text::texts(fields@).len() == fields.len());
        let mem_used: u64 = match read_number(fields, 0, 65535) {
            Ok(n) => n,
            Err(e) => {
                return Err(e);
            },
        };
        let mem_total: u64 = match read_number(fields, 1, 65535) {
            Ok(n) => n,
            Err(e) => {
                return Err(e);
            },
        };
        let freq_graphics: u64 = match read_number(fields, 2, 65535) {
            Ok(n) => n,
            Err(e) => {
                return Err(e);
            },
        };
        let freq_mem: u64 = match read_number(fields, 3, 65535) {
            Ok(n) => n,
            Err(e) => {
                return Err(e);
            },
        };
        if fields.len() <= 4 {
            return Err(GpuNvidiaError::Missing);
        }
        assert(text::texts(fields@)[4] == fields[4]@);
        let throttle = text::same(fields[4].as_str(), "Active");
        let temp: u64 = match read_number(fields, 5, 255) {
            Ok(n) => n,
            Err(e) => {
                return Err(e);
            },
        };
        if fields.len() <= 6 {
            return Err(GpuNvidiaError::Missing);
        }
        match power {
            None => Err(GpuNvidiaError::Number),
            Some(p) => Ok(
                GpuNvidiaModuleState {
                    mem_used: mem_used as u16,
                    mem_total: mem_total as u16,
                    freq_graphics: freq_graphics as u16,
                    freq_mem: freq_mem as u16,
                    throttle,
                    temp: temp as u8,
                    power_draw: p.truncate_into(0, 65535) as u16,
                },
            ),
        }
    }

    /// The field with the power, which is a number with a fraction.
    pub fn power_field(out: &ProgramOutput) -> (r: Option<String>)
        ensures
            ({
                let fields = fields_in(bytes::lossy_text(out.stdout@));
                match r {
                    Some(s) => out.success && fields.len() > 6 && s@ == fields[6],
                    None => !out.success || fields.len() <= 6,
                }
            }),
    {
        if !out.success {
            return None;
        }
        let s = bytes::from_utf8_lossy(out.stdout.as_slice());
        let fields = read_fields(s.as_str());
        assert(text::texts(fields@).len() == fields.len());
        if fields.len() > 6 {
            assert(text::texts(fields@)[6] == fields[6]@);
            Some(fields[6].clone())
        } else {
            None
        }
    }

    /// State from what `nvidia-smi` left; `power` is the field with the power read as a number,
    /// where it is one.
    pub fn try_update(&self, out: &ProgramOutput, power: Option<Double>) -> (r: Result<
        GpuNvidiaModuleState,
        GpuNvidiaError,
    >)
        ensures
            r == if out.success {
                state_in(fields_in(bytes::lossy_text(out.stdout@)), power)
            } else {
                Err(GpuNvidiaError::ExitStatus)
            },
    {
        if !out.success {
            return Err(GpuNvidiaError::ExitStatus);
        }
        let s = bytes::from_utf8_lossy(out.stdout.as_slice());
        let fields = read_fields(s.as_str());
        Self::read_state(&fields, power)
    }

    /// Bar for a percentage.
    pub fn ramp_prct(prct: u8) -> (r: String)
        ensures
            r@ == markup::styled(
                Palette::SolarizedDark,
                bar_icon(bar_level(prct)),
                Some(bar_color(bar_level(prct))),
                None,
            ),
    {
        let (icon, color) = if prct <= 12 {
            ("▁", Color::Good)
        } else if prct <= 24 {
            ("▂", Color::Good)
        } else if prct <= 36 {
            ("▃", Color::Good)
        } else if prct <= 48 {
            ("▄", Color::Notice)
        } else if prct <= 60 {
            ("▅", Color::Notice)
        } else if prct <= 72 {
            ("▆", Color::Attention)
        } else if prct <= 84 {
            ("▇", Color::Attention)
        } else {
            ("█", Color::Critical)
        };
        markup::style(Palette::SolarizedDark, icon, Some(color), None)
    }
}

// Rendering

/// Level of a bar, of which each step stands for twelve percent and the last for the rest.
pub open spec fn bar_level(prct: u8) -> int {
    if prct == 0 {
        0
    } else if (prct - 1) / 12 > 7 {
        7
    } else {
        (prct - 1) / 12
    }
}

pub open spec fn bar_icon(level: int) -> Seq<char> {
    if level == 0 {
        "▁"@
    } else if level == 1 {
        "▂"@
    } else if level == 2 {
        "▃"@
    } else if level == 3 {
        "▄"@
    } else if level == 4 {
        "▅"@
    } else if level == 5 {
        "▆"@
    } else if level == 6 {
        "▇"@
    } else {
        "█"@
    }
}

pub open spec fn bar_color(level: int) -> Color {
    if level < 3 {
        Color::Good
    } else if level < 5 {
        Color::Notice
    } else if level < 7 {
        Color::Attention
    } else {
        Color::Critical
    }
}

/// A higher percentage never has a lower bar.
pub proof fn bars_grow(a: u8, b: u8)
    requires
        a <= b,
    ensures
        bar_level(a) <= bar_level(b),
{
}

/// Percentage of the memory that is used, in single precision: as text, and as a whole number of
/// at most 255. Without any memory it is infinite, or no number.
pub open spec fn memory_percent(state: GpuNvidiaModuleState) -> (Seq<char>, u8) {
    let a = 100 * state.mem_used as nat;
    let b = state.mem_total as nat;
    if b == 0 {
        if a == 0 {
            ("NaN"@, 0)
        } else {
            ("inf"@, 255)
        }
    } else {
        let whole = quotient::whole_single(a, b);
        (
            numeral::decimal_text(quotient::rounded_single(a, b)),
            if whole > 255 {
                255
            } else {
                whole as u8
            },
        )
    }
}

pub open spec fn temp_text(state: GpuNvidiaModuleState) -> Seq<char> {
    let t = numeral::decimal_text(state.temp as nat) + "°C"@;
    if state.throttle || state.temp >= OVERHEAT_TEMP_THRESHOLD {
        markup::styled(
            Palette::SolarizedDark,
            t,
            Some(Color::Critical),
            Some(Color::Critical),
        )
    } else {
        t
    }
}

pub open spec fn state_text(state: GpuNvidiaModuleState) -> Seq<char> {
    let level = bar_level(memory_percent(state).1);
    markup::styled(Palette::SolarizedDark, "\u{e999}"@, Some(Color::MainIcon), None) + " "@
        + text::right_aligned(memory_percent(state).0, 2) + "% "@ + markup::styled(
        Palette::SolarizedDark,
        bar_icon(level),
        Some(bar_color(level)),
        None,
    ) + " "@ + text::right_aligned(numeral::decimal_text(state.freq_graphics as nat), 4) + "+"@
        + text::right_aligned(numeral::decimal_text(state.freq_mem as nat), 4) + "MHz "@
        + temp_text(state) + " "@ + text::right_aligned(
        numeral::decimal_text(state.power_draw as nat),
        3,
    ) + "W"@
}

fn write_aligned(n: u64, width: usize) -> (r: String)
    ensures
        r@ == text::right_aligned(numeral::decimal_text(n as nat), width as nat),
{
    let d = numeral::decimal(n);
    text::align_right(d.as_str(), width)
}

fn write_temp(state: &GpuNvidiaModuleState) -> (r: String)
    ensures
        r@ == temp_text(*state),
{
    let mut t = numeral::decimal(state.temp as u64);
    t.append("°C");
    if state.throttle || state.temp >= OVERHEAT_TEMP_THRESHOLD {
        markup::style(
            Palette::SolarizedDark,
            t.as_str(),
            Some(Color::Critical),
            Some(Color::Critical),
        )
    } else {
        t
    }
}

fn write_percent(state: &GpuNvidiaModuleState) -> (r: (String, u8))
    ensures
        r.0@ == memory_percent(*state).0,
        r.1 == memory_percent(*state).1,
{
    let a: u32 = 100 * state.mem_used as u32;
    if state.mem_total == 0 {
        if a == 0 {
            ("NaN".to_owned(), 0)
        } else {
            ("inf".to_owned(), 255)
        }
    } else {
        let (rounded, whole) = quotient::single(a, state.mem_total as u32);
        let byte: u8 = if whole > 255 {
            255
        } else {
            whole as u8
        };
        (numeral::decimal(rounded), byte)
    }
}

impl RenderablePolybarModule for GpuNvidiaModule {
    type State = Option<GpuNvidiaModuleState>;

    open spec fn renderable(&self, state: &Option<GpuNvidiaModuleState>) -> bool {
        true
    }

    open spec fn rendered(&self, state: &Option<GpuNvidiaModuleState>) -> Seq<char> {
        match state {
            Some(s) => state_text(*s),
            None => markup::styled(
                Palette::SolarizedDark,
                "\u{e904}"@,
                Some(Color::Attention),
                None,
            ),
        }
    }

    fn can_render(&self, state: &Option<GpuNvidiaModuleState>) -> (r: bool) {
        true
    }

    fn render(&self, state: &Option<GpuNvidiaModuleState>) -> (r: String) {
        match state {
            Some(s) => {
                let mut r = markup::style(
                    Palette::SolarizedDark,
                    "\u{e999}",
                    Some(Color::MainIcon),
                    None,
                );
                r.append(" ");
                let (percent, byte) = write_percent(s);
                let p = text::align_right(percent.as_str(), 2);
                r.append(p.as_str());
                r.append("% ");
                let bar = Self::ramp_prct(byte);
                r.append(bar.as_str());
                r.append(" ");
                let graphics = write_aligned(s.freq_graphics as u64, 4);
                r.append(graphics.as_str());
                r.append("+");
                let mem = write_aligned(s.freq_mem as u64, 4);
                r.append(mem.as_str());
                r.append("MHz ");
                let temp = write_temp(s);
                r.append(temp.as_str());
                r.append(" ");
                let power = write_aligned(s.power_draw as u64, 3);
                r.append(power.as_str());
                r.append("W");
                r
            },
            None => markup::style(
                Palette::SolarizedDark,
                "\u{e904}",
                Some(Color::Attention),
                None,
            ),
        }
    }
}

// What the fields stand for

/// Commas separate the fields, without the white space in front of each; that at the end of the
/// text is dropped.
pub proof fn commas_separate_fields(a: Seq<char>, b: Seq<char>)
    requires
        b.len() > 0,
        !text::is_space(b.last()),
    ensures
        fields_in(a + seq![','] + b) == fields_in_whole(a) + fields_in(b),
        fields_in(b.push('\n')) == fields_in(b),
        !b.contains(',') ==> fields_in(b) == seq![text::trimmed_start(b)],
{
    let s = a + seq![','] + b;
    assert(s.last() == b.last());
    text::white_space_is_cut_off(b, '\n');
    text::fields_of_both(a, b, ',');
    assert(fields_in(s) =~= fields_in_whole(a) + fields_in(b));
    if !b.contains(',') {
        text::whole_is_a_field(b, ',');
        assert(fields_in(b) =~= seq![text::trimmed_start(b)]);
    }
}

/// Fields of a text whose white space at the end counts.
pub open spec fn fields_in_whole(s: Seq<char>) -> Seq<Seq<char>> {
    let fs = text::fields_of(s, ',');
    Seq::new(fs.len(), |i: int| text::trimmed_start(fs[i]))
}

/// Seven fields tell, in this order: the memory that is used and all of it, the clock and that of the
/// memory, whether it is slowed down, the temperature, and the power.
pub proof fn fields_stand_in_order(
    used: u16,
    total: u16,
    graphics: u16,
    memory: u16,
    throttle: Seq<char>,
    temp: u8,
    last: Seq<char>,
    power: Double,
)
    ensures
        state_in(
            seq![
                numeral::decimal_text(used as nat),
                numeral::decimal_text(total as nat),
                numeral::decimal_text(graphics as nat),
                numeral::decimal_text(memory as nat),
                throttle,
                numeral::decimal_text(temp as nat),
                last,
            ],
            Some(power),
        ) == Ok::<_, GpuNvidiaError>(
            GpuNvidiaModuleState {
                mem_used: used,
                mem_total: total,
                freq_graphics: graphics,
                freq_mem: memory,
                throttle: throttle == "Active"@,
                temp,
                power_draw: power.truncated_into(0, 65535) as u16,
            },
        ),
{
    numeral::decimal_reads_back(used as nat);
    numeral::decimal_reads_back(total as nat);
    numeral::decimal_reads_back(graphics as nat);
    numeral::decimal_reads_back(memory as nat);
    numeral::decimal_reads_back(temp as nat);
}

/// Fewer than seven fields are never enough.
pub proof fn seven_fields_are_needed(fields: Seq<Seq<char>>, power: Option<Double>)
    ensures
        fields.len() < 7 ==> state_in(fields, power) is Err,
        fields.len() == 0 ==> state_in(fields, power) == Err::<GpuNvidiaModuleState, _>(
            GpuNvidiaError::Missing,
        ),
        power is None ==> state_in(fields, power) is Err,
{
}

/// Each step of the bar stands for twelve percent, but for the last, which stands for all the rest.
pub proof fn steps_are_equal(prct: u8)
    ensures
        0 <= bar_level(prct) <= 7,
        prct > 0 ==> 12 * bar_level(prct) < prct,
        bar_level(prct) < 7 ==> prct <= 12 * (bar_level(prct) + 1),
        bar_level(0) == 0,
{
}

/// The bars are the eight blocks of growing height, in four colors.
pub proof fn bars_are_blocks(level: int)
    requires
        0 <= level < 8,
    ensures
        bar_icon(level) == seq!["▁▂▃▄▅▆▇█"@[level]],
        bar_color(level) == seq![
            Color::Good,
            Color::Good,
            Color::Good,
            Color::Notice,
            Color::Notice,
            Color::Attention,
            Color::Attention,
            Color::Critical,
        ][level],
{
    reveal_strlit("▁▂▃▄▅▆▇█");
    reveal_strlit("▁");
    reveal_strlit("▂");
    reveal_strlit("▃");
    reveal_strlit("▄");
    reveal_strlit("▅");
    reveal_strlit("▆");
    reveal_strlit("▇");
    reveal_strlit("█");
    assert(bar_icon(level) =~= seq!["▁▂▃▄▅▆▇█"@[level]]);
}

/// The temperature is marked exactly if it is 70 or more, or if the device is slowed down.
pub proof fn heat_is_marked(state: GpuNvidiaModuleState)
    ensures
        temp_text(state) == if state.throttle || state.temp >= 70 {
            markup::underlined(
                Palette::SolarizedDark,
                markup::colored(
                    Palette::SolarizedDark,
                    numeral::decimal_text(state.temp as nat) + "°C"@,
                    Color::Critical,
                ),
                Color::Critical,
            )
        } else {
            numeral::decimal_text(state.temp as nat) + "°C"@
        },
{
}

/// Without any memory there is no percentage.
pub proof fn no_memory_has_no_percentage(state: GpuNvidiaModuleState)
    requires
        state.mem_total == 0,
    ensures
        memory_percent(state) == if state.mem_used == 0 {
            ("NaN"@, 0u8)
        } else {
            ("inf"@, 255u8)
        },
{
}

/// A state is read only from numbers that its fields can hold.
pub proof fn figures_fit_their_fields(fields: Seq<Seq<char>>, power: Option<Double>)
    requires
        state_in(fields, power) is Ok,
    ensures
        numeral::unsigned_value(fields[0], 65535) is Some,
        numeral::unsigned_value(fields[1], 65535) is Some,
        numeral::unsigned_value(fields[2], 65535) is Some,
        numeral::unsigned_value(fields[3], 65535) is Some,
        numeral::unsigned_value(fields[5], 255) is Some,
        ({
            let s = state_in(fields, power)->Ok_0;
            &&& numeral::unsigned_value(fields[0], 65535) == Some(s.mem_used as nat)
            &&& numeral::unsigned_value(fields[1], 65535) == Some(s.mem_total as nat)
            &&& numeral::unsigned_value(fields[2], 65535) == Some(s.freq_graphics as nat)
            &&& numeral::unsigned_value(fields[3], 65535) == Some(s.freq_mem as nat)
            &&& numeral::unsigned_value(fields[5], 255) == Some(s.temp as nat)
            &&& s.throttle == (fields[4] == "Active"@)
        }),
{
    numeral::other_texts_are_no_numbers(fields[0], 65535, 0);
    numeral::other_texts_are_no_numbers(fields[1], 65535, 0);
    numeral::other_texts_are_no_numbers(fields[2], 65535, 0);
    numeral::other_texts_are_no_numbers(fields[3], 65535, 0);
    numeral::other_texts_are_no_numbers(fields[5], 255, 0);
}

}
