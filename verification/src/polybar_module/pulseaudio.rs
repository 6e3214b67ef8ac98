//! Audio sources and sinks of PulseAudio.

use vstd::prelude::*;

use crate::bytes;
use crate::bytes::ProgramOutput;
use crate::markup;
use crate::markup::PolybarActionType;
use crate::numeral;
use crate::polybar_module::RenderablePolybarModule;
use crate::text;
use crate::theme::{Color, Palette};
use crate::views;

verus! {

broadcast use {crate::text::texts_push, crate::views::views_push};

/// An audio device.
#[derive(Debug, PartialEq, Eq)]
pub struct PulseAudioDevice {
    pub id: u32,
    pub name: String,
    pub running: bool,
}

pub type PulseAudioSource = PulseAudioDevice;

pub type PulseAudioSink = PulseAudioDevice;

impl View for PulseAudioDevice {
    type V = (u32, Seq<char>, bool);

    open spec fn view(&self) -> (u32, Seq<char>, bool) {
        (self.id, self.name@, self.running)
    }
}

#[derive(Debug, PartialEq, Eq)]
pub struct PulseAudioModuleState {
    pub sources: Vec<PulseAudioSource>,
    pub sinks: Vec<PulseAudioSink>,
    pub easyeffects: Option<bool>,
}

#[derive(Clone, Copy, Debug, PartialEq, Eq, Structural)]
pub enum PulseAudioError {
    /// `pactl` exited with an error.
    ExitStatus,
    /// The output is not UTF-8.
    Encoding,
    /// A device has no number.
    Id,
    /// A device has no state.
    State,
    /// A device has no name.
    Name,
}

/// Which list of devices is read.
#[derive(Clone, Copy, Debug, PartialEq, Eq, Structural)]
pub enum DeviceKind {
    Source,
    Sink,
}

// Abbreviation

/// The longest word, in bytes; the last one of equally long ones.
pub open spec fn longest(words: Seq<Seq<char>>) -> Seq<char>
    decreases words.len(),
{
    if words.len() <= 1 {
        words[0]
    } else {
        let l = longest(words.drop_last());
        if text::byte_len(words.last()) >= text::byte_len(l) {
            words.last()
        } else {
            l
        }
    }
}

pub open spec fn longest_word(s: Seq<char>) -> Seq<char> {
    longest(text::fields_of(s, ' '))
}

/// Where the longest word is cut.
pub open spec fn abbrev_len(max_len: usize) -> nat {
    if max_len > 1 {
        (max_len - 1) as nat
    } else {
        1
    }
}

/// Whether the longest word of `s` can be cut to `max_len` bytes.
pub open spec fn can_abbrev(s: Seq<char>, max_len: usize) -> bool {
    &&& max_len >= 1
    &&& text::byte_len(longest_word(s)) > max_len ==> text::can_truncate(
        longest_word(s),
        abbrev_len(max_len),
    )
}

/// The longest word of `s`, cut to `max_len` bytes, with an ellipsis where there is room for one.
pub open spec fn abbreviated(s: Seq<char>, max_len: usize) -> Seq<char> {
    let w = longest_word(s);
    if text::byte_len(w) <= max_len {
        w
    } else if max_len > 1 {
        text::truncated(w, abbrev_len(max_len)).push('…')
    } else {
        text::truncated(w, abbrev_len(max_len))
    }
}

fn find_longest(s: &str) -> (r: String)
    ensures
        r@ == longest_word(s@),
{
    let words = text::split(s, ' ');
    let ghost all = text::texts(words@);
    let mut best: usize = 0;
    let mut i: usize = 1;
    assert(all.take(1)[0] == words[0]@);
    while i < words.len()
        invariant
            1 <= i <= words.len(),
            best < i,
            all == text::texts(words@),
            words[best as int]@ == longest(all.take(i as int)),
        decreases words.len() - i,
    {
        assert(all.take(i + 1).drop_last() =~= all.take(i as int));
        assert(all.take(i + 1).last() == words[i as int]@);
        if text::len_bytes(words[i].as_str()) >= text::len_bytes(words[best].as_str()) {
            best = i;
        }
        i += 1;
    }
    assert(all.take(i as int) =~= all);
    words[best].clone()
}

/// Number at the end of the line that starts a device.
pub open spec fn device_id(line: Seq<char>) -> Option<nat> {
    numeral::unsigned_value(text::fields_of(line, '#').last(), u32::MAX as nat)
}

/// The first line that starts with one of three texts.
pub open spec fn first_with(
    lines: Seq<Seq<char>>,
    a: Seq<char>,
    b: Seq<char>,
    c: Seq<char>,
) -> Option<Seq<char>>
    decreases lines.len(),
{
    if lines.len() == 0 {
        None
    } else if text::has_prefix(lines[0], a) || text::has_prefix(lines[0], b) || text::has_prefix(
        lines[0],
        c,
    ) {
        Some(lines[0])
    } else {
        first_with(lines.skip(1), a, b, c)
    }
}

/// Whether the first line that starts with `key` ends with `value`.
pub open spec fn property_is(lines: Seq<Seq<char>>, key: Seq<char>, value: Seq<char>) -> bool {
    match first_with(lines, key, key, key) {
        Some(l) => text::has_suffix(l, value),
        None => false,
    }
}

/// Whether the lines describe a real device.
pub open spec fn is_device(lines: Seq<Seq<char>>, kind: DeviceKind) -> bool {
    ||| property_is(lines, "device.class = "@, "\"sound\""@)
    ||| property_is(
        lines,
        "media.class = "@,
        match kind {
            DeviceKind::Source => "\"Audio/Source\""@,
            DeviceKind::Sink => "\"Audio/Sink\""@,
        },
    )
}

/// The line that holds the name of a device.
pub open spec fn name_line(lines: Seq<Seq<char>>) -> Option<Seq<char>> {
    first_with(lines, "alsa.card_name = "@, "bluez.alias = "@, "device.alias = "@)
}

/// Text between the first two quotes of a line, or behind the only one.
pub open spec fn quoted(line: Seq<char>) -> Option<Seq<char>> {
    let parts = text::fields_of(line, '"');
    if parts.len() > 1 {
        Some(parts[1])
    } else {
        None
    }
}

/// Device that the lines of one block describe, with its full name: none where it is not a real
/// one. A sink without a name is passed over, a source without one is an error.
pub open spec fn device_of(lines: Seq<Seq<char>>, kind: DeviceKind) -> Result<
    Option<(u32, Seq<char>, bool)>,
    PulseAudioError,
> {
    match device_id(lines[0]) {
        None => Err(PulseAudioError::Id),
        Some(id) => match first_with(lines, "State: "@, "State: "@, "State: "@) {
            None => Err(PulseAudioError::State),
            Some(state) => if !is_device(lines, kind) {
                Ok(None)
            } else {
                match name_line(lines) {
                    None => match kind {
                        DeviceKind::Source => Err(PulseAudioError::Name),
                        DeviceKind::Sink => Ok(None),
                    },
                    Some(l) => match quoted(l) {
                        None => Err(PulseAudioError::Name),
                        Some(name) => Ok(
                            Some((id as u32, name, text::has_suffix(state, "RUNNING"@))),
                        ),
                    },
                }
            },
        },
    }
}

/// Number of lines in front of the first empty one.
pub open spec fn leading_nonempty(lines: Seq<Seq<char>>) -> int
    decreases lines.len(),
{
    if lines.len() == 0 || lines[0].len() == 0 {
        0
    } else {
        1 + leading_nonempty(lines.skip(1))
    }
}

/// Blocks of lines that start with a header and go up to the next empty line.
pub open spec fn blocks(lines: Seq<Seq<char>>, header: Seq<char>) -> Seq<Seq<Seq<char>>>
    decreases lines.len(),
{
    if lines.len() == 0 {
        Seq::empty()
    } else if !text::has_prefix(lines[0], header) {
        blocks(lines.skip(1), header)
    } else {
        let n = 1 + leading_nonempty(lines.skip(1));
        seq![lines.take(n)] + if 0 < n <= lines.len() {
            blocks(lines.skip(n), header)
        } else {
            Seq::empty()
        }
    }
}

/// Devices of the blocks up to the first that cannot be read, and the error of that one.
pub open spec fn collected(bs: Seq<Seq<Seq<char>>>, kind: DeviceKind) -> (
    Seq<(u32, Seq<char>, bool)>,
    Option<PulseAudioError>,
)
    decreases bs.len(),
{
    if bs.len() == 0 {
        (Seq::empty(), None)
    } else {
        let (devices, error) = collected(bs.drop_last(), kind);
        if error is Some {
            (devices, error)
        } else {
            match device_of(bs.last(), kind) {
                Err(e) => (devices, Some(e)),
                Ok(None) => (devices, None),
                Ok(Some(d)) => (devices.push(d), None),
            }
        }
    }
}

pub open spec fn header_of(kind: DeviceKind) -> Seq<char> {
    match kind {
        DeviceKind::Source => "Source #"@,
        DeviceKind::Sink => "Sink #"@,
    }
}

/// Lines of the output, without white space around them.
pub open spec fn trimmed_lines(s: Seq<char>) -> Seq<Seq<char>> {
    let ls = text::line_seq(s);
    Seq::new(ls.len(), |i: int| text::trimmed(ls[i]))
}

pub open spec fn listing(s: Seq<char>, kind: DeviceKind) -> (
    Seq<(u32, Seq<char>, bool)>,
    Option<PulseAudioError>,
) {
    collected(blocks(trimmed_lines(s), header_of(kind)), kind)
}

/// Whether the names of all devices that are read can be abbreviated to one letter.
pub open spec fn names_fit(devices: Seq<(u32, Seq<char>, bool)>) -> bool {
    forall|i: int| 0 <= i < devices.len() ==> can_abbrev((#[trigger] devices[i]).1, 1)
}

pub open spec fn with_short_names(devices: Seq<(u32, Seq<char>, bool)>) -> Seq<
    (u32, Seq<char>, bool),
> {
    Seq::new(
        devices.len(),
        |i: int| (devices[i].0, abbreviated(devices[i].1, 1), devices[i].2),
    )
}

/// Devices that an output of `pactl list` describes.
pub open spec fn devices_in(out: ProgramOutput, kind: DeviceKind) -> Result<
    Seq<(u32, Seq<char>, bool)>,
    PulseAudioError,
> {
    if !out.success {
        Err(PulseAudioError::ExitStatus)
    } else if !vstd::utf8::valid_utf8(out.stdout@) {
        Err(PulseAudioError::Encoding)
    } else {
        let (devices, error) = listing(vstd::utf8::decode_utf8(out.stdout@), kind);
        match error {
            Some(e) => Err(e),
            None => Ok(with_short_names(devices)),
        }
    }
}

/// Whether the names in an output of `pactl list` can be abbreviated.
pub open spec fn output_fits(out: ProgramOutput, kind: DeviceKind) -> bool {
    out.success && vstd::utf8::valid_utf8(out.stdout@) ==> names_fit(
        listing(vstd::utf8::decode_utf8(out.stdout@), kind).0,
    )
}

// Reading a listing

proof fn collected_grows(bs: Seq<Seq<Seq<char>>>, k: int, kind: DeviceKind)
    requires
        0 <= k <= bs.len(),
    ensures
        ({
            let a = collected(bs.take(k), kind);
            let b = collected(bs, kind);
            &&& a.0.len() <= b.0.len()
            &&& a.0 == b.0.take(a.0.len() as int)
            &&& a.1 is Some ==> a == b
        }),
    decreases bs.len() - k,
{
    if k < bs.len() {
        assert(bs.take(k + 1).drop_last() =~= bs.take(k));
        collected_grows(bs, k + 1, kind);
        let a = collected(bs.take(k), kind).0;
        let m = collected(bs.take(k + 1), kind).0;
        let b = collected(bs, kind).0;
        assert(m.take(a.len() as int) =~= a);
        assert(b.take(a.len() as int) =~= b.take(m.len() as int).take(a.len() as int));
    } else {
        assert(bs.take(k) =~= bs);
        let b = collected(bs, kind).0;
        assert(b.take(b.len() as int) =~= b);
    }
}

fn find_with(lines: &Vec<String>, from: usize, to: usize, a: &str, b: &str, c: &str) -> (r: Option<
    usize,
>)
    requires
        from <= to <= lines.len(),
    ensures
        match r {
            Some(i) => from <= i < to && first_with(
                text::texts(lines@).subrange(from as int, to as int),
                a@,
                b@,
                c@,
            ) == Some(lines[i as int]@),
            None => first_with(
                text::texts(lines@).subrange(from as int, to as int),
                a@,
                b@,
                c@,
            ) is None,
        },
{
    let ghost all = text::texts(lines@);
    let ghost whole = all.subrange(from as int, to as int);
    let mut i: usize = from;
    while i < to
        invariant
            from <= i <= to <= lines.len(),
            all == text::texts(lines@),
            whole == all.subrange(from as int, to as int),
            first_with(whole, a@, b@, c@) == first_with(
                all.subrange(i as int, to as int),
                a@,
                b@,
                c@,
            ),
        decreases to - i,
    {
        let l = lines[i].as_str();
        let ghost rest = all.subrange(i as int, to as int);
        assert(rest[0] == l@);
        assert(rest.skip(1) =~= all.subrange(i + 1, to as int));
        if text::starts_with(l, a) || text::starts_with(l, b) || text::starts_with(l, c) {
            return Some(i);
        }
        i += 1;
    }
    assert(all.subrange(i as int, to as int).len() == 0);
    None
}

fn check_property(lines: &Vec<String>, from: usize, to: usize, key: &str, value: &str) -> (r: bool)
    requires
        from <= to <= lines.len(),
    ensures
        r == property_is(text::texts(lines@).subrange(from as int, to as int), key@, value@),
{
    match find_with(lines, from, to, key, key, key) {
        Some(i) => text::ends_with(lines[i].as_str(), value),
        None => false,
    }
}

fn read_device(lines: &Vec<String>, from: usize, to: usize, kind: DeviceKind) -> (r: Result<
    Option<PulseAudioDevice>,
    PulseAudioError,
>)
    requires
        from < to <= lines.len(),
    ensures
        match (r, device_of(text::texts(lines@).subrange(from as int, to as int), kind)) {
            (Ok(a), Ok(b)) => views::option_view(a) == b,
            (Err(a), Err(b)) => a == b,
            _ => false,
        },
{
    let ghost block = text::texts(lines@).subrange(from as int, to as int);
    assert(block[0] == lines[from as int]@);
    let parts = text::split(lines[from].as_str(), '#');
    let n: usize = parts.len();
    assert(text::texts(parts@).last() == parts[n - 1]@);
    let id = match numeral::parse_unsigned(parts[n - 1].as_str(), u32::MAX as u64) {
        None => {
            return Err(PulseAudioError::Id);
        },
        Some(id) => id as u32,
    };
    let running = match find_with(lines, from, to, "State: ", "State: ", "State: ") {
        None => {
            return Err(PulseAudioError::State);
        },
        Some(i) => text::ends_with(lines[i].as_str(), "RUNNING"),
    };
    let class = match kind {
        DeviceKind::Source => "\"Audio/Source\"",
        DeviceKind::Sink => "\"Audio/Sink\"",
    };
    if !check_property(lines, from, to, "device.class = ", "\"sound\"") && !check_property(
        lines,
        from,
        to,
        "media.class = ",
        class,
    ) {
        return Ok(None);
    }
    match find_with(lines, from, to, "alsa.card_name = ", "bluez.alias = ", "device.alias = ") {
        None => match kind {
            DeviceKind::Source => Err(PulseAudioError::Name),
            DeviceKind::Sink => Ok(None),
        },
        Some(i) => {
            let quotes = text::split(lines[i].as_str(), '"');
            if quotes.len() > 1 {
                assert(text::texts(quotes@)[1] == quotes[1]@);
                Ok(Some(PulseAudioDevice { id, name: quotes[1].clone(), running }))
            } else {
                Err(PulseAudioError::Name)
            }
        },
    }
}

fn next_block(lines: &Vec<String>, header: &str, from: usize) -> (r: Option<(usize, usize)>)
    requires
        from <= lines.len(),
    ensures
        match r {
            None => blocks(text::texts(lines@).skip(from as int), header@) =~= Seq::empty(),
            Some((a, b)) => {
                &&& from <= a < b <= lines.len()
                &&& blocks(text::texts(lines@).skip(from as int), header@) =~= seq![
                    text::texts(lines@).subrange(a as int, b as int),
                ] + blocks(text::texts(lines@).skip(b as int), header@)
            },
        },
{
    let ghost all = text::texts(lines@);
    let mut a: usize = from;
    while a < lines.len() && !text::starts_with(lines[a].as_str(), header)
        invariant
            from <= a <= lines.len(),
            all == text::texts(lines@),
            blocks(all.skip(from as int), header@) == blocks(all.skip(a as int), header@),
        decreases lines.len() - a,
    {
        assert(all.skip(a as int)[0] == lines[a as int]@);
        assert(all.skip(a as int).skip(1) =~= all.skip(a + 1));
        a += 1;
    }
    if a >= lines.len() {
        return None;
    }
    let ghost rest = all.skip(a as int);
    assert(rest[0] == lines[a as int]@);
    assert(rest.skip(1) =~= all.skip(a + 1));
    let mut b: usize = a + 1;
    while b < lines.len() && !lines[b].as_str().is_empty()
        invariant
            a < b <= lines.len(),
            all == text::texts(lines@),
            leading_nonempty(all.skip(a + 1)) == (b - a - 1) + leading_nonempty(
                all.skip(b as int),
            ),
        decreases lines.len() - b,
    {
        assert(all.skip(b as int)[0] == lines[b as int]@);
        assert(all.skip(b as int).skip(1) =~= all.skip(b + 1));
        b += 1;
    }
    if b < lines.len() {
        assert(all.skip(b as int)[0] == lines[b as int]@);
    }
    assert(leading_nonempty(all.skip(b as int)) == 0);
    assert(rest.take(b - a) =~= all.subrange(a as int, b as int));
    assert(rest.skip(b - a) =~= all.skip(b as int));
    Some((a, b))
}

/// Reads the trimmed lines of a listing up to the first device that cannot be read.
#[verifier::loop_isolation(false)]
fn read_listing(lines: &Vec<String>, kind: DeviceKind) -> (r: (
    Vec<PulseAudioDevice>,
    Option<PulseAudioError>,
))
    ensures
        ({
            let c = collected(blocks(text::texts(lines@), header_of(kind)), kind);
            views::views(r.0@) == c.0 && r.1 == c.1
        }),
{
    let header = match kind {
        DeviceKind::Source => "Source #",
        DeviceKind::Sink => "Sink #",
    };
    let ghost all = text::texts(lines@);
    let ghost bs = blocks(all, header_of(kind));
    let ghost mut k: int = 0;
    let mut devices: Vec<PulseAudioDevice> = Vec::new();
    let mut at: usize = 0;
    let mut going = true;
    assert(all.skip(0) =~= all);
    assert(bs.skip(0) =~= bs);
    assert(views::views(devices@) =~= Seq::empty());
    while going
        invariant
            at <= lines.len(),
            0 <= k <= bs.len(),
            bs.skip(k) == blocks(all.skip(at as int), header_of(kind)),
            views::views(devices@) == collected(bs.take(k), kind).0,
            collected(bs.take(k), kind).1 is None,
            !going ==> k == bs.len(),
        decreases lines.len() - at + (if going { 1int } else { 0int }),
    {
        match next_block(lines, header, at) {
            None => {
                assert(bs.skip(k).len() == 0);
                going = false;
            },
            Some((a, b)) => {
                assert(bs[k] == bs.skip(k)[0]);
                assert(bs.skip(k).skip(1) =~= bs.skip(k + 1));
                assert(bs.skip(k + 1) =~= blocks(all.skip(b as int), header_of(kind)));
                assert(bs.take(k + 1).drop_last() =~= bs.take(k));
                assert(bs.take(k + 1).last() == all.subrange(a as int, b as int));
                match read_device(lines, a, b, kind) {
                    Err(e) => {
                        proof {
                            collected_grows(bs, k + 1, kind);
                        }
                        return (devices, Some(e));
                    },
                    Ok(None) => {},
                    Ok(Some(d)) => {
                        devices.push(d);
                    },
                }
                at = b;
                proof {
                    k = k + 1;
                }
            },
        }
    }
    assert(bs.take(k) =~= bs);
    (devices, None)
}

fn trim_lines(s: &str) -> (r: Vec<String>)
    ensures
        text::texts(r@) == trimmed_lines(s@),
{
    let lines = text::lines(s);
    let ghost all = text::line_seq(s@);
    let mut r: Vec<String> = Vec::new();
    let mut i: usize = 0;
    while i < lines.len()
        invariant
            i <= lines.len(),
            all == text::texts(lines@),
            text::texts(r@) == trimmed_lines(s@).take(i as int),
            all == text::line_seq(s@),
        decreases lines.len() - i,
    {
        assert(all[i as int] == lines[i as int]@);
        r.push(text::trim(lines[i].as_str()));
        i += 1;
        assert(text::texts(r@) =~= trimmed_lines(s@).take(i as int));
    }
    assert(trimmed_lines(s@).take(i as int) =~= trimmed_lines(s@));
    r
}

/// Reads the output of `pactl list sources` or `pactl list sinks`.
#[verifier::loop_isolation(false)]
pub fn read_devices(out: &ProgramOutput, kind: DeviceKind) -> (r: Result<
    Vec<PulseAudioDevice>,
    PulseAudioError,
>)
    requires
        output_fits(*out, kind),
    ensures
        views::list_is(r, devices_in(*out, kind)),
{
    if !out.success {
        return Err(PulseAudioError::ExitStatus);
    }
    let s = match bytes::from_utf8(out.stdout.as_slice()) {
        None => {
            return Err(PulseAudioError::Encoding);
        },
        Some(s) => s,
    };
    let lines = trim_lines(s.as_str());
    let (devices, error) = read_listing(&lines, kind);
    if let Some(e) = error {
        return Err(e);
    }
    let ghost raw = views::views(devices@);
    let mut short: Vec<PulseAudioDevice> = Vec::new();
    let mut i: usize = 0;
    assert(views::views(short@) =~= with_short_names(raw).take(0));
    while i < devices.len()
        invariant
            i <= devices.len(),
            raw == views::views(devices@),
            names_fit(raw),
            views::views(short@) == with_short_names(raw).take(i as int),
        decreases devices.len() - i,
    {
        assert(raw[i as int] == devices[i as int]@);
        let name = PulseAudioModule::abbrev(devices[i].name.as_str(), 1);
        short.push(PulseAudioDevice { id: devices[i].id, name, running: devices[i].running });
        i += 1;
        assert(views::views(short@) =~= with_short_names(raw).take(i as int));
    }
    assert(with_short_names(raw).take(i as int) =~= with_short_names(raw));
    Ok(short)
}

/// Whether the names in an output of `pactl list` can be abbreviated.
#[verifier::loop_isolation(false)]
pub fn can_read_devices(out: &ProgramOutput, kind: DeviceKind) -> (r: bool)
    ensures
        r == output_fits(*out, kind),
{
    if !out.success {
        return true;
    }
    match bytes::from_utf8(out.stdout.as_slice()) {
        None => true,
        Some(s) => {
            let lines = trim_lines(s.as_str());
            let (devices, _error) = read_listing(&lines, kind);
            let ghost raw = views::views(devices@);
            let mut i: usize = 0;
            while i < devices.len()
                invariant
                    i <= devices.len(),
                    forall|j: int| 0 <= j < i ==> can_abbrev((#[trigger] raw[j]).1, 1),
                decreases devices.len() - i,
            {
                assert(raw[i as int] == devices[i as int]@);
                if !PulseAudioModule::abbreviable(devices[i].name.as_str(), 1) {
                    return false;
                }
                i += 1;
            }
            true
        },
    }
}

/// Text of `pactl subscribe` that tells of more than the coming and going of clients.
pub open spec fn tells_of_change(s: Seq<char>) -> bool {
    exists|i: int|
        0 <= i < text::line_seq(s).len() && !text::has_part(
            #[trigger] text::line_seq(s)[i],
            " client #"@,
        )
}

/// Whether a text of `pactl subscribe` tells of more than the coming and going of clients, which
/// `pactl list` causes itself.
pub fn is_change(s: &str) -> (r: bool)
    ensures
        r == tells_of_change(s@),
{
    let lines = text::lines(s);
    let ghost all = text::line_seq(s@);
    let mut i: usize = 0;
    while i < lines.len()
        invariant
            i <= lines.len(),
            all == text::texts(lines@),
            all == text::line_seq(s@),
            forall|j: int| 0 <= j < i ==> text::has_part(#[trigger] all[j], " client #"@),
        decreases lines.len() - i,
    {
        assert(all[i as int] == lines[i as int]@);
        if !text::contains_part(lines[i].as_str(), " client #") {
            return true;
        }
        i += 1;
    }
    false
}

/// What to do with the bytes read from `pactl subscribe`.
#[derive(Clone, Copy, Debug, PartialEq, Eq, Structural)]
pub enum SubscribeAction {
    /// The program has ended: start it again and update.
    Restart,
    /// Something has changed: update.
    Update,
    /// Nothing of interest: read on.
    ReadOn,
}

/// Decides what the bytes read from `pactl subscribe` call for.
pub fn on_subscribe_output(read: &[u8]) -> (r: SubscribeAction)
    ensures
        read@.len() == 0 <==> r == SubscribeAction::Restart,
        read@.len() > 0 ==> (r == SubscribeAction::Update <==> tells_of_change(
            bytes::lossy_text(read@),
        )),
{
    if read.len() == 0 {
        SubscribeAction::Restart
    } else {
        let s = bytes::from_utf8_lossy(read);
        if is_change(s.as_str()) {
            SubscribeAction::Update
        } else {
            SubscribeAction::ReadOn
        }
    }
}

// The module

pub struct PulseAudioModule {
    pub easyeffects_installed: bool,
}

pub open spec fn device_fragment(d: (u32, Seq<char>, bool), command: Seq<char>) -> Seq<char> {
    if d.2 {
        markup::styled(Palette::SolarizedDark, d.1, None, Some(Color::Foreground))
    } else {
        markup::clickable(
            d.1,
            PolybarActionType::ClickLeft,
            command + numeral::decimal_text(d.0 as nat),
        )
    }
}

pub open spec fn device_fragments(devices: Seq<PulseAudioDevice>, command: Seq<char>) -> Seq<
    Seq<char>,
> {
    Seq::new(devices.len(), |i: int| device_fragment(devices[i]@, command))
}

pub open spec fn easyeffects_fragment(running: bool) -> Seq<char> {
    if running {
        markup::clickable(
            markup::styled(
                Palette::SolarizedDark,
                "\u{f0dde}"@,
                None,
                Some(Color::Foreground),
            ),
            PolybarActionType::ClickLeft,
            "systemctl --user -q --no-block stop easyeffects.service"@,
        )
    } else {
        markup::clickable(
            "\u{f0dde}"@,
            PolybarActionType::ClickLeft,
            "systemctl --user -q --no-block start easyeffects.service"@,
        )
    }
}

/// Parts of the markup: the effects switch where there is one, the sinks where there is a choice,
/// the sources where there is a choice.
pub open spec fn fragments(state: PulseAudioModuleState) -> Seq<Seq<char>> {
    let switch = match state.easyeffects {
        Some(running) => seq![easyeffects_fragment(running)],
        None => Seq::empty(),
    };
    let sinks = if state.sinks@.len() > 1 {
        device_fragments(state.sinks@, "pactl set-default-sink "@).push(Seq::empty())
    } else {
        seq![" "@]
    };
    let sources = if state.sources@.len() > 1 {
        seq![
            markup::styled(Palette::SolarizedDark, "\u{e992}"@, Some(Color::MainIcon), None),
        ] + device_fragments(state.sources@, "pactl set-default-source "@)
    } else {
        Seq::empty()
    };
    switch + sinks + sources
}

fn push_devices(fragments: &mut Vec<String>, devices: &Vec<PulseAudioDevice>, command: &str)
    ensures
        text::texts(final(fragments)@) == text::texts(old(fragments)@) + device_fragments(
            devices@,
            command@,
        ),
{
    let ghost before = text::texts(fragments@);
    let mut i: usize = 0;
    let ghost target = device_fragments(devices@, command@);
    assert(before + target.take(0) =~= before);
    while i < devices.len()
        invariant
            i <= devices.len(),
            target == device_fragments(devices@, command@),
            text::texts(fragments@) == before + target.take(i as int),
        decreases devices.len() - i,
    {
        let d = &devices[i];
        let fragment = if d.running {
            markup::style(
                Palette::SolarizedDark,
                d.name.as_str(),
                None,
                Some(Color::Foreground),
            )
        } else {
            let mut c = command.to_owned();
            let id = numeral::decimal(d.id as u64);
            c.append(id.as_str());
            markup::action(d.name.as_str(), PolybarActionType::ClickLeft, c.as_str())
        };
        assert(fragment@ == target[i as int]);
        fragments.push(fragment);
        i += 1;
        assert(before + target.take(i as int) =~= (before + target.take(i - 1)).push(
            target[i - 1],
        ));
    }
    assert(target.take(i as int) =~= target);
}

impl PulseAudioModule {
    pub fn new(easyeffects_installed: bool) -> (r: Self)
        ensures
            r.easyeffects_installed == easyeffects_installed,
    {
        PulseAudioModule { easyeffects_installed }
    }

    /// The longest word of `s`, cut to `max_len` bytes.
    pub fn abbrev(s: &str, max_len: usize) -> (r: String)
        requires
            can_abbrev(s@, max_len),
        ensures
            r@ == abbreviated(s@, max_len),
    {
        let w = find_longest(s);
        if text::len_bytes(w.as_str()) > max_len {
            if max_len > 1 {
                let mut r = text::truncate(w.as_str(), max_len - 1);
                r.push('…');
                r
            } else {
                text::truncate(w.as_str(), 1)
            }
        } else {
            w
        }
    }

    /// Whether the longest word of `s` can be cut to `max_len` bytes.
    pub fn abbreviable(s: &str, max_len: usize) -> (r: bool)
        ensures
            r == can_abbrev(s@, max_len),
    {
        if max_len < 1 {
            return false;
        }
        let w = find_longest(s);
        let cut: usize = if max_len > 1 {
            max_len - 1
        } else {
            1
        };
        text::len_bytes(w.as_str()) <= max_len || text::truncates(w.as_str(), cut)
    }

    /// State from the two listings, and from whether the effects service runs. The sinks are not
    /// looked at where the sources cannot be read.
    pub fn try_update(
        &self,
        sources: &ProgramOutput,
        sinks: &ProgramOutput,
        easyeffects_running: bool,
    ) -> (r: Result<PulseAudioModuleState, PulseAudioError>)
        requires
            output_fits(*sources, DeviceKind::Source),
            devices_in(*sources, DeviceKind::Source) is Ok ==> output_fits(
                *sinks,
                DeviceKind::Sink,
            ),
        ensures
            match r {
                Ok(s) => {
                    &&& views::list_is(
                        Ok(s.sources),
                        devices_in(*sources, DeviceKind::Source),
                    )
                    &&& views::list_is(Ok(s.sinks), devices_in(*sinks, DeviceKind::Sink))
                    &&& s.easyeffects == if self.easyeffects_installed {
                        Some(easyeffects_running)
                    } else {
                        None
                    }
                },
                Err(e) => match devices_in(*sources, DeviceKind::Source) {
                    Err(f) => e == f,
                    Ok(_) => views::list_is(
                        Err::<Vec<PulseAudioDevice>, _>(e),
                        devices_in(*sinks, DeviceKind::Sink),
                    ),
                },
            },
    {
        let sources = match read_devices(sources, DeviceKind::Source) {
            Ok(d) => d,
            Err(e) => {
                return Err(e);
            },
        };
        let sinks = match read_devices(sinks, DeviceKind::Sink) {
            Ok(d) => d,
            Err(e) => {
                return Err(e);
            },
        };
        let easyeffects = if self.easyeffects_installed {
            Some(easyeffects_running)
        } else {
            None
        };
        Ok(PulseAudioModuleState { sources, sinks, easyeffects })
    }
}

impl RenderablePolybarModule for PulseAudioModule {
    type State = Option<PulseAudioModuleState>;

    open spec fn renderable(&self, state: &Option<PulseAudioModuleState>) -> bool {
        true
    }

    open spec fn rendered(&self, state: &Option<PulseAudioModuleState>) -> Seq<char> {
        match state {
            Some(s) => text::trimmed_end(text::joined(fragments(*s), " "@)),
            None => markup::styled(
                Palette::SolarizedDark,
                "\u{e904}"@,
                Some(Color::Attention),
                None,
            ),
        }
    }

    fn can_render(&self, state: &Option<PulseAudioModuleState>) -> (r: bool) {
        true
    }

    fn render(&self, state: &Option<PulseAudioModuleState>) -> (r: String) {
        match state {
            Some(state) => {
                let mut parts: Vec<String> = Vec::new();
                assert(text::texts(parts@) =~= Seq::empty());
                if let Some(running) = state.easyeffects {
                    let icon = markup::style(
                        Palette::SolarizedDark,
                        "\u{f0dde}",
                        None,
                        if running {
                            Some(Color::Foreground)
                        } else {
                            None
                        },
                    );
                    let command = if running {
                        "systemctl --user -q --no-block stop easyeffects.service"
                    } else {
                        "systemctl --user -q --no-block start easyeffects.service"
                    };
                    parts.push(markup::action(icon.as_str(), PolybarActionType::ClickLeft, command));
                }
                if state.sinks.len() > 1 {
                    push_devices(&mut parts, &state.sinks, "pactl set-default-sink ");
                    parts.push(String::new());
                } else {
                    parts.push(" ".to_owned());
                }
                if state.sources.len() > 1 {
                    parts.push(
                        markup::style(
                            Palette::SolarizedDark,
                            "\u{e992}",
                            Some(Color::MainIcon),
                            None,
                        ),
                    );
                    push_devices(&mut parts, &state.sources, "pactl set-default-source ");
                }
                assert(text::texts(parts@) =~= fragments(*state));
                let all = text::join(&parts, " ");
                text::trim_end(all.as_str())
            },
            None => markup::style(
                Palette::SolarizedDark,
                "\u{e904}",
                Some(Color::Attention),
                None,
            ),
        }
    }
}

// What the listings stand for

/// The line that is found starts with one of the texts, and none in front of it does; where none is
/// found, none does.
pub proof fn the_first_line_is_found(
    lines: Seq<Seq<char>>,
    a: Seq<char>,
    b: Seq<char>,
    c: Seq<char>,
    k: int,
)
    requires
        0 <= k <= lines.len(),
        forall|j: int|
            0 <= j < k ==> !text::has_prefix(#[trigger] lines[j], a) && !text::has_prefix(
                lines[j],
                b,
            ) && !text::has_prefix(lines[j], c),
        k < lines.len() ==> text::has_prefix(lines[k], a) || text::has_prefix(lines[k], b)
            || text::has_prefix(lines[k], c),
    ensures
        first_with(lines, a, b, c) == if k < lines.len() {
            Some(lines[k])
        } else {
            None
        },
    decreases lines.len(),
{
    if 0 < k {
        assert(!text::has_prefix(lines[0], a));
        assert forall|j: int| 0 <= j < k - 1 implies !text::has_prefix(
            #[trigger] lines.skip(1)[j],
            a,
        ) && !text::has_prefix(lines.skip(1)[j], b) && !text::has_prefix(lines.skip(1)[j], c) by {
            assert(lines.skip(1)[j] == lines[j + 1]);
        }
        the_first_line_is_found(lines.skip(1), a, b, c, k - 1);
    }
}

proof fn found_lines_stand_somewhere(
    lines: Seq<Seq<char>>,
    a: Seq<char>,
    b: Seq<char>,
    c: Seq<char>,
) -> (k: int)
    ensures
        0 <= k <= lines.len(),
        forall|j: int|
            0 <= j < k ==> !text::has_prefix(#[trigger] lines[j], a) && !text::has_prefix(
                lines[j],
                b,
            ) && !text::has_prefix(lines[j], c),
        k < lines.len() ==> text::has_prefix(lines[k], a) || text::has_prefix(lines[k], b)
            || text::has_prefix(lines[k], c),
        first_with(lines, a, b, c) == if k < lines.len() {
            Some(lines[k])
        } else {
            None
        },
    decreases lines.len(),
{
    if lines.len() == 0 || text::has_prefix(lines[0], a) || text::has_prefix(lines[0], b)
        || text::has_prefix(lines[0], c) {
        0
    } else {
        let rest = lines.skip(1);
        let k = found_lines_stand_somewhere(rest, a, b, c);
        assert forall|j: int| 0 <= j < k + 1 implies !text::has_prefix(#[trigger] lines[j], a)
            && !text::has_prefix(lines[j], b) && !text::has_prefix(lines[j], c) by {
            if j > 0 {
                assert(rest[j - 1] == lines[j]);
            }
        }
        k + 1
    }
}

/// A device is running exactly if its first line about the state ends so, whether it is a source or
/// a sink.
pub proof fn running_devices_say_so(lines: Seq<Seq<char>>, kind: DeviceKind, k: int)
    requires
        0 <= k < lines.len(),
        text::has_prefix(lines[k], "State: "@),
        forall|j: int| 0 <= j < k ==> !text::has_prefix(#[trigger] lines[j], "State: "@),
    ensures
        device_of(lines, kind) matches Ok(Some(d)) ==> (d.2 <==> text::has_suffix(
            lines[k],
            "RUNNING"@,
        )),
{
    the_first_line_is_found(lines, "State: "@, "State: "@, "State: "@, k);
}

/// A device without a line about its state is an error.
pub proof fn every_device_has_a_state(lines: Seq<Seq<char>>, kind: DeviceKind)
    ensures
        (forall|j: int| 0 <= j < lines.len() ==> !text::has_prefix(#[trigger] lines[j], "State: "@))
            ==> device_of(lines, kind) is Err,
        device_of(lines, kind) is Ok ==> exists|k: int|
            0 <= k < lines.len() && text::has_prefix(#[trigger] lines[k], "State: "@),
{
    let k = found_lines_stand_somewhere(lines, "State: "@, "State: "@, "State: "@);
}

proof fn header_numbers_are_read(head: Seq<char>, n: nat)
    requires
        n <= u32::MAX,
        !head.contains('#'),
    ensures
        device_id(head + seq!['#'] + numeral::decimal_text(n)) == Some(n),
{
    let d = numeral::decimal_text(n);
    numeral::decimal_reads_back(n);
    assert forall|i: int| 0 <= i < d.len() implies d[i] != '#' by {
        assert(numeral::is_digit(d[i]));
    }
    text::fields_of_both(head, d, '#');
    text::whole_is_a_field(d, '#');
    text::fields_nonempty(head, '#', '#');
    assert(text::fields_of(head + seq!['#'] + d, '#').last() == d);
}

proof fn names_stand_in_quotes(key: Seq<char>, name: Seq<char>)
    requires
        !key.contains('"'),
        !name.contains('"'),
    ensures
        quoted(key + seq!['"'] + name + seq!['"']) == Some(name),
{
    let e = Seq::<char>::empty();
    text::fields_of_both(key, name + seq!['"'] + e, '"');
    text::fields_of_both(name, e, '"');
    text::whole_is_a_field(key, '"');
    text::whole_is_a_field(name, '"');
    let l = key + seq!['"'] + name + seq!['"'];
    assert(l =~= key + seq!['"'] + (name + seq!['"'] + e));
}

/// A block of lines is read as the device with the number of its header, the text between the quotes
/// of its first line about a name, and the state that its first line about the state tells; so it is
/// for a source as well as for a sink.
pub proof fn blocks_are_read_as_devices(
    lines: Seq<Seq<char>>,
    kind: DeviceKind,
    n: nat,
    state: int,
    class: int,
    named: int,
    key: Seq<char>,
    name: Seq<char>,
)
    requires
        n <= u32::MAX,
        0 <= state < lines.len(),
        0 <= class < lines.len(),
        0 <= named < lines.len(),
        lines[0] == (match kind {
            DeviceKind::Source => "Source #"@,
            DeviceKind::Sink => "Sink #"@,
        }) + numeral::decimal_text(n),
        text::has_prefix(lines[state], "State: "@),
        forall|j: int| 0 <= j < state ==> !text::has_prefix(#[trigger] lines[j], "State: "@),
        lines[class] == "device.class = \"sound\""@,
        forall|j: int| 0 <= j < class ==> !text::has_prefix(#[trigger] lines[j], "device.class = "@),
        key == "alsa.card_name = "@ || key == "bluez.alias = "@ || key == "device.alias = "@,
        lines[named] == key + seq!['"'] + name + seq!['"'],
        !name.contains('"'),
        forall|j: int|
            0 <= j < named ==> !text::has_prefix(#[trigger] lines[j], "alsa.card_name = "@)
                && !text::has_prefix(lines[j], "bluez.alias = "@) && !text::has_prefix(
                lines[j],
                "device.alias = "@,
            ),
    ensures
        device_of(lines, kind) == Ok::<_, PulseAudioError>(
            Some((n as u32, name, text::has_suffix(lines[state], "RUNNING"@))),
        ),
{
    reveal_strlit("Source #");
    reveal_strlit("Sink #");
    reveal_strlit("device.class = \"sound\"");
    reveal_strlit("device.class = ");
    reveal_strlit("\"sound\"");
    reveal_strlit("alsa.card_name = ");
    reveal_strlit("bluez.alias = ");
    reveal_strlit("device.alias = ");
    let d = numeral::decimal_text(n);
    let head = match kind {
        DeviceKind::Source => seq!['S', 'o', 'u', 'r', 'c', 'e', ' '],
        DeviceKind::Sink => seq!['S', 'i', 'n', 'k', ' '],
    };
    assert(lines[0] =~= head + seq!['#'] + d);
    assert(!head.contains('#'));
    header_numbers_are_read(head, n);
    the_first_line_is_found(lines, "State: "@, "State: "@, "State: "@, state);
    let c = lines[class];
    assert(c.take(15) =~= "device.class = "@);
    assert(c.skip(15) =~= "\"sound\""@);
    the_first_line_is_found(
        lines,
        "device.class = "@,
        "device.class = "@,
        "device.class = "@,
        class,
    );
    let l = lines[named];
    assert(l.take(key.len() as int) =~= key);
    the_first_line_is_found(
        lines,
        "alsa.card_name = "@,
        "bluez.alias = "@,
        "device.alias = "@,
        named,
    );
    assert(!key.contains('"')) by {
        assert(!"alsa.card_name = "@.contains('"'));
        assert(!"bluez.alias = "@.contains('"'));
        assert(!"device.alias = "@.contains('"'));
    }
    names_stand_in_quotes(key, name);
}

/// Whether a line of a source is that of a sink, but for what tells the two apart.
spec fn alike(sink: Seq<char>, source: Seq<char>, number: Seq<char>) -> bool {
    ||| sink == source && !text::has_prefix(sink, "media.class = "@)
    ||| sink == "Sink #"@ + number && source == "Source #"@ + number
    ||| sink == "media.class = \"Audio/Sink\""@ && source == "media.class = \"Audio/Source\""@
}

proof fn alike_lines_start_alike(
    sink: Seq<char>,
    source: Seq<char>,
    number: Seq<char>,
    key: Seq<char>,
)
    requires
        alike(sink, source, number),
        key.len() > 1,
        key[0] != 'm',
        key[0] == 'S' ==> key[1] == 't',
    ensures
        text::has_prefix(source, key) == text::has_prefix(sink, key),
        text::has_prefix(sink, key) ==> source == sink,
{
    reveal_strlit("Source #");
    reveal_strlit("Sink #");
    reveal_strlit("media.class = \"Audio/Sink\"");
    reveal_strlit("media.class = \"Audio/Source\"");
    text::affixes_are_cut_off(source, key);
    text::affixes_are_cut_off(sink, key);
    if sink != source {
        assert(key[0] != sink[0] || key[1] != sink[1]);
        assert(key[0] != source[0] || key[1] != source[1]);
    }
}

proof fn alike_blocks_agree(
    sinks: Seq<Seq<char>>,
    sources: Seq<Seq<char>>,
    number: Seq<char>,
    a: Seq<char>,
    b: Seq<char>,
    c: Seq<char>,
)
    requires
        sinks.len() == sources.len(),
        forall|i: int| 0 <= i < sinks.len() ==> alike(#[trigger] sinks[i], sources[i], number),
        a.len() > 1 && a[0] != 'm' && (a[0] == 'S' ==> a[1] == 't'),
        b.len() > 1 && b[0] != 'm' && (b[0] == 'S' ==> b[1] == 't'),
        c.len() > 1 && c[0] != 'm' && (c[0] == 'S' ==> c[1] == 't'),
    ensures
        first_with(sources, a, b, c) == first_with(sinks, a, b, c),
{
    let k = found_lines_stand_somewhere(sinks, a, b, c);
    assert forall|j: int| 0 <= j < k implies !text::has_prefix(#[trigger] sources[j], a)
        && !text::has_prefix(sources[j], b) && !text::has_prefix(sources[j], c) by {
        assert(alike(sinks[j], sources[j], number));
        alike_lines_start_alike(sinks[j], sources[j], number, a);
        alike_lines_start_alike(sinks[j], sources[j], number, b);
        alike_lines_start_alike(sinks[j], sources[j], number, c);
    }
    if k < sinks.len() {
        alike_lines_start_alike(sinks[k], sources[k], number, a);
        alike_lines_start_alike(sinks[k], sources[k], number, b);
        alike_lines_start_alike(sinks[k], sources[k], number, c);
    }
    the_first_line_is_found(sources, a, b, c, k);
}

proof fn media_classes_stay(sink: Seq<char>, source: Seq<char>, number: Seq<char>)
    requires
        alike(sink, source, number),
    ensures
        text::has_prefix(source, "media.class = "@) == text::has_prefix(sink, "media.class = "@),
        text::has_prefix(sink, "media.class = "@) ==> text::has_suffix(source, "\"Audio/Source\""@),
{
    let media = "media.class = "@;
    reveal_strlit("media.class = ");
    if sink == source && !text::has_prefix(sink, media) {
    } else if sink == "Sink #"@ + number && source == "Source #"@ + number {
        reveal_strlit("Source #");
        reveal_strlit("Sink #");
        text::affixes_are_cut_off(sink, media);
        text::affixes_are_cut_off(source, media);
        assert(media[0] != sink[0] && media[0] != source[0]);
    } else {
        reveal_strlit("media.class = \"Audio/Sink\"");
        reveal_strlit("media.class = \"Audio/Source\"");
        reveal_strlit("\"Audio/Source\"");
        assert(sink.take(14) =~= media);
        assert(source.take(14) =~= media);
        assert(source.skip(14) =~= "\"Audio/Source\""@);
    }
}

proof fn alike_blocks_have_their_media_class(
    sinks: Seq<Seq<char>>,
    sources: Seq<Seq<char>>,
    number: Seq<char>,
)
    requires
        sinks.len() == sources.len(),
        forall|i: int| 0 <= i < sinks.len() ==> alike(#[trigger] sinks[i], sources[i], number),
        property_is(sinks, "media.class = "@, "\"Audio/Sink\""@),
    ensures
        property_is(sources, "media.class = "@, "\"Audio/Source\""@),
{
    let media = "media.class = "@;
    let m = found_lines_stand_somewhere(sinks, media, media, media);
    assert forall|j: int| 0 <= j < m implies !text::has_prefix(#[trigger] sources[j], media)
        && !text::has_prefix(sources[j], media) && !text::has_prefix(sources[j], media) by {
        assert(alike(sinks[j], sources[j], number));
        media_classes_stay(sinks[j], sources[j], number);
    }
    assert(alike(sinks[m], sources[m], number));
    media_classes_stay(sinks[m], sources[m], number);
    the_first_line_is_found(sources, media, media, media, m);
}

/// A block of a sink, with its header and its media class replaced by those of a source, is read as
/// a device with the same number, name and state.
pub proof fn sources_are_read_like_sinks(
    sinks: Seq<Seq<char>>,
    sources: Seq<Seq<char>>,
    number: Seq<char>,
    device: (u32, Seq<char>, bool),
)
    requires
        0 < sinks.len() == sources.len(),
        sinks[0] == "Sink #"@ + number,
        sources[0] == "Source #"@ + number,
        forall|i: int|
            0 < i < sinks.len() ==> if text::has_prefix(#[trigger] sinks[i], "media.class = "@) {
                sinks[i] == "media.class = \"Audio/Sink\""@ && sources[i]
                    == "media.class = \"Audio/Source\""@
            } else {
                sources[i] == sinks[i]
            },
        device_of(sinks, DeviceKind::Sink) == Ok::<_, PulseAudioError>(Some(device)),
    ensures
        device_of(sources, DeviceKind::Source) == Ok::<_, PulseAudioError>(Some(device)),
{
    assert(device_id(sinks[0]) == device_id(sources[0])) by {
        reveal_strlit("Source #");
        reveal_strlit("Sink #");
        let a = seq!['S', 'i', 'n', 'k', ' '];
        let b = seq!['S', 'o', 'u', 'r', 'c', 'e', ' '];
        assert(sinks[0] =~= a + seq!['#'] + number);
        assert(sources[0] =~= b + seq!['#'] + number);
        text::fields_of_both(a, number, '#');
        text::fields_of_both(b, number, '#');
        text::fields_nonempty(number, '#', '#');
    }
    assert forall|i: int| 0 <= i < sinks.len() implies alike(
        #[trigger] sinks[i],
        sources[i],
        number,
    ) by {}
    reveal_strlit("State: ");
    reveal_strlit("device.class = ");
    reveal_strlit("alsa.card_name = ");
    reveal_strlit("bluez.alias = ");
    reveal_strlit("device.alias = ");
    alike_blocks_agree(sinks, sources, number, "State: "@, "State: "@, "State: "@);
    alike_blocks_agree(
        sinks,
        sources,
        number,
        "device.class = "@,
        "device.class = "@,
        "device.class = "@,
    );
    alike_blocks_agree(
        sinks,
        sources,
        number,
        "alsa.card_name = "@,
        "bluez.alias = "@,
        "device.alias = "@,
    );
    if property_is(sinks, "media.class = "@, "\"Audio/Sink\""@) {
        alike_blocks_have_their_media_class(sinks, sources, number);
    }
}

/// A block that is neither of the class of sound devices nor of the media class of its list is
/// passed over.
pub proof fn other_blocks_are_passed_over(lines: Seq<Seq<char>>, kind: DeviceKind)
    requires
        forall|i: int|
            0 <= i < lines.len() ==> (text::has_prefix(#[trigger] lines[i], "device.class = "@)
                ==> !text::has_suffix(lines[i], "\"sound\""@)) && (text::has_prefix(
                lines[i],
                "media.class = "@,
            ) ==> !text::has_suffix(
                lines[i],
                match kind {
                    DeviceKind::Source => "\"Audio/Source\""@,
                    DeviceKind::Sink => "\"Audio/Sink\""@,
                },
            )),
    ensures
        !(device_of(lines, kind) matches Ok(Some(_))),
{
    let c = "device.class = "@;
    let m = "media.class = "@;
    let i = found_lines_stand_somewhere(lines, c, c, c);
    let j = found_lines_stand_somewhere(lines, m, m, m);
}

/// The longest word is one of the words, and none is longer.
pub proof fn no_word_is_longer(words: Seq<Seq<char>>, i: int)
    requires
        0 <= i < words.len(),
    ensures
        words.contains(longest(words)),
        text::byte_len(words[i]) <= text::byte_len(longest(words)),
        text::byte_len(words[i]) == text::byte_len(longest(words)) ==> exists|j: int|
            i <= j < words.len() && #[trigger] words[j] == longest(words),
    decreases words.len(),
{
    if words.len() == 1 {
        assert(words[0] == longest(words));
    } else {
        let before = words.drop_last();
        let l = longest(before);
        if i < before.len() {
            no_word_is_longer(before, i);
            assert(before[i] == words[i]);
            if text::byte_len(words[i]) == text::byte_len(longest(words)) {
                if longest(words) == words.last() {
                    assert(words[words.len() - 1] == longest(words));
                } else {
                    let j = choose|j: int| i <= j < before.len() && #[trigger] before[j] == l;
                    assert(words[j] == longest(words));
                }
            }
        } else {
            no_word_is_longer(before, 0);
            assert(words[i] == words.last());
        }
        let k = choose|k: int| 0 <= k < before.len() && before[k] == l;
        assert(words[k] == l);
        assert(words[words.len() - 1] == words.last());
    }
}

/// A name is abbreviated to the start of its longest word, which keeps within the length, but for an
/// ellipsis in the place of the last byte; a word that is short enough is kept whole.
pub proof fn abbreviations_start_the_longest_word(s: Seq<char>, max_len: usize)
    requires
        can_abbrev(s, max_len),
    ensures
        ({
            let w = longest(text::fields_of(s, ' '));
            let r = abbreviated(s, max_len);
            &&& text::byte_len(w) <= max_len ==> r == w
            &&& text::byte_len(w) > max_len && max_len == 1 ==> text::has_prefix(w, r)
                && text::byte_len(r) == 1
            &&& text::byte_len(w) > max_len && max_len > 1 ==> r.len() > 0 && r.last() == '…'
                && text::has_prefix(w, r.drop_last()) && text::byte_len(r.drop_last()) == max_len
                - 1
        }),
{
    let w = longest(text::fields_of(s, ' '));
    if text::byte_len(w) > max_len {
        let n = abbrev_len(max_len);
        let t = text::truncated(w, n);
        text::truncation_keeps_the_longest_start(w, n, w.len() as int);
        assert(t.push('…').drop_last() =~= t);
        assert(w.take(w.len() as int) =~= w);
    }
}

/// A header starts a block, which goes up to the next empty line; what follows is read on its own,
/// and lines in front of a header are passed over.
pub proof fn empty_lines_end_blocks(
    before: Seq<Seq<char>>,
    block: Seq<Seq<char>>,
    rest: Seq<Seq<char>>,
    header: Seq<char>,
)
    requires
        header.len() > 0,
        forall|i: int| 0 <= i < before.len() ==> !text::has_prefix(#[trigger] before[i], header),
        block.len() > 0,
        text::has_prefix(block[0], header),
        forall|i: int| 0 <= i < block.len() ==> (#[trigger] block[i]).len() > 0,
    ensures
        blocks(before + block + seq![Seq::empty()] + rest, header) == seq![block] + blocks(
            rest,
            header,
        ),
        blocks(before + block, header) == seq![block],
        blocks(before, header).len() == 0,
    decreases before.len(),
{
    let e = Seq::<char>::empty();
    let all = before + block + seq![e] + rest;
    let open = before + block;
    if before.len() > 0 {
        assert(!text::has_prefix(before[0], header));
        assert(all[0] == before[0]);
        assert(open[0] == before[0]);
        assert(all.skip(1) =~= before.skip(1) + block + seq![e] + rest);
        assert(open.skip(1) =~= before.skip(1) + block);
        assert forall|i: int| 0 <= i < before.skip(1).len() implies !text::has_prefix(
            #[trigger] before.skip(1)[i],
            header,
        ) by {
            assert(before.skip(1)[i] == before[i + 1]);
        }
        empty_lines_end_blocks(before.skip(1), block, rest, header);
    } else {
        let n = block.len() as int;
        assert(all[0] == block[0]);
        assert(open[0] == block[0]);
        leading_lines(all.skip(1), n - 1);
        leading_lines(open.skip(1), n - 1);
        assert(all.take(n) =~= block);
        assert(all.skip(n) =~= seq![e] + rest);
        assert((seq![e] + rest).skip(1) =~= rest);
        assert(blocks(seq![e] + rest, header) == blocks(rest, header));
        assert(open.take(n) =~= block);
        assert(open.skip(n) =~= Seq::empty());
        assert(blocks(open.skip(n), header) =~= Seq::empty());
        assert(blocks(all, header) =~= seq![block] + blocks(rest, header));
        assert(blocks(open, header) =~= seq![block]);
    }
}

proof fn leading_lines(lines: Seq<Seq<char>>, n: int)
    requires
        0 <= n <= lines.len(),
        forall|i: int| 0 <= i < n ==> (#[trigger] lines[i]).len() > 0,
        n < lines.len() ==> lines[n].len() == 0,
    ensures
        leading_nonempty(lines) == n,
    decreases lines.len(),
{
    if n > 0 {
        assert(lines[0].len() > 0);
        assert forall|i: int| 0 <= i < n - 1 implies (#[trigger] lines.skip(1)[i]).len() > 0 by {
            assert(lines.skip(1)[i] == lines[i + 1]);
        }
        leading_lines(lines.skip(1), n - 1);
    }
}

/// Every block that is read as a device adds it behind the others; one that is no device adds none.
/// The first error ends the reading.
pub proof fn devices_are_collected(
    bs: Seq<Seq<Seq<char>>>,
    more: Seq<Seq<Seq<char>>>,
    b: Seq<Seq<char>>,
    kind: DeviceKind,
)
    requires
        collected(bs, kind).1 is None,
    ensures
        device_of(b, kind) matches Ok(Some(d)) ==> collected(bs.push(b), kind) == (
            collected(bs, kind).0.push(d),
            None::<PulseAudioError>,
        ),
        device_of(b, kind) matches Ok(None) ==> collected(bs.push(b), kind) == collected(bs, kind),
        device_of(b, kind) matches Err(e) ==> collected(bs.push(b) + more, kind) == (
            collected(bs, kind).0,
            Some(e),
        ),
{
    assert(bs.push(b).drop_last() =~= bs);
    let all = bs.push(b) + more;
    collected_grows(all, bs.len() as int + 1, kind);
    assert(all.take(bs.len() as int + 1) =~= bs.push(b));
}

/// Something has changed exactly if a line does not speak of a client; each line is looked at on its
/// own.
pub proof fn clients_are_no_change(l: Seq<char>, rest: Seq<char>)
    requires
        !l.contains('\n'),
        !l.contains('\r'),
    ensures
        tells_of_change(l + seq!['\n'] + rest) == (tells_of_change(rest) || !exists|
            a: Seq<char>,
            b: Seq<char>,
        |
            l == #[trigger] (a + " client #"@ + b)),
        !tells_of_change(Seq::empty()),
{
    text::line_feeds_end_lines(l, rest);
    text::an_open_line_is_a_line(Seq::empty());
    text::affixes_are_cut_off(l, " client #"@);
    let ls = text::line_seq(rest);
    let all = text::line_seq(l + seq!['\n'] + rest);
    if l.len() > 0 {
        assert(l.contains(l.last()));
    }
    assert(all == seq![l] + ls);
    assert(all[0] == l);
    if tells_of_change(rest) {
        let i = choose|i: int|
            0 <= i < ls.len() && !text::has_part(#[trigger] ls[i], " client #"@);
        assert(all[i + 1] == ls[i]);
    }
    if tells_of_change(l + seq!['\n'] + rest) {
        let i = choose|i: int|
            0 <= i < all.len() && !text::has_part(#[trigger] all[i], " client #"@);
        if i > 0 {
            assert(all[i] == ls[i - 1]);
        }
    }
}

/// A device that is running is underlined and cannot be chosen; any other one is chosen by its
/// number with a click. The lists are shown where there is a choice.
pub proof fn devices_can_be_chosen(state: PulseAudioModuleState, i: int)
    ensures
        state.easyeffects is None && state.sinks@.len() <= 1 && state.sources@.len() <= 1
            ==> fragments(state) == seq![" "@],
        ({
            let n: int = if state.easyeffects is Some {
                1
            } else {
                0
            };
            &&& state.sinks@.len() > 1 && 0 <= i < state.sinks@.len() ==> fragments(state)[n + i]
                == if state.sinks@[i].running {
                markup::underlined(
                    Palette::SolarizedDark,
                    state.sinks@[i].name@,
                    Color::Foreground,
                )
            } else {
                markup::clickable(
                    state.sinks@[i].name@,
                    PolybarActionType::ClickLeft,
                    "pactl set-default-sink "@ + numeral::decimal_text(state.sinks@[i].id as nat),
                )
            }
            &&& state.sources@.len() > 1 && 0 <= i < state.sources@.len() ==> fragments(
                state,
            )[fragments(state).len() - state.sources@.len() + i] == if state.sources@[i].running {
                markup::underlined(
                    Palette::SolarizedDark,
                    state.sources@[i].name@,
                    Color::Foreground,
                )
            } else {
                markup::clickable(
                    state.sources@[i].name@,
                    PolybarActionType::ClickLeft,
                    "pactl set-default-source "@ + numeral::decimal_text(
                        state.sources@[i].id as nat,
                    ),
                )
            }
        }),
{
    assert(state.easyeffects is None && state.sinks@.len() <= 1 && state.sources@.len() <= 1
        ==> fragments(state) =~= seq![" "@]);
}

/// A block without a number is an error, and so is one without a state; a real device without a name
/// is an error as a source, and passed over as a sink.
pub proof fn incomplete_blocks_are_told(lines: Seq<Seq<char>>, kind: DeviceKind)
    requires
        lines.len() > 0,
    ensures
        device_id(lines[0]) is None ==> device_of(lines, kind) == Err::<
            Option<(u32, Seq<char>, bool)>,
            _,
        >(PulseAudioError::Id),
        device_id(lines[0]) is Some && (forall|j: int|
            0 <= j < lines.len() ==> !text::has_prefix(#[trigger] lines[j], "State: "@))
            ==> device_of(lines, kind) == Err::<Option<(u32, Seq<char>, bool)>, _>(
            PulseAudioError::State,
        ),
        (forall|j: int|
            0 <= j < lines.len() ==> !text::has_prefix(#[trigger] lines[j], "alsa.card_name = "@)
                && !text::has_prefix(lines[j], "bluez.alias = "@) && !text::has_prefix(
                lines[j],
                "device.alias = "@,
            )) && device_of(lines, DeviceKind::Sink) is Ok ==> device_of(lines, DeviceKind::Sink)
            == Ok::<_, PulseAudioError>(None::<(u32, Seq<char>, bool)>) && (is_device(
            lines,
            DeviceKind::Source,
        ) ==> device_of(lines, DeviceKind::Source) == Err::<Option<(u32, Seq<char>, bool)>, _>(
            PulseAudioError::Name,
        )),
{
    let s = found_lines_stand_somewhere(lines, "State: "@, "State: "@, "State: "@);
    let n = found_lines_stand_somewhere(
        lines,
        "alsa.card_name = "@,
        "bluez.alias = "@,
        "device.alias = "@,
    );
}

/// Only the names of the devices are shortened.
pub proof fn numbers_and_states_are_kept(devices: Seq<(u32, Seq<char>, bool)>, i: int)
    requires
        0 <= i < devices.len(),
    ensures
        with_short_names(devices).len() == devices.len(),
        with_short_names(devices)[i].0 == devices[i].0,
        with_short_names(devices)[i].1 == abbreviated(devices[i].1, 1),
        with_short_names(devices)[i].2 == devices[i].2,
{
}

/// White space around the lines does not matter, and the blocks of each list have its header.
pub proof fn listings_are_read_by_lines(s: Seq<char>, i: int)
    ensures
        header_of(DeviceKind::Source) == "Source #"@,
        header_of(DeviceKind::Sink) == "Sink #"@,
        trimmed_lines(s).len() == text::line_seq(s).len(),
        0 <= i < text::line_seq(s).len() ==> trimmed_lines(s)[i] == text::trimmed_start(
            text::trimmed_end(text::line_seq(s)[i]),
        ),
{
}

/// A program that ended badly lists no device, nor one whose output is no text, nor one with a block
/// that cannot be read.
pub proof fn failed_listings_are_errors(out: ProgramOutput, kind: DeviceKind)
    ensures
        !out.success ==> devices_in(out, kind) == Err::<Seq<(u32, Seq<char>, bool)>, _>(
            PulseAudioError::ExitStatus,
        ),
        out.success && !vstd::utf8::valid_utf8(out.stdout@) ==> devices_in(out, kind) == Err::<
            Seq<(u32, Seq<char>, bool)>,
            _,
        >(PulseAudioError::Encoding),
        out.success && vstd::utf8::valid_utf8(out.stdout@) ==> devices_in(out, kind) == match collected(
            blocks(trimmed_lines(vstd::utf8::decode_utf8(out.stdout@)), header_of(kind)),
            kind,
        ) {
            (_, Some(e)) => Err(e),
            (devices, None) => Ok(with_short_names(devices)),
        },
{
}

/// The switch of the effects stops them where they run, and starts them where they do not.
pub proof fn clicks_switch_the_effects()
    ensures
        easyeffects_fragment(true) == markup::clickable(
            markup::underlined(Palette::SolarizedDark, "\u{f0dde}"@, Color::Foreground),
            PolybarActionType::ClickLeft,
            "systemctl --user -q --no-block stop easyeffects.service"@,
        ),
        easyeffects_fragment(false) == markup::clickable(
            "\u{f0dde}"@,
            PolybarActionType::ClickLeft,
            "systemctl --user -q --no-block start easyeffects.service"@,
        ),
{
}

/// A name goes from the first quote to the second, or to the end where there is none; without a
/// quote there is no name.
pub proof fn names_go_to_the_second_quote(key: Seq<char>, name: Seq<char>, rest: Seq<char>)
    requires
        !key.contains('"'),
        !name.contains('"'),
    ensures
        quoted(key + seq!['"'] + name) == Some(name),
        quoted(key + seq!['"'] + name + seq!['"'] + rest) == Some(name),
        quoted(key) is None,
{
    text::fields_of_both(key, name, '"');
    text::fields_of_both(key, name + seq!['"'] + rest, '"');
    text::fields_of_both(name, rest, '"');
    text::whole_is_a_field(key, '"');
    text::whole_is_a_field(name, '"');
    assert(key + seq!['"'] + name + seq!['"'] + rest =~= key + seq!['"'] + (name + seq!['"']
        + rest));
}

}
