//! Frequencies of the processor cores.

use vstd::prelude::*;

use crate::markup;
use crate::numeral;
use crate::polybar_module::RenderablePolybarModule;
use crate::quotient;
use crate::text;
use crate::theme::{Color, Palette, ICON_WARNING};

verus! {

/// Lowest and highest frequency of any core, in kilohertz.
pub struct CpuFreqModule {
    pub freq_range: (u32, u32),
}

#[derive(Clone, Copy, Debug, PartialEq, Eq, Structural)]
pub struct CpuFreqModuleState {
    pub min_freq: u32,
    pub max_freq: u32,
    pub avg_freq: u32,
}

#[derive(Clone, Copy, Debug, PartialEq, Eq, Structural)]
pub enum CpuFreqError {
    /// A file holds no frequency.
    Number,
    /// There is no core.
    NoCore,
}

/// Frequency that a file holds.
pub open spec fn frequency(s: Seq<char>) -> Option<nat> {
    numeral::unsigned_value(text::trimmed_end(s), u32::MAX as nat)
}

/// Frequencies that some files hold; nothing where one holds none.
pub open spec fn frequencies(files: Seq<Seq<char>>) -> Option<Seq<u32>>
    decreases files.len(),
{
    if files.len() == 0 {
        Some(Seq::empty())
    } else {
        match (frequencies(files.drop_last()), frequency(files.last())) {
            (Some(before), Some(n)) => Some(before.push(n as u32)),
            _ => None,
        }
    }
}

pub open spec fn sum(v: Seq<u32>) -> nat
    decreases v.len(),
{
    if v.len() == 0 {
        0
    } else {
        sum(v.drop_last()) + v.last() as nat
    }
}

pub open spec fn is_min(v: Seq<u32>, x: u32) -> bool {
    v.contains(x) && forall|i: int| 0 <= i < v.len() ==> x <= #[trigger] v[i]
}

pub open spec fn is_max(v: Seq<u32>, x: u32) -> bool {
    v.contains(x) && forall|i: int| 0 <= i < v.len() ==> x >= #[trigger] v[i]
}

proof fn frequencies_fail_early(files: Seq<Seq<char>>, k: int)
    requires
        0 <= k <= files.len(),
        frequencies(files.take(k)) is None,
    ensures
        frequencies(files) is None,
    decreases files.len() - k,
{
    if k < files.len() {
        assert(files.take(k + 1).drop_last() =~= files.take(k));
        frequencies_fail_early(files, k + 1);
    } else {
        assert(files.take(k) =~= files);
    }
}

fn read_frequencies(files: &Vec<String>) -> (r: Option<Vec<u32>>)
    ensures
        match r {
            Some(v) => frequencies(text::texts(files@)) == Some(v@),
            None => frequencies(text::texts(files@)) is None,
        },
        r matches Some(v) ==> v@.len() == files@.len(),
{
    let ghost all = text::texts(files@);
    let mut r: Vec<u32> = Vec::new();
    let mut i: usize = 0;
    while i < files.len()
        invariant
            i <= files.len(),
            all == text::texts(files@),
            r@.len() == i,
            frequencies(all.take(i as int)) == Some(r@),
        decreases files.len() - i,
    {
        assert(all.take(i + 1).drop_last() =~= all.take(i as int));
        assert(all.take(i + 1).last() == files[i as int]@);
        let t = text::trim_end(files[i].as_str());
        match numeral::parse_unsigned(t.as_str(), u32::MAX as u64) {
            Some(n) => {
                r.push(n as u32);
            },
            None => {
                proof {
                    frequencies_fail_early(all, i + 1);
                }
                return None;
            },
        }
        i += 1;
    }
    assert(all.take(i as int) =~= all);
    Some(r)
}

fn find_min(v: &Vec<u32>) -> (r: u32)
    requires
        v@.len() > 0,
    ensures
        is_min(v@, r),
{
    let mut r: u32 = v[0];
    let mut i: usize = 1;
    while i < v.len()
        invariant
            1 <= i <= v.len(),
            v@.contains(r),
            forall|j: int| 0 <= j < i ==> r <= #[trigger] v@[j],
        decreases v.len() - i,
    {
        if v[i] < r {
            r = v[i];
        }
        i += 1;
    }
    r
}

fn find_max(v: &Vec<u32>) -> (r: u32)
    requires
        v@.len() > 0,
    ensures
        is_max(v@, r),
{
    let mut r: u32 = v[0];
    let mut i: usize = 1;
    while i < v.len()
        invariant
            1 <= i <= v.len(),
            v@.contains(r),
            forall|j: int| 0 <= j < i ==> r >= #[trigger] v@[j],
        decreases v.len() - i,
    {
        if v[i] > r {
            r = v[i];
        }
        i += 1;
    }
    r
}

proof fn sum_grows(v: Seq<u32>, k: int)
    requires
        0 <= k <= v.len(),
    ensures
        sum(v.take(k)) <= sum(v),
    decreases v.len() - k,
{
    if k < v.len() {
        assert(v.take(k + 1).drop_last() =~= v.take(k));
        sum_grows(v, k + 1);
    } else {
        assert(v.take(k) =~= v);
    }
}

/// The average lies between the least and the greatest value.
pub proof fn average_is_between(v: Seq<u32>, min: u32, max: u32)
    requires
        v.len() > 0,
        is_min(v, min),
        is_max(v, max),
    ensures
        min <= sum(v) / v.len() <= max,
{
    sum_bounds(v, min as nat, max as nat);
    let n = v.len() as int;
    let s = sum(v) as int;
    assert(min <= s / n <= max) by (nonlinear_arith)
        requires
            n > 0,
            n * min <= s <= n * max,
    ;
}

proof fn sum_bounds(v: Seq<u32>, min: nat, max: nat)
    requires
        forall|i: int| 0 <= i < v.len() ==> min <= #[trigger] v[i] <= max,
    ensures
        v.len() * min <= sum(v) <= v.len() * max,
    decreases v.len(),
{
    if v.len() > 0 {
        let w = v.drop_last();
        assert forall|i: int| 0 <= i < w.len() implies min <= #[trigger] w[i] <= max by {
            assert(w[i] == v[i]);
        }
        sum_bounds(w, min, max);
        let n = w.len() as int;
        assert(v.len() == n + 1);
        assert(min <= v.last() <= max) by {
            assert(v[v.len() - 1] == v.last());
        }
        assert((n + 1) * min == n * min + min) by (nonlinear_arith);
        assert((n + 1) * max == n * max + max) by (nonlinear_arith);
    } else {
        assert(0 * min == 0 && 0 * max == 0) by (nonlinear_arith);
    }
}

impl CpuFreqModule {
    /// A module for the cores whose files with their lowest and highest frequencies are given.
    pub fn new(min_files: &Vec<String>, max_files: &Vec<String>) -> (r: Result<Self, CpuFreqError>)
        ensures
            ({
                let mins = frequencies(text::texts(min_files@));
                let maxs = frequencies(text::texts(max_files@));
                match r {
                    Ok(m) => {
                        &&& mins matches Some(v) && is_min(v, m.freq_range.0)
                        &&& maxs matches Some(v) && is_max(v, m.freq_range.1)
                    },
                    Err(e) => if mins is None {
                        e == CpuFreqError::Number
                    } else if min_files@.len() == 0 {
                        e == CpuFreqError::NoCore
                    } else if maxs is None {
                        e == CpuFreqError::Number
                    } else {
                        max_files@.len() == 0 && e == CpuFreqError::NoCore
                    },
                }
            }),
    {
        let mins = match read_frequencies(min_files) {
            Some(v) => v,
            None => {
                return Err(CpuFreqError::Number);
            },
        };
        if mins.len() == 0 {
            return Err(CpuFreqError::NoCore);
        }
        let low: u32 = find_min(&mins);
        let maxs = match read_frequencies(max_files) {
            Some(v) => v,
            None => {
                return Err(CpuFreqError::Number);
            },
        };
        if maxs.len() == 0 {
            return Err(CpuFreqError::NoCore);
        }
        Ok(CpuFreqModule { freq_range: (low, find_max(&maxs)) })
    }

    /// State from the files with the current frequencies of the cores.
    pub fn try_update(&self, files: &Vec<String>) -> (r: Result<CpuFreqModuleState, CpuFreqError>)
        requires
            frequencies(text::texts(files@)) matches Some(v) ==> sum(v) <= u32::MAX,
            files@.len() <= u32::MAX,
        ensures
            match r {
                Ok(s) => {
                    &&& files@.len() > 0
                    &&& frequencies(text::texts(files@)) matches Some(v) && {
                        &&& is_min(v, s.min_freq)
                        &&& is_max(v, s.max_freq)
                        &&& s.avg_freq == sum(v) / v.len()
                    }
                },
                Err(e) => if frequencies(text::texts(files@)) is None {
                    e == CpuFreqError::Number
                } else {
                    files@.len() == 0 && e == CpuFreqError::NoCore
                },
            },
    {
        let v = match read_frequencies(files) {
            Some(v) => v,
            None => {
                return Err(CpuFreqError::Number);
            },
        };
        if v.len() == 0 {
            return Err(CpuFreqError::NoCore);
        }
        let min_freq: u32 = find_min(&v);
        let max_freq: u32 = find_max(&v);
        let mut total: u32 = 0;
        let mut i: usize = 0;
        while i < v.len()
            invariant
                i <= v.len(),
                sum(v@) <= u32::MAX,
                total == sum(v@.take(i as int)),
            decreases v.len() - i,
        {
            assert(v@.take(i + 1).drop_last() =~= v@.take(i as int));
            proof {
                sum_grows(v@, i + 1);
            }
            total = total + v[i];
            i += 1;
        }
        assert(v@.take(i as int) =~= v@);
        Ok(CpuFreqModuleState { min_freq, max_freq, avg_freq: total / v.len() as u32 })
    }

    /// Whether the frequencies in some files can be added up.
    #[verifier::loop_isolation(false)]
    pub fn can_update(&self, files: &Vec<String>) -> (r: bool)
        ensures
            r == (files@.len() <= u32::MAX && (frequencies(text::texts(files@)) matches Some(v)
                ==> sum(v) <= u32::MAX)),
    {
        if files.len() as u64 > u32::MAX as u64 {
            return false;
        }
        match read_frequencies(files) {
            None => true,
            Some(v) => {
                let mut total: u64 = 0;
                let mut i: usize = 0;
                while i < v.len()
                    invariant
                        i <= v.len(),
                        total <= u32::MAX,
                        total == sum(v@.take(i as int)),
                    decreases v.len() - i,
                {
                    assert(v@.take(i + 1).drop_last() =~= v@.take(i as int));
                    total = total + v[i] as u64;
                    if total > u32::MAX as u64 {
                        proof {
                            sum_grows(v@, i + 1);
                        }
                        return false;
                    }
                    i += 1;
                }
                assert(v@.take(i as int) =~= v@);
                true
            },
        }
    }
}

/// Hundred times how far the average lies above the bottom of the range.
pub open spec fn load(range: (u32, u32), avg: u32) -> int {
    100 * (avg - range.0)
}

/// Color for how far up the range the average lies: above it, above four fifths, below one half.
pub open spec fn load_color(range: (u32, u32), avg: u32) -> Option<Color> {
    let width = range.1 - range.0;
    if load(range, avg) > 100 * width {
        Some(Color::Attention)
    } else if load(range, avg) > 80 * width {
        Some(Color::Notice)
    } else if load(range, avg) < 50 * width {
        Some(Color::Good)
    } else {
        None
    }
}

/// Gigahertz with one digit behind the point.
pub open spec fn gigahertz(freq: u32) -> Seq<char> {
    quotient::tenths_text(quotient::tenths_of(freq as nat, 1_000_000))
}

fn write_gigahertz(freq: u32) -> (r: String)
    ensures
        r@ == gigahertz(freq),
{
    quotient::one_decimal(quotient::tenths(freq, 1_000_000))
}

impl RenderablePolybarModule for CpuFreqModule {
    type State = Option<CpuFreqModuleState>;

    open spec fn renderable(&self, state: &Option<CpuFreqModuleState>) -> bool {
        match state {
            Some(s) => {
                &&& self.freq_range.0 <= s.avg_freq
                &&& load(self.freq_range, s.avg_freq) <= u32::MAX
                &&& self.freq_range.0 <= self.freq_range.1
            },
            None => true,
        }
    }

    open spec fn rendered(&self, state: &Option<CpuFreqModuleState>) -> Seq<char> {
        match state {
            Some(s) => markup::styled(
                Palette::SolarizedDark,
                gigahertz(s.min_freq) + "/"@ + gigahertz(s.avg_freq) + "/"@ + gigahertz(s.max_freq)
                    + " GHz"@,
                load_color(self.freq_range, s.avg_freq),
                None,
            ),
            None => markup::styled(
                Palette::SolarizedDark,
                ICON_WARNING@,
                Some(Color::Attention),
                None,
            ),
        }
    }

    fn can_render(&self, state: &Option<CpuFreqModuleState>) -> (r: bool) {
        match state {
            Some(s) => self.freq_range.0 <= s.avg_freq && 100 * (s.avg_freq - self.freq_range.0) as u64
                <= u32::MAX as u64 && self.freq_range.0 <= self.freq_range.1,
            None => true,
        }
    }

    fn render(&self, state: &Option<CpuFreqModuleState>) -> (r: String) {
        match state {
            Some(s) => {
                let above: u64 = 100 * (s.avg_freq - self.freq_range.0) as u64;
                let width: u64 = (self.freq_range.1 - self.freq_range.0) as u64;
                let color = if above > 100 * width {
                    Some(Color::Attention)
                } else if above > 80 * width {
                    Some(Color::Notice)
                } else if above < 50 * width {
                    Some(Color::Good)
                } else {
                    None
                };
                let mut t = write_gigahertz(s.min_freq);
                t.append("/");
                let avg = write_gigahertz(s.avg_freq);
                t.append(avg.as_str());
                t.append("/");
                let max = write_gigahertz(s.max_freq);
                t.append(max.as_str());
                t.append(" GHz");
                markup::style(Palette::SolarizedDark, t.as_str(), color, None)
            },
            None => markup::style(
                Palette::SolarizedDark,
                ICON_WARNING,
                Some(Color::Attention),
                None,
            ),
        }
    }
}

// What the figures stand for

/// A file with a number and a line feed holds that frequency.
pub proof fn files_hold_frequencies(n: nat)
    requires
        n <= u32::MAX,
    ensures
        frequency(numeral::decimal_text(n).push('\n')) == Some(n),
{
    numeral::lines_of_digits_are_read(n, u32::MAX as nat);
}

/// The frequencies are those of the files, in their order; there are none exactly if a file holds
/// none.
pub proof fn every_file_counts(files: Seq<Seq<char>>)
    ensures
        frequencies(files) is None <==> exists|i: int|
            0 <= i < files.len() && frequency(#[trigger] files[i]) is None,
        frequencies(files) matches Some(v) ==> v.len() == files.len() && forall|i: int|
            0 <= i < files.len() ==> frequency(#[trigger] files[i]) == Some(v[i] as nat),
    decreases files.len(),
{
    if files.len() > 0 {
        let before = files.drop_last();
        every_file_counts(before);
        if frequencies(before) is None {
            let i = choose|i: int| 0 <= i < before.len() && frequency(#[trigger] before[i]) is None;
            assert(files[i] == before[i]);
        } else {
            assert forall|i: int| 0 <= i < before.len() implies frequency(#[trigger] files[i])
                == Some(frequencies(before)->0[i] as nat) by {
                assert(files[i] == before[i]);
            }
            assert(files[files.len() - 1] == files.last());
            if frequency(files.last()) is Some {
                numeral::other_texts_are_no_numbers(
                    text::trimmed_end(files.last()),
                    u32::MAX as nat,
                    0,
                );
                let v = frequencies(files)->0;
                assert forall|i: int| 0 <= i < files.len() implies frequency(#[trigger] files[i])
                    == Some(v[i] as nat) by {
                    if i < before.len() {
                        assert(v[i] == frequencies(before)->0[i]);
                    }
                }
            }
        }
    }
}

/// The sum of two lists is that of the one and of the other.
pub proof fn sums_add_up(a: Seq<u32>, b: Seq<u32>, x: u32)
    ensures
        sum(a + b) == sum(a) + sum(b),
        sum(seq![x]) == x,
        sum(Seq::empty()) == 0,
    decreases b.len(),
{
    reveal_with_fuel(sum, 2);
    assert(seq![x].drop_last() =~= Seq::<u32>::empty());
    if b.len() == 0 {
        assert(a + b =~= a);
    } else {
        sums_add_up(a, b.drop_last(), x);
        assert((a + b).drop_last() =~= a + b.drop_last());
    }
}

/// The color tells how far up the range the average lies: it warns above the range, is less loud
/// above four fifths of it, and good below its middle.
pub proof fn the_color_tells_the_load(lo: u32, hi: u32, avg: u32)
    requires
        lo <= avg,
        lo <= hi,
    ensures
        load_color((lo, hi), avg) == Some(Color::Attention) <==> avg > hi,
        load_color((lo, hi), avg) == Some(Color::Notice) <==> avg <= hi && 5 * (avg - lo) > 4 * (hi
            - lo),
        load_color((lo, hi), avg) == Some(Color::Good) <==> 2 * (avg - lo) < hi - lo,
        load_color((lo, hi), avg) is None <==> 5 * (avg - lo) <= 4 * (hi - lo) && 2 * (avg - lo)
            >= hi - lo,
{
}

/// The lowest of some frequencies is one of them, and so is the highest; no other lies outside.
pub proof fn extremes_are_frequencies(v: Seq<u32>, x: u32, y: u32, i: int)
    requires
        is_min(v, x),
        is_max(v, y),
        0 <= i < v.len(),
    ensures
        x <= v[i] <= y,
        exists|j: int| 0 <= j < v.len() && #[trigger] v[j] == x,
        exists|j: int| 0 <= j < v.len() && #[trigger] v[j] == y,
{
}

}
