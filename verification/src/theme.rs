//! Colors, and the shortening of texts to what fits on a bar.

use vstd::prelude::*;

use crate::numeral;
use crate::text;

verus! {

/// Role of a color.
#[derive(Clone, Copy, Debug, PartialEq, Eq, Structural)]
pub enum Color {
    Foreground,
    MainIcon,
    Focused,
    Unfocused,
    Good,
    Notice,
    Attention,
    Critical,
}

/// Set of colors.
#[derive(Clone, Copy, Debug, PartialEq, Eq, Structural)]
pub enum Palette {
    SolarizedDark,
    OkSolar,
}

/// Red, green and blue of a color, one byte each.
pub open spec fn rgb_of(palette: Palette, color: Color) -> u32 {
    match palette {
        Palette::SolarizedDark => match color {
            Color::Foreground => 0x93a1a1,
            Color::MainIcon => 0xeee8d5,
            Color::Focused => 0x2aa198,
            Color::Unfocused => 0x657b83,
            Color::Good => 0x859900,
            Color::Notice => 0xb58900,
            Color::Attention => 0xcb4b16,
            Color::Critical => 0xdc322f,
        },
        Palette::OkSolar => match color {
            Color::Foreground => 0x8faaab,
            Color::MainIcon => 0xf1e9d2,
            Color::Focused => 0x259d94,
            Color::Unfocused => 0x657377,
            Color::Good => 0x819500,
            Color::Notice => 0xac8300,
            Color::Attention => 0xd56500,
            Color::Critical => 0xf23749,
        },
    }
}

impl Palette {
    /// Red, green and blue of a color, one byte each.
    pub fn rgb(self, color: Color) -> (r: u32)
        ensures
            r == rgb_of(self, color),
    {
        match self {
            Palette::SolarizedDark => match color {
                Color::Foreground => 0x93a1a1,
                Color::MainIcon => 0xeee8d5,
                Color::Focused => 0x2aa198,
                Color::Unfocused => 0x657b83,
                Color::Good => 0x859900,
                Color::Notice => 0xb58900,
                Color::Attention => 0xcb4b16,
                Color::Critical => 0xdc322f,
            },
            Palette::OkSolar => match color {
                Color::Foreground => 0x8faaab,
                Color::MainIcon => 0xf1e9d2,
                Color::Focused => 0x259d94,
                Color::Unfocused => 0x657377,
                Color::Good => 0x819500,
                Color::Notice => 0xac8300,
                Color::Attention => 0xd56500,
                Color::Critical => 0xf23749,
            },
        }
    }
}

pub const ICON_WARNING: &'static str = "\u{f071}";

/// The first `n` characters of `s`, or all of them.
pub open spec fn first_chars(s: Seq<char>, n: int) -> Seq<char> {
    if n < s.len() {
        s.take(n)
    } else {
        s
    }
}

/// Whether `s` can be shortened to `max_len` bytes: leaving room for the ellipsis takes one.
pub open spec fn can_shorten(s: Seq<char>, max_len: Option<usize>) -> bool {
    max_len == Some(0usize) ==> text::trimmed_end(s).len() == 0
}

/// `s` where it has at most `max_len` bytes; else `s` without trailing white space where that
/// has; else its first `max_len - 1` characters, without trailing white space, and an ellipsis.
pub open spec fn shortened(s: Seq<char>, max_len: Option<usize>) -> Seq<char> {
    match max_len {
        Some(n) => {
            let t = text::trimmed_end(s);
            if text::byte_len(s) <= n {
                s
            } else if text::byte_len(t) <= n {
                t
            } else {
                text::trimmed_end(first_chars(t, n - 1)).push('…')
            }
        },
        None => s,
    }
}

proof fn empty_has_no_bytes(s: Seq<char>)
    requires
        s.len() == 0,
    ensures
        text::byte_len(s) == 0,
{
}

/// Shortens a text to `max_len` bytes or characters, with an ellipsis where something but white
/// space is cut.
pub fn ellipsis(s: &str, max_len: Option<usize>) -> (r: String)
    requires
        can_shorten(s@, max_len),
    ensures
        r@ == shortened(s@, max_len),
{
    match max_len {
        Some(n) => {
            if text::len_bytes(s) > n {
                let t = text::trim_end(s);
                if text::len_bytes(t.as_str()) > n {
                    proof {
                        if n == 0 {
                            empty_has_no_bytes(t@);
                        }
                    }
                    let v = text::chars_of(t.as_str());
                    let keep: usize = if n - 1 < v.len() {
                        n - 1
                    } else {
                        v.len()
                    };
                    let cut = text::slice_text(&v, 0, keep);
                    assert(cut@ =~= first_chars(t@, n - 1));
                    let mut r = text::trim_end(cut.as_str());
                    r.push('…');
                    r
                } else {
                    t
                }
            } else {
                s.to_owned()
            }
        },
        None => s.to_owned(),
    }
}

/// Whether `s` can be shortened to `max_len`.
pub fn can_ellipsis(s: &str, max_len: Option<usize>) -> (r: bool)
    ensures
        r == can_shorten(s@, max_len),
{
    match max_len {
        Some(n) => n != 0 || {
            let t = text::trim_end(s);
            text::chars_of(t.as_str()).len() == 0
        },
        None => true,
    }
}

/// A shortened text has at most `max_len` characters, the ellipsis included.
pub proof fn shortened_is_short(s: Seq<char>, n: usize)
    requires
        can_shorten(s, Some(n)),
    ensures
        shortened(s, Some(n)).len() <= n,
{
    let t = text::trimmed_end(s);
    if text::byte_len(s) <= n {
        text::chars_take_bytes(s);
    } else if text::byte_len(t) <= n {
        text::chars_take_bytes(t);
    } else {
        if n == 0 {
            empty_has_no_bytes(t);
        }
        text::trimmed_end_is_tight(first_chars(t, n - 1));
    }
}

/// A text that fits stays as it is.
pub proof fn shortening_keeps_short_texts(s: Seq<char>, n: usize)
    requires
        text::byte_len(s) <= n,
    ensures
        shortened(s, Some(n)) == s,
{
}

/// `s` behind as many spaces as it lacks to `min_len` bytes.
pub open spec fn padded(s: Seq<char>, min_len: Option<usize>) -> Seq<char> {
    match min_len {
        Some(n) => if n > text::byte_len(s) {
            text::repeated(' ', (n - text::byte_len(s)) as nat) + s
        } else {
            s
        },
        None => s,
    }
}

/// Puts spaces in front of a text of less than `min_len` bytes.
pub fn pad(s: &str, min_len: Option<usize>) -> (r: String)
    ensures
        r@ == padded(s@, min_len),
{
    match min_len {
        Some(n) => {
            let len: usize = text::len_bytes(s);
            if n > len {
                let mut r = text::repeat_char(' ', n - len);
                r.append(s);
                r
            } else {
                s.to_owned()
            }
        },
        None => s.to_owned(),
    }
}

// Model names

pub open spec fn is_letter(c: char) -> bool {
    'a' <= c <= 'z' || 'A' <= c <= 'Z'
}

/// Whether a word looks like a model number: it starts with a letter and holds a digit.
pub open spec fn is_model(w: Seq<char>) -> bool {
    &&& w.len() > 0
    &&& is_letter(w[0])
    &&& exists|i: int| 0 <= i < w.len() && numeral::is_digit(#[trigger] w[i])
}

/// The first word that looks like a model number.
pub open spec fn model_word(words: Seq<Seq<char>>) -> Option<Seq<char>>
    decreases words.len(),
{
    if words.len() == 0 {
        None
    } else {
        match model_word(words.drop_last()) {
            Some(w) => Some(w),
            None => if is_model(words.last()) {
                Some(words.last())
            } else {
                None
            },
        }
    }
}

pub open spec fn all_upper(w: Seq<char>) -> bool {
    forall|i: int| 0 <= i < w.len() ==> 'A' <= #[trigger] w[i] <= 'Z'
}

/// What a word leaves in an acronym: all of it where it is in capitals, nothing where it starts
/// with a digit, else its first byte.
pub open spec fn initials(w: Seq<char>) -> Seq<char> {
    if all_upper(w) {
        w
    } else if !(w.len() > 0 && numeral::is_digit(w[0])) {
        text::truncated(w, 1)
    } else {
        Seq::empty()
    }
}

/// Whether the first byte of a word can be taken where [`initials`] wants it.
pub open spec fn has_initials(w: Seq<char>) -> bool {
    all_upper(w) || (w.len() > 0 && numeral::is_digit(w[0])) || text::can_truncate(w, 1)
}

/// What the words leave in an acronym, one after the other.
pub open spec fn acronym(words: Seq<Seq<char>>) -> Seq<char>
    decreases words.len(),
{
    if words.len() == 0 {
        Seq::empty()
    } else {
        acronym(words.drop_last()) + initials(words.last())
    }
}

pub open spec fn words_of(s: Seq<char>) -> Seq<Seq<char>> {
    text::fields(s, ' ', '-')
}

/// Whether a model name can be shortened: a word is a model number, or no character outside
/// ASCII stands where an initial is taken.
pub open spec fn has_short_name(s: Seq<char>) -> bool {
    model_word(words_of(s)) is Some || forall|i: int|
        0 <= i < words_of(s).len() ==> has_initials(#[trigger] words_of(s)[i])
}

/// Short form of a model name: the first word that looks like a model number, else an acronym.
pub open spec fn short_name(s: Seq<char>) -> Seq<char> {
    match model_word(words_of(s)) {
        Some(w) => w,
        None => acronym(words_of(s)),
    }
}

#[verifier::loop_isolation(false)]
fn looks_like_model(w: &str) -> (r: bool)
    ensures
        r == is_model(w@),
{
    let v = text::chars_of(w);
    if v.len() == 0 || !(('a' <= v[0] && v[0] <= 'z') || ('A' <= v[0] && v[0] <= 'Z')) {
        return false;
    }
    let mut i: usize = 0;
    while i < v.len()
        invariant
            i <= v.len(),
            v@ == w@,
            forall|j: int| 0 <= j < i ==> !numeral::is_digit(#[trigger] v@[j]),
        decreases v.len() - i,
    {
        if '0' <= v[i] && v[i] <= '9' {
            assert(numeral::is_digit(w@[i as int]));
            return true;
        }
        i += 1;
    }
    false
}

fn find_model(words: &Vec<String>) -> (r: Option<String>)
    ensures
        match r {
            Some(w) => model_word(text::texts(words@)) == Some(w@),
            None => model_word(text::texts(words@)) is None,
        },
{
    let ghost all = text::texts(words@);
    let mut i: usize = 0;
    while i < words.len()
        invariant
            i <= words.len(),
            all == text::texts(words@),
            model_word(all.take(i as int)) is None,
        decreases words.len() - i,
    {
        assert(all.take(i + 1).drop_last() =~= all.take(i as int));
        assert(all.take(i + 1).last() == words[i as int]@);
        if looks_like_model(words[i].as_str()) {
            proof {
                model_word_is_first(all, i + 1);
            }
            return Some(words[i].clone());
        }
        i += 1;
    }
    assert(all.take(i as int) =~= all);
    None
}

proof fn model_word_is_first(words: Seq<Seq<char>>, k: int)
    requires
        0 <= k <= words.len(),
        model_word(words.take(k)) is Some,
    ensures
        model_word(words) == model_word(words.take(k)),
    decreases words.len() - k,
{
    if k < words.len() {
        assert(words.take(k + 1).drop_last() =~= words.take(k));
        model_word_is_first(words, k + 1);
    } else {
        assert(words.take(k) =~= words);
    }
}

fn is_upper(v: &Vec<char>) -> (r: bool)
    ensures
        r == all_upper(v@),
{
    let mut i: usize = 0;
    while i < v.len()
        invariant
            i <= v.len(),
            forall|j: int| 0 <= j < i ==> 'A' <= #[trigger] v@[j] <= 'Z',
        decreases v.len() - i,
    {
        if v[i] < 'A' || v[i] > 'Z' {
            assert(!('A' <= v@[i as int] <= 'Z'));
            return false;
        }
        i += 1;
    }
    true
}

fn word_initials(w: &str) -> (r: String)
    ensures
        r@ == initials(w@),
{
    let v = text::chars_of(w);
    if is_upper(&v) {
        w.to_owned()
    } else if !(v.len() > 0 && '0' <= v[0] && v[0] <= '9') {
        text::truncate(w, 1)
    } else {
        String::new()
    }
}

/// Shortens the model name of a device (mouse, headset...).
pub fn shorten_model_name(s: &str) -> (r: String)
    requires
        has_short_name(s@),
    ensures
        r@ == short_name(s@),
{
    let words = text::split_either(s, ' ', '-');
    match find_model(&words) {
        Some(w) => w,
        None => {
            let ghost all = text::texts(words@);
            let mut r = String::new();
            let mut i: usize = 0;
            while i < words.len()
                invariant
                    i <= words.len(),
                    all == text::texts(words@),
                    r@ == acronym(all.take(i as int)),
                decreases words.len() - i,
            {
                assert(all.take(i + 1).drop_last() =~= all.take(i as int));
                assert(all.take(i + 1).last() == words[i as int]@);
                let part = word_initials(words[i].as_str());
                r.append(part.as_str());
                i += 1;
            }
            assert(all.take(i as int) =~= all);
            r
        },
    }
}

/// Whether a model name can be shortened.
#[verifier::loop_isolation(false)]
pub fn can_shorten_model_name(s: &str) -> (r: bool)
    ensures
        r == has_short_name(s@),
{
    let words = text::split_either(s, ' ', '-');
    let ghost all = text::texts(words@);
    if find_model(&words).is_some() {
        return true;
    }
    let mut i: usize = 0;
    while i < words.len()
        invariant
            i <= words.len(),
            all == text::texts(words@),
            forall|j: int| 0 <= j < i ==> has_initials(#[trigger] all[j]),
        decreases words.len() - i,
    {
        let w = words[i].as_str();
        assert(all[i as int] == w@);
        let v = text::chars_of(w);
        if !(is_upper(&v) || (v.len() > 0 && '0' <= v[0] && v[0] <= '9') || text::truncates(w, 1)) {
            assert(!has_initials(all[i as int]));
            return false;
        }
        i += 1;
    }
    true
}

/// The colors of the two palettes, as red, green and blue.
pub proof fn palettes_have_their_colors()
    ensures
        rgb_of(Palette::SolarizedDark, Color::Foreground) == 0x93a1a1,
        rgb_of(Palette::SolarizedDark, Color::MainIcon) == 0xeee8d5,
        rgb_of(Palette::SolarizedDark, Color::Focused) == 0x2aa198,
        rgb_of(Palette::SolarizedDark, Color::Unfocused) == 0x657b83,
        rgb_of(Palette::SolarizedDark, Color::Good) == 0x859900,
        rgb_of(Palette::SolarizedDark, Color::Notice) == 0xb58900,
        rgb_of(Palette::SolarizedDark, Color::Attention) == 0xcb4b16,
        rgb_of(Palette::SolarizedDark, Color::Critical) == 0xdc322f,
        rgb_of(Palette::OkSolar, Color::Foreground) == 0x8faaab,
        rgb_of(Palette::OkSolar, Color::MainIcon) == 0xf1e9d2,
        rgb_of(Palette::OkSolar, Color::Focused) == 0x259d94,
        rgb_of(Palette::OkSolar, Color::Unfocused) == 0x657377,
        rgb_of(Palette::OkSolar, Color::Good) == 0x819500,
        rgb_of(Palette::OkSolar, Color::Notice) == 0xac8300,
        rgb_of(Palette::OkSolar, Color::Attention) == 0xd56500,
        rgb_of(Palette::OkSolar, Color::Critical) == 0xf23749,
{
}

/// A text that is too long is cut to a start of it with an ellipsis; what is cut is no more than it
/// takes, but for white space.
pub proof fn shortened_texts_start_alike(s: Seq<char>, n: usize)
    requires
        text::byte_len(text::trimmed_end(s)) > n,
        n > 0,
    ensures
        shortened(s, Some(n)).len() > 0,
        shortened(s, Some(n)).last() == '…',
        text::has_prefix(s, shortened(s, Some(n)).drop_last()),
        shortened(s, Some(n)).drop_last() == text::trimmed_end(
            s.take(
                if n - 1 < text::trimmed_end(s).len() {
                    n - 1
                } else {
                    text::trimmed_end(s).len() as int
                },
            ),
        ),
        shortened(s, None) == s,
{
    let t = text::trimmed_end(s);
    text::trimmed_end_is_tight(s);
    text::byte_len_take(s, t.len() as int);
    let c = first_chars(t, n - 1);
    let k = if n - 1 < t.len() {
        n - 1
    } else {
        t.len() as int
    };
    assert(c =~= s.take(k));
    text::trimmed_end_is_tight(c);
    let r = text::trimmed_end(c);
    assert(r.push('…').drop_last() =~= r);
    assert(s.take(r.len() as int) =~= r) by {
        assert(s.take(k).take(r.len() as int) =~= s.take(r.len() as int));
    }
}

/// White space at the end is what is cut first.
pub proof fn white_space_is_cut_first(s: Seq<char>, n: usize)
    requires
        text::byte_len(s) > n,
        text::byte_len(text::trimmed_end(s)) <= n,
    ensures
        shortened(s, Some(n)) == text::trimmed_end(s),
{
}

/// Spaces in front fill a text up to the length, and no more.
pub proof fn spaces_fill_up(s: Seq<char>, n: usize, i: int)
    ensures
        text::has_suffix(padded(s, Some(n)), s),
        padded(s, Some(n)).len() - s.len() == if n > text::byte_len(s) {
            n - text::byte_len(s)
        } else {
            0
        },
        0 <= i < padded(s, Some(n)).len() - s.len() ==> padded(s, Some(n))[i] == ' ',
        padded(s, None) == s,
{
    let r = padded(s, Some(n));
    assert(r.skip(r.len() - s.len()) =~= s);
}

/// A word is a model number exactly if it starts with a letter and holds a digit.
pub proof fn model_numbers_have_letters_and_digits(w: Seq<char>)
    ensures
        is_model(w) <==> w.len() > 0 && ('a' <= w[0] <= 'z' || 'A' <= w[0] <= 'Z') && exists|i: int|
            0 <= i < w.len() && '0' <= #[trigger] w[i] <= '9',
{
    if exists|i: int| 0 <= i < w.len() && '0' <= #[trigger] w[i] <= '9' {
        let i = choose|i: int| 0 <= i < w.len() && '0' <= #[trigger] w[i] <= '9';
        assert(numeral::is_digit(w[i]));
    }
    if is_model(w) {
        let i = choose|i: int| 0 <= i < w.len() && numeral::is_digit(#[trigger] w[i]);
        assert('0' <= w[i] <= '9');
    }
}

/// The first model number is the short name, whatever stands around it; without one, it is the
/// acronym of the words.
pub proof fn the_first_model_number_is_the_name(
    before: Seq<Seq<char>>,
    w: Seq<char>,
    rest: Seq<Seq<char>>,
)
    requires
        forall|i: int| 0 <= i < before.len() ==> !is_model(#[trigger] before[i]),
    ensures
        is_model(w) ==> model_word(before + seq![w] + rest) == Some(w),
        model_word(before) is None,
    decreases before.len(),
{
    if before.len() > 0 {
        assert forall|i: int| 0 <= i < before.drop_last().len() implies !is_model(
            #[trigger] before.drop_last()[i],
        ) by {
            assert(before.drop_last()[i] == before[i]);
        }
        the_first_model_number_is_the_name(before.drop_last(), w, rest);
        assert(!is_model(before[before.len() - 1]));
    }
    if is_model(w) {
        let all = before + seq![w] + rest;
        let k = before.len() as int + 1;
        assert(all.take(k).drop_last() =~= before);
        assert(all.take(k).last() == w);
        model_word_is_first(all, k);
    }
}

/// An acronym is made of what each word leaves in it: a word in capitals all of it, one that starts
/// with a digit nothing, and any other its first letter.
pub proof fn words_leave_their_initials(a: Seq<Seq<char>>, b: Seq<Seq<char>>, w: Seq<char>)
    ensures
        acronym(a + b) == acronym(a) + acronym(b),
        acronym(seq![w]) == initials(w),
        (forall|i: int| 0 <= i < w.len() ==> 'A' <= #[trigger] w[i] <= 'Z') ==> initials(w) == w,
        w.len() > 0 && '0' <= w[0] <= '9' ==> initials(w).len() == 0,
        w.len() > 0 && 'a' <= w[0] <= 'z' ==> initials(w) == seq![w[0]],
        w.len() > 1 && 'A' <= w[0] <= 'Z' && 'a' <= w[1] <= 'z' ==> initials(w) == seq![w[0]],
    decreases b.len(),
{
    reveal_with_fuel(acronym, 2);
    assert(seq![w].drop_last() =~= Seq::<Seq<char>>::empty());
    assert(acronym(seq![w]) =~= initials(w));
    if w.len() > 0 && '0' <= w[0] <= '9' {
        assert(!('A' <= w[0] <= 'Z'));
        assert(numeral::is_digit(w[0]));
    }
    if w.len() > 0 && ('a' <= w[0] <= 'z' || 'A' <= w[0] <= 'Z') {
        let e = Seq::<char>::empty();
        text::truncation_keeps_the_longest_start(w, 1, 1);
        text::byte_len_push(e, w[0]);
        empty_has_no_bytes(e);
        assert(w.take(1) =~= e.push(w[0]));
        let t = text::truncated(w, 1);
        text::chars_take_bytes(t);
        assert(t.len() == 1);
        assert(w.take(1) =~= t);
        assert(t =~= seq![w[0]]);
        assert(!numeral::is_digit(w[0]));
        if 'a' <= w[0] <= 'z' {
            assert(!all_upper(w));
        }
        if w.len() > 1 && 'a' <= w[1] <= 'z' {
            assert(!all_upper(w));
        }
    }
    if b.len() == 0 {
        assert(a + b =~= a);
        assert(acronym(a) + acronym(b) =~= acronym(a));
    } else {
        words_leave_their_initials(a, b.drop_last(), w);
        assert((a + b).drop_last() =~= a + b.drop_last());
        assert(acronym(a + b) =~= acronym(a) + acronym(b));
    }
}

/// A space or a hyphen parts the words of a name.
pub proof fn spaces_and_hyphens_part_words(a: Seq<char>, b: Seq<char>, w: Seq<char>)
    ensures
        words_of(a + seq![' '] + b) == words_of(a) + words_of(b),
        words_of(a + seq!['-'] + b) == words_of(a) + words_of(b),
        !w.contains(' ') && !w.contains('-') ==> words_of(w) == seq![w],
    decreases w.len(),
{
    text::either_separator_parts(a, b, ' ', ' ', '-');
    text::either_separator_parts(a, b, '-', ' ', '-');
    if !w.contains(' ') && !w.contains('-') {
        if w.len() > 0 {
            let t = w.drop_last();
            assert(w.contains(w.last()));
            assert forall|i: int| 0 <= i < t.len() implies t[i] != ' ' && t[i] != '-' by {
                assert(w.contains(w[i]));
            }
            spaces_and_hyphens_part_words(a, b, t);
            assert(t.push(w.last()) =~= w);
            assert(words_of(w) =~= seq![w]);
        } else {
            assert(w =~= Seq::empty());
            assert(words_of(w) =~= seq![w]);
        }
    }
}

/// A name with a model number is shortened to it, and one without to its acronym.
pub proof fn names_are_shortened(s: Seq<char>, i: int)
    requires
        0 <= i < words_of(s).len(),
        forall|j: int| 0 <= j < i ==> !is_model(#[trigger] words_of(s)[j]),
    ensures
        is_model(words_of(s)[i]) ==> short_name(s) == words_of(s)[i],
        i == words_of(s).len() - 1 && !is_model(words_of(s)[i]) ==> short_name(s) == acronym(
            words_of(s),
        ),
{
    let words = words_of(s);
    let before = words.take(i);
    assert forall|j: int| 0 <= j < before.len() implies !is_model(#[trigger] before[j]) by {
        assert(before[j] == words[j]);
    }
    the_first_model_number_is_the_name(before, words[i], words.skip(i + 1));
    assert(words =~= before + seq![words[i]] + words.skip(i + 1));
    if i == words.len() - 1 && !is_model(words[i]) {
        assert forall|j: int| 0 <= j < words.len() implies !is_model(#[trigger] words[j]) by {}
        the_first_model_number_is_the_name(words, words[i], Seq::empty());
    }
}

}
