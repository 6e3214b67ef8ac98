//! Text primitives: every string is seen as its sequence of characters.

use vstd::prelude::*;

verus! {

/// Appends `ch` to the string; std documents exactly this.
pub assume_specification[ String::push ](s: &mut String, ch: char)
    ensures
        final(s)@ == old(s)@.push(ch),
;

/// Contents of a list of strings.
pub open spec fn texts(v: Seq<String>) -> Seq<Seq<char>> {
    Seq::new(v.len(), |i: int| v[i]@)
}

/// Pushing a string pushes its contents.
pub broadcast proof fn texts_push(v: Seq<String>, s: String)
    ensures
        #[trigger] texts(v.push(s)) == texts(v).push(s@),
{
    assert(texts(v.push(s)) =~= texts(v).push(s@));
}

/// Characters of `s`, in order.
pub fn chars_of(s: &str) -> (r: Vec<char>)
    ensures
        r@ == s@,
{
    let mut r: Vec<char> = Vec::new();
    for c in it: s.chars()
        invariant
            r@ == it.seq().take(it.index() as int),
            it.seq() == s@,
    {
        r.push(c);
    }
    r
}

/// String made of the characters `from..to` of `v`.
pub fn slice_text(v: &Vec<char>, from: usize, to: usize) -> (r: String)
    requires
        from <= to <= v.len(),
    ensures
        r@ == v@.subrange(from as int, to as int),
{
    let mut r = String::new();
    let mut i: usize = from;
    while i < to
        invariant
            from <= i <= to <= v.len(),
            r@ == v@.subrange(from as int, i as int),
        decreases to - i,
    {
        r.push(v[i]);
        i += 1;
    }
    r
}

/// Whether two strings hold the same characters.
pub fn same(a: &str, b: &str) -> (r: bool)
    ensures
        r == (a@ == b@),
{
    a.to_owned() == b.to_owned()
}

/// Whether `t` is one of the strings of the list.
pub fn contains_text(v: &Vec<String>, t: &str) -> (r: bool)
    ensures
        r == texts(v@).contains(t@),
{
    let mut i: usize = 0;
    while i < v.len()
        invariant
            i <= v.len(),
            forall|j: int| 0 <= j < i ==> texts(v@)[j] != t@,
        decreases v.len() - i,
    {
        if same(v[i].as_str(), t) {
            assert(texts(v@)[i as int] == t@);
            return true;
        }
        i += 1;
    }
    false
}

// White space

/// The characters with the Unicode `White_Space` property.
pub open spec fn is_space(c: char) -> bool {
    ||| '\u{9}' <= c <= '\u{d}'
    ||| c == ' '
    ||| c == '\u{85}'
    ||| c == '\u{a0}'
    ||| c == '\u{1680}'
    ||| '\u{2000}' <= c <= '\u{200a}'
    ||| c == '\u{2028}'
    ||| c == '\u{2029}'
    ||| c == '\u{202f}'
    ||| c == '\u{205f}'
    ||| c == '\u{3000}'
}

/// Whether `c` is white space.
pub fn is_whitespace(c: char) -> (r: bool)
    ensures
        r == is_space(c),
{
    ('\u{9}' <= c && c <= '\u{d}') || c == ' ' || c == '\u{85}' || c == '\u{a0}' || c == '\u{1680}'
        || ('\u{2000}' <= c && c <= '\u{200a}') || c == '\u{2028}' || c == '\u{2029}' || c
        == '\u{202f}' || c == '\u{205f}' || c == '\u{3000}'
}

/// `s` without its trailing white space.
pub open spec fn trimmed_end(s: Seq<char>) -> Seq<char>
    decreases s.len(),
{
    if s.len() > 0 && is_space(s.last()) {
        trimmed_end(s.drop_last())
    } else {
        s
    }
}

/// `s` without its leading white space.
pub open spec fn trimmed_start(s: Seq<char>) -> Seq<char>
    decreases s.len(),
{
    if s.len() > 0 && is_space(s[0]) {
        trimmed_start(s.skip(1))
    } else {
        s
    }
}

/// `s` without its leading and trailing white space.
pub open spec fn trimmed(s: Seq<char>) -> Seq<char> {
    trimmed_start(trimmed_end(s))
}

/// Removes the trailing white space.
pub fn trim_end(s: &str) -> (r: String)
    ensures
        r@ == trimmed_end(s@),
{
    let v = chars_of(s);
    let mut n: usize = v.len();
    assert(v@.take(n as int) =~= s@);
    while n > 0 && is_whitespace(v[n - 1])
        invariant
            n <= v.len(),
            v@ == s@,
            trimmed_end(v@.take(n as int)) == trimmed_end(s@),
        decreases n,
    {
        assert(v@.take(n as int).drop_last() =~= v@.take(n - 1));
        n -= 1;
    }
    slice_text(&v, 0, n)
}

/// Removes the leading white space.
pub fn trim_start(s: &str) -> (r: String)
    ensures
        r@ == trimmed_start(s@),
{
    let v = chars_of(s);
    let mut n: usize = 0;
    assert(v@.skip(0) =~= s@);
    while n < v.len() && is_whitespace(v[n])
        invariant
            n <= v.len(),
            v@ == s@,
            trimmed_start(v@.skip(n as int)) == trimmed_start(s@),
        decreases v.len() - n,
    {
        assert(v@.skip(n as int).skip(1) =~= v@.skip(n + 1));
        n += 1;
    }
    assert(v@.subrange(n as int, v.len() as int) =~= v@.skip(n as int));
    let m: usize = v.len();
    slice_text(&v, n, m)
}

/// Removes the leading and trailing white space.
pub fn trim(s: &str) -> (r: String)
    ensures
        r@ == trimmed(s@),
{
    let t = trim_end(s);
    trim_start(t.as_str())
}

/// Trimming leaves a prefix that does not end in white space.
pub proof fn trimmed_end_is_tight(s: Seq<char>)
    ensures
        trimmed_end(s).len() <= s.len(),
        trimmed_end(s) == s.take(trimmed_end(s).len() as int),
        trimmed_end(s).len() > 0 ==> !is_space(trimmed_end(s).last()),
        forall|i: int| trimmed_end(s).len() <= i < s.len() ==> is_space(#[trigger] s[i]),
    decreases s.len(),
{
    if s.len() > 0 && is_space(s.last()) {
        trimmed_end_is_tight(s.drop_last());
        let n = trimmed_end(s).len() as int;
        assert(s.drop_last().take(n) =~= s.take(n));
        assert forall|i: int| n <= i < s.len() implies is_space(#[trigger] s[i]) by {
            if i < s.len() - 1 {
                assert(s.drop_last()[i] == s[i]);
            }
        }
    } else {
        assert(s.take(s.len() as int) =~= s);
    }
}

// Splitting and joining

/// Fields of `s` separated by the characters `a` and `b`: a separator starts a new field, any
/// other character extends the last one.
pub open spec fn fields(s: Seq<char>, a: char, b: char) -> Seq<Seq<char>>
    decreases s.len(),
{
    if s.len() == 0 {
        seq![Seq::<char>::empty()]
    } else {
        let done = fields(s.drop_last(), a, b);
        if s.last() == a || s.last() == b {
            done.push(Seq::empty())
        } else {
            done.drop_last().push(done.last().push(s.last()))
        }
    }
}

/// Fields of `s` separated by `sep`.
pub open spec fn fields_of(s: Seq<char>, sep: char) -> Seq<Seq<char>> {
    fields(s, sep, sep)
}

/// There is always at least one field.
pub proof fn fields_nonempty(s: Seq<char>, a: char, b: char)
    ensures
        fields(s, a, b).len() >= 1,
    decreases s.len(),
{
    if s.len() > 0 {
        fields_nonempty(s.drop_last(), a, b);
    }
}

/// Splits at every `a` and `b`.
pub fn split_either(s: &str, a: char, b: char) -> (r: Vec<String>)
    ensures
        texts(r@) == fields(s@, a, b),
        r.len() >= 1,
{
    let mut done: Vec<String> = Vec::new();
    let mut cur = String::new();
    assert(texts(done@).push(cur@) =~= fields(s@.take(0), a, b));
    for c in it: s.chars()
        invariant
            it.seq() == s@,
            texts(done@).push(cur@) == fields(s@.take(it.index() as int), a, b),
    {
        let ghost i = it.index() as int;
        let ghost before = texts(done@);
        assert(s@.take(i + 1).drop_last() =~= s@.take(i));
        assert(s@.take(i + 1).last() == c);
        if c == a || c == b {
            done.push(cur);
            assert(texts(done@) =~= fields(s@.take(i), a, b));
            cur = String::new();
            assert(texts(done@).push(cur@) =~= fields(s@.take(i + 1), a, b));
        } else {
            let ghost old_cur = cur@;
            cur.push(c);
            assert(before.push(old_cur).drop_last() =~= before);
            assert(texts(done@).push(cur@) =~= fields(s@.take(i + 1), a, b));
        }
    }
    assert(s@.take(s@.len() as int) =~= s@);
    let ghost before = texts(done@);
    done.push(cur);
    assert(texts(done@) =~= before.push(cur@));
    done
}

/// Splits at every `sep`.
pub fn split(s: &str, sep: char) -> (r: Vec<String>)
    ensures
        texts(r@) == fields_of(s@, sep),
        r.len() >= 1,
{
    split_either(s, sep, sep)
}

/// A line without the carriage return of its line ending.
pub open spec fn without_cr(l: Seq<char>) -> Seq<char> {
    if l.len() > 0 && l.last() == '\r' {
        l.drop_last()
    } else {
        l
    }
}

/// Lines of `s`: each ends in a line feed, possibly after a carriage return; the last line ending
/// is optional.
pub open spec fn line_seq(s: Seq<char>) -> Seq<Seq<char>> {
    let parts = fields_of(s, '\n');
    let ended = parts.drop_last();
    let body = Seq::new(ended.len(), |i: int| without_cr(ended[i]));
    if parts.last().len() == 0 {
        body
    } else {
        body.push(parts.last())
    }
}

fn strip_cr(l: &str) -> (r: String)
    ensures
        r@ == without_cr(l@),
{
    let v = chars_of(l);
    let n: usize = v.len();
    if n > 0 && v[n - 1] == '\r' {
        assert(v@.subrange(0, n - 1) =~= l@.drop_last());
        slice_text(&v, 0, n - 1)
    } else {
        l.to_owned()
    }
}

/// Lines of `s`.
pub fn lines(s: &str) -> (r: Vec<String>)
    ensures
        texts(r@) == line_seq(s@),
{
    let parts = split(s, '\n');
    let n: usize = parts.len();
    let mut r: Vec<String> = Vec::new();
    let mut i: usize = 0;
    let ghost fs = fields_of(s@, '\n');
    let ghost ended = fs.drop_last();
    let ghost body = Seq::new(ended.len(), |i: int| without_cr(ended[i]));
    while i < n - 1
        invariant
            n == parts.len(),
            n >= 1,
            i <= n - 1,
            texts(parts@) == fs,
            ended == fs.drop_last(),
            body == Seq::new(ended.len(), |i: int| without_cr(ended[i])),
            texts(r@) == body.take(i as int),
        decreases n - i,
    {
        assert(fs[i as int] == parts[i as int]@);
        let line = strip_cr(parts[i].as_str());
        proof {
            texts_push(r@, line);
        }
        r.push(line);
        i += 1;
        assert(texts(r@) =~= body.take(i as int));
    }
    assert(body.take(i as int) =~= body);
    assert(fs.last() == parts[n - 1]@);
    if !parts[n - 1].as_str().is_empty() {
        r.push(parts[n - 1].clone());
        assert(texts(r@) =~= body.push(fs.last()));
    }
    r
}

/// The parts one after the other, with `sep` in between.
pub open spec fn joined(parts: Seq<Seq<char>>, sep: Seq<char>) -> Seq<char>
    decreases parts.len(),
{
    if parts.len() == 0 {
        Seq::empty()
    } else if parts.len() == 1 {
        parts[0]
    } else {
        joined(parts.drop_last(), sep) + sep + parts.last()
    }
}

/// Joins the parts with `sep` in between.
pub fn join(parts: &Vec<String>, sep: &str) -> (r: String)
    ensures
        r@ == joined(texts(parts@), sep@),
{
    let mut r = String::new();
    let mut i: usize = 0;
    let ghost ps = texts(parts@);
    while i < parts.len()
        invariant
            i <= parts.len(),
            ps == texts(parts@),
            r@ == joined(ps.take(i as int), sep@),
        decreases parts.len() - i,
    {
        if i > 0 {
            r.append(sep);
        }
        r.append(parts[i].as_str());
        i += 1;
        assert(ps.take(i as int).drop_last() =~= ps.take(i - 1));
        assert(ps.take(i as int).last() == parts[i - 1]@);
    }
    assert(ps.take(i as int) =~= ps);
    r
}

/// Joining the fields of a text with their separator gives the text back.
pub proof fn join_undoes_split(s: Seq<char>, sep: char)
    ensures
        joined(fields_of(s, sep), seq![sep]) == s,
    decreases s.len(),
{
    if s.len() == 0 {
        assert(joined(fields_of(s, sep), seq![sep]) =~= s);
    } else {
        let t = s.drop_last();
        join_undoes_split(t, sep);
        fields_nonempty(t, sep, sep);
        let done = fields_of(t, sep);
        let all = fields_of(s, sep);
        assert(all.drop_last() =~= if s.last() == sep {
            done
        } else {
            done.drop_last()
        });
        if s.last() == sep {
            assert(joined(all, seq![sep]) =~= t.push(sep));
        } else {
            if done.len() == 1 {
                assert(joined(all, seq![sep]) =~= s);
            } else {
                assert(joined(all, seq![sep]) =~= joined(done.drop_last(), seq![sep]) + seq![sep]
                    + done.last().push(s.last()));
                assert(joined(all, seq![sep]) =~= joined(done, seq![sep]).push(s.last()));
            }
        }
        assert(t.push(s.last()) =~= s);
    }
}

/// No field of a split text holds a separator.
pub proof fn split_leaves_no_separator(s: Seq<char>, a: char, b: char, k: int)
    requires
        0 <= k < fields(s, a, b).len(),
    ensures
        !fields(s, a, b)[k].contains(a),
        !fields(s, a, b)[k].contains(b),
    decreases s.len(),
{
    if s.len() > 0 {
        let t = s.drop_last();
        fields_nonempty(t, a, b);
        let done = fields(t, a, b);
        let last = done.len() - 1;
        if k < last {
            split_leaves_no_separator(t, a, b, k);
        } else if k == last {
            split_leaves_no_separator(t, a, b, k);
            if s.last() != a && s.last() != b {
                let f = fields(s, a, b)[k];
                assert(f =~= done[k].push(s.last()));
                if f.contains(a) {
                    let i = choose|i: int| 0 <= i < f.len() && f[i] == a;
                    assert(done[k][i] == a);
                }
                if f.contains(b) {
                    let i = choose|i: int| 0 <= i < f.len() && f[i] == b;
                    assert(done[k][i] == b);
                }
            }
        }
    }
}

/// `s` in front of and behind the first `sep`, where there is one.
pub open spec fn cut_at(s: Seq<char>, sep: char) -> Option<(Seq<char>, Seq<char>)>
    decreases s.len(),
{
    if s.len() == 0 {
        None
    } else if s[0] == sep {
        Some((Seq::empty(), s.skip(1)))
    } else {
        match cut_at(s.skip(1), sep) {
            Some((a, b)) => Some((seq![s[0]] + a, b)),
            None => None,
        }
    }
}

/// Cuts `s` at the first `sep`.
pub fn cut(s: &str, sep: char) -> (r: Option<(String, String)>)
    ensures
        match r {
            Some((a, b)) => cut_at(s@, sep) == Some((a@, b@)),
            None => cut_at(s@, sep) is None,
        },
{
    let v = chars_of(s);
    let n: usize = v.len();
    let mut i: usize = 0;
    assert(v@.skip(0) =~= s@);
    while i < n && v[i] != sep
        invariant
            i <= n,
            n == v.len(),
            v@ == s@,
            cut_at(v@.skip(i as int), sep) is None <==> cut_at(s@, sep) is None,
            match cut_at(v@.skip(i as int), sep) {
                Some((a, b)) => cut_at(s@, sep) == Some((v@.take(i as int) + a, b)),
                None => true,
            },
        decreases n - i,
    {
        let ghost rest = v@.skip(i as int);
        assert(rest.skip(1) =~= v@.skip(i + 1));
        proof {
            if let Some((a, b)) = cut_at(v@.skip(i + 1), sep) {
                assert(v@.take(i as int) + (seq![rest[0]] + a) =~= v@.take(i + 1) + a);
            }
        }
        i += 1;
    }
    if i >= n {
        None
    } else {
        assert(v@.skip(i as int).skip(1) =~= v@.skip(i + 1));
        assert(v@.take(i as int) + Seq::<char>::empty() =~= v@.take(i as int));
        let a = slice_text(&v, 0, i);
        let b = slice_text(&v, i + 1, n);
        assert(a@ =~= v@.take(i as int));
        assert(b@ =~= v@.skip(i + 1));
        Some((a, b))
    }
}

/// Putting the separator back between the two parts gives the text back, and the first part holds
/// no separator.
pub proof fn cut_keeps_everything(s: Seq<char>, sep: char)
    ensures
        match cut_at(s, sep) {
            Some((a, b)) => s == a + seq![sep] + b && !a.contains(sep),
            None => !s.contains(sep),
        },
    decreases s.len(),
{
    if s.len() > 0 {
        if s[0] == sep {
            assert(s =~= Seq::<char>::empty() + seq![sep] + s.skip(1));
        } else {
            cut_keeps_everything(s.skip(1), sep);
            match cut_at(s.skip(1), sep) {
                Some((a, b)) => {
                    assert(s =~= seq![s[0]] + s.skip(1));
                    assert(s =~= (seq![s[0]] + a) + seq![sep] + b);
                    let f = seq![s[0]] + a;
                    if f.contains(sep) {
                        let i = choose|i: int| 0 <= i < f.len() && f[i] == sep;
                        assert(a[i - 1] == sep);
                    }
                },
                None => {
                    if s.contains(sep) {
                        let i = choose|i: int| 0 <= i < s.len() && s[i] == sep;
                        assert(s.skip(1)[i - 1] == sep);
                    }
                },
            }
        }
    }
}

/// The first line that starts with `p`.
pub open spec fn first_line_with(lines: Seq<Seq<char>>, p: Seq<char>) -> Option<Seq<char>>
    decreases lines.len(),
{
    if lines.len() == 0 {
        None
    } else if has_prefix(lines[0], p) {
        Some(lines[0])
    } else {
        first_line_with(lines.skip(1), p)
    }
}

/// Finds the first line that starts with `p`.
pub fn find_line(lines: &Vec<String>, p: &str) -> (r: Option<String>)
    ensures
        match r {
            Some(l) => first_line_with(texts(lines@), p@) == Some(l@),
            None => first_line_with(texts(lines@), p@) is None,
        },
{
    let ghost all = texts(lines@);
    let mut i: usize = 0;
    assert(all.skip(0) =~= all);
    while i < lines.len()
        invariant
            i <= lines.len(),
            all == texts(lines@),
            first_line_with(all, p@) == first_line_with(all.skip(i as int), p@),
        decreases lines.len() - i,
    {
        assert(all.skip(i as int)[0] == lines[i as int]@);
        assert(all.skip(i as int).skip(1) =~= all.skip(i + 1));
        if starts_with(lines[i].as_str(), p) {
            return Some(lines[i].clone());
        }
        i += 1;
    }
    None
}

// Prefixes, suffixes, substrings

/// Whether `s` starts with `p`.
pub open spec fn has_prefix(s: Seq<char>, p: Seq<char>) -> bool {
    p.len() <= s.len() && s.take(p.len() as int) == p
}

/// Whether `s` ends with `p`.
pub open spec fn has_suffix(s: Seq<char>, p: Seq<char>) -> bool {
    p.len() <= s.len() && s.skip(s.len() - p.len()) == p
}

/// Whether `p` occurs in `s` at position `i`.
pub open spec fn occurs_at(s: Seq<char>, p: Seq<char>, i: int) -> bool {
    0 <= i <= s.len() - p.len() && s.subrange(i, i + p.len()) == p
}

/// Whether `p` occurs somewhere in `s`.
pub open spec fn has_part(s: Seq<char>, p: Seq<char>) -> bool {
    exists|i: int| occurs_at(s, p, i)
}

/// Whether the characters of `p` stand in `v` from position `at` on.
pub fn matches_at(v: &Vec<char>, p: &Vec<char>, at: usize) -> (r: bool)
    ensures
        r == occurs_at(v@, p@, at as int),
{
    if v.len() < p.len() || at > v.len() - p.len() {
        return false;
    }
    let mut i: usize = 0;
    while i < p.len()
        invariant
            at <= v.len() - p.len(),
            i <= p.len(),
            forall|j: int| 0 <= j < i ==> v@[at + j] == p@[j],
        decreases p.len() - i,
    {
        if v[at + i] != p[i] {
            assert(v@.subrange(at as int, at + p@.len())[i as int] != p@[i as int]);
            return false;
        }
        i += 1;
    }
    assert(v@.subrange(at as int, at + p@.len()) =~= p@);
    true
}

/// Whether `s` starts with `p`.
pub fn starts_with(s: &str, p: &str) -> (r: bool)
    ensures
        r == has_prefix(s@, p@),
{
    let v = chars_of(s);
    let q = chars_of(p);
    if q.len() <= v.len() {
        assert(v@.subrange(0, q@.len() as int) =~= v@.take(q@.len() as int));
    }
    matches_at(&v, &q, 0)
}

/// Whether `s` ends with `p`.
pub fn ends_with(s: &str, p: &str) -> (r: bool)
    ensures
        r == has_suffix(s@, p@),
{
    let v = chars_of(s);
    let q = chars_of(p);
    if q.len() > v.len() {
        return false;
    }
    let at: usize = v.len() - q.len();
    assert(v@.subrange(at as int, at + q@.len()) =~= v@.skip(at as int));
    matches_at(&v, &q, at)
}

/// Whether `p` occurs in `s`.
pub fn contains_part(s: &str, p: &str) -> (r: bool)
    ensures
        r == has_part(s@, p@),
{
    let v = chars_of(s);
    let q = chars_of(p);
    if q.len() > v.len() {
        return false;
    }
    let mut left: usize = v.len() - q.len();
    if matches_at(&v, &q, left) {
        return true;
    }
    while left > 0
        invariant
            v@ == s@,
            q@ == p@,
            left <= v.len() - q.len(),
            forall|j: int| left <= j ==> !occurs_at(v@, q@, j),
        decreases left,
    {
        left -= 1;
        if matches_at(&v, &q, left) {
            return true;
        }
    }
    false
}

// Length in bytes

/// Number of bytes of the UTF-8 encoding of `s`.
pub open spec fn byte_len(s: Seq<char>) -> nat {
    vstd::utf8::encode_utf8(s).len()
}

/// Number of bytes of the UTF-8 encoding of one character.
pub open spec fn char_width(c: char) -> nat {
    if c <= '\u{7f}' {
        1
    } else if c <= '\u{7ff}' {
        2
    } else if c <= '\u{ffff}' {
        3
    } else {
        4
    }
}

/// Appending one character adds its width.
pub proof fn byte_len_push(s: Seq<char>, c: char)
    ensures
        byte_len(s.push(c)) == byte_len(s) + char_width(c),
    decreases s.len(),
{
    broadcast use vstd::utf8::char_is_scalar;

    let t = s.push(c);
    if s.len() == 0 {
        assert(t.drop_first() =~= Seq::<char>::empty());
        assert(vstd::utf8::encode_utf8(t.drop_first()).len() == 0);
    } else {
        assert(t.drop_first() =~= s.drop_first().push(c));
        byte_len_push(s.drop_first(), c);
    }
}

/// A text has no more characters than bytes.
pub proof fn chars_take_bytes(s: Seq<char>)
    ensures
        s.len() <= byte_len(s),
    decreases s.len(),
{
    if s.len() > 0 {
        chars_take_bytes(s.drop_last());
        byte_len_push(s.drop_last(), s.last());
        assert(s.drop_last().push(s.last()) =~= s);
    }
}

/// A prefix is no longer than the whole.
pub proof fn byte_len_take(s: Seq<char>, k: int)
    requires
        0 <= k <= s.len(),
    ensures
        byte_len(s.take(k)) <= byte_len(s),
    decreases s.len() - k,
{
    if k < s.len() {
        byte_len_push(s.take(k), s[k]);
        assert(s.take(k).push(s[k]) =~= s.take(k + 1));
        byte_len_take(s, k + 1);
    } else {
        assert(s.take(k) =~= s);
    }
}

/// Number of bytes of the UTF-8 encoding of `s`.
pub fn len_bytes(s: &str) -> (r: usize)
    ensures
        r == byte_len(s@),
{
    s.as_bytes().len()
}

/// Number of leading characters of `s` that fit in `n` bytes, starting the count at `k`.
pub open spec fn fitting_from(s: Seq<char>, n: nat, k: int) -> int
    decreases s.len() - k,
{
    if 0 <= k < s.len() && byte_len(s.take(k + 1)) <= n {
        fitting_from(s, n, k + 1)
    } else {
        k
    }
}

/// The longest prefix of `s` that fits in `n` bytes.
pub open spec fn truncated(s: Seq<char>, n: nat) -> Seq<char> {
    s.take(fitting_from(s, n, 0))
}

/// Whether `s` can be cut after `n` bytes without splitting a character; nothing is cut from a
/// text that is not longer.
pub open spec fn can_truncate(s: Seq<char>, n: nat) -> bool {
    byte_len(s) <= n || byte_len(truncated(s, n)) == n
}

/// Cuts `s` after `n` bytes, or after the last character that fits.
pub fn truncate(s: &str, n: usize) -> (r: String)
    ensures
        r@ == truncated(s@, n as nat),
{
    let v = chars_of(s);
    let mut k: usize = 0;
    let mut r = String::new();
    let mut going = true;
    while going
        invariant
            v@ == s@,
            k <= v.len(),
            r@ == s@.take(k as int),
            byte_len(r@) <= n,
            going ==> fitting_from(s@, n as nat, 0) == fitting_from(s@, n as nat, k as int),
            !going ==> fitting_from(s@, n as nat, 0) == k,
        decreases v.len() - k + (if going { 1int } else { 0int }),
    {
        if k < v.len() {
            let w: usize = if v[k] <= '\u{7f}' {
                1
            } else if v[k] <= '\u{7ff}' {
                2
            } else if v[k] <= '\u{ffff}' {
                3
            } else {
                4
            };
            proof {
                byte_len_push(s@.take(k as int), s@[k as int]);
                assert(s@.take(k as int).push(s@[k as int]) =~= s@.take(k + 1));
            }
            let used: usize = len_bytes(r.as_str());
            if w <= n - used {
                r.push(v[k]);
                k += 1;
            } else {
                going = false;
            }
        } else {
            going = false;
        }
    }
    r
}

/// Whether `s` can be cut after `n` bytes.
pub fn truncates(s: &str, n: usize) -> (r: bool)
    ensures
        r == can_truncate(s@, n as nat),
{
    let t = truncate(s, n);
    len_bytes(s) <= n || len_bytes(t.as_str()) == n
}

/// What is left after cutting fits.
pub proof fn truncated_fits(s: Seq<char>, n: nat)
    ensures
        byte_len(truncated(s, n)) <= n,
        byte_len(s) <= n ==> truncated(s, n) == s,
{
    assert(s.take(0) =~= Seq::<char>::empty());
    fitting_from_bounds(s, n, 0);
}

proof fn fitting_from_bounds(s: Seq<char>, n: nat, k: int)
    requires
        0 <= k <= s.len(),
        byte_len(s.take(k)) <= n,
    ensures
        k <= fitting_from(s, n, k) <= s.len(),
        byte_len(s.take(fitting_from(s, n, k))) <= n,
        byte_len(s) <= n ==> s.take(fitting_from(s, n, k)) == s,
    decreases s.len() - k,
{
    if k < s.len() {
        byte_len_take(s, k + 1);
        if byte_len(s.take(k + 1)) <= n {
            fitting_from_bounds(s, n, k + 1);
        }
    } else {
        assert(s.take(k) =~= s);
    }
}

// Padding

/// `n` times the character `c`.
pub open spec fn repeated(c: char, n: nat) -> Seq<char> {
    Seq::new(n, |i: int| c)
}

/// `n` times the character `c`.
pub fn repeat_char(c: char, n: usize) -> (r: String)
    ensures
        r@ == repeated(c, n as nat),
{
    let mut r = String::new();
    let mut i: usize = 0;
    while i < n
        invariant
            i <= n,
            r@ == repeated(c, i as nat),
        decreases n - i,
    {
        r.push(c);
        i += 1;
        assert(r@ =~= repeated(c, i as nat));
    }
    r
}

/// `s` moved to the right of a column of `n` characters.
pub open spec fn right_aligned(s: Seq<char>, n: nat) -> Seq<char> {
    if s.len() < n {
        repeated(' ', (n - s.len()) as nat) + s
    } else {
        s
    }
}

/// Moves `s` to the right of a column of `n` characters.
pub fn align_right(s: &str, n: usize) -> (r: String)
    ensures
        r@ == right_aligned(s@, n as nat),
{
    let v = chars_of(s);
    if v.len() < n {
        let mut r = repeat_char(' ', n - v.len());
        r.append(s);
        r
    } else {
        s.to_owned()
    }
}

// Order

/// Lexicographic order by code point, which is also the order of the UTF-8 encodings.
pub open spec fn lex_le(a: Seq<char>, b: Seq<char>) -> bool
    decreases a.len(),
{
    if a.len() == 0 {
        true
    } else if b.len() == 0 {
        false
    } else if a[0] != b[0] {
        a[0] < b[0]
    } else {
        lex_le(a.skip(1), b.skip(1))
    }
}

/// The order is total.
pub proof fn lex_le_total(a: Seq<char>, b: Seq<char>)
    ensures
        lex_le(a, b) || lex_le(b, a),
    decreases a.len(),
{
    if a.len() > 0 && b.len() > 0 {
        lex_le_total(a.skip(1), b.skip(1));
    }
}

/// The order is transitive.
pub proof fn lex_le_trans(a: Seq<char>, b: Seq<char>, c: Seq<char>)
    requires
        lex_le(a, b),
        lex_le(b, c),
    ensures
        lex_le(a, c),
    decreases a.len(),
{
    if a.len() > 0 && b.len() > 0 && c.len() > 0 && a[0] == b[0] && b[0] == c[0] {
        lex_le_trans(a.skip(1), b.skip(1), c.skip(1));
    }
}

/// Two texts that precede each other are the same.
pub proof fn lex_le_antisym(a: Seq<char>, b: Seq<char>)
    requires
        lex_le(a, b),
        lex_le(b, a),
    ensures
        a == b,
    decreases a.len(),
{
    if a.len() > 0 && b.len() > 0 {
        lex_le_antisym(a.skip(1), b.skip(1));
        assert(a =~= seq![a[0]] + a.skip(1));
        assert(b =~= seq![b[0]] + b.skip(1));
    } else {
        assert(a =~= b);
    }
}

/// Whether `a` comes no later than `b`.
pub fn not_after(a: &str, b: &str) -> (r: bool)
    ensures
        r == lex_le(a@, b@),
{
    let v = chars_of(a);
    let w = chars_of(b);
    let mut i: usize = 0;
    assert(v@.skip(0) =~= v@);
    assert(w@.skip(0) =~= w@);
    while i < v.len() && i < w.len() && v[i] == w[i]
        invariant
            v@ == a@,
            w@ == b@,
            i <= v.len(),
            i <= w.len(),
            lex_le(a@, b@) == lex_le(v@.skip(i as int), w@.skip(i as int)),
        decreases v.len() - i,
    {
        assert(v@.skip(i as int).skip(1) =~= v@.skip(i + 1));
        assert(w@.skip(i as int).skip(1) =~= w@.skip(i + 1));
        i += 1;
    }
    if i >= v.len() {
        true
    } else if i >= w.len() {
        false
    } else {
        v[i] < w[i]
    }
}

/// `x` put behind the last element of a sorted list whose key does not come after its own.
pub open spec fn inserted_by<A>(sorted: Seq<A>, x: A, key: spec_fn(A) -> Seq<char>) -> Seq<A>
    decreases sorted.len(),
{
    if sorted.len() == 0 || lex_le(key(sorted.last()), key(x)) {
        sorted.push(x)
    } else {
        inserted_by(sorted.drop_last(), x, key).push(sorted.last())
    }
}

/// The elements of `v` in the order of their keys; those with equal keys keep their order.
pub open spec fn sorted_by<A>(v: Seq<A>, key: spec_fn(A) -> Seq<char>) -> Seq<A>
    decreases v.len(),
{
    if v.len() == 0 {
        v
    } else {
        inserted_by(sorted_by(v.drop_last(), key), v.last(), key)
    }
}

/// The texts in order.
pub open spec fn sorted_texts(v: Seq<Seq<char>>) -> Seq<Seq<char>> {
    sorted_by(v, |s: Seq<char>| s)
}

/// Whether the elements of a list stand in the order of their keys.
pub open spec fn in_order_by<A>(v: Seq<A>, key: spec_fn(A) -> Seq<char>) -> bool {
    forall|i: int, j: int|
        0 <= i <= j < v.len() ==> lex_le(key(#[trigger] v[i]), key(#[trigger] v[j]))
}

/// Whether the key of every element comes no later than `y`.
spec fn none_after<A>(v: Seq<A>, y: Seq<char>, key: spec_fn(A) -> Seq<char>) -> bool {
    forall|i: int| 0 <= i < v.len() ==> lex_le(key(#[trigger] v[i]), y)
}

proof fn inserted_in_order<A>(v: Seq<A>, x: A, key: spec_fn(A) -> Seq<char>)
    requires
        in_order_by(v, key),
    ensures
        in_order_by(inserted_by(v, x, key), key),
        inserted_by(v, x, key).to_multiset() == v.to_multiset().insert(x),
        inserted_by(v, x, key).len() == v.len() + 1,
        forall|y: Seq<char>|
            lex_le(key(x), y) && none_after(v, y, key) ==> #[trigger] none_after(
                inserted_by(v, x, key),
                y,
                key,
            ),
    decreases v.len(),
{
    broadcast use vstd::seq_lib::group_to_multiset_ensures;

    lex_le_total(key(x), key(x));
    if v.len() == 0 || lex_le(key(v.last()), key(x)) {
        assert forall|i: int, j: int| 0 <= i <= j < v.push(x).len() implies lex_le(
            key(#[trigger] v.push(x)[i]),
            key(#[trigger] v.push(x)[j]),
        ) by {
            if j == v.len() && i < j {
                lex_le_trans(key(v[i]), key(v.last()), key(x));
            }
        }
    } else {
        let w = v.drop_last();
        let l = v.last();
        inserted_in_order(w, x, key);
        lex_le_total(key(x), key(l));
        assert forall|i: int| 0 <= i < w.len() implies lex_le(key(#[trigger] w[i]), key(l)) by {
            assert(w[i] == v[i]);
            assert(lex_le(key(v[i]), key(v[v.len() - 1])));
        }
        let r = inserted_by(w, x, key);
        assert(none_after(w, key(l), key));
        assert(none_after(r, key(l), key));
        assert forall|i: int, j: int| 0 <= i <= j < r.push(l).len() implies lex_le(
            key(#[trigger] r.push(l)[i]),
            key(#[trigger] r.push(l)[j]),
        ) by {
            lex_le_total(key(l), key(l));
            if j == r.len() && i < j {
                assert(lex_le(key(r[i]), key(l)));
            }
        }
        assert(v =~= w.push(l));
        assert(r.push(l).to_multiset() =~= v.to_multiset().insert(x));
        assert forall|y: Seq<char>| lex_le(key(x), y) && none_after(v, y, key) implies #[trigger] none_after(
            r.push(l),
            y,
            key,
        ) by {
            assert forall|i: int| 0 <= i < w.len() implies lex_le(key(#[trigger] w[i]), y) by {
                assert(w[i] == v[i]);
            }
            assert(lex_le(key(v[v.len() - 1]), y));
            assert(none_after(w, y, key));
            assert(none_after(r, y, key));
            assert forall|i: int| 0 <= i < r.push(l).len() implies lex_le(
                key(#[trigger] r.push(l)[i]),
                y,
            ) by {
                if i < r.len() {
                    assert(lex_le(key(r[i]), y));
                }
            }
        }
    }
}

/// Sorting puts the elements in order, and neither adds nor loses one.
pub proof fn sorting_orders<A>(v: Seq<A>, key: spec_fn(A) -> Seq<char>)
    ensures
        in_order_by(sorted_by(v, key), key),
        sorted_by(v, key).to_multiset() == v.to_multiset(),
        sorted_by(v, key).len() == v.len(),
    decreases v.len(),
{
    broadcast use vstd::seq_lib::group_to_multiset_ensures;

    if v.len() > 0 {
        sorting_orders(v.drop_last(), key);
        inserted_in_order(sorted_by(v.drop_last(), key), v.last(), key);
        assert(v =~= v.drop_last().push(v.last()));
    }
}

/// Where an element is inserted: in front of the first of the last ones that come after it.
pub proof fn inserted_at<A>(v: Seq<A>, x: A, key: spec_fn(A) -> Seq<char>, k: int)
    requires
        0 <= k <= v.len(),
        forall|i: int| k <= i < v.len() ==> !lex_le(key(#[trigger] v[i]), key(x)),
        k > 0 ==> lex_le(key(v[k - 1]), key(x)),
    ensures
        inserted_by(v, x, key) == v.insert(k, x),
    decreases v.len(),
{
    if v.len() == k {
        assert(v.insert(k, x) =~= v.push(x));
    } else {
        let w = v.drop_last();
        assert forall|i: int| k <= i < w.len() implies !lex_le(key(#[trigger] w[i]), key(x)) by {
            assert(w[i] == v[i]);
        }
        assert(!lex_le(key(v[v.len() - 1]), key(x)));
        inserted_at(w, x, key, k);
        assert(w.insert(k, x).push(v.last()) =~= v.insert(k, x));
    }
}

fn insert_sorted(v: &mut Vec<String>, x: String)
    ensures
        texts(final(v)@) == inserted_by(texts(old(v)@), x@, |s: Seq<char>| s),
{
    let ghost key = |s: Seq<char>| s;
    let ghost all = texts(v@);
    let ghost orig = v@;
    let mut k: usize = v.len();
    while k > 0 && !not_after(v[k - 1].as_str(), x.as_str())
        invariant
            k <= v.len(),
            v@ == orig,
            all == texts(orig),
            forall|i: int| k <= i < all.len() ==> !lex_le(#[trigger] all[i], x@),
        decreases k,
    {
        assert(all[k - 1] == v[k - 1]@);
        k -= 1;
    }
    if k > 0 {
        assert(all[k - 1] == v[k - 1]@);
    }
    proof {
        inserted_at(all, x@, key, k as int);
    }
    v.insert(k, x);
    assert(texts(v@) =~= all.insert(k as int, x@)) by {
        assert(v@ =~= orig.insert(k as int, x));
        assert forall|i: int| 0 <= i < v@.len() implies #[trigger] texts(v@)[i] == all.insert(
            k as int,
            x@,
        )[i] by {
            if i < k {
                assert(all[i] == orig[i]@);
            } else if i > k {
                assert(all[i - 1] == orig[i - 1]@);
            }
        }
    }
}

/// Sorts a list of strings.
pub fn sort_texts(v: Vec<String>) -> (r: Vec<String>)
    ensures
        texts(r@) == sorted_texts(texts(v@)),
{
    let mut r: Vec<String> = Vec::new();
    let mut i: usize = 0;
    let ghost all = texts(v@);
    while i < v.len()
        invariant
            i <= v.len(),
            all == texts(v@),
            texts(r@) == sorted_texts(all.take(i as int)),
        decreases v.len() - i,
    {
        assert(all.take(i + 1).drop_last() =~= all.take(i as int));
        assert(all.take(i + 1).last() == v[i as int]@);
        insert_sorted(&mut r, v[i].clone());
        i += 1;
    }
    assert(all.take(i as int) =~= all);
    r
}

// Splitting

/// The fields of two texts with a separator in between are those of the one and those of the other.
pub proof fn fields_of_both(a: Seq<char>, b: Seq<char>, sep: char)
    ensures
        fields_of(a + seq![sep] + b, sep) == fields_of(a, sep) + fields_of(b, sep),
    decreases b.len(),
{
    let s = a + seq![sep] + b;
    fields_nonempty(a, sep, sep);
    if b.len() == 0 {
        assert(s.drop_last() =~= a);
        assert(fields_of(s, sep) =~= fields_of(a, sep) + fields_of(b, sep));
    } else {
        fields_of_both(a, b.drop_last(), sep);
        fields_nonempty(b.drop_last(), sep, sep);
        assert(s.drop_last() =~= a + seq![sep] + b.drop_last());
        let x = fields_of(a, sep);
        let y = fields_of(b.drop_last(), sep);
        assert((x + y).drop_last() =~= x + y.drop_last());
        assert(fields_of(s, sep) =~= x + fields_of(b, sep));
    }
}

/// A text without a separator is its only field.
pub proof fn whole_is_a_field(s: Seq<char>, sep: char)
    requires
        !s.contains(sep),
    ensures
        fields_of(s, sep) == seq![s],
    decreases s.len(),
{
    if s.len() > 0 {
        let t = s.drop_last();
        assert forall|i: int| 0 <= i < t.len() implies t[i] != sep by {
            assert(s[i] != sep || s.contains(sep));
        }
        whole_is_a_field(t, sep);
        assert(s.contains(s.last()));
        assert(fields_of(s, sep) =~= seq![t.push(s.last())]);
        assert(t.push(s.last()) =~= s);
    } else {
        assert(s =~= Seq::empty());
        assert(fields_of(s, sep) =~= seq![s]);
    }
}

/// The first field goes up to the first separator.
pub proof fn first_field_goes_to_the_separator(s: Seq<char>, sep: char)
    ensures
        !fields_of(s, sep)[0].contains(sep),
        fields_of(s, sep)[0] == s || {
            let n = fields_of(s, sep)[0].len() as int;
            n < s.len() && s.take(n) == fields_of(s, sep)[0] && s[n] == sep
        },
    decreases s.len(),
{
    fields_nonempty(s, sep, sep);
    split_leaves_no_separator(s, sep, sep, 0);
    cut_keeps_everything(s, sep);
    match cut_at(s, sep) {
        Some((a, b)) => {
            fields_of_both(a, b, sep);
            whole_is_a_field(a, sep);
            assert(fields_of(s, sep)[0] == a);
            assert(s.take(a.len() as int) =~= a);
        },
        None => {
            whole_is_a_field(s, sep);
        },
    }
}

/// A line feed ends a line, and what follows is split on its own; a carriage return in front of it
/// belongs to it.
pub proof fn line_feeds_end_lines(l: Seq<char>, rest: Seq<char>)
    requires
        !l.contains('\n'),
    ensures
        line_seq(l + seq!['\n'] + rest) == seq![
            if l.len() > 0 && l.last() == '\r' {
                l.drop_last()
            } else {
                l
            },
        ] + line_seq(rest),
{
    fields_of_both(l, rest, '\n');
    whole_is_a_field(l, '\n');
    fields_nonempty(rest, '\n', '\n');
    let y = fields_of(rest, '\n');
    assert((seq![l] + y).drop_last() =~= seq![l] + y.drop_last());
    assert((seq![l] + y).last() == y.last());
    assert(line_seq(l + seq!['\n'] + rest) =~= seq![without_cr(l)] + line_seq(rest));
}

/// A text without a line feed is a line, and none where it is empty.
pub proof fn an_open_line_is_a_line(l: Seq<char>)
    requires
        !l.contains('\n'),
    ensures
        line_seq(l) == if l.len() == 0 {
            Seq::<Seq<char>>::empty()
        } else {
            seq![l]
        },
{
    whole_is_a_field(l, '\n');
    assert(seq![l].drop_last() =~= Seq::<Seq<char>>::empty());
    assert(line_seq(l) =~= if l.len() == 0 {
        Seq::<Seq<char>>::empty()
    } else {
        seq![l]
    });
}

/// A text starts with another exactly if it is that one and something else, ends with it exactly if
/// it is something and that one, and has it as a part exactly if it stands between two others.
pub proof fn affixes_are_cut_off(s: Seq<char>, p: Seq<char>)
    ensures
        has_prefix(s, p) <==> exists|b: Seq<char>| s == #[trigger] (p + b),
        has_suffix(s, p) <==> exists|a: Seq<char>| s == #[trigger] (a + p),
        has_part(s, p) <==> exists|a: Seq<char>, b: Seq<char>| s == #[trigger] (a + p + b),
        has_prefix(s, p) ==> forall|i: int| 0 <= i < p.len() ==> s[i] == #[trigger] p[i],
        has_suffix(s, p) ==> forall|i: int|
            0 <= i < p.len() ==> s[s.len() - p.len() + i] == #[trigger] p[i],
{
    let n = p.len() as int;
    if has_prefix(s, p) {
        assert(s =~= p + s.skip(n));
        assert forall|i: int| 0 <= i < p.len() implies s[i] == #[trigger] p[i] by {
            assert(s.take(n)[i] == s[i]);
        }
    }
    if exists|b: Seq<char>| s == #[trigger] (p + b) {
        assert(s.take(n) =~= p);
    }
    if has_suffix(s, p) {
        assert(s =~= s.take(s.len() - n) + p);
        assert forall|i: int| 0 <= i < p.len() implies s[s.len() - n + i] == #[trigger] p[i] by {
            assert(s.skip(s.len() - n)[i] == s[s.len() - n + i]);
        }
    }
    if exists|a: Seq<char>| s == #[trigger] (a + p) {
        let a = choose|a: Seq<char>| s == #[trigger] (a + p);
        assert(s.skip(a.len() as int) =~= p);
    }
    if has_part(s, p) {
        let i = choose|i: int| occurs_at(s, p, i);
        assert(s =~= s.take(i) + p + s.skip(i + n)) by {
            assert(s =~= s.take(i) + s.subrange(i, i + n) + s.skip(i + n));
        }
    }
    if exists|a: Seq<char>, b: Seq<char>| s == #[trigger] (a + p + b) {
        let (a, b) = choose|a: Seq<char>, b: Seq<char>| s == #[trigger] (a + p + b);
        assert(s.subrange(a.len() as int, a.len() + n) =~= p);
        assert(occurs_at(s, p, a.len() as int));
    }
}

/// Cutting keeps the longest start that fits.
pub proof fn truncation_keeps_the_longest_start(s: Seq<char>, n: nat, k: int)
    requires
        0 <= k <= s.len(),
    ensures
        has_prefix(s, truncated(s, n)),
        byte_len(truncated(s, n)) <= n,
        byte_len(s.take(k)) <= n <==> k <= truncated(s, n).len(),
{
    truncated_fits(s, n);
    assert(s.take(0) =~= Seq::<char>::empty());
    fitting_from_bounds(s, n, 0);
    let m = fitting_from(s, n, 0);
    assert(s.take(m).take(m) =~= s.take(m));
    if k <= m {
        byte_len_take(s.take(m), k);
        assert(s.take(m).take(k) =~= s.take(k));
    } else {
        fitting_stops(s, n, 0);
        byte_len_take(s.take(k), m + 1);
        assert(s.take(k).take(m + 1) =~= s.take(m + 1));
    }
}

proof fn fitting_stops(s: Seq<char>, n: nat, k: int)
    requires
        0 <= k <= s.len(),
    ensures
        fitting_from(s, n, k) < s.len() ==> byte_len(s.take(fitting_from(s, n, k) + 1)) > n,
        k <= fitting_from(s, n, k) <= s.len(),
    decreases s.len() - k,
{
    if k < s.len() && byte_len(s.take(k + 1)) <= n {
        fitting_stops(s, n, k + 1);
    }
}

/// White space at an end is cut off, one after the other, and nothing else is.
pub proof fn white_space_is_cut_off(s: Seq<char>, c: char)
    ensures
        is_space(c) ==> trimmed_end(s.push(c)) == trimmed_end(s),
        is_space(c) ==> trimmed_start(seq![c] + s) == trimmed_start(s),
        !is_space(c) ==> trimmed_end(s.push(c)) == s.push(c),
        !is_space(c) ==> trimmed_start(seq![c] + s) == seq![c] + s,
        trimmed(s) == trimmed_start(trimmed_end(s)),
{
    assert(s.push(c).drop_last() =~= s);
    assert((seq![c] + s).skip(1) =~= s);
}

/// The first character that differs decides the order, and a text comes before its continuations.
pub proof fn the_first_difference_decides(
    start: Seq<char>,
    x: char,
    y: char,
    a: Seq<char>,
    b: Seq<char>,
)
    ensures
        x < y ==> lex_le(start + seq![x] + a, start + seq![y] + b) && !lex_le(
            start + seq![y] + b,
            start + seq![x] + a,
        ),
        lex_le(start, start + a),
        a.len() > 0 ==> !lex_le(start + a, start),
    decreases start.len(),
{
    let s = start + seq![x] + a;
    let t = start + seq![y] + b;
    if start.len() == 0 {
        assert(s[0] == x && t[0] == y);
        assert(start + a =~= a);
    } else {
        let rest = start.skip(1);
        assert(s.skip(1) =~= rest + seq![x] + a);
        assert(t.skip(1) =~= rest + seq![y] + b);
        assert((start + a).skip(1) =~= rest + a);
        the_first_difference_decides(rest, x, y, a, b);
    }
}

/// The first line that starts with a text is found, whatever follows; without such a line there is
/// none.
pub proof fn the_first_such_line_is_found(
    before: Seq<Seq<char>>,
    line: Seq<char>,
    rest: Seq<Seq<char>>,
    p: Seq<char>,
)
    requires
        forall|i: int| 0 <= i < before.len() ==> !has_prefix(#[trigger] before[i], p),
    ensures
        has_prefix(line, p) ==> first_line_with(before + seq![line] + rest, p) == Some(line),
        first_line_with(before, p) is None,
    decreases before.len(),
{
    let all = before + seq![line] + rest;
    if before.len() > 0 {
        let tail = before.skip(1);
        assert(!has_prefix(before[0], p));
        assert(all[0] == before[0]);
        assert(all.skip(1) =~= tail + seq![line] + rest);
        assert forall|i: int| 0 <= i < tail.len() implies !has_prefix(#[trigger] tail[i], p) by {
            assert(tail[i] == before[i + 1]);
        }
        the_first_such_line_is_found(tail, line, rest, p);
    } else {
        assert(all[0] == line);
    }
}

/// A text is cut at the first separator, and not at all without one.
pub proof fn the_first_separator_cuts(a: Seq<char>, b: Seq<char>, sep: char)
    requires
        !a.contains(sep),
    ensures
        cut_at(a + seq![sep] + b, sep) == Some((a, b)),
        cut_at(a, sep) is None,
    decreases a.len(),
{
    let s = a + seq![sep] + b;
    if a.len() == 0 {
        assert(s[0] == sep);
        assert(s.skip(1) =~= b);
        assert(a =~= Seq::empty());
    } else {
        assert(a.contains(a[0]));
        let t = a.skip(1);
        assert forall|i: int| 0 <= i < t.len() implies t[i] != sep by {
            assert(a.contains(a[i + 1]));
        }
        the_first_separator_cuts(t, b, sep);
        assert(s.skip(1) =~= t + seq![sep] + b);
        assert(seq![a[0]] + t =~= a);
    }
}

/// Parts are joined with the separator between any two of them, and nothing else.
pub proof fn separators_stand_between(parts: Seq<Seq<char>>, part: Seq<char>, sep: Seq<char>)
    ensures
        joined(Seq::empty(), sep) == Seq::<char>::empty(),
        joined(seq![part], sep) == part,
        parts.len() > 0 ==> joined(parts.push(part), sep) == joined(parts, sep) + sep + part,
{
    assert(parts.push(part).drop_last() =~= parts);
}

/// A text is moved to the right by spaces alone, as far as there is room.
pub proof fn spaces_fill_the_column(s: Seq<char>, n: nat, i: int)
    ensures
        right_aligned(s, n).len() == if s.len() < n {
            n
        } else {
            s.len()
        },
        has_suffix(right_aligned(s, n), s),
        0 <= i < right_aligned(s, n).len() - s.len() ==> right_aligned(s, n)[i] == ' ',
{
    let r = right_aligned(s, n);
    assert(r.skip(r.len() - s.len()) =~= s);
}

/// Either of two separators parts a text into the fields of what stands in front of it and of what
/// stands behind it.
pub proof fn either_separator_parts(x: Seq<char>, y: Seq<char>, sep: char, a: char, b: char)
    requires
        sep == a || sep == b,
    ensures
        fields(x + seq![sep] + y, a, b) == fields(x, a, b) + fields(y, a, b),
    decreases y.len(),
{
    let s = x + seq![sep] + y;
    fields_nonempty(x, a, b);
    if y.len() == 0 {
        assert(s.drop_last() =~= x);
        assert(fields(s, a, b) =~= fields(x, a, b) + fields(y, a, b));
    } else {
        either_separator_parts(x, y.drop_last(), sep, a, b);
        fields_nonempty(y.drop_last(), a, b);
        assert(s.drop_last() =~= x + seq![sep] + y.drop_last());
        let p = fields(x, a, b);
        let q = fields(y.drop_last(), a, b);
        assert((p + q).drop_last() =~= p + q.drop_last());
        assert(fields(s, a, b) =~= p + fields(y, a, b));
    }
}

/// Elements with the same key keep the order in which they came.
pub proof fn sorting_is_stable<A>(v: Seq<A>, key: spec_fn(A) -> Seq<char>, k: Seq<char>)
    ensures
        sorted_by(v, key).filter(|x: A| key(x) == k) == v.filter(|x: A| key(x) == k),
    decreases v.len(),
{
    reveal(Seq::filter);
    if v.len() > 0 {
        sorting_is_stable(v.drop_last(), key, k);
        insertion_is_stable(sorted_by(v.drop_last(), key), v.last(), key, k);
    }
}

proof fn insertion_is_stable<A>(v: Seq<A>, x: A, key: spec_fn(A) -> Seq<char>, k: Seq<char>)
    ensures
        inserted_by(v, x, key).filter(|y: A| key(y) == k) == if key(x) == k {
            v.filter(|y: A| key(y) == k).push(x)
        } else {
            v.filter(|y: A| key(y) == k)
        },
    decreases v.len(),
{
    reveal(Seq::filter);
    if v.len() == 0 || lex_le(key(v.last()), key(x)) {
        assert(v.push(x).drop_last() =~= v);
    } else {
        let w = v.drop_last();
        insertion_is_stable(w, x, key, k);
        lex_le_total(key(x), key(x));
        assert(inserted_by(w, x, key).push(v.last()).drop_last() =~= inserted_by(w, x, key));
    }
}

}
