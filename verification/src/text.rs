//! Characters and strings: trimming, splitting, searching, numbers in decimal.

use vstd::prelude::*;
use vstd::utf8::*;

verus! {

/// `String::push` puts the given character at the end of the string.
pub assume_specification[ String::push ](s: &mut String, c: char)
    ensures
        final(s)@ == old(s)@.push(c),
;

/// What the strings of a vector hold.
pub open spec fn texts(v: Seq<String>) -> Seq<Seq<char>> {
    Seq::new(v.len(), |i: int| v[i]@)
}

/// How many bytes a text takes.
pub open spec fn byte_len(s: Seq<char>) -> nat {
    encode_utf8(s).len()
}

/// The larger of two numbers.
pub open spec fn max(a: int, b: int) -> int {
    if a >= b {
        a
    } else {
        b
    }
}

/// `a - b`, or zero where that is negative.
pub open spec fn minus(a: int, b: int) -> int {
    max(a - b, 0)
}

/// The text that a string holds, if there is one.
pub open spec fn held(s: Option<String>) -> Option<Seq<char>> {
    match s {
        Some(s) => Some(s@),
        None => None,
    }
}

/// The text that a string slice holds, if there is one.
pub open spec fn held_str(s: Option<&str>) -> Option<Seq<char>> {
    match s {
        Some(s) => Some(s@),
        None => None,
    }
}

/// The characters of `s` in order.
pub fn chars_of(s: &str) -> (r: Vec<char>)
    ensures
        r@ == s@,
{
    let mut out: Vec<char> = Vec::new();
    for c in it: s.chars()
        invariant
            out@ == it.seq().take(it.index() as int),
            it.seq() == s@,
    {
        out.push(c);
        assert(it.seq().take(it.index() as int).push(c) == it.seq().take(it.index() as int + 1));
    }
    out
}

/// The string made of `chars[from..to]`.
pub fn string_of(chars: &[char], from: usize, to: usize) -> (r: String)
    requires
        from <= to <= chars@.len(),
    ensures
        r@ == chars@.subrange(from as int, to as int),
{
    let mut out = String::new();
    let mut i: usize = from;
    while i < to
        invariant
            from <= i <= to <= chars@.len(),
            out@ == chars@.subrange(from as int, i as int),
        decreases to - i,
    {
        out.push(chars[i]);
        proof {
            assert(chars@.subrange(from as int, i as int).push(chars@[i as int])
                == chars@.subrange(from as int, i + 1));
        }
        i = i + 1;
    }
    out
}

/// Whether two strings hold the same characters.
pub fn same(a: &str, b: &str) -> (r: bool)
    ensures
        r == (a@ == b@),
{
    let x = chars_of(a);
    let y = chars_of(b);
    if x.len() != y.len() {
        return false;
    }
    let mut i: usize = 0;
    while i < x.len()
        invariant
            x@ == a@,
            y@ == b@,
            x@.len() == y@.len(),
            i <= x@.len(),
            forall|k: int| 0 <= k < i ==> x@[k] == y@[k],
        decreases x@.len() - i,
    {
        if x[i] != y[i] {
            assert(a@[i as int] != b@[i as int]);
            return false;
        }
        i = i + 1;
    }
    assert(a@ =~= b@);
    true
}

/// Adds `n` times `c` to the end of `out`.
pub fn push_repeated(out: &mut String, c: char, n: usize)
    ensures
        final(out)@ == old(out)@ + Seq::new(n as nat, |i: int| c),
{
    let mut i: usize = 0;
    while i < n
        invariant
            i <= n,
            out@ == old(out)@ + Seq::new(i as nat, |k: int| c),
        decreases n - i,
    {
        out.push(c);
        i = i + 1;
        assert(out@ =~= old(out)@ + Seq::new(i as nat, |k: int| c));
    }
}

// ---- Whitespace ----

/// The characters with the Unicode property `White_Space`.
pub open spec fn is_space(c: char) -> bool {
    ||| '\u{9}' <= c <= '\u{d}'
    ||| c == ' '
    ||| c == '\u{85}'
    ||| c == '\u{a0}'
    ||| c == '\u{1680}'
    ||| '\u{2000}' <= c <= '\u{200a}'
    ||| c == '\u{2028}'
    ||| c == '\u{2029}'
    ||| c == '\u{202f}'
    ||| c == '\u{205f}'
    ||| c == '\u{3000}'
}

/// `s` without the whitespace that it starts with.
pub open spec fn trim_start(s: Seq<char>) -> Seq<char>
    decreases s.len(),
{
    if s.len() > 0 && is_space(s[0]) {
        trim_start(s.drop_first())
    } else {
        s
    }
}

/// `s` without the whitespace that it ends with.
pub open spec fn trim_end(s: Seq<char>) -> Seq<char>
    decreases s.len(),
{
    if s.len() > 0 && is_space(s.last()) {
        trim_end(s.drop_last())
    } else {
        s
    }
}

/// `s` without the whitespace around it.
pub open spec fn trimmed(s: Seq<char>) -> Seq<char> {
    trim_end(trim_start(s))
}

fn space(c: char) -> (r: bool)
    ensures
        r == is_space(c),
{
    ('\u{9}' <= c && c <= '\u{d}') || c == ' ' || c == '\u{85}' || c == '\u{a0}' || c == '\u{1680}'
        || ('\u{2000}' <= c && c <= '\u{200a}') || c == '\u{2028}' || c == '\u{2029}' || c
        == '\u{202f}' || c == '\u{205f}' || c == '\u{3000}'
}

/// The part of `s` between the whitespace around it.
pub fn trim(s: &str) -> (r: &str)
    ensures
        r@ == trimmed(s@),
{
    let c = chars_of(s);
    let mut i: usize = 0;
    assert(c@.subrange(0, c@.len() as int) == s@);
    while i < c.len() && space(c[i])
        invariant
            c@ == s@,
            i <= c@.len(),
            trim_start(s@) == trim_start(c@.subrange(i as int, c@.len() as int)),
        decreases c@.len() - i,
    {
        assert(c@.subrange(i as int, c@.len() as int).drop_first() == c@.subrange(
            i + 1,
            c@.len() as int,
        ));
        i = i + 1;
    }
    let mut j: usize = c.len();
    while i < j && space(c[j - 1])
        invariant
            c@ == s@,
            i <= j <= c@.len(),
            trim_start(s@) == c@.subrange(i as int, c@.len() as int),
            trimmed(s@) == trim_end(c@.subrange(i as int, j as int)),
        decreases j - i,
    {
        assert(c@.subrange(i as int, j as int).drop_last() == c@.subrange(i as int, j - 1));
        j = j - 1;
    }
    s.substring_char(i, j)
}

/// What holds anything but blanks does not vanish when blanks around it go.
pub proof fn lemma_trimmed_nonempty(s: Seq<char>, i: int)
    requires
        0 <= i < s.len(),
        !is_space(s[i]),
    ensures
        trimmed(s).len() > 0,
{
    lemma_trim_start_keeps(s, i);
    let t = trim_start(s);
    let j = choose|j: int| 0 <= j < t.len() && !is_space(#[trigger] t[j]);
    lemma_trim_end_keeps(t, j);
}

proof fn lemma_trim_start_keeps(s: Seq<char>, i: int)
    requires
        0 <= i < s.len(),
        !is_space(s[i]),
    ensures
        exists|j: int| 0 <= j < trim_start(s).len() && !is_space(#[trigger] trim_start(s)[j]),
    decreases s.len(),
{
    if is_space(s[0]) {
        assert(s.drop_first()[i - 1] == s[i]);
        lemma_trim_start_keeps(s.drop_first(), i - 1);
        assert(trim_start(s) == trim_start(s.drop_first()));
    } else {
        assert(!is_space(trim_start(s)[0]));
    }
}

proof fn lemma_trim_end_keeps(s: Seq<char>, i: int)
    requires
        0 <= i < s.len(),
        !is_space(s[i]),
    ensures
        trim_end(s).len() > 0,
    decreases s.len(),
{
    if is_space(s.last()) {
        assert(s.drop_last()[i] == s[i]);
        lemma_trim_end_keeps(s.drop_last(), i);
    }
}

// ---- Lower case ----

/// An ASCII letter in lower case; any other character as it is.
pub open spec fn lower(c: char) -> char {
    if 'A' <= c <= 'Z' {
        (c as u8 + 32) as char
    } else {
        c
    }
}

/// Text with its ASCII letters in lower case.
pub open spec fn lowered(s: Seq<char>) -> Seq<char> {
    Seq::new(s.len(), |i: int| lower(s[i]))
}

/// The text with its ASCII letters in lower case.
pub fn to_lower(s: &str) -> (r: String)
    ensures
        r@ == lowered(s@),
{
    let c = chars_of(s);
    let mut out = String::new();
    let mut i: usize = 0;
    assert(out@ =~= lowered(s@.take(0)));
    while i < c.len()
        invariant
            c@ == s@,
            i <= c@.len(),
            out@ == lowered(s@.take(i as int)),
        decreases c@.len() - i,
    {
        let x: char = c[i];
        if 'A' <= x && x <= 'Z' {
            out.push((x as u8 + 32) as char);
        } else {
            out.push(x);
        }
        i = i + 1;
        assert(out@ =~= lowered(s@.take(i as int)));
    }
    assert(s@.take(s@.len() as int) =~= s@);
    out
}

// ---- Prefixes and search ----

/// `s` without as many copies of `p` as it starts with.
pub open spec fn strip_all(s: Seq<char>, p: Seq<char>) -> Seq<char>
    decreases s.len(),
{
    if p.len() > 0 && p.is_prefix_of(s) {
        strip_all(s.skip(p.len() as int), p)
    } else {
        s
    }
}

/// Whether `p` stands in `s` at `at`.
pub open spec fn occurs_at<T>(s: Seq<T>, p: Seq<T>, at: int) -> bool {
    0 <= at && at + p.len() <= s.len() && s.subrange(at, at + p.len()) == p
}

/// Whether `p` stands somewhere in `s`.
pub open spec fn occurs<T>(s: Seq<T>, p: Seq<T>) -> bool {
    exists|at: int| #[trigger] occurs_at(s, p, at)
}

fn matches_at(s: &[char], p: &[char], at: usize) -> (r: bool)
    requires
        at + p@.len() <= s.len(),
    ensures
        r == occurs_at(s@, p@, at as int),
{
    let mut i: usize = 0;
    while i < p.len()
        invariant
            at + p@.len() <= s.len(),
            i <= p@.len(),
            forall|k: int| 0 <= k < i ==> s@[at + k] == p@[k],
        decreases p@.len() - i,
    {
        if s[at + i] != p[i] {
            assert(s@.subrange(at as int, at + p@.len())[i as int] != p@[i as int]);
            return false;
        }
        i = i + 1;
    }
    assert(s@.subrange(at as int, at + p@.len()) =~= p@);
    true
}

/// Whether `s` starts with `p`.
pub fn starts_with(s: &str, p: &str) -> (r: bool)
    ensures
        r == p@.is_prefix_of(s@),
{
    let c = chars_of(s);
    let d = chars_of(p);
    if d.len() > c.len() {
        return false;
    }
    matches_at(c.as_slice(), d.as_slice(), 0)
}

/// Whether `s` ends with `p`.
pub fn ends_with(s: &str, p: &str) -> (r: bool)
    ensures
        r == p@.is_suffix_of(s@),
{
    let c = chars_of(s);
    let d = chars_of(p);
    if d.len() > c.len() {
        return false;
    }
    let at: usize = c.len() - d.len();
    assert(at + d@.len() == c@.len());
    matches_at(c.as_slice(), d.as_slice(), at)
}

/// Whether `p` stands somewhere in `s`.
pub fn contains(s: &str, p: &str) -> (r: bool)
    ensures
        r == occurs(s@, p@),
{
    let c = chars_of(s);
    let d = chars_of(p);
    if d.len() > c.len() {
        return false;
    }
    let last: usize = c.len() - d.len();
    let mut i: usize = 0;
    while i <= last
        invariant
            c@ == s@,
            d@ == p@,
            last + d@.len() == c@.len(),
            i <= last + 1,
            forall|k: int| 0 <= k < i ==> !occurs_at(s@, p@, k),
        decreases last + 1 - i,
    {
        if matches_at(c.as_slice(), d.as_slice(), i) {
            assert(occurs_at(s@, p@, i as int));
            return true;
        }
        if i == last {
            assert(forall|k: int| !occurs_at(s@, p@, k));
            return false;
        }
        i = i + 1;
    }
    false
}

/// `s` without as many copies of `p` as it starts with.
pub fn trim_start_matches<'a>(s: &'a str, p: &str) -> (r: &'a str)
    ensures
        r@ == strip_all(s@, p@),
{
    let c = chars_of(s);
    let d = chars_of(p);
    let mut i: usize = 0;
    assert(c@.skip(0) == s@);
    while d.len() > 0 && d.len() <= c.len() - i && matches_at(c.as_slice(), d.as_slice(), i)
        invariant
            c@ == s@,
            d@ == p@,
            i <= c@.len(),
            strip_all(s@, p@) == strip_all(c@.skip(i as int), p@),
        decreases c@.len() - i,
    {
        proof {
            let rest = c@.skip(i as int);
            assert(c@.subrange(i as int, i + d@.len()) == p@);
            assert(rest.take(p@.len() as int) == p@);
            assert(p@.is_prefix_of(rest));
            assert(rest.skip(p@.len() as int) == c@.skip(i + p@.len()));
        }
        i = i + d.len();
    }
    proof {
        let rest = c@.skip(i as int);
        if p@.len() > 0 && p@.is_prefix_of(rest) {
            assert(c@.subrange(i as int, i + p@.len()) == rest.take(p@.len() as int));
            assert(rest.take(p@.len() as int) == p@);
        }
        assert(s@.subrange(i as int, s@.len() as int) == rest);
    }
    s.substring_char(i, c.len())
}

// ---- Fields and lines ----

/// The pieces of `s` between the separators: read from left to right, a
/// separator starts a new piece and any other character extends the last one.
pub open spec fn fields(s: Seq<char>, sep: char) -> Seq<Seq<char>>
    decreases s.len(),
{
    if s.len() == 0 {
        seq![Seq::empty()]
    } else {
        let before = fields(s.drop_last(), sep);
        if s.last() == sep {
            before.push(Seq::empty())
        } else {
            before.drop_last().push(before.last().push(s.last()))
        }
    }
}

/// There is always a last field.
pub proof fn lemma_fields_nonempty(s: Seq<char>, sep: char)
    ensures
        fields(s, sep).len() > 0,
    decreases s.len(),
{
    if s.len() > 0 {
        lemma_fields_nonempty(s.drop_last(), sep);
    }
}

/// The pieces of `s` between the separators.
pub fn split(s: &str, sep: char) -> (r: Vec<String>)
    ensures
        texts(r@) == fields(s@, sep),
{
    let c = chars_of(s);
    let mut out: Vec<String> = Vec::new();
    let mut cur = String::new();
    let mut i: usize = 0;
    assert(texts(out@).push(cur@) =~= fields(s@.take(0), sep));
    while i < c.len()
        invariant
            c@ == s@,
            i <= c@.len(),
            texts(out@).push(cur@) == fields(s@.take(i as int), sep),
        decreases c@.len() - i,
    {
        let ghost before = texts(out@);
        let ghost held = cur@;
        proof {
            assert(s@.take(i + 1).drop_last() == s@.take(i as int));
            assert(before.push(held).drop_last() == before);
        }
        if c[i] == sep {
            out.push(cur);
            cur = String::new();
            assert(texts(out@) =~= before.push(held));
        } else {
            cur.push(c[i]);
            assert(texts(out@) =~= before);
        }
        i = i + 1;
    }
    assert(s@.take(s@.len() as int) == s@);
    let ghost before = texts(out@);
    let ghost held = cur@;
    out.push(cur);
    assert(texts(out@) =~= before.push(held));
    out
}

/// A line without the carriage return that it ends with.
pub open spec fn without_return(line: Seq<char>) -> Seq<char> {
    if line.len() > 0 && line.last() == '\r' {
        line.drop_last()
    } else {
        line
    }
}

/// The lines of a text. A line ends at a line feed, or at a carriage return
/// and a line feed; an empty piece behind the last line feed is no line.
pub open spec fn text_lines(s: Seq<char>) -> Seq<Seq<char>> {
    let rows = fields(s, '\n');
    let ended = Seq::new((rows.len() - 1) as nat, |i: int| without_return(rows[i]));
    if rows.last().len() == 0 {
        ended
    } else {
        ended.push(rows.last())
    }
}

/// The lines of a text.
pub fn lines(s: &str) -> (r: Vec<String>)
    ensures
        texts(r@) == text_lines(s@),
{
    let rows = split(s, '\n');
    proof {
        lemma_fields_nonempty(s@, '\n');
    }
    let ghost all = fields(s@, '\n');
    let last: usize = rows.len() - 1;
    let mut out: Vec<String> = Vec::new();
    let mut i: usize = 0;
    while i < last
        invariant
            texts(rows@) == all,
            last == rows@.len() - 1,
            i <= last,
            out@.len() == i,
            forall|k: int| 0 <= k < i ==> #[trigger] out@[k]@ == without_return(all[k]),
        decreases last - i,
    {
        assert(all[i as int] == rows@[i as int]@);
        let c = chars_of(rows[i].as_str());
        if c.len() > 0 && c[c.len() - 1] == '\r' {
            out.push(string_of(c.as_slice(), 0, c.len() - 1));
            assert(c@.subrange(0, c@.len() - 1) == c@.drop_last());
        } else {
            out.push(string_of(c.as_slice(), 0, c.len()));
            assert(c@.subrange(0, c@.len() as int) == c@);
        }
        i = i + 1;
    }
    assert(all.last() == rows@[last as int]@);
    if !rows[last].as_str().is_empty() {
        out.push(rows[last].clone());
    }
    assert(texts(out@) =~= text_lines(s@));
    out
}

/// A text without separators is one field.
pub proof fn lemma_one_field(s: Seq<char>, sep: char)
    requires
        !s.contains(sep),
    ensures
        fields(s, sep) == seq![s],
    decreases s.len(),
{
    if s.len() > 0 {
        let t = s.drop_last();
        assert(s[s.len() - 1] != sep);
        assert forall|i: int| 0 <= i < t.len() implies t[i] != sep by {
            assert(s[i] != sep);
        }
        lemma_one_field(t, sep);
        assert(t.push(s.last()) =~= s);
        assert(seq![t].drop_last().push(s) =~= seq![s]);
    } else {
        assert(s =~= Seq::empty());
    }
}

/// The fields on both sides of a separator are the fields of the whole.
pub proof fn lemma_fields_concat(a: Seq<char>, sep: char, b: Seq<char>)
    ensures
        fields(a + seq![sep] + b, sep) == fields(a, sep) + fields(b, sep),
    decreases b.len(),
{
    let s = a + seq![sep] + b;
    if b.len() == 0 {
        assert(s.drop_last() =~= a);
        assert(fields(s, sep) =~= fields(a, sep) + fields(b, sep));
    } else {
        lemma_fields_concat(a, sep, b.drop_last());
        lemma_fields_nonempty(b.drop_last(), sep);
        assert(s.drop_last() =~= a + seq![sep] + b.drop_last());
        assert(s.last() == b.last());
        assert(fields(s, sep) =~= fields(a, sep) + fields(b, sep));
    }
}

/// No field holds the separator.
pub proof fn lemma_field_has_no_separator(s: Seq<char>, sep: char, k: int)
    requires
        0 <= k < fields(s, sep).len(),
    ensures
        !fields(s, sep)[k].contains(sep),
    decreases s.len(),
{
    if s.len() > 0 {
        let t = s.drop_last();
        let before = fields(t, sep);
        lemma_fields_nonempty(t, sep);
        if k < before.len() {
            lemma_field_has_no_separator(t, sep, k);
            if s.last() != sep && k == before.len() - 1 {
                let f = before.last();
                assert forall|i: int| 0 <= i < f.push(s.last()).len() implies f.push(s.last())[i]
                    != sep by {
                    if i < f.len() {
                        assert(f[i] != sep);
                    }
                }
            }
        }
    }
}

/// The fields with separators between them are the text.
pub proof fn lemma_join_fields(s: Seq<char>, sep: char)
    ensures
        joined(fields(s, sep), seq![sep]) == s,
    decreases s.len(),
{
    if s.len() > 0 {
        let t = s.drop_last();
        let before = fields(t, sep);
        lemma_fields_nonempty(t, sep);
        lemma_join_fields(t, sep);
        assert(s =~= t.push(s.last()));
        if s.last() == sep {
            assert(before.push(Seq::empty()).drop_last() =~= before);
            assert(joined(fields(s, sep), seq![sep]) =~= s);
        } else {
            let last = before.last().push(s.last());
            assert(before.drop_last().push(last).drop_last() =~= before.drop_last());
            assert(joined(fields(s, sep), seq![sep]) =~= s);
        }
    }
}

/// Texts without separators, joined by separators, are the fields.
pub proof fn lemma_fields_of_joined(parts: Seq<Seq<char>>, sep: char)
    requires
        parts.len() > 0,
        forall|i: int| 0 <= i < parts.len() ==> !(#[trigger] parts[i]).contains(sep),
    ensures
        fields(joined(parts, seq![sep]), sep) == parts,
    decreases parts.len(),
{
    lemma_one_field(parts.last(), sep);
    if parts.len() == 1 {
        assert(parts =~= seq![parts[0]]);
    } else {
        let front = parts.drop_last();
        lemma_fields_of_joined(front, sep);
        lemma_fields_concat(joined(front, seq![sep]), sep, parts.last());
        assert(front + seq![parts.last()] =~= parts);
    }
}

proof fn lemma_field_chars(s: Seq<char>, sep: char, k: int, i: int)
    requires
        0 <= k < fields(s, sep).len(),
        0 <= i < fields(s, sep)[k].len(),
    ensures
        s.contains(fields(s, sep)[k][i]),
    decreases s.len(),
{
    if s.len() > 0 {
        let t = s.drop_last();
        let before = fields(t, sep);
        lemma_fields_nonempty(t, sep);
        let c = fields(s, sep)[k][i];
        if k < before.len() && i < before[k].len() {
            lemma_field_chars(t, sep, k, i);
            let j = choose|j: int| 0 <= j < t.len() && t[j] == c;
            assert(s[j] == c);
        } else {
            assert(s[s.len() - 1] == c);
        }
    }
}

/// The characters of a line are characters of the text.
pub proof fn lemma_line_chars(s: Seq<char>, k: int)
    requires
        0 <= k < text_lines(s).len(),
    ensures
        forall|i: int|
            0 <= i < text_lines(s)[k].len() ==> s.contains(#[trigger] text_lines(s)[k][i]),
{
    lemma_fields_nonempty(s, '\n');
    assert forall|i: int| 0 <= i < text_lines(s)[k].len() implies s.contains(
        #[trigger] text_lines(s)[k][i],
    ) by {
        lemma_field_chars(s, '\n', k, i);
    }
}

/// The bytes of two texts one behind the other are the bytes of the one and
/// then those of the other.
pub proof fn lemma_encode_concat(a: Seq<char>, b: Seq<char>)
    ensures
        encode_utf8(a + b) == encode_utf8(a) + encode_utf8(b),
    decreases a.len(),
{
    if a.len() == 0 {
        assert(a + b =~= b);
        assert(encode_utf8(a) + encode_utf8(b) =~= encode_utf8(b));
    } else {
        lemma_encode_concat(a.drop_first(), b);
        assert((a + b).drop_first() =~= a.drop_first() + b);
        assert(encode_utf8(a + b) =~= encode_utf8(a) + encode_utf8(b));
    }
}

/// The texts in `parts` with `sep` between them.
pub open spec fn joined(parts: Seq<Seq<char>>, sep: Seq<char>) -> Seq<char>
    decreases parts.len(),
{
    if parts.len() == 0 {
        Seq::empty()
    } else if parts.len() == 1 {
        parts[0]
    } else {
        joined(parts.drop_last(), sep) + sep + parts.last()
    }
}

/// The texts in `parts` with `sep` between them.
pub fn join(parts: &Vec<String>, sep: &str) -> (r: String)
    ensures
        r@ == joined(texts(parts@), sep@),
{
    let mut out = String::new();
    let ghost all = texts(parts@);
    let mut i: usize = 0;
    while i < parts.len()
        invariant
            all == texts(parts@),
            i <= parts@.len(),
            out@ == joined(all.take(i as int), sep@),
        decreases parts@.len() - i,
    {
        assert(all.take(i + 1).drop_last() == all.take(i as int));
        assert(all.take(i + 1).last() == parts@[i as int]@);
        if i > 0 {
            out.append(sep);
        } else {
            assert(out@ == Seq::<char>::empty());
        }
        out.append(parts[i].as_str());
        assert(out@ =~= joined(all.take(i + 1), sep@));
        i = i + 1;
    }
    assert(all.take(all.len() as int) == all);
    out
}

// ---- Numbers in decimal ----

pub open spec fn is_digit(c: char) -> bool {
    '0' <= c <= '9'
}

/// The decimal digit with the value `d`.
pub open spec fn digit(d: nat) -> char {
    (('0' as u32) + d) as char
}

/// `n` in decimal, without leading zeros.
pub open spec fn decimal(n: nat) -> Seq<char>
    decreases n,
{
    if n < 10 {
        seq![digit(n)]
    } else {
        decimal(n / 10).push(digit(n % 10))
    }
}

/// `n` in decimal, with a minus sign where it is negative.
pub open spec fn signed_decimal(n: int) -> Seq<char> {
    if n < 0 {
        seq!['-'] + decimal((-n) as nat)
    } else {
        decimal(n as nat)
    }
}

/// The number that a row of digits stands for.
pub open spec fn digits_value(s: Seq<char>) -> nat
    decreases s.len(),
{
    if s.len() == 0 {
        0
    } else {
        digits_value(s.drop_last()) * 10 + (s.last() as nat - '0' as nat) as nat
    }
}

/// A row of one digit or more.
pub open spec fn all_digits(s: Seq<char>) -> bool {
    s.len() > 0 && forall|i: int| 0 <= i < s.len() ==> is_digit(#[trigger] s[i])
}

/// A text without the plus sign that it starts with.
pub open spec fn without_plus(s: Seq<char>) -> Seq<char> {
    if s.len() > 0 && s[0] == '+' {
        s.drop_first()
    } else {
        s
    }
}

/// What a text says as an unsigned number of at most `max`: an optional plus
/// sign, then one digit or more and nothing else.
pub open spec fn unsigned(s: Seq<char>, max: nat) -> Option<nat> {
    let d = without_plus(s);
    if all_digits(d) && digits_value(d) <= max {
        Some(digits_value(d))
    } else {
        None
    }
}

proof fn lemma_digits_value_grows(s: Seq<char>, i: int)
    requires
        0 <= i <= s.len(),
        all_digits(s),
    ensures
        digits_value(s.take(i)) <= digits_value(s),
    decreases s.len() - i,
{
    if i < s.len() {
        lemma_digits_value_grows(s, i + 1);
        assert(s.take(i + 1).drop_last() == s.take(i));
    } else {
        assert(s.take(i) == s);
    }
}

/// What a text says as an unsigned number of at most `max`.
pub fn parse_unsigned(s: &str, max: u64) -> (r: Option<u64>)
    ensures
        r is Some == unsigned(s@, max as nat) is Some,
        r matches Some(n) ==> Some(n as nat) == unsigned(s@, max as nat),
{
    let c = chars_of(s);
    let start: usize = if c.len() > 0 && c[0] == '+' { 1 } else { 0 };
    let ghost d = without_plus(s@);
    assert(d == c@.skip(start as int));
    if c.len() == start {
        return None;
    }
    let mut n: u64 = 0;
    let mut i: usize = start;
    assert(digits_value(d.take(0)) == 0);
    while i < c.len()
        invariant
            c@ == s@,
            start <= i <= c@.len(),
            d == without_plus(s@),
            d == c@.skip(start as int),
            d.len() > 0,
            n <= max,
            n == digits_value(d.take(i - start)),
            forall|k: int| 0 <= k < i - start ==> is_digit(#[trigger] d[k]),
        decreases c@.len() - i,
    {
        let ghost k = i - start;
        assert(d[k] == c@[i as int]);
        if c[i] < '0' || '9' < c[i] {
            assert(!is_digit(d[k]));
            return None;
        }
        let v: u64 = c[i] as u64 - '0' as u64;
        assert(d.take(k + 1).drop_last() == d.take(k));
        assert(digits_value(d.take(k + 1)) == n * 10 + v);
        if n > max / 10 || v > max || n * 10 > max - v {
            assert(n * 10 + v > max);
            proof {
                if all_digits(d) {
                    lemma_digits_value_grows(d, k + 1);
                }
            }
            return None;
        }
        n = n * 10 + v;
        i = i + 1;
    }
    assert(d.take(d.len() as int) == d);
    Some(n)
}

/// Adds `n` in decimal to the end of `out`.
pub fn push_decimal(out: &mut String, n: u64)
    ensures
        final(out)@ == old(out)@ + decimal(n as nat),
    decreases n,
{
    if n >= 10 {
        push_decimal(out, n / 10);
    }
    let d: u8 = (n % 10) as u8;
    let c: char = (48 + d) as char;
    assert(c == digit((n % 10) as nat));
    out.push(c);
    assert(out@ =~= old(out)@ + decimal(n as nat));
}

/// Adds `n` in decimal to the end of `out`, with its sign where it is negative.
pub fn push_signed(out: &mut String, n: i64)
    ensures
        final(out)@ == old(out)@ + signed_decimal(n as int),
{
    if n < 0 {
        out.push('-');
        let m: u64 = (-(n + 1)) as u64 + 1;
        push_decimal(out, m);
        assert(out@ =~= old(out)@ + signed_decimal(n as int));
    } else {
        push_decimal(out, n as u64);
    }
}

/// A number in decimal is a row of digits.
pub proof fn lemma_decimal_digits(n: nat)
    ensures
        all_digits(decimal(n)),
        digits_value(decimal(n)) == n,
    decreases n,
{
    if n >= 10 {
        lemma_decimal_digits(n / 10);
        assert(decimal(n).drop_last() =~= decimal(n / 10));
    } else {
        reveal_with_fuel(digits_value, 2);
        assert(decimal(n).drop_last() =~= Seq::empty());
    }
}

/// A number in decimal is read as that number, holds nothing but digits, and has
/// no blanks around it.
pub proof fn lemma_decimal_field(n: nat)
    ensures
        forall|max: nat| n <= max ==> #[trigger] unsigned(decimal(n), max) == Some(n),
        forall|c: char| !is_digit(c) ==> !#[trigger] decimal(n).contains(c),
        trimmed(decimal(n)) == decimal(n),
{
    lemma_decimal_digits(n);
    let d = decimal(n);
    assert(is_digit(d[0]));
    assert(is_digit(d[d.len() - 1]));
    assert forall|c: char| !is_digit(c) implies !#[trigger] d.contains(c) by {
        assert forall|i: int| 0 <= i < d.len() implies d[i] != c by {
            assert(is_digit(d[i]));
        }
    }
}

// ---- Laws ----

/// Whether a text is nothing but whitespace.
pub open spec fn is_blank(s: Seq<char>) -> bool {
    forall|i: int| 0 <= i < s.len() ==> is_space(#[trigger] s[i])
}

proof fn lemma_trim_start_blank(a: Seq<char>, s: Seq<char>)
    requires
        is_blank(a),
        s.len() > 0 ==> !is_space(s[0]),
    ensures
        trim_start(a + s) == s,
    decreases a.len(),
{
    if a.len() == 0 {
        assert(a + s =~= s);
    } else {
        assert(is_space(a[0]));
        assert forall|i: int| 0 <= i < a.drop_first().len() implies is_space(
            #[trigger] a.drop_first()[i],
        ) by {
            assert(is_space(a[i + 1]));
        }
        lemma_trim_start_blank(a.drop_first(), s);
        assert((a + s).drop_first() =~= a.drop_first() + s);
        assert((a + s)[0] == a[0]);
    }
}

proof fn lemma_trim_end_blank(s: Seq<char>, b: Seq<char>)
    requires
        is_blank(b),
        s.len() > 0 ==> !is_space(s.last()),
    ensures
        trim_end(s + b) == s,
    decreases b.len(),
{
    if b.len() == 0 {
        assert(s + b =~= s);
    } else {
        assert(is_space(b[b.len() - 1]));
        assert forall|i: int| 0 <= i < b.drop_last().len() implies is_space(
            #[trigger] b.drop_last()[i],
        ) by {
            assert(is_space(b[i]));
        }
        lemma_trim_end_blank(s, b.drop_last());
        assert((s + b).drop_last() =~= s + b.drop_last());
    }
}

/// The whitespace around a text goes, and nothing else does.
pub proof fn trimming_takes_the_blanks_around(a: Seq<char>, s: Seq<char>, b: Seq<char>)
    requires
        is_blank(a),
        is_blank(b),
        s.len() > 0 ==> !is_space(s[0]) && !is_space(s.last()),
    ensures
        trimmed(a + s + b) == s,
{
    if s.len() > 0 {
        assert(a + s + b =~= a + (s + b));
        lemma_trim_start_blank(a, s + b);
        lemma_trim_end_blank(s, b);
    } else {
        let all = a + b;
        assert(a + s + b =~= all + s);
        assert forall|i: int| 0 <= i < all.len() implies is_space(#[trigger] all[i]) by {
            if i < a.len() {
                assert(is_space(a[i]));
            } else {
                assert(is_space(b[i - a.len()]));
            }
        }
        lemma_trim_start_blank(all, s);
        assert(trim_end(s) == s);
    }
}

/// A text and the same text in lower case have the same length, and differ in ASCII
/// letters only: those in upper case have become those that lie 32 behind them.
pub proof fn lower_case_differs_in_letters(s: Seq<char>, i: int)
    requires
        0 <= i < s.len(),
    ensures
        lowered(s).len() == s.len(),
        'A' <= s[i] <= 'Z' ==> lowered(s)[i] as int == s[i] as int + 32,
        !('A' <= s[i] <= 'Z') ==> lowered(s)[i] == s[i],
{
}

/// Copies of a prefix are taken from the start of a text one by one, until there is none.
pub proof fn prefixes_are_taken_one_by_one(p: Seq<char>, s: Seq<char>)
    requires
        p.len() > 0,
    ensures
        strip_all(p + s, p) == strip_all(s, p),
        !p.is_prefix_of(s) ==> strip_all(s, p) == s,
{
    assert((p + s).take(p.len() as int) =~= p);
    assert(p.is_prefix_of(p + s));
    assert((p + s).skip(p.len() as int) =~= s);
}

/// A line ends at the first line feed, with or without a carriage return before it; behind
/// it the other lines begin. What has no line feed is one line, and nothing is none.
pub proof fn lines_end_at_line_feeds(line: Seq<char>, rest: Seq<char>)
    requires
        !line.contains('\n'),
    ensures
        text_lines(line + seq!['\n'] + rest) == seq![
            if line.len() > 0 && line.last() == '\r' {
                line.drop_last()
            } else {
                line
            },
        ] + text_lines(rest),
        text_lines(line) == if line.len() == 0 {
            Seq::empty()
        } else {
            seq![line]
        },
{
    let s = line + seq!['\n'] + rest;
    lemma_one_field(line, '\n');
    lemma_fields_concat(line, '\n', rest);
    lemma_fields_nonempty(rest, '\n');
    let rows = fields(s, '\n');
    let more = fields(rest, '\n');
    assert(rows =~= seq![line] + more);
    assert(rows.last() == more.last());
    assert(text_lines(s) =~= seq![without_return(line)] + text_lines(rest));
    assert(text_lines(line) =~= if line.len() == 0 {
        Seq::empty()
    } else {
        seq![line]
    });
}

proof fn lemma_decimal_start(n: nat)
    ensures
        n > 0 ==> decimal(n)[0] != '0',
    decreases n,
{
    if n >= 10 {
        lemma_decimal_start(n / 10);
        lemma_decimal_digits(n / 10);
    }
}

/// A number is written in digits that have its value, with no zero in front of them.
pub proof fn decimals_have_their_value(n: nat)
    ensures
        all_digits(decimal(n)),
        digits_value(decimal(n)) == n,
        n > 0 ==> decimal(n)[0] != '0',
        n == 0 ==> decimal(n) == seq!['0'],
{
    lemma_decimal_digits(n);
    lemma_decimal_start(n);
    assert(n == 0 ==> decimal(n) =~= seq!['0']);
}

/// A number that is written is read as it was, with or without a plus sign before it; one
/// beyond the limit is not read, and neither is one with a minus sign.
pub proof fn numbers_are_read_back(n: nat, max: nat)
    ensures
        n <= max ==> unsigned(decimal(n), max) == Some(n),
        n <= max ==> unsigned(seq!['+'] + decimal(n), max) == Some(n),
        n > max ==> unsigned(decimal(n), max) is None,
        unsigned(seq!['-'] + decimal(n), max) is None,
        unsigned(Seq::empty(), max) is None,
{
    let d = decimal(n);
    lemma_decimal_digits(n);
    assert(is_digit(d[0]));
    assert((seq!['+'] + d).drop_first() =~= d);
    let m = seq!['-'] + d;
    assert(!is_digit(m[0]));
}

/// In ASCII the whitespace is the space and the controls from tab to carriage return.
pub proof fn ascii_blanks(c: char)
    requires
        c <= '\u{7f}',
    ensures
        is_space(c) <==> c == ' ' || c == '\t' || c == '\n' || c == '\u{b}' || c == '\u{c}' || c
            == '\r',
{
}

} // verus!
