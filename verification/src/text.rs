//! Character-sequence helpers shared by the routing, catalog and sitemap logic.
//!
//! Strings are modelled by their view, a `Seq<char>`; the executable helpers
//! work on `Vec<char>` copies of the text and are proved against the spec
//! functions defined here.
use vstd::prelude::*;
use vstd::std_specs::iter::IteratorSpec;
use vstd::utf8::*;

verus! {

/// `s` begins with `p`.
pub open spec fn starts_with(s: Seq<char>, p: Seq<char>) -> bool {
    p.len() <= s.len() && s.subrange(0, p.len() as int) == p
}

/// `s` ends with `p`.
pub open spec fn ends_with(s: Seq<char>, p: Seq<char>) -> bool {
    p.len() <= s.len() && s.subrange(s.len() - p.len(), s.len() as int) == p
}

/// `pat` occurs in `s` starting at index `i`.
pub open spec fn occurs_at(s: Seq<char>, pat: Seq<char>, i: int) -> bool {
    0 <= i && i + pat.len() <= s.len() && s.subrange(i, i + pat.len()) == pat
}

/// The first index at or after `from` where `pat` occurs in `s`.
pub open spec fn find_from(s: Seq<char>, pat: Seq<char>, from: int) -> Option<int>
    decreases s.len() + 1 - from,
{
    if from < 0 || from + pat.len() > s.len() {
        None
    } else if occurs_at(s, pat, from) {
        Some(from)
    } else {
        find_from(s, pat, from + 1)
    }
}

/// The first index where `pat` occurs in `s` (`str::find`).
pub open spec fn find(s: Seq<char>, pat: Seq<char>) -> Option<int> {
    find_from(s, pat, 0)
}

/// `s` with every trailing `c` removed (`str::trim_end_matches` with a char).
pub open spec fn trim_end_char(s: Seq<char>, c: char) -> Seq<char>
    decreases s.len(),
{
    if s.len() > 0 && s.last() == c {
        trim_end_char(s.drop_last(), c)
    } else {
        s
    }
}

/// `s` with every leading `c` removed (`str::trim_start_matches` with a char).
pub open spec fn trim_start_char(s: Seq<char>, c: char) -> Seq<char>
    decreases s.len(),
{
    if s.len() > 0 && s[0] == c {
        trim_start_char(s.drop_first(), c)
    } else {
        s
    }
}

/// Whether `c` has the Unicode `White_Space` property (`char::is_whitespace`): the ASCII
/// tab, line feed, vertical tab, form feed, carriage return and space, and the code points
/// U+0085, U+00A0, U+1680, U+2000 to U+200A, U+2028, U+2029, U+202F, U+205F and U+3000.
pub open spec fn is_white_space(c: char) -> bool {
    ('\u{9}' <= c && c <= '\u{d}') || c == ' ' || c == '\u{85}' || c == '\u{a0}' || c
        == '\u{1680}' || ('\u{2000}' <= c && c <= '\u{200a}') || c == '\u{2028}' || c
        == '\u{2029}' || c == '\u{202f}' || c == '\u{205f}' || c == '\u{3000}'
}

/// `s` without its leading white space (`str::trim_start`).
pub open spec fn trim_ws_start(s: Seq<char>) -> Seq<char>
    decreases s.len(),
{
    if s.len() > 0 && is_white_space(s[0]) {
        trim_ws_start(s.drop_first())
    } else {
        s
    }
}

/// `s` without its trailing white space (`str::trim_end`).
pub open spec fn trim_ws_end(s: Seq<char>) -> Seq<char>
    decreases s.len(),
{
    if s.len() > 0 && is_white_space(s.last()) {
        trim_ws_end(s.drop_last())
    } else {
        s
    }
}

/// `s` without leading and trailing white space (`str::trim`).
pub open spec fn trim_ws(s: Seq<char>) -> Seq<char> {
    trim_ws_end(trim_ws_start(s))
}

/// Lower-case ASCII letter, digit, `_` or `-`: the alphabet of route keys.
pub open spec fn is_key_char(c: char) -> bool {
    ('a' <= c && c <= 'z') || ('0' <= c && c <= '9') || c == '_' || c == '-'
}

/// Every character of `s` is a route-key character.
pub open spec fn all_key_chars(s: Seq<char>) -> bool {
    forall|i: int| 0 <= i < s.len() ==> is_key_char(#[trigger] s[i])
}

/// The characters of `s`, as `str::chars` yields them.
pub fn chars_of(s: &str) -> (v: Vec<char>)
    ensures
        v@ == s@,
{
    broadcast use vstd::string::axiom_spec_iter, vstd::string::next_postcondition;
    let mut v: Vec<char> = Vec::new();
    let mut it = s.chars();
    loop
        invariant
            v@ + it.remaining() == s@,
            it.obeys_prophetic_iter_laws(),
            it.decrease() is Some,
        decreases it.decrease()->0,
    {
        match it.next() {
            Some(c) => {
                v.push(c);
            },
            None => {
                assert(v@ =~= s@);
                return v;
            },
        }
    }
}

/// The string made of the characters of `v`.
pub fn string_of(v: &[char]) -> (s: String)
    ensures
        s@ == v@,
{
    let mut s = String::new();
    let mut i: usize = 0;
    while i < v.len()
        invariant
            i <= v@.len(),
            s@ == v@.subrange(0, i as int),
        decreases v.len() - i,
    {
        push_char(&mut s, v[i]);
        assert(v@.subrange(0, i as int).push(v@[i as int]) =~= v@.subrange(0, i + 1));
        i = i + 1;
    }
    assert(v@.subrange(0, v@.len() as int) =~= v@);
    s
}

/// Appends one character to a string (`String::push`).
#[verifier::external_body]
pub fn push_char(s: &mut String, c: char)
    ensures
        final(s)@ == old(s)@.push(c),
{
    s.push(c)
}

/// Whether `c` is white space (`char::is_whitespace`).
pub fn char_is_whitespace(c: char) -> (b: bool)
    ensures
        b == is_white_space(c),
{
    ('\u{9}' <= c && c <= '\u{d}') || c == ' ' || c == '\u{85}' || c == '\u{a0}' || c
        == '\u{1680}' || ('\u{2000}' <= c && c <= '\u{200a}') || c == '\u{2028}' || c
        == '\u{2029}' || c == '\u{202f}' || c == '\u{205f}' || c == '\u{3000}'
}

/// Whether two character slices hold the same characters.
pub fn chars_eq(a: &[char], b: &[char]) -> (r: bool)
    ensures
        r == (a@ == b@),
{
    if a.len() != b.len() {
        return false;
    }
    let mut i: usize = 0;
    while i < a.len()
        invariant
            a.len() == b.len(),
            i <= a.len(),
            forall|j: int| 0 <= j < i ==> a@[j] == b@[j],
        decreases a.len() - i,
    {
        if a[i] != b[i] {
            return false;
        }
        i = i + 1;
    }
    assert(a@ =~= b@);
    true
}

/// Whether two strings are equal.
pub fn str_eq(a: &str, b: &str) -> (r: bool)
    ensures
        r == (a@ == b@),
{
    let va = chars_of(a);
    let vb = chars_of(b);
    chars_eq(va.as_slice(), vb.as_slice())
}

/// Whether `s` occurs in `t` at index `at`.
pub fn chars_occur_at(t: &[char], s: &[char], at: usize) -> (r: bool)
    ensures
        r == occurs_at(t@, s@, at as int),
{
    if at > t.len() || s.len() > t.len() - at {
        return false;
    }
    let mut i: usize = 0;
    while i < s.len()
        invariant
            at + s.len() <= t.len(),
            i <= s.len(),
            forall|j: int| 0 <= j < i ==> t@[at + j] == s@[j],
        decreases s.len() - i,
    {
        if t[at + i] != s[i] {
            assert(t@.subrange(at as int, at + s.len())[i as int] != s@[i as int]);
            return false;
        }
        i = i + 1;
    }
    assert(t@.subrange(at as int, at + s.len()) =~= s@);
    true
}

/// Whether `t` begins with `p`.
pub fn chars_starts_with(t: &[char], p: &[char]) -> (r: bool)
    ensures
        r == starts_with(t@, p@),
{
    chars_occur_at(t, p, 0)
}

/// Whether `t` ends with `p`.
pub fn chars_ends_with(t: &[char], p: &[char]) -> (r: bool)
    ensures
        r == ends_with(t@, p@),
{
    if p.len() > t.len() {
        return false;
    }
    chars_occur_at(t, p, t.len() - p.len())
}

/// Whether `t` begins with the character `c`.
pub fn chars_starts_with_char(t: &[char], c: char) -> (r: bool)
    ensures
        r == (t@.len() > 0 && t@[0] == c),
{
    t.len() > 0 && t[0] == c
}

/// Whether `t` ends with the character `c`.
pub fn chars_ends_with_char(t: &[char], c: char) -> (r: bool)
    ensures
        r == (t@.len() > 0 && t@.last() == c),
{
    t.len() > 0 && t[t.len() - 1] == c
}

/// The characters of `t` from `from` (inclusive) to `to` (exclusive).
pub fn chars_sub(t: &[char], from: usize, to: usize) -> (r: Vec<char>)
    requires
        from <= to <= t@.len(),
    ensures
        r@ == t@.subrange(from as int, to as int),
{
    let mut r: Vec<char> = Vec::new();
    let mut i: usize = from;
    while i < to
        invariant
            from <= i <= to <= t@.len(),
            r@ == t@.subrange(from as int, i as int),
        decreases to - i,
    {
        r.push(t[i]);
        i = i + 1;
        assert(r@ =~= t@.subrange(from as int, i as int));
    }
    r
}

/// Appends the characters of `s` to `v`.
pub fn extend_chars(v: &mut Vec<char>, s: &[char])
    ensures
        final(v)@ == old(v)@ + s@,
{
    let mut i: usize = 0;
    while i < s.len()
        invariant
            i <= s@.len(),
            v@ == old(v)@ + s@.subrange(0, i as int),
        decreases s.len() - i,
    {
        v.push(s[i]);
        i = i + 1;
        assert(v@ =~= old(v)@ + s@.subrange(0, i as int));
    }
    assert(s@.subrange(0, s@.len() as int) =~= s@);
}

/// The length of `t` once its trailing `c` characters are dropped.
pub fn trim_end_char_len(t: &[char], c: char) -> (n: usize)
    ensures
        n <= t@.len(),
        t@.subrange(0, n as int) == trim_end_char(t@, c),
{
    let mut n: usize = t.len();
    assert(t@.subrange(0, n as int) =~= t@);
    while n > 0 && t[n - 1] == c
        invariant
            n <= t@.len(),
            trim_end_char(t@.subrange(0, n as int), c) == trim_end_char(t@, c),
        decreases n,
    {
        assert(t@.subrange(0, n as int).drop_last() =~= t@.subrange(0, n - 1));
        n = n - 1;
    }
    n
}

/// The index of the first character of `t` that is not `c`.
pub fn trim_start_char_len(t: &[char], c: char) -> (n: usize)
    ensures
        n <= t@.len(),
        t@.subrange(n as int, t@.len() as int) == trim_start_char(t@, c),
{
    let mut n: usize = 0;
    assert(t@.subrange(0, t@.len() as int) =~= t@);
    while n < t.len() && t[n] == c
        invariant
            n <= t@.len(),
            trim_start_char(t@.subrange(n as int, t@.len() as int), c) == trim_start_char(t@, c),
        decreases t.len() - n,
    {
        assert(t@.subrange(n as int, t@.len() as int).drop_first() =~= t@.subrange(
            n + 1,
            t@.len() as int,
        ));
        n = n + 1;
    }
    n
}

/// The bounds `(start, end)` of `t` without its surrounding white space.
pub fn trim_ws_bounds(t: &[char]) -> (r: (usize, usize))
    ensures
        r.0 <= r.1 <= t@.len(),
        t@.subrange(r.0 as int, r.1 as int) == trim_ws(t@),
        t@.subrange(r.0 as int, t@.len() as int) == trim_ws_start(t@),
{
    let mut s: usize = 0;
    assert(t@.subrange(0, t@.len() as int) =~= t@);
    while s < t.len() && char_is_whitespace(t[s])
        invariant
            s <= t@.len(),
            trim_ws_start(t@.subrange(s as int, t@.len() as int)) == trim_ws_start(t@),
        decreases t.len() - s,
    {
        assert(t@.subrange(s as int, t@.len() as int).drop_first() =~= t@.subrange(
            s + 1,
            t@.len() as int,
        ));
        s = s + 1;
    }
    let ghost st = t@.subrange(s as int, t@.len() as int);
    let mut e: usize = t.len();
    assert(t@.subrange(s as int, e as int) =~= st);
    while e > s && char_is_whitespace(t[e - 1])
        invariant
            s <= e <= t@.len(),
            st == t@.subrange(s as int, t@.len() as int),
            trim_ws_end(t@.subrange(s as int, e as int)) == trim_ws_end(st),
        decreases e,
    {
        assert(t@.subrange(s as int, e as int).drop_last() =~= t@.subrange(s as int, e - 1));
        e = e - 1;
    }
    (s, e)
}

/// Whether `t` is empty once trimmed of white space (`s.trim().is_empty()`).
pub fn chars_blank(t: &[char]) -> (r: bool)
    ensures
        r == (trim_ws(t@).len() == 0),
{
    let (s, e) = trim_ws_bounds(t);
    s == e
}

/// The first index at or after `from` where `pat` occurs in `t`.
pub fn chars_find_from(t: &[char], pat: &[char], from: usize) -> (r: Option<usize>)
    ensures
        match r {
            Some(i) => find_from(t@, pat@, from as int) == Some(i as int),
            None => find_from(t@, pat@, from as int) is None,
        },
{
    if pat.len() > t.len() || from > t.len() - pat.len() {
        return None;
    }
    let last = t.len() - pat.len();
    let mut i: usize = from;
    while i <= last
        invariant
            from <= i,
            last == t@.len() - pat@.len(),
            find_from(t@, pat@, i as int) == find_from(t@, pat@, from as int),
        decreases last + 1 - i,
    {
        if chars_occur_at(t, pat, i) {
            return Some(i);
        }
        if i == last {
            assert(find_from(t@, pat@, i + 1) is None);
            return None;
        }
        i = i + 1;
    }
    None
}

/// Whether every character of `t` is a route-key character.
pub fn chars_all_key(t: &[char]) -> (r: bool)
    ensures
        r == all_key_chars(t@),
{
    let mut i: usize = 0;
    while i < t.len()
        invariant
            i <= t@.len(),
            forall|j: int| 0 <= j < i ==> is_key_char(#[trigger] t@[j]),
        decreases t.len() - i,
    {
        let c = t[i];
        if !(('a' <= c && c <= 'z') || ('0' <= c && c <= '9') || c == '_' || c == '-') {
            return false;
        }
        i = i + 1;
    }
    true
}

/// The characters of `s` after its first `n` bytes of UTF-8 (what `&s[n..]` holds).
pub open spec fn byte_suffix(s: Seq<char>, n: int) -> Seq<char> {
    decode_utf8(encode_utf8(s).subrange(n, encode_utf8(s).len() as int))
}

/// UTF-8 encoding distributes over concatenation.
pub proof fn lemma_encode_concat(a: Seq<char>, b: Seq<char>)
    ensures
        encode_utf8(a + b) == encode_utf8(a) + encode_utf8(b),
    decreases a.len(),
{
    if a.len() == 0 {
        assert(a + b =~= b);
        assert(encode_utf8(a) + encode_utf8(b) =~= encode_utf8(b));
    } else {
        lemma_encode_concat(a.drop_first(), b);
        assert((a + b).drop_first() =~= a.drop_first() + b);
        assert((a + b)[0] == a[0]);
        assert(encode_utf8(a + b) =~= encode_scalar(a[0] as u32) + encode_utf8(a.drop_first() + b));
        assert(encode_utf8(a) + encode_utf8(b) =~= encode_scalar(a[0] as u32) + (encode_utf8(
            a.drop_first(),
        ) + encode_utf8(b)));
    }
}

/// The end of the encoding of a prefix is a character boundary of the whole encoding.
pub proof fn lemma_prefix_boundary(a: Seq<char>, b: Seq<char>)
    ensures
        valid_utf8(encode_utf8(a + b)),
        is_char_boundary(encode_utf8(a + b), encode_utf8(a).len() as int),
    decreases a.len(),
{
    encode_utf8_valid_utf8(a + b);
    if a.len() > 0 {
        let ab = a + b;
        let bytes = encode_utf8(ab);
        encode_utf8_first_scalar(ab);
        assert(pop_first_scalar(bytes) =~= encode_utf8(ab.drop_first()));
        assert(ab.drop_first() =~= a.drop_first() + b);
        assert(ab[0] == a[0]);
        lemma_prefix_boundary(a.drop_first(), b);
        assert(encode_utf8(a) =~= encode_scalar(a[0] as u32) + encode_utf8(a.drop_first()));
        lemma_encode_concat(a, b);
    }
}

/// When `p` begins with `q`, the characters after the bytes of `q` are the rest of `p`.
pub proof fn lemma_byte_suffix_of_prefix(p: Seq<char>, q: Seq<char>)
    requires
        starts_with(p, q),
    ensures
        valid_utf8(encode_utf8(p)),
        is_char_boundary(encode_utf8(p), encode_utf8(q).len() as int),
        byte_suffix(p, encode_utf8(q).len() as int) == p.subrange(q.len() as int, p.len() as int),
{
    let rest = p.subrange(q.len() as int, p.len() as int);
    assert(p =~= q + rest);
    lemma_prefix_boundary(q, rest);
    lemma_encode_concat(q, rest);
    let e = encode_utf8(p);
    assert(e.subrange(encode_utf8(q).len() as int, e.len() as int) =~= encode_utf8(rest));
    encode_utf8_decode_utf8(rest);
}

/// The number of bytes of the UTF-8 encoding of `s` (`str::len`).
pub fn byte_count(s: &str) -> (n: usize)
    ensures
        n as int == encode_utf8(s@).len(),
{
    let b = s.as_bytes();
    b.len()
}

/// `&s[n..]`, for a byte offset `n` on a character boundary.
pub fn str_tail(s: &str, n: usize) -> (r: &str)
    requires
        is_char_boundary(encode_utf8(s@), n as int),
    ensures
        r@ == byte_suffix(s@, n as int),
{
    let (_, tail) = s.split_at(n);
    proof {
        encode_utf8_decode_utf8(tail@);
    }
    tail
}

/// A match found by `find_from` lies within `s`.
pub proof fn lemma_find_from_some(s: Seq<char>, pat: Seq<char>, from: int)
    ensures
        find_from(s, pat, from) matches Some(i) ==> from <= i && i + pat.len() <= s.len()
            && occurs_at(s, pat, i),
    decreases s.len() + 1 - from,
{
    if !(from < 0 || from + pat.len() > s.len()) && !occurs_at(s, pat, from) {
        lemma_find_from_some(s, pat, from + 1);
    }
}

} // verus!
