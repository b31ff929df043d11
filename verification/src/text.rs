//! Character-sequence helpers shared by the parsers and matchers of the crate.
//!
//! Strings are reasoned about through their views (`Seq<char>`); the helpers
//! here state in spec form what the usual `str` operations compute.
use vstd::prelude::*;

verus! {

/// `String::push` appends one character to the end of the string.
pub assume_specification[ String::push ](s: &mut String, ch: char)
    ensures
        final(s)@ == old(s)@.push(ch),
;

// ---------------------------------------------------------------------------
// Character classes
// ---------------------------------------------------------------------------
/// The Unicode `White_Space` characters, which `char::is_whitespace` accepts.
pub open spec fn is_ws(c: char) -> bool {
    let u = c as u32;
    ||| (0x09 <= u && u <= 0x0d)
    ||| u == 0x20
    ||| u == 0x85
    ||| u == 0xa0
    ||| u == 0x1680
    ||| (0x2000 <= u && u <= 0x200a)
    ||| u == 0x2028
    ||| u == 0x2029
    ||| u == 0x202f
    ||| u == 0x205f
    ||| u == 0x3000
}

pub fn is_whitespace(c: char) -> (r: bool)
    ensures
        r == is_ws(c),
{
    let u = c as u32;
    (0x09 <= u && u <= 0x0d) || u == 0x20 || u == 0x85 || u == 0xa0 || u == 0x1680 || (0x2000
        <= u && u <= 0x200a) || u == 0x2028 || u == 0x2029 || u == 0x202f || u == 0x205f || u
        == 0x3000
}

pub open spec fn is_ascii_upper(c: char) -> bool {
    'A' <= c && c <= 'Z'
}

pub open spec fn is_ascii_lower(c: char) -> bool {
    'a' <= c && c <= 'z'
}

pub open spec fn is_ascii_digit(c: char) -> bool {
    '0' <= c && c <= '9'
}

pub open spec fn is_ascii_hex(c: char) -> bool {
    is_ascii_digit(c) || ('a' <= c && c <= 'f') || ('A' <= c && c <= 'F')
}

/// ASCII lowercase mapping of one character; other characters are kept.
pub open spec fn lower_char(c: char) -> char {
    if is_ascii_upper(c) {
        ((c as u32) + 32) as char
    } else {
        c
    }
}

/// ASCII uppercase mapping of one character; other characters are kept.
pub open spec fn upper_char(c: char) -> char {
    if is_ascii_lower(c) {
        ((c as u32) - 32) as char
    } else {
        c
    }
}

pub fn to_lower_char(c: char) -> (r: char)
    ensures
        r == lower_char(c),
{
    if 'A' <= c && c <= 'Z' {
        let u = c as u32 + 32;
        assert(0x61 <= u <= 0x7a);
        char_from_ascii(u)
    } else {
        c
    }
}

pub fn to_upper_char(c: char) -> (r: char)
    ensures
        r == upper_char(c),
{
    if 'a' <= c && c <= 'z' {
        let u = c as u32 - 32;
        char_from_ascii(u)
    } else {
        c
    }
}

/// The character of an ASCII code point.
pub fn char_from_ascii(u: u32) -> (c: char)
    requires
        u < 128,
    ensures
        c == u as char,
        c as u32 == u,
{
    let b: u8 = u as u8;
    b as char
}

/// ASCII lowercase of every character of a sequence.
pub open spec fn ascii_lower(s: Seq<char>) -> Seq<char> {
    s.map_values(|c: char| lower_char(c))
}

/// ASCII uppercase of every character of a sequence.
pub open spec fn ascii_upper(s: Seq<char>) -> Seq<char> {
    s.map_values(|c: char| upper_char(c))
}

/// Equality up to ASCII case, as `str::eq_ignore_ascii_case` decides it.
pub open spec fn eq_ignore_case(a: Seq<char>, b: Seq<char>) -> bool {
    ascii_lower(a) == ascii_lower(b)
}

// ---------------------------------------------------------------------------
// Conversions between `str` and character vectors
// ---------------------------------------------------------------------------
pub fn chars_of(s: &str) -> (v: Vec<char>)
    ensures
        v@ == s@,
{
    let mut v: Vec<char> = Vec::new();
    for c in it: s.chars()
        invariant
            v@ == it.seq().take(it.index() as int),
            it.seq() == s@,
    {
        v.push(c);
        assert(it.seq().take(it.index() + 1) == it.seq().take(it.index() as int).push(c));
    }
    assert(s@.take(s@.len() as int) == s@);
    v
}

pub fn string_of(v: &[char]) -> (s: String)
    ensures
        s@ == v@,
{
    let mut s = String::new();
    let mut i: usize = 0;
    while i < v.len()
        invariant
            i <= v.len(),
            s@ == v@.take(i as int),
        decreases v.len() - i,
    {
        s.push(v[i]);
        assert(v@.take(i + 1) == v@.take(i as int).push(v@[i as int]));
        i = i + 1;
    }
    assert(v@.take(v.len() as int) == v@);
    s
}

/// Appends every character of `src` to `dst`.
pub fn push_all(dst: &mut Vec<char>, src: &[char])
    ensures
        final(dst)@ == old(dst)@ + src@,
{
    let mut i: usize = 0;
    while i < src.len()
        invariant
            i <= src.len(),
            dst@ == old(dst)@ + src@.take(i as int),
        decreases src.len() - i,
    {
        dst.push(src[i]);
        assert(src@.take(i + 1) == src@.take(i as int).push(src@[i as int]));
        i = i + 1;
    }
    assert(src@.take(src.len() as int) == src@);
}

/// Appends every character of `src` to `dst`.
pub fn push_str_chars(dst: &mut Vec<char>, src: &str)
    ensures
        final(dst)@ == old(dst)@ + src@,
{
    let v = chars_of(src);
    push_all(dst, v.as_slice());
}

pub fn lower_vec(s: &[char]) -> (r: Vec<char>)
    ensures
        r@ == ascii_lower(s@),
{
    let mut r: Vec<char> = Vec::new();
    let mut i: usize = 0;
    while i < s.len()
        invariant
            i <= s.len(),
            r@ == ascii_lower(s@.take(i as int)),
        decreases s.len() - i,
    {
        let c = to_lower_char(s[i]);
        r.push(c);
        assert(ascii_lower(s@.take(i + 1)) == ascii_lower(s@.take(i as int)).push(lower_char(s@[i as int])));
        i = i + 1;
    }
    assert(s@.take(s.len() as int) == s@);
    r
}

pub fn upper_vec(s: &[char]) -> (r: Vec<char>)
    ensures
        r@ == ascii_upper(s@),
{
    let mut r: Vec<char> = Vec::new();
    let mut i: usize = 0;
    while i < s.len()
        invariant
            i <= s.len(),
            r@ == ascii_upper(s@.take(i as int)),
        decreases s.len() - i,
    {
        let c = to_upper_char(s[i]);
        r.push(c);
        assert(ascii_upper(s@.take(i + 1)) == ascii_upper(s@.take(i as int)).push(upper_char(s@[i as int])));
        i = i + 1;
    }
    assert(s@.take(s.len() as int) == s@);
    r
}

pub fn eq_chars(a: &[char], b: &[char]) -> (r: bool)
    ensures
        r == (a@ == b@),
{
    if a.len() != b.len() {
        return false;
    }
    let mut i: usize = 0;
    while i < a.len()
        invariant
            i <= a.len(),
            a.len() == b.len(),
            a@.take(i as int) == b@.take(i as int),
        decreases a.len() - i,
    {
        if a[i] != b[i] {
            assert(a@[i as int] != b@[i as int]);
            return false;
        }
        assert(a@.take(i + 1) == a@.take(i as int).push(a@[i as int]));
        assert(b@.take(i + 1) == b@.take(i as int).push(b@[i as int]));
        i = i + 1;
    }
    assert(a@.take(a.len() as int) == a@);
    assert(b@.take(b.len() as int) == b@);
    true
}

pub fn eq_str(a: &str, b: &str) -> (r: bool)
    ensures
        r == (a@ == b@),
{
    let va = chars_of(a);
    let vb = chars_of(b);
    eq_chars(va.as_slice(), vb.as_slice())
}

/// `str::eq_ignore_ascii_case` on character slices.
pub fn eq_ignore_case_chars(a: &[char], b: &[char]) -> (r: bool)
    ensures
        r == eq_ignore_case(a@, b@),
{
    let la = lower_vec(a);
    let lb = lower_vec(b);
    eq_chars(la.as_slice(), lb.as_slice())
}

pub fn eq_ignore_ascii_case(a: &str, b: &str) -> (r: bool)
    ensures
        r == eq_ignore_case(a@, b@),
{
    let va = chars_of(a);
    let vb = chars_of(b);
    eq_ignore_case_chars(va.as_slice(), vb.as_slice())
}

// ---------------------------------------------------------------------------
// Prefixes, suffixes and substrings
// ---------------------------------------------------------------------------
pub open spec fn starts_with(s: Seq<char>, p: Seq<char>) -> bool {
    p.len() <= s.len() && s.subrange(0, p.len() as int) == p
}

pub open spec fn ends_with(s: Seq<char>, p: Seq<char>) -> bool {
    p.len() <= s.len() && s.subrange(s.len() - p.len(), s.len() as int) == p
}

/// `p` occurs in `s` starting at position `i`.
pub open spec fn occurs_at(s: Seq<char>, p: Seq<char>, i: int) -> bool {
    0 <= i && i + p.len() <= s.len() && s.subrange(i, i + p.len()) == p
}

pub open spec fn contains(s: Seq<char>, p: Seq<char>) -> bool {
    exists|i: int| occurs_at(s, p, i)
}

/// The first position at which `p` occurs in `s`, as `str::find` returns it.
pub open spec fn first_occurrence(s: Seq<char>, p: Seq<char>) -> Option<int> {
    if contains(s, p) {
        Some(choose|i: int| occurs_at(s, p, i) && forall|j: int| 0 <= j < i ==> !occurs_at(s, p, j))
    } else {
        None
    }
}

pub fn starts_with_chars(s: &[char], p: &[char]) -> (r: bool)
    ensures
        r == starts_with(s@, p@),
{
    if p.len() > s.len() {
        return false;
    }
    let mut i: usize = 0;
    while i < p.len()
        invariant
            i <= p.len(),
            p.len() <= s.len(),
            s@.subrange(0, i as int) == p@.take(i as int),
        decreases p.len() - i,
    {
        if s[i] != p[i] {
            assert(s@.subrange(0, p.len() as int)[i as int] != p@[i as int]);
            return false;
        }
        assert(s@.subrange(0, i + 1) == s@.subrange(0, i as int).push(s@[i as int]));
        assert(p@.take(i + 1) == p@.take(i as int).push(p@[i as int]));
        i = i + 1;
    }
    assert(p@.take(p.len() as int) == p@);
    true
}

pub fn ends_with_chars(s: &[char], p: &[char]) -> (r: bool)
    ensures
        r == ends_with(s@, p@),
{
    if p.len() > s.len() {
        return false;
    }
    let off = s.len() - p.len();
    let mut i: usize = 0;
    while i < p.len()
        invariant
            i <= p.len(),
            off + p.len() == s.len(),
            s@.subrange(off as int, off + i) == p@.take(i as int),
        decreases p.len() - i,
    {
        if s[off + i] != p[i] {
            assert(s@.subrange(off as int, s.len() as int)[i as int] != p@[i as int]);
            return false;
        }
        assert(s@.subrange(off as int, off + i + 1) == s@.subrange(off as int, off + i).push(
            s@[off + i],
        ));
        assert(p@.take(i + 1) == p@.take(i as int).push(p@[i as int]));
        i = i + 1;
    }
    assert(p@.take(p.len() as int) == p@);
    true
}

/// Whether `p` occurs in `s` at position `i`.
pub fn occurs_at_exec(s: &[char], p: &[char], i: usize) -> (r: bool)
    ensures
        r == occurs_at(s@, p@, i as int),
{
    if i > s.len() || p.len() > s.len() - i {
        return false;
    }
    let mut k: usize = 0;
    while k < p.len()
        invariant
            k <= p.len(),
            i + p.len() <= s.len(),
            s@.subrange(i as int, i + k) == p@.take(k as int),
        decreases p.len() - k,
    {
        if s[i + k] != p[k] {
            assert(s@.subrange(i as int, i + p.len())[k as int] != p@[k as int]);
            return false;
        }
        assert(s@.subrange(i as int, i + k + 1) == s@.subrange(i as int, i + k).push(s@[i + k]));
        assert(p@.take(k + 1) == p@.take(k as int).push(p@[k as int]));
        k = k + 1;
    }
    assert(p@.take(p.len() as int) == p@);
    true
}

/// `str::find`: the first position at which `p` occurs in `s`.
pub fn find_chars(s: &[char], p: &[char]) -> (r: Option<usize>)
    ensures
        r matches Some(i) ==> first_occurrence(s@, p@) == Some(i as int) && occurs_at(
            s@,
            p@,
            i as int,
        ) && forall|j: int| 0 <= j < i ==> !occurs_at(s@, p@, j),
        r is None ==> first_occurrence(s@, p@) is None && !contains(s@, p@),
{
    let mut i: usize = 0;
    while i < s.len()
        invariant
            i <= s.len(),
            forall|j: int| 0 <= j < i ==> !occurs_at(s@, p@, j),
        decreases s.len() - i,
    {
        if occurs_at_exec(s, p, i) {
            proof {
                lemma_first_occurrence_is(s@, p@, i as int);
            }
            return Some(i);
        }
        i = i + 1;
    }
    if occurs_at_exec(s, p, i) {
        proof {
            lemma_first_occurrence_is(s@, p@, i as int);
        }
        return Some(i);
    }
    assert forall|j: int| !occurs_at(s@, p@, j) by {
        if 0 <= j <= i {
        } else {
        }
    }
    None
}

pub proof fn lemma_first_occurrence_is(s: Seq<char>, p: Seq<char>, i: int)
    requires
        occurs_at(s, p, i),
        forall|j: int| 0 <= j < i ==> !occurs_at(s, p, j),
    ensures
        first_occurrence(s, p) == Some(i),
{
    let k = choose|k: int| occurs_at(s, p, k) && forall|j: int| 0 <= j < k ==> !occurs_at(s, p, j);
    assert(occurs_at(s, p, k) && forall|j: int| 0 <= j < k ==> !occurs_at(s, p, j));
    if k < i {
        assert(!occurs_at(s, p, k));
    }
    if i < k {
        assert(!occurs_at(s, p, i));
    }
}

proof fn lemma_least_occurrence(s: Seq<char>, p: Seq<char>, i: int)
    requires
        occurs_at(s, p, i),
    ensures
        exists|k: int| occurs_at(s, p, k) && forall|j: int| 0 <= j < k ==> !occurs_at(s, p, j),
    decreases i,
{
    if exists|j: int| 0 <= j < i && occurs_at(s, p, j) {
        let j = choose|j: int| 0 <= j < i && occurs_at(s, p, j);
        lemma_least_occurrence(s, p, j);
    } else {
        assert(forall|j: int| 0 <= j < i ==> !occurs_at(s, p, j));
    }
}

/// What `first_occurrence` gives: the least position at which `p` occurs,
/// or nothing when `p` does not occur.
pub proof fn lemma_first_occurrence_facts(s: Seq<char>, p: Seq<char>)
    ensures
        first_occurrence(s, p) matches Some(i) ==> occurs_at(s, p, i) && forall|j: int|
            0 <= j < i ==> !occurs_at(s, p, j),
        first_occurrence(s, p) is None <==> !contains(s, p),
{
    if contains(s, p) {
        let i = choose|i: int| occurs_at(s, p, i);
        lemma_least_occurrence(s, p, i);
    }
}

pub fn contains_chars(s: &[char], p: &[char]) -> (r: bool)
    ensures
        r == contains(s@, p@),
{
    match find_chars(s, p) {
        Some(i) => {
            assert(occurs_at(s@, p@, i as int));
            true
        },
        None => false,
    }
}

pub fn contains_str(s: &str, p: &str) -> (r: bool)
    ensures
        r == contains(s@, p@),
{
    let vs = chars_of(s);
    let vp = chars_of(p);
    contains_chars(vs.as_slice(), vp.as_slice())
}

pub fn starts_with_str(s: &str, p: &str) -> (r: bool)
    ensures
        r == starts_with(s@, p@),
{
    let vs = chars_of(s);
    let vp = chars_of(p);
    starts_with_chars(vs.as_slice(), vp.as_slice())
}

/// Whether the single character `c` occurs in `s`.
pub fn has_char(s: &[char], c: char) -> (r: bool)
    ensures
        r == s@.contains(c),
{
    let mut i: usize = 0;
    while i < s.len()
        invariant
            i <= s.len(),
            forall|j: int| 0 <= j < i ==> s@[j] != c,
        decreases s.len() - i,
    {
        if s[i] == c {
            assert(s@[i as int] == c);
            return true;
        }
        i = i + 1;
    }
    false
}

/// The first position of character `c` in `s`.
pub fn find_char(s: &[char], c: char) -> (r: Option<usize>)
    ensures
        r matches Some(i) ==> i < s.len() && s@[i as int] == c && forall|j: int|
            0 <= j < i ==> s@[j] != c,
        r is None ==> !s@.contains(c),
{
    let mut i: usize = 0;
    while i < s.len()
        invariant
            i <= s.len(),
            forall|j: int| 0 <= j < i ==> s@[j] != c,
        decreases s.len() - i,
    {
        if s[i] == c {
            return Some(i);
        }
        i = i + 1;
    }
    None
}

pub fn slice_vec(s: &[char], start: usize, end: usize) -> (r: Vec<char>)
    requires
        start <= end <= s.len(),
    ensures
        r@ == s@.subrange(start as int, end as int),
{
    let mut r: Vec<char> = Vec::new();
    let mut i: usize = start;
    while i < end
        invariant
            start <= i <= end,
            end <= s.len(),
            r@ == s@.subrange(start as int, i as int),
        decreases end - i,
    {
        r.push(s[i]);
        assert(s@.subrange(start as int, i + 1) == s@.subrange(start as int, i as int).push(
            s@[i as int],
        ));
        i = i + 1;
    }
    r
}


/// The position just after the first occurrence of `p` in `s`.
pub fn find_after(s: &[char], p: &[char]) -> (r: Option<usize>)
    ensures
        match first_occurrence(s@, p@) {
            Some(n) => r is Some && r->0 == n + p@.len() && n + p@.len() <= s@.len(),
            None => r is None,
        },
{
    match find_chars(s, p) {
        Some(n) => {
            assert(occurs_at(s@, p@, n as int));
            assert(n + p@.len() <= s@.len());
            assert(p@.len() == p.len());
            assert(s@.len() == s.len());
            Some(n + p.len())
        },
        None => None,
    }
}

/// First position of `c` in `s`.
pub open spec fn index_of(s: Seq<char>, c: char) -> Option<int> {
    if s.contains(c) {
        Some(choose|i: int| 0 <= i < s.len() && s[i] == c && forall|j: int| 0 <= j < i ==> s[j] != c)
    } else {
        None
    }
}

pub proof fn lemma_index_of_is(s: Seq<char>, c: char, i: int)
    requires
        0 <= i < s.len(),
        s[i] == c,
        forall|j: int| 0 <= j < i ==> s[j] != c,
    ensures
        index_of(s, c) == Some(i),
{
    assert(s.contains(c));
    let k = choose|k: int| 0 <= k < s.len() && s[k] == c && forall|j: int| 0 <= j < k ==> s[j] != c;
    assert(0 <= k < s.len() && s[k] == c && forall|j: int| 0 <= j < k ==> s[j] != c);
    if k < i {
        assert(s[k] != c);
    }
    if i < k {
        assert(s[i] != c);
    }
}

pub proof fn lemma_index_of_bound(s: Seq<char>, c: char)
    ensures
        index_of(s, c) matches Some(i) ==> 0 <= i < s.len() && s[i] == c && forall|j: int|
            0 <= j < i ==> s[j] != c,
        index_of(s, c) is None ==> !s.contains(c),
{
    if s.contains(c) {
        let j = choose|j: int| 0 <= j < s.len() && s[j] == c;
        let mut k = j;
        // the least index holding `c` exists
        assert(exists|k: int| 0 <= k < s.len() && s[k] == c && forall|m: int| 0 <= m < k ==> s[m] != c) by {
            lemma_least_index(s, c, j);
        }
    }
}

proof fn lemma_least_index(s: Seq<char>, c: char, j: int)
    requires
        0 <= j < s.len(),
        s[j] == c,
    ensures
        exists|k: int| 0 <= k < s.len() && s[k] == c && forall|m: int| 0 <= m < k ==> s[m] != c,
    decreases j,
{
    if exists|m: int| 0 <= m < j && s[m] == c {
        let m = choose|m: int| 0 <= m < j && s[m] == c;
        lemma_least_index(s, c, m);
    } else {
        assert(forall|m: int| 0 <= m < j ==> s[m] != c);
    }
}

pub fn index_of_exec(s: &[char], c: char) -> (r: Option<usize>)
    ensures
        r matches Some(i) ==> index_of(s@, c) == Some(i as int) && i < s.len(),
        r is None ==> index_of(s@, c) is None,
{
    match find_char(s, c) {
        Some(i) => {
            proof {
                lemma_index_of_is(s@, c, i as int);
            }
            Some(i)
        },
        None => None,
    }
}

/// The fields of `s` between the separator `sep`.
#[verifier::opaque]
pub open spec fn split_on(s: Seq<char>, sep: char) -> Seq<Seq<char>>
    decreases s.len(),
{
    match index_of(s, sep) {
        Some(k) => if 0 <= k < s.len() {
            seq![s.take(k)] + split_on(s.skip(k + 1), sep)
        } else {
            seq![]
        },
        None => seq![s],
    }
}

proof fn lemma_split_step(s: Seq<char>, sep: char, start: int, i: int)
    requires
        0 <= start <= i < s.len(),
        s[i] == sep,
        forall|j: int| start <= j < i ==> s[j] != sep,
    ensures
        split_on(s.skip(start), sep) == seq![s.subrange(start, i)] + split_on(s.skip(i + 1), sep),
{
    let t = s.skip(start);
    assert(t[i - start] == sep);
    assert forall|j: int| 0 <= j < i - start implies t[j] != sep by {
        assert(t[j] == s[start + j]);
    }
    lemma_index_of_is(t, sep, i - start);
    assert(t.take(i - start) == s.subrange(start, i));
    assert(t.skip(i - start + 1) == s.skip(i + 1));
    reveal(split_on);
}

proof fn lemma_split_last(s: Seq<char>, sep: char, start: int)
    requires
        0 <= start <= s.len(),
        forall|j: int| start <= j < s.len() ==> s[j] != sep,
    ensures
        split_on(s.skip(start), sep) == seq![s.subrange(start, s.len() as int)],
{
    let t = s.skip(start);
    assert(!t.contains(sep)) by {
        if t.contains(sep) {
            let j = choose|j: int| 0 <= j < t.len() && t[j] == sep;
            assert(t[j] == s[start + j]);
        }
    }
    assert(t == s.subrange(start, s.len() as int));
    reveal(split_on);
}

/// `str::split(sep)`.
pub fn split_on_exec(s: &[char], sep: char) -> (r: Vec<Vec<char>>)
    ensures
        views(r@) == split_on(s@, sep),
{
    let mut out: Vec<Vec<char>> = Vec::new();
    let mut start: usize = 0;
    let mut i: usize = 0;
    assert(s@.skip(0) == s@);
    assert(views(out@) + split_on(s@, sep) =~= split_on(s@, sep));
    while i < s.len()
        invariant
            start <= i <= s.len(),
            forall|j: int| start <= j < i ==> s@[j] != sep,
            views(out@) + split_on(s@.skip(start as int), sep) == split_on(s@, sep),
        decreases s.len() - i,
    {
        if s[i] == sep {
            let piece = slice_vec(s, start, i);
            proof {
                lemma_split_step(s@, sep, start as int, i as int);
                lemma_views_push(out@, piece);
                assert(views(out@) + split_on(s@.skip(start as int), sep) =~= views(out@).push(
                    piece@,
                ) + split_on(s@.skip(i + 1), sep));
            }
            out.push(piece);
            start = i + 1;
        }
        i = i + 1;
    }
    let piece = slice_vec(s, start, s.len());
    proof {
        lemma_split_last(s@, sep, start as int);
        lemma_views_push(out@, piece);
        assert(views(out@) + split_on(s@.skip(start as int), sep) =~= views(out@).push(piece@));
    }
    out.push(piece);
    out
}

// ---------------------------------------------------------------------------
// Trimming
// ---------------------------------------------------------------------------
/// Number of leading white-space characters.
pub open spec fn lead_ws(s: Seq<char>) -> nat
    decreases s.len(),
{
    if s.len() > 0 && is_ws(s[0]) {
        1 + lead_ws(s.drop_first())
    } else {
        0
    }
}

/// Number of trailing white-space characters.
pub open spec fn trail_ws(s: Seq<char>) -> nat
    decreases s.len(),
{
    if s.len() > 0 && is_ws(s.last()) {
        1 + trail_ws(s.drop_last())
    } else {
        0
    }
}

/// `str::trim_start`.
pub open spec fn trim_start(s: Seq<char>) -> Seq<char> {
    s.skip(lead_ws(s) as int)
}

/// `str::trim_end`.
pub open spec fn trim_end(s: Seq<char>) -> Seq<char> {
    s.take(s.len() - trail_ws(s))
}

/// `str::trim`.
pub open spec fn trim(s: Seq<char>) -> Seq<char> {
    trim_end(trim_start(s))
}

pub proof fn lemma_lead_ws(s: Seq<char>, i: int)
    requires
        0 <= i <= s.len(),
        forall|j: int| 0 <= j < i ==> is_ws(#[trigger] s[j]),
    ensures
        lead_ws(s) == i + lead_ws(s.skip(i)),
        lead_ws(s) <= s.len(),
    decreases i,
{
    lemma_lead_ws_bound(s);
    if i > 0 {
        assert(is_ws(s[0]));
        let t = s.drop_first();
        assert forall|j: int| 0 <= j < i - 1 implies is_ws(#[trigger] t[j]) by {
            assert(t[j] == s[j + 1]);
        }
        lemma_lead_ws(t, i - 1);
        assert(t.skip(i - 1) == s.skip(i));
    } else {
        assert(s.skip(0) == s);
    }
}

pub proof fn lemma_lead_ws_bound(s: Seq<char>)
    ensures
        lead_ws(s) <= s.len(),
        forall|j: int| 0 <= j < lead_ws(s) ==> is_ws(#[trigger] s[j]),
        lead_ws(s) < s.len() ==> !is_ws(s[lead_ws(s) as int]),
    decreases s.len(),
{
    if s.len() > 0 && is_ws(s[0]) {
        let t = s.drop_first();
        lemma_lead_ws_bound(t);
        assert forall|j: int| 0 <= j < lead_ws(s) implies is_ws(#[trigger] s[j]) by {
            if j > 0 {
                assert(s[j] == t[j - 1]);
            }
        }
        if lead_ws(s) < s.len() {
            assert(s[lead_ws(s) as int] == t[lead_ws(t) as int]);
        }
    }
}

pub proof fn lemma_trail_ws_bound(s: Seq<char>)
    ensures
        trail_ws(s) <= s.len(),
        forall|j: int| s.len() - trail_ws(s) <= j < s.len() ==> is_ws(#[trigger] s[j]),
        trail_ws(s) < s.len() ==> !is_ws(s[s.len() - trail_ws(s) - 1]),
    decreases s.len(),
{
    if s.len() > 0 && is_ws(s.last()) {
        let t = s.drop_last();
        lemma_trail_ws_bound(t);
        assert forall|j: int| s.len() - trail_ws(s) <= j < s.len() implies is_ws(#[trigger] s[j]) by {
            if j < s.len() - 1 {
                assert(s[j] == t[j]);
            }
        }
        if trail_ws(s) < s.len() {
            assert(s[s.len() - trail_ws(s) - 1] == t[t.len() - trail_ws(t) - 1]);
        }
    }
}

/// Characterizes `lead_ws` by its two defining facts.
pub proof fn lemma_lead_ws_unique(s: Seq<char>, i: int)
    requires
        0 <= i <= s.len(),
        forall|j: int| 0 <= j < i ==> is_ws(#[trigger] s[j]),
        i < s.len() ==> !is_ws(s[i]),
    ensures
        lead_ws(s) == i,
{
    lemma_lead_ws(s, i);
    let t = s.skip(i);
    if t.len() > 0 {
        assert(t[0] == s[i]);
    }
}

/// Characterizes `trail_ws` by its two defining facts.
pub proof fn lemma_trail_ws_unique(s: Seq<char>, k: int)
    requires
        0 <= k <= s.len(),
        forall|j: int| s.len() - k <= j < s.len() ==> is_ws(#[trigger] s[j]),
        k < s.len() ==> !is_ws(s[s.len() - k - 1]),
    ensures
        trail_ws(s) == k,
    decreases k,
{
    lemma_trail_ws_bound(s);
    if k > 0 {
        assert(is_ws(s.last()));
        let t = s.drop_last();
        assert forall|j: int| t.len() - (k - 1) <= j < t.len() implies is_ws(#[trigger] t[j]) by {
            assert(t[j] == s[j]);
        }
        if k - 1 < t.len() {
            assert(t[t.len() - (k - 1) - 1] == s[s.len() - k - 1]);
        }
        lemma_trail_ws_unique(t, k - 1);
    } else {
        if s.len() > 0 {
            assert(!is_ws(s.last()));
        }
    }
}

/// Index of the first non-white-space character (or the length).
pub fn lead_ws_exec(s: &[char]) -> (r: usize)
    ensures
        r == lead_ws(s@),
        r <= s.len(),
{
    let mut i: usize = 0;
    while i < s.len() && is_whitespace(s[i])
        invariant
            i <= s.len(),
            forall|j: int| 0 <= j < i ==> is_ws(#[trigger] s@[j]),
        decreases s.len() - i,
    {
        i = i + 1;
    }
    proof {
        lemma_lead_ws_unique(s@, i as int);
    }
    i
}

/// Number of trailing white-space characters.
pub fn trail_ws_exec(s: &[char]) -> (r: usize)
    ensures
        r == trail_ws(s@),
        r <= s.len(),
{
    let mut k: usize = 0;
    while k < s.len() && is_whitespace(s[s.len() - 1 - k])
        invariant
            k <= s.len(),
            forall|j: int| s.len() - k <= j < s.len() ==> is_ws(#[trigger] s@[j]),
        decreases s.len() - k,
    {
        k = k + 1;
    }
    proof {
        lemma_trail_ws_unique(s@, k as int);
    }
    k
}

pub fn trim_start_chars(s: &[char]) -> (r: Vec<char>)
    ensures
        r@ == trim_start(s@),
{
    let i = lead_ws_exec(s);
    slice_vec(s, i, s.len())
}

pub fn trim_end_chars(s: &[char]) -> (r: Vec<char>)
    ensures
        r@ == trim_end(s@),
{
    let k = trail_ws_exec(s);
    slice_vec(s, 0, s.len() - k)
}

pub fn trim_chars(s: &[char]) -> (r: Vec<char>)
    ensures
        r@ == trim(s@),
{
    let a = trim_start_chars(s);
    trim_end_chars(a.as_slice())
}

pub fn trim_str(s: &str) -> (r: Vec<char>)
    ensures
        r@ == trim(s@),
{
    let v = chars_of(s);
    trim_chars(v.as_slice())
}

/// A trimmed sequence neither begins nor ends with white space.
pub proof fn lemma_trim_edges(s: Seq<char>)
    ensures
        trim(s).len() > 0 ==> !is_ws(trim(s)[0]) && !is_ws(trim(s).last()),
        trim(s).len() <= s.len(),
{
    lemma_lead_ws_bound(s);
    let a = trim_start(s);
    lemma_trail_ws_bound(a);
    if trim(s).len() > 0 {
        assert(trim(s)[0] == a[0]);
        assert(a[0] == s[lead_ws(s) as int]);
        assert(trim(s).last() == a[a.len() - trail_ws(a) - 1]);
    }
}

/// Trimming twice is trimming once.
pub proof fn lemma_trim_idempotent(s: Seq<char>)
    ensures
        trim(trim(s)) == trim(s),
{
    let t = trim(s);
    lemma_trim_edges(s);
    lemma_lead_ws_unique(t, 0);
    assert(t.skip(0) == t);
    lemma_trail_ws_unique(t, 0);
    assert(t.take(t.len() as int) == t);
}


// ---------------------------------------------------------------------------
// Lines
// ---------------------------------------------------------------------------
/// Drops one trailing carriage return.
pub open spec fn strip_cr(s: Seq<char>) -> Seq<char> {
    if s.len() > 0 && s.last() == '\r' {
        s.drop_last()
    } else {
        s
    }
}

/// The lines of a text as `str::lines` yields them: split after each line
/// feed, the feed and one carriage return before it dropped, and no empty
/// line after a final line feed.
#[verifier::opaque]
pub open spec fn lines_of(s: Seq<char>) -> Seq<Seq<char>>
    decreases s.len(),
{
    if s.len() == 0 {
        seq![]
    } else if !s.contains('\n') {
        seq![s]
    } else {
        let i = choose|i: int| 0 <= i < s.len() && s[i] == '\n' && forall|j: int| 0 <= j < i ==> s[j] != '\n';
        if 0 <= i < s.len() {
            seq![strip_cr(s.take(i))] + lines_of(s.skip(i + 1))
        } else {
            seq![]
        }
    }
}

pub proof fn lemma_lines_of_step(s: Seq<char>, i: int)
    requires
        0 <= i < s.len(),
        s[i] == '\n',
        forall|j: int| 0 <= j < i ==> s[j] != '\n',
    ensures
        lines_of(s) == seq![strip_cr(s.take(i))] + lines_of(s.skip(i + 1)),
{
    reveal(lines_of);
    assert(s.contains('\n'));
    let k = choose|k: int| 0 <= k < s.len() && s[k] == '\n' && forall|j: int| 0 <= j < k ==> s[j] != '\n';
    assert(0 <= k < s.len() && s[k] == '\n' && forall|j: int| 0 <= j < k ==> s[j] != '\n');
    if k < i {
        assert(s[k] != '\n');
    }
    if i < k {
        assert(s[i] != '\n');
    }
}

pub fn strip_cr_vec(v: Vec<char>) -> (r: Vec<char>)
    ensures
        r@ == strip_cr(v@),
{
    let mut v = v;
    if v.len() > 0 && v[v.len() - 1] == '\r' {
        v.pop();
    }
    v
}

pub open spec fn views(v: Seq<Vec<char>>) -> Seq<Seq<char>> {
    v.map_values(|l: Vec<char>| l@)
}

proof fn lemma_lines_split(s: Seq<char>, start: int, i: int)
    requires
        0 <= start <= i < s.len(),
        s[i] == '\n',
        forall|j: int| start <= j < i ==> s[j] != '\n',
    ensures
        lines_of(s.skip(start)) == seq![strip_cr(s.subrange(start, i))] + lines_of(s.skip(i + 1)),
{
    let t = s.skip(start);
    assert(t[i - start] == '\n');
    assert forall|j: int| 0 <= j < i - start implies t[j] != '\n' by {
        assert(t[j] == s[start + j]);
    }
    lemma_lines_of_step(t, i - start);
    assert(t.take(i - start) == s.subrange(start, i));
    assert(t.skip(i - start + 1) == s.skip(i + 1));
}

proof fn lemma_lines_last(s: Seq<char>, start: int)
    requires
        0 <= start < s.len(),
        forall|j: int| start <= j < s.len() ==> s[j] != '\n',
    ensures
        lines_of(s.skip(start)) == seq![s.subrange(start, s.len() as int)],
{
    let t = s.skip(start);
    assert(!t.contains('\n')) by {
        if t.contains('\n') {
            let j = choose|j: int| 0 <= j < t.len() && t[j] == '\n';
            assert(t[j] == s[start + j]);
        }
    }
    assert(t == s.subrange(start, s.len() as int));
    reveal(lines_of);
}

proof fn lemma_views_push(v: Seq<Vec<char>>, x: Vec<char>)
    ensures
        views(v.push(x)) == views(v).push(x@),
{
    assert(views(v.push(x)) =~= views(v).push(x@));
}

/// `str::lines`.
pub fn lines_vec(s: &[char]) -> (r: Vec<Vec<char>>)
    ensures
        views(r@) == lines_of(s@),
{
    let mut out: Vec<Vec<char>> = Vec::new();
    let mut start: usize = 0;
    let mut i: usize = 0;
    assert(s@.skip(0) == s@);
    assert(views(out@) + lines_of(s@) =~= lines_of(s@));
    while i < s.len()
        invariant
            start <= i <= s.len(),
            forall|j: int| start <= j < i ==> s@[j] != '\n',
            views(out@) + lines_of(s@.skip(start as int)) == lines_of(s@),
        decreases s.len() - i,
    {
        if s[i] == '\n' {
            let piece = slice_vec(s, start, i);
            let piece = strip_cr_vec(piece);
            proof {
                lemma_lines_split(s@, start as int, i as int);
                lemma_views_push(out@, piece);
                assert(views(out@) + lines_of(s@.skip(start as int)) =~= views(out@).push(piece@)
                    + lines_of(s@.skip(i + 1)));
            }
            out.push(piece);
            start = i + 1;
        }
        i = i + 1;
    }
    if start < s.len() {
        let piece = slice_vec(s, start, s.len());
        proof {
            lemma_lines_last(s@, start as int);
            lemma_views_push(out@, piece);
            assert(views(out@) + lines_of(s@.skip(start as int)) =~= views(out@).push(piece@));
        }
        out.push(piece);
    } else {
        assert(s@.skip(start as int).len() == 0);
        reveal(lines_of);
        assert(views(out@) + lines_of(s@.skip(start as int)) =~= views(out@));
    }
    out
}


// ---------------------------------------------------------------------------
// Numbers as text
// ---------------------------------------------------------------------------
/// The digit character for a value below 16.
pub open spec fn digit_char(d: nat, upper: bool) -> char {
    if d < 10 {
        (('0' as u32) + d) as char
    } else if upper {
        (('A' as u32) + (d - 10)) as char
    } else {
        (('a' as u32) + (d - 10)) as char
    }
}

/// The digits of `n` in base `radix`, most significant first, without
/// leading zeros (`0` is one digit), as `format!("{}")`, `{:x}` and `{:X}`
/// write them.
pub open spec fn radix_digits(n: nat, radix: nat, upper: bool) -> Seq<char>
    recommends
        2 <= radix <= 16,
    decreases n,
{
    if radix < 2 || n < radix {
        seq![digit_char(n % 16, upper)]
    } else {
        proof {
            assert(n / radix < n) by (nonlinear_arith)
                requires
                    n >= radix,
                    radix >= 2,
            ;
        }
        radix_digits(n / radix, radix, upper).push(digit_char(n % radix, upper))
    }
}

/// `s` padded on the left with `fill` up to `width` characters.
pub open spec fn pad_left(s: Seq<char>, width: nat, fill: char) -> Seq<char> {
    if s.len() < width {
        Seq::new((width - s.len()) as nat, |i: int| fill) + s
    } else {
        s
    }
}

pub fn digit_char_exec(d: u64, upper: bool) -> (c: char)
    requires
        d < 16,
    ensures
        c == digit_char(d as nat, upper),
{
    if d < 10 {
        char_from_ascii(('0' as u32) + d as u32)
    } else if upper {
        char_from_ascii(('A' as u32) + (d as u32 - 10))
    } else {
        char_from_ascii(('a' as u32) + (d as u32 - 10))
    }
}

pub fn radix_digits_exec(n: u64, radix: u64, upper: bool) -> (r: Vec<char>)
    requires
        2 <= radix <= 16,
    ensures
        r@ == radix_digits(n as nat, radix as nat, upper),
    decreases n,
{
    if n < radix {
        let mut v: Vec<char> = Vec::new();
        v.push(digit_char_exec(n, upper));
        assert(n as nat % 16 == n as nat);
        v
    } else {
        assert(n / radix < n) by (nonlinear_arith)
            requires
                n >= radix,
                radix >= 2,
        ;
        let mut v = radix_digits_exec(n / radix, radix, upper);
        v.push(digit_char_exec(n % radix, upper));
        v
    }
}

pub fn pad_left_vec(s: Vec<char>, width: usize, fill: char) -> (r: Vec<char>)
    ensures
        r@ == pad_left(s@, width as nat, fill),
{
    if s.len() < width {
        let mut r: Vec<char> = Vec::new();
        let n = width - s.len();
        let mut i: usize = 0;
        while i < n
            invariant
                i <= n,
                r@ == Seq::new(i as nat, |k: int| fill),
            decreases n - i,
        {
            r.push(fill);
            assert(r@ =~= Seq::new((i + 1) as nat, |k: int| fill));
            i = i + 1;
        }
        push_all(&mut r, s.as_slice());
        r
    } else {
        s
    }
}

/// `{:0width$x}` / `{:0width$X}` of `n`.
pub fn hex_padded(n: u64, width: usize, upper: bool) -> (r: Vec<char>)
    ensures
        r@ == pad_left(radix_digits(n as nat, 16, upper), width as nat, '0'),
{
    let d = radix_digits_exec(n, 16, upper);
    pad_left_vec(d, width, '0')
}

/// `{}` of an unsigned number.
pub fn decimal(n: u64) -> (r: Vec<char>)
    ensures
        r@ == radix_digits(n as nat, 10, false),
{
    radix_digits_exec(n, 10, false)
}

/// The value of a digit character in base 16 (or above 15 when it is none).
pub open spec fn digit_value(c: char) -> nat {
    if is_ascii_digit(c) {
        (c as u32 - '0' as u32) as nat
    } else if 'a' <= c && c <= 'f' {
        (c as u32 - 'a' as u32 + 10) as nat
    } else if 'A' <= c && c <= 'F' {
        (c as u32 - 'A' as u32 + 10) as nat
    } else {
        99
    }
}

/// The value of a digit sequence in base `radix`.
pub open spec fn digits_value(s: Seq<char>, radix: nat) -> nat
    decreases s.len(),
{
    if s.len() == 0 {
        0
    } else {
        digits_value(s.drop_last(), radix) * radix + digit_value(s.last())
    }
}

/// What `from_str_radix` (and `str::parse`) of an unsigned integer type with
/// largest value `max` returns: an optional `+`, then at least one digit of
/// the base, and a value not above `max`.
pub open spec fn parse_unsigned(s: Seq<char>, radix: nat, max: nat) -> Option<nat> {
    let body = unsigned_body(s);
    if body.len() == 0 {
        None
    } else if !all_digits(body, radix) {
        None
    } else if digits_value(body, radix) > max {
        None
    } else {
        Some(digits_value(body, radix))
    }
}

/// The digits after an optional leading `+`.
pub open spec fn unsigned_body(s: Seq<char>) -> Seq<char> {
    if s.len() > 0 && s[0] == '+' {
        s.drop_first()
    } else {
        s
    }
}

/// Every character is a digit of the base.
pub open spec fn all_digits(s: Seq<char>, radix: nat) -> bool {
    forall|i: int| 0 <= i < s.len() ==> digit_value(#[trigger] s[i]) < radix
}

pub fn digit_value_exec(c: char) -> (r: u64)
    ensures
        r == digit_value(c),
{
    if '0' <= c && c <= '9' {
        (c as u32 - '0' as u32) as u64
    } else if 'a' <= c && c <= 'f' {
        (c as u32 - 'a' as u32 + 10) as u64
    } else if 'A' <= c && c <= 'F' {
        (c as u32 - 'A' as u32 + 10) as u64
    } else {
        99
    }
}

proof fn lemma_digits_value_grows(s: Seq<char>, radix: nat, k: int)
    requires
        radix >= 1,
        0 <= k <= s.len(),
    ensures
        digits_value(s, radix) >= digits_value(s.take(k), radix),
    decreases s.len() - k,
{
    if k < s.len() {
        lemma_digits_value_grows(s, radix, k + 1);
        let t = s.take(k + 1);
        assert(t.drop_last() == s.take(k));
        assert(digits_value(t, radix) == digits_value(s.take(k), radix) * radix + digit_value(
            t.last(),
        ));
        assert(digits_value(s.take(k), radix) * radix >= digits_value(s.take(k), radix)) by (nonlinear_arith)
            requires radix >= 1;
    } else {
        assert(s.take(k) == s);
    }
}

/// Parses an unsigned number in base `radix` with largest value `max`.
pub fn parse_unsigned_exec(s: &[char], radix: u64, max: u64) -> (r: Option<u64>)
    requires
        2 <= radix <= 16,
    ensures
        match parse_unsigned(s@, radix as nat, max as nat) {
            Some(v) => r == Some(v as u64),
            None => r is None,
        },
{
    let start: usize = if s.len() > 0 && s[0] == '+' {
        1
    } else {
        0
    };
    let ghost body = if s@.len() > 0 && s@[0] == '+' {
        s@.drop_first()
    } else {
        s@
    };
    assert(body == s@.skip(start as int));
    if start >= s.len() {
        return None;
    }
    let mut value: u64 = 0;
    let mut i: usize = start;
    while i < s.len()
        invariant
            start <= i <= s.len(),
            body == s@.skip(start as int),
            body == unsigned_body(s@),
            body.len() > 0,
            2 <= radix <= 16,
            value as nat == digits_value(body.take(i - start), radix as nat),
            value <= max,
            forall|j: int| 0 <= j < i - start ==> digit_value(#[trigger] body[j]) < radix,
        decreases s.len() - i,
    {
        let d = digit_value_exec(s[i]);
        assert(body[i - start] == s@[i as int]);
        if d >= radix {
            proof {
                let k = i - start;
                assert(0 <= k < body.len() && digit_value(body[k]) >= radix);
                assert(parse_unsigned(s@, radix as nat, max as nat) is None);
            }
            return None;
        }
        let ghost t = body.take(i - start + 1);
        assert(t.drop_last() == body.take(i - start));
        assert(t.last() == s@[i as int]);
        assert(digits_value(t, radix as nat) == value * radix + d);
        if d > max || value > (max - d) / radix {
            proof {
                let v = value as int;
                let r = radix as int;
                let dd = d as int;
                let m = max as int;
                if dd <= m {
                    let q = (m - dd) / r;
                    assert(v > q);
                    assert(v * r + dd > m) by (nonlinear_arith)
                        requires
                            v > q,
                            q == (m - dd) / r,
                            r >= 2,
                            m >= dd,
                    ;
                } else {
                    assert(v * r >= 0) by (nonlinear_arith)
                        requires
                            v >= 0,
                            r >= 2,
                    ;
                }
                lemma_digits_value_grows(body, radix as nat, i - start + 1);
            }
            return None;
        }
        proof {
            let v = value as int;
            let r = radix as int;
            let dd = d as int;
            let m = max as int;
            let q = (m - dd) / r;
            assert(v * r + dd <= m) by (nonlinear_arith)
                requires
                    v <= q,
                    q == (m - dd) / r,
                    r >= 2,
                    m >= dd,
            ;
        }
        value = value * radix + d;
        i = i + 1;
    }
    assert(body.take(i - start) == body);
    Some(value)
}

// ---------------------------------------------------------------------------
// Unicode case mapping (std)
// ---------------------------------------------------------------------------
/// What `str::to_lowercase` returns for a string (full Unicode mapping).
pub uninterp spec fn unicode_lowercase(s: Seq<char>) -> Seq<char>;

/// What `str::to_uppercase` returns for a string (full Unicode mapping).
pub uninterp spec fn unicode_uppercase(s: Seq<char>) -> Seq<char>;

/// Calls `str::to_lowercase`; the result is the Unicode lowercase of `s`,
/// named by `unicode_lowercase` (the mapping tables are not written out).
#[verifier::external_body]
pub(crate) fn to_lowercase(s: &str) -> (r: String)
    ensures
        r@ == unicode_lowercase(s@),
{
    s.to_lowercase()
}

/// Calls `str::to_uppercase`; the result is the Unicode uppercase of `s`,
/// named by `unicode_uppercase`.
#[verifier::external_body]
pub(crate) fn to_uppercase(s: &str) -> (r: String)
    ensures
        r@ == unicode_uppercase(s@),
{
    s.to_uppercase()
}

} // verus!
