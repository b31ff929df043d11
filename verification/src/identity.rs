//! Matching an application identity (such as `SomeVendor.AppName`) against
//! the names of Start Menu shortcuts.
use vstd::prelude::*;

use crate::network::profile::nonempty_part;
use crate::text::{
    chars_of, contains, contains_chars, eq_chars, split_on, split_on_exec, string_of, views,
};

verus! {

/// How a Start Menu entry was matched to an identity.
#[derive(Debug, Clone, Copy, PartialEq, Eq, Structural)]
pub enum StartMenuMatchKind {
    ExactUmid,
    TargetSuffix,
    FuzzyIdentity,
}

/// The weight of a kind of match: exact ids first, then target suffixes.
pub fn match_kind_score(kind: StartMenuMatchKind) -> (r: usize)
    ensures
        r == match kind {
            StartMenuMatchKind::ExactUmid => 1000usize,
            StartMenuMatchKind::TargetSuffix => 500usize,
            StartMenuMatchKind::FuzzyIdentity => 0usize,
        },
{
    match kind {
        StartMenuMatchKind::ExactUmid => 1000,
        StartMenuMatchKind::TargetSuffix => 500,
        StartMenuMatchKind::FuzzyIdentity => 0,
    }
}

pub open spec fn ascii_up(c: char) -> bool {
    'A' <= c <= 'Z'
}

pub open spec fn ascii_low_or_digit(c: char) -> bool {
    ('a' <= c <= 'z') || ('0' <= c <= '9')
}

pub open spec fn ascii_alnum(c: char) -> bool {
    ascii_up(c) || ascii_low_or_digit(c)
}

pub open spec fn low_char(c: char) -> char {
    if ascii_up(c) {
        ((c as u32) + 32) as char
    } else {
        c
    }
}

/// Lowercase letters and digits, a space for any other character, and a
/// space where a capital follows a lowercase letter or digit.
pub open spec fn spaced(s: Seq<char>, prev_low: bool) -> Seq<char>
    decreases s.len(),
{
    if s.len() == 0 {
        seq![]
    } else {
        let c = s[0];
        (if ascii_up(c) && prev_low {
            seq![' ']
        } else {
            seq![]
        }) + (if ascii_alnum(c) {
            seq![low_char(c)]
        } else {
            seq![' ']
        }) + spaced(s.drop_first(), ascii_low_or_digit(c))
    }
}

/// The words of an identity.
pub open spec fn identity_words(s: Seq<char>) -> Seq<Seq<char>> {
    split_on(spaced(s, false), ' ').filter(nonempty_part())
}

/// Words joined by single spaces.
pub open spec fn join_words(w: Seq<Seq<char>>) -> Seq<char>
    decreases w.len(),
{
    if w.len() == 0 {
        seq![]
    } else if w.len() == 1 {
        w[0]
    } else {
        join_words(w.drop_last()) + seq![' '] + w.last()
    }
}

/// An identity in lowercase words: `SomeVendor.App2Go` reads
/// `some vendor app2 go`.
pub open spec fn normalized(s: Seq<char>) -> Seq<char> {
    join_words(identity_words(s))
}

pub open spec fn long_word() -> spec_fn(Seq<char>) -> bool {
    |w: Seq<char>| w.len() >= 2
}

/// The words of at least two characters.
pub open spec fn identity_tokens(s: Seq<char>) -> Seq<Seq<char>> {
    identity_words(s).filter(long_word())
}

fn spaced_exec(s: &[char]) -> (r: Vec<char>)
    ensures
        r@ == spaced(s@, false),
{
    let mut out: Vec<char> = Vec::new();
    let mut prev_low = false;
    let mut i: usize = 0;
    assert(s@.skip(0) == s@);
    while i < s.len()
        invariant
            i <= s.len(),
            out@ + spaced(s@.skip(i as int), prev_low) == spaced(s@, false),
        decreases s.len() - i,
    {
        let c = s[i];
        let ghost before = out@;
        proof {
            assert(s@.skip(i as int)[0] == c);
            assert(s@.skip(i as int).drop_first() == s@.skip(i + 1));
        }
        if 'A' <= c && c <= 'Z' && prev_low {
            out.push(' ');
        }
        if ('A' <= c && c <= 'Z') || ('a' <= c && c <= 'z') || ('0' <= c && c <= '9') {
            let l = if 'A' <= c && c <= 'Z' {
                crate::text::char_from_ascii((c as u32) + 32)
            } else {
                c
            };
            out.push(l);
        } else {
            out.push(' ');
        }
        let ghost old_prev = prev_low;
        prev_low = ('a' <= c && c <= 'z') || ('0' <= c && c <= '9');
        proof {
            let rest = spaced(s@.skip(i + 1), prev_low);
            assert(spaced(s@.skip(i as int), old_prev) == (if ascii_up(c) && old_prev {
                seq![' ']
            } else {
                seq![]
            }) + (if ascii_alnum(c) {
                seq![low_char(c)]
            } else {
                seq![' ']
            }) + rest);
            assert(out@ + rest =~= before + spaced(s@.skip(i as int), old_prev));
        }
        i = i + 1;
    }
    assert(spaced(s@.skip(s.len() as int), prev_low) == Seq::<char>::empty());
    assert(out@ + Seq::<char>::empty() =~= out@);
    out
}

fn nonempty_words(parts: Vec<Vec<char>>, min_len: usize) -> (r: Vec<Vec<char>>)
    requires
        min_len == 1 || min_len == 2,
    ensures
        views(r@) == views(parts@).filter(
            if min_len == 1 {
                nonempty_part()
            } else {
                long_word()
            },
        ),
{
    let ghost p = if min_len == 1 {
        nonempty_part()
    } else {
        long_word()
    };
    let ghost pv = views(parts@);
    let mut out: Vec<Vec<char>> = Vec::new();
    let mut i: usize = 0;
    proof {
        assert(pv.take(0).filter(p) =~= seq![]);
    }
    while i < parts.len()
        invariant
            i <= parts.len(),
            min_len == 1 || min_len == 2,
            p == if min_len == 1 {
                nonempty_part()
            } else {
                long_word()
            },
            pv == views(parts@),
            views(out@) == pv.take(i as int).filter(p),
        decreases parts.len() - i,
    {
        proof {
            assert(pv[i as int] == parts@[i as int]@);
            assert(pv.take(i + 1) =~= pv.take(i as int).push(pv[i as int]));
            pv.take(i as int).lemma_filter_push(pv[i as int], p);
        }
        if parts[i].len() >= min_len {
            let w = crate::text::slice_vec(parts[i].as_slice(), 0, parts[i].len());
            assert(parts@[i as int]@.subrange(0, parts@[i as int]@.len() as int)
                == parts@[i as int]@);
            let ghost before = views(out@);
            out.push(w);
            proof {
                assert(views(out@) =~= before.push(pv[i as int]));
            }
        }
        i = i + 1;
    }
    proof {
        assert(pv.take(parts.len() as int) =~= pv);
    }
    out
}

fn words_of(s: &[char]) -> (r: Vec<Vec<char>>)
    ensures
        views(r@) == identity_words(s@),
{
    let sp = spaced_exec(s);
    let parts = split_on_exec(sp.as_slice(), ' ');
    nonempty_words(parts, 1)
}

fn join_exec(w: &Vec<Vec<char>>) -> (r: Vec<char>)
    ensures
        r@ == join_words(views(w@)),
{
    let ghost wv = views(w@);
    let mut out: Vec<char> = Vec::new();
    let mut i: usize = 0;
    while i < w.len()
        invariant
            i <= w.len(),
            wv == views(w@),
            out@ == join_words(wv.take(i as int)),
        decreases w.len() - i,
    {
        proof {
            assert(wv[i as int] == w@[i as int]@);
            assert(wv.take(i + 1).drop_last() == wv.take(i as int));
            assert(wv.take(i + 1).last() == wv[i as int]);
        }
        if i > 0 {
            out.push(' ');
        }
        crate::text::push_all(&mut out, w[i].as_slice());
        proof {
            if i == 0 {
                assert(wv.take(1)[0] == wv[0]);
            }
        }
        i = i + 1;
    }
    assert(wv.take(w.len() as int) =~= wv);
    out
}

/// An identity in lowercase words.
pub fn normalize_identity(input: &str) -> (r: String)
    ensures
        r@ == normalized(input@),
{
    let c = chars_of(input);
    let w = words_of(c.as_slice());
    let j = join_exec(&w);
    string_of(j.as_slice())
}

/// The words of an identity of at least two characters.
pub fn tokenize_identity(input: &str) -> (r: Vec<String>)
    ensures
        r@.map_values(|t: String| t@) == identity_tokens(input@),
{
    let c = chars_of(input);
    let w = words_of(c.as_slice());
    let toks = nonempty_words(w, 2);
    let ghost tv = views(toks@);
    let mut out: Vec<String> = Vec::new();
    let mut i: usize = 0;
    while i < toks.len()
        invariant
            i <= toks.len(),
            tv == views(toks@),
            out.len() == i,
            out@.map_values(|t: String| t@) =~= tv.take(i as int),
        decreases toks.len() - i,
    {
        let s = string_of(toks[i].as_slice());
        proof {
            assert(tv[i as int] == toks@[i as int]@);
        }
        let ghost before = out@;
        out.push(s);
        proof {
            assert(out@.map_values(|t: String| t@) =~= before.map_values(|t: String| t@).push(
                tv[i as int],
            ));
            assert(out@.map_values(|t: String| t@) =~= tv.take(i + 1));
        }
        i = i + 1;
    }
    assert(tv.take(toks.len() as int) =~= tv);
    out
}

/// How many of the identity's tokens the candidate's tokens contain (with
/// repetition on the identity's side).
pub open spec fn shared_tokens(id_tokens: Seq<Seq<char>>, cand_tokens: Seq<Seq<char>>) -> nat
    decreases id_tokens.len(),
{
    if id_tokens.len() == 0 {
        0
    } else {
        shared_tokens(id_tokens.drop_last(), cand_tokens) + if cand_tokens.contains(
            id_tokens.last(),
        ) {
            1nat
        } else {
            0nat
        }
    }
}

/// How well a candidate name matches a normalized identity and its tokens:
/// 4 for equal normal forms, 2 when one (of at least three characters)
/// contains the other, and 2 per shared token; 0 for a candidate without
/// words, or with no token and under three characters.
pub open spec fn spec_identity_score(norm_id: Seq<char>, id_tokens: Seq<Seq<char>>, candidate: Seq<char>) -> int {
    let nc = normalized(candidate);
    let ct = identity_tokens(candidate);
    if nc.len() == 0 {
        0
    } else if ct.len() == 0 && nc.len() < 3 {
        0
    } else {
        (if nc == norm_id {
            4int
        } else {
            0
        }) + (if nc.len() >= 3 && (contains(norm_id, nc) || contains(nc, norm_id)) {
            2int
        } else {
            0
        }) + 2 * shared_tokens(id_tokens, ct)
    }
}

pub fn score_identity_match(normalized_identity: &str, identity_tokens: &Vec<String>, candidate: &str) -> (r: usize)
    requires
        identity_tokens.len() <= usize::MAX / 8,
    ensures
        r as int == spec_identity_score(
            normalized_identity@,
            identity_tokens@.map_values(|t: String| t@),
            candidate@,
        ),
{
    let c = chars_of(candidate);
    let words = words_of(c.as_slice());
    let nc = join_exec(&words);
    if nc.len() == 0 {
        return 0;
    }
    let ct = nonempty_words(words, 2);
    let ghost ctv = views(ct@);
    let ghost itv = identity_tokens@.map_values(|t: String| t@);
    if ct.len() == 0 && nc.len() < 3 {
        return 0;
    }
    let ni = chars_of(normalized_identity);
    let mut score: usize = 0;
    if eq_chars(nc.as_slice(), ni.as_slice()) {
        score = score + 4;
    }
    if nc.len() >= 3 && (contains_chars(ni.as_slice(), nc.as_slice()) || contains_chars(
        nc.as_slice(),
        ni.as_slice(),
    )) {
        score = score + 2;
    }
    let mut shared: usize = 0;
    let mut i: usize = 0;
    while i < identity_tokens.len()
        invariant
            i <= identity_tokens.len(),
            identity_tokens.len() <= usize::MAX / 8,
            itv == identity_tokens@.map_values(|t: String| t@),
            ctv == views(ct@),
            shared == shared_tokens(itv.take(i as int), ctv),
            shared <= i,
        decreases identity_tokens.len() - i,
    {
        proof {
            assert(itv.take(i + 1).drop_last() == itv.take(i as int));
            assert(itv.take(i + 1).last() == itv[i as int]);
            assert(itv[i as int] == identity_tokens@[i as int]@);
        }
        let t = chars_of(identity_tokens[i].as_str());
        let mut found = false;
        let mut j: usize = 0;
        while j < ct.len()
            invariant
                j <= ct.len(),
                ctv == views(ct@),
                found == exists|k: int| 0 <= k < j && ctv[k] == t@,
            decreases ct.len() - j,
        {
            proof {
                assert(ctv[j as int] == ct@[j as int]@);
            }
            if eq_chars(ct[j].as_slice(), t.as_slice()) {
                found = true;
            }
            j = j + 1;
        }
        proof {
            if found {
                let k = choose|k: int| 0 <= k < ct.len() && ctv[k] == t@;
                assert(ctv.contains(t@));
            } else {
                assert(!ctv.contains(t@)) by {
                    if ctv.contains(t@) {
                        let k = choose|k: int| 0 <= k < ctv.len() && ctv[k] == t@;
                        assert(0 <= k < ct.len());
                    }
                }
            }
        }
        if found {
            shared = shared + 1;
        }
        i = i + 1;
    }
    assert(itv.take(identity_tokens.len() as int) =~= itv);
    score + 2 * shared
}

} // verus!
