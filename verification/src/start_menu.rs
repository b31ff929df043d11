//! The Start Menu shortcuts, and finding the shortcut of an application id:
//! by the id itself, by the end of a shortcut's target, or by similar names.
use vstd::prelude::*;

use crate::constants::{join_path, joined, VarCommon};
use crate::identity::{
    identity_tokens, normalize_identity, normalized, score_identity_match, shared_tokens,
    spec_identity_score, tokenize_identity, StartMenuMatchKind,
};
use crate::text::{chars_of, ends_with, ends_with_chars, eq_str, push_str_chars, string_of};

verus! {

// ---------------------------------------------------------------------------
// Paths
// ---------------------------------------------------------------------------
/// What `std::path::Path::file_stem` gives for a path, as text (the Windows
/// path grammar is not written out).
pub uninterp spec fn path_file_stem(path: Seq<char>) -> Option<Seq<char>>;

/// Calls `Path::file_stem`; the stem of a path given as text is text.
#[verifier::external_body]
fn file_stem_text(path: &str) -> (r: Option<String>)
    ensures
        match path_file_stem(path@) {
            Some(s) => r matches Some(x) && x@ == s,
            None => r is None,
        },
{
    std::path::Path::new(path).file_stem().and_then(|s| s.to_str()).map(|s| s.to_string())
}

/// What `std::path::Path::ends_with` decides: the path's last components
/// are those of `child`.
pub uninterp spec fn path_ends_with(path: Seq<char>, child: Seq<char>) -> bool;

/// Calls `Path::ends_with`.
#[verifier::external_body]
fn path_ends_with_text(path: &str, child: &str) -> (r: bool)
    ensures
        r == path_ends_with(path@, child@),
{
    std::path::Path::new(path).ends_with(child)
}

/// What `==` on `std::path::Path` decides: the two paths have the same
/// components.
pub uninterp spec fn path_equal(a: Seq<char>, b: Seq<char>) -> bool;

/// Calls `==` on two `Path`s; equal texts are equal paths (`Path` is `Eq`).
#[verifier::external_body]
pub(crate) fn path_eq_text(a: &str, b: &str) -> (r: bool)
    ensures
        r == path_equal(a@, b@),
        a@ == b@ ==> r,
{
    std::path::Path::new(a) == std::path::Path::new(b)
}

// ---------------------------------------------------------------------------
// Shortcuts
// ---------------------------------------------------------------------------
/// A Start Menu shortcut: its file, the application id and toast activator
/// it declares, and the program it starts.
#[derive(Debug, Clone)]
pub struct StartMenuItem {
    pub path: String,
    pub umid: Option<String>,
    pub toast_activator: Option<String>,
    pub target: Option<String>,
}

pub struct ItemView {
    pub path: Seq<char>,
    pub umid: Option<Seq<char>>,
    pub toast_activator: Option<Seq<char>>,
    pub target: Option<Seq<char>>,
}

pub open spec fn opt_seq(s: Option<String>) -> Option<Seq<char>> {
    match s {
        Some(x) => Some(x@),
        None => None,
    }
}

impl View for StartMenuItem {
    type V = ItemView;

    open spec fn view(&self) -> ItemView {
        ItemView {
            path: self.path@,
            umid: opt_seq(self.umid),
            toast_activator: opt_seq(self.toast_activator),
            target: opt_seq(self.target),
        }
    }
}

pub open spec fn item_views(v: Seq<StartMenuItem>) -> Seq<ItemView> {
    v.map_values(|i: StartMenuItem| i@)
}

/// The score of one stem, none counting as 0.
pub open spec fn stem_score(norm: Seq<char>, toks: Seq<Seq<char>>, stem: Option<Seq<char>>) -> int {
    match stem {
        Some(s) => spec_identity_score(norm, toks, s),
        None => 0,
    }
}

/// How well a shortcut matches an identity: the better score of the stems
/// of its file and of its target, or 0 when the identity has no words of
/// two characters or more.
pub open spec fn item_identity_score(identity: Seq<char>, item: ItemView) -> int {
    let norm = normalized(identity);
    let toks = identity_tokens(identity);
    if norm.len() == 0 || toks.len() == 0 {
        0
    } else {
        let a = stem_score(norm, toks, path_file_stem(item.path));
        let b = stem_score(
            norm,
            toks,
            match item.target {
                Some(t) => path_file_stem(t),
                None => None,
            },
        );
        if a >= b {
            a
        } else {
            b
        }
    }
}

proof fn lemma_shared_tokens_bound(a: Seq<Seq<char>>, b: Seq<Seq<char>>)
    ensures
        shared_tokens(a, b) <= a.len(),
    decreases a.len(),
{
    if a.len() > 0 {
        lemma_shared_tokens_bound(a.drop_last(), b);
    }
}

proof fn lemma_identity_score_bound(norm: Seq<char>, toks: Seq<Seq<char>>, c: Seq<char>)
    ensures
        0 <= spec_identity_score(norm, toks, c) <= 6 + 2 * toks.len(),
{
    lemma_shared_tokens_bound(toks, identity_tokens(c));
}

/// Identities whose scores stay far from the integer limit.
pub open spec fn identity_measurable(identity: Seq<char>) -> bool {
    identity_tokens(identity).len() <= usize::MAX / 8
}

fn stem_score_exec(norm: &str, toks: &Vec<String>, stem: &Option<String>) -> (r: usize)
    requires
        toks.len() <= usize::MAX / 8,
    ensures
        r as int == stem_score(norm@, toks@.map_values(|t: String| t@), opt_seq(*stem)),
        r <= 6 + 2 * toks.len(),
{
    match stem {
        Some(s) => {
            proof {
                lemma_identity_score_bound(norm@, toks@.map_values(|t: String| t@), s@);
            }
            score_identity_match(norm, toks, s.as_str())
        },
        None => 0,
    }
}

fn item_score_with(norm: &str, toks: &Vec<String>, item: &StartMenuItem) -> (r: usize)
    requires
        toks.len() <= usize::MAX / 8,
    ensures
        r as int == ({
            let tv = toks@.map_values(|t: String| t@);
            let a = stem_score(norm@, tv, path_file_stem(item.path@));
            let b = stem_score(
                norm@,
                tv,
                match item@.target {
                    Some(t) => path_file_stem(t),
                    None => None,
                },
            );
            if a >= b {
                a
            } else {
                b
            }
        }),
        r <= 6 + 2 * toks.len(),
{
    let path_stem = file_stem_text(item.path.as_str());
    let a = stem_score_exec(norm, toks, &path_stem);
    let target_stem = match &item.target {
        Some(t) => file_stem_text(t.as_str()),
        None => None,
    };
    let b = stem_score_exec(norm, toks, &target_stem);
    if a >= b {
        a
    } else {
        b
    }
}

/// The score of a shortcut for an identity (see `item_identity_score`).
pub fn score_start_menu_item_identity(identity: &str, item: &StartMenuItem) -> (r: usize)
    requires
        identity_measurable(identity@),
    ensures
        r as int == item_identity_score(identity@, item@),
        r <= 6 + 2 * identity_tokens(identity@).len(),
{
    let norm = normalize_identity(identity);
    let toks = tokenize_identity(identity);
    proof {
        assert(toks@.len() == identity_tokens(identity@).len());
    }
    let norm_chars = crate::text::chars_of(norm.as_str());
    if norm_chars.len() == 0 || toks.len() == 0 {
        proof {
            assert(norm@.len() == 0 || toks@.map_values(|t: String| t@).len() == 0);
        }
        return 0;
    }
    item_score_with(norm.as_str(), &toks, item)
}

// ---------------------------------------------------------------------------
// Picking the best
// ---------------------------------------------------------------------------
/// `k` is the last position of a greatest value of `s` among those at least
/// `floor`.
pub open spec fn is_last_max_at_least(s: Seq<int>, floor: int, k: int) -> bool {
    &&& 0 <= k < s.len()
    &&& s[k] >= floor
    &&& forall|j: int| 0 <= j < s.len() && s[j] >= floor ==> s[j] <= s[k]
    &&& forall|j: int| k < j < s.len() && s[j] >= floor ==> s[j] < s[k]
}

/// No value of `s` reaches `floor`.
pub open spec fn none_at_least(s: Seq<int>, floor: int) -> bool {
    forall|j: int| 0 <= j < s.len() ==> s[j] < floor
}

/// The last position of a greatest value at least `floor`, as
/// `filter(..).max_by_key(..)` finds it.
fn last_max_at_least(s: &Vec<usize>, floor: usize) -> (r: Option<usize>)
    ensures
        r matches Some(k) ==> is_last_max_at_least(s@.map_values(|v: usize| v as int), floor as int, k as int),
        r is None ==> none_at_least(s@.map_values(|v: usize| v as int), floor as int),
{
    let ghost sv = s@.map_values(|v: usize| v as int);
    let mut best: Option<usize> = None;
    let mut i: usize = 0;
    while i < s.len()
        invariant
            i <= s.len(),
            sv == s@.map_values(|v: usize| v as int),
            best matches Some(k) ==> is_last_max_at_least(sv.take(i as int), floor as int, k as int),
            best is None ==> none_at_least(sv.take(i as int), floor as int),
        decreases s.len() - i,
    {
        let v = s[i];
        proof {
            assert(sv.take(i + 1) =~= sv.take(i as int).push(v as int));
        }
        if v >= floor {
            match best {
                Some(k) => {
                    if v >= s[k] {
                        best = Some(i);
                    }
                },
                None => {
                    best = Some(i);
                },
            }
        }
        i = i + 1;
    }
    proof {
        assert(sv.take(s.len() as int) =~= sv);
    }
    best
}

// ---------------------------------------------------------------------------
// The manager
// ---------------------------------------------------------------------------
/// The Start Menu shortcuts, and where their list is cached.
pub struct StartMenuManager {
    pub list: Vec<StartMenuItem>,
    pub cache_path: String,
}

/// The shortcut whose identity scores best, at least 4, the last of equal
/// scores; none when the identity has no words of two characters or more.
pub open spec fn fuzzy_pick(list: Seq<ItemView>, identity: Seq<char>) -> Option<int> {
    let scores = Seq::new(list.len(), |k: int| item_identity_score(identity, list[k]));
    if normalized(identity).len() == 0 || identity_tokens(identity).len() == 0 || none_at_least(
        scores,
        4,
    ) {
        None
    } else {
        Some(choose|k: int| is_last_max_at_least(scores, 4, k))
    }
}

/// Shortcut `k` declares the application id.
pub open spec fn declares_umid(list: Seq<ItemView>, umid: Seq<char>) -> spec_fn(int) -> bool {
    |k: int| list[k].umid == Some(umid)
}

/// The target of shortcut `k` ends with the application id (as a path).
pub open spec fn target_ends_with(list: Seq<ItemView>, umid: Seq<char>) -> spec_fn(int) -> bool {
    |k: int|
        match list[k].target {
            Some(t) => path_ends_with(t, umid),
            None => false,
        }
}

/// The candidates for an application id: the shortcuts declaring it, else
/// those whose target ends with it, else the fuzzy pick; each with how it
/// matched.
pub open spec fn umid_candidates(list: Seq<ItemView>, umid: Seq<char>) -> Seq<(int, StartMenuMatchKind)> {
    let idx = Seq::new(list.len(), |k: int| k);
    let exact = idx.filter(declares_umid(list, umid));
    let suffix = idx.filter(target_ends_with(list, umid));
    if exact.len() > 0 {
        exact.map_values(|k: int| (k, StartMenuMatchKind::ExactUmid))
    } else if suffix.len() > 0 {
        suffix.map_values(|k: int| (k, StartMenuMatchKind::TargetSuffix))
    } else {
        match fuzzy_pick(list, umid) {
            Some(k) => seq![(k, StartMenuMatchKind::FuzzyIdentity)],
            None => seq![],
        }
    }
}

pub open spec fn kind_score(kind: StartMenuMatchKind) -> int {
    match kind {
        StartMenuMatchKind::ExactUmid => 1000,
        StartMenuMatchKind::TargetSuffix => 500,
        StartMenuMatchKind::FuzzyIdentity => 0,
    }
}

/// The weight of a candidate: its kind of match and its identity score.
/// The candidate of greatest weight, the last of equal weights.
pub open spec fn best_umid_match(list: Seq<ItemView>, umid: Seq<char>) -> Option<(int, StartMenuMatchKind)> {
    let c = umid_candidates(list, umid);
    let w = c.map_values(|x: (int, StartMenuMatchKind)| candidate_weight(list, umid, x));
    if c.len() == 0 {
        None
    } else {
        Some(c[choose|k: int| is_last_max_at_least(w, 0, k)])
    }
}

pub open spec fn candidate_weight(list: Seq<ItemView>, umid: Seq<char>, c: (int, StartMenuMatchKind)) -> int {
    kind_score(c.1) + item_identity_score(umid, list[c.0])
}

impl StartMenuManager {
    pub closed spec fn items(&self) -> Seq<ItemView> {
        item_views(self.list@)
    }

    /// An empty list, cached as `start_menu_v2.json` in the cache folder.
    pub fn new(vars: &VarCommon) -> (r: Self)
        ensures
            r.items().len() == 0,
            r.cache_path@ == joined(vars.bases().cache_dir, "start_menu_v2.json"@),
    {
        let r = StartMenuManager {
            list: Vec::new(),
            cache_path: join_path(vars.app_cache_dir(), "start_menu_v2.json"),
        };
        assert(r.items() =~= Seq::<ItemView>::empty());
        r
    }

    /// The first shortcut whose target is the path.
    pub fn get_by_target(&self, target: &str) -> (r: Option<&StartMenuItem>)
        ensures
            match r {
                Some(item) => exists|k: int|
                    0 <= k < self.list@.len() && self.list@[k] == *item && (match self.items()[k].target {
                        Some(t) => path_equal(t, target@),
                        None => false,
                    }) && forall|j: int|
                        0 <= j < k ==> !(match #[trigger] self.items()[j].target {
                            Some(t) => path_equal(t, target@),
                            None => false,
                        }),
                None => forall|j: int|
                    0 <= j < self.list@.len() ==> !(match #[trigger] self.items()[j].target {
                        Some(t) => path_equal(t, target@),
                        None => false,
                    }),
            },
    {
        let ghost v = self.items();
        let mut i: usize = 0;
        while i < self.list.len()
            invariant
                i <= self.list.len(),
                v == self.items(),
                v == item_views(self.list@),
                forall|j: int|
                    0 <= j < i ==> !(match #[trigger] v[j].target {
                        Some(t) => path_equal(t, target@),
                        None => false,
                    }),
            decreases self.list.len() - i,
        {
            let hit = match &self.list[i].target {
                Some(t) => path_eq_text(t.as_str(), target),
                None => false,
            };
            proof {
                assert(v[i as int] == self.list@[i as int]@);
            }
            if hit {
                return Some(&self.list[i]);
            }
            i = i + 1;
        }
        None
    }

    /// The best fuzzy match of an identity (see `fuzzy_pick`).
    pub fn get_by_fuzzy_identity(&self, identity: &str) -> (r: Option<&StartMenuItem>)
        requires
            identity_measurable(identity@),
        ensures
            match fuzzy_pick(self.items(), identity@) {
                Some(k) => 0 <= k < self.list@.len() && r == Some(&self.list@[k]),
                None => r is None,
            },
    {
        let ghost v = self.items();
        let ghost ghost_scores = Seq::new(v.len(), |k: int| item_identity_score(identity@, v[k]));
        let norm = normalize_identity(identity);
        let toks = tokenize_identity(identity);
        proof {
            assert(toks@.len() == identity_tokens(identity@).len());
        }
        let norm_chars = crate::text::chars_of(norm.as_str());
        if norm_chars.len() == 0 || toks.len() == 0 {
            proof {
                assert(norm@.len() == 0 || toks@.map_values(|t: String| t@).len() == 0);
            }
            return None;
        }
        let mut scores: Vec<usize> = Vec::new();
        let mut i: usize = 0;
        while i < self.list.len()
            invariant
                i <= self.list.len(),
                v == self.items(),
                v == item_views(self.list@),
                toks.len() <= usize::MAX / 8,
                norm@ == normalized(identity@),
                toks@.map_values(|t: String| t@) == identity_tokens(identity@),
                norm@.len() > 0,
                toks@.len() > 0,
                ghost_scores == Seq::new(v.len(), |k: int| item_identity_score(identity@, v[k])),
                scores@.map_values(|x: usize| x as int) == ghost_scores.take(i as int),
            decreases self.list.len() - i,
        {
            let s = item_score_with(norm.as_str(), &toks, &self.list[i]);
            proof {
                assert(v[i as int] == self.list@[i as int]@);
                assert(s as int == item_identity_score(identity@, v[i as int]));
            }
            let ghost before = scores@;
            scores.push(s);
            proof {
                assert(scores@ == before.push(s));
                assert(scores@.map_values(|x: usize| x as int) =~= before.map_values(|x: usize| x as int).push(s as int));
                assert(ghost_scores.take(i + 1) =~= ghost_scores.take(i as int).push(ghost_scores[i as int]));
            }
            i = i + 1;
        }
        proof {
            assert(ghost_scores.take(self.list.len() as int) =~= ghost_scores);
        }
        match last_max_at_least(&scores, 4) {
            Some(k) => {
                proof {
                    assert(!none_at_least(ghost_scores, 4)) by {
                        assert(ghost_scores[k as int] >= 4);
                    }
                    assert(is_last_max_at_least(ghost_scores, 4, k as int));
                    let c = choose|c: int| is_last_max_at_least(ghost_scores, 4, c);
                    if c < k {
                        assert(ghost_scores[k as int] < ghost_scores[c]);
                    }
                    if k < c {
                        assert(ghost_scores[c] < ghost_scores[k as int]);
                    }
                }
                Some(&self.list[k])
            },
            None => None,
        }
    }

    fn matching_indices(&self, umid: &str, by_target: bool) -> (r: Vec<usize>)
        ensures
            r@.map_values(|k: usize| k as int) == Seq::new(self.items().len(), |k: int| k).filter(
                if by_target {
                    target_ends_with(self.items(), umid@)
                } else {
                    declares_umid(self.items(), umid@)
                },
            ),
            forall|i: int| 0 <= i < r@.len() ==> r@[i] < self.list@.len(),
    {
        let ghost v = self.items();
        let ghost p = if by_target {
            target_ends_with(v, umid@)
        } else {
            declares_umid(v, umid@)
        };
        let ghost idx = Seq::new(v.len(), |k: int| k);
        let mut out: Vec<usize> = Vec::new();
        let mut i: usize = 0;
        proof {
            assert(idx.take(0).filter(p) =~= Seq::<int>::empty());
            assert(out@.map_values(|k: usize| k as int) =~= Seq::<int>::empty());
        }
        while i < self.list.len()
            invariant
                i <= self.list.len(),
                v == self.items(),
                v == item_views(self.list@),
                idx == Seq::new(v.len(), |k: int| k),
                p == (if by_target {
                    target_ends_with(v, umid@)
                } else {
                    declares_umid(v, umid@)
                }),
                out@.map_values(|k: usize| k as int) == idx.take(i as int).filter(p),
                forall|j: int| 0 <= j < out@.len() ==> out@[j] < i,
            decreases self.list.len() - i,
        {
            let item = &self.list[i];
            let hit = if by_target {
                match &item.target {
                    Some(t) => path_ends_with_text(t.as_str(), umid),
                    None => false,
                }
            } else {
                match &item.umid {
                    Some(u) => eq_str(u.as_str(), umid),
                    None => false,
                }
            };
            proof {
                assert(v[i as int] == item@);
                assert(idx.take(i + 1) =~= idx.take(i as int).push(i as int));
                idx.take(i as int).lemma_filter_push(i as int, p);
                assert(hit == p(i as int));
            }
            let ghost before = out@;
            if hit {
                out.push(i);
                proof {
                    assert(out@.map_values(|k: usize| k as int) =~= before.map_values(|k: usize| k as int).push(i as int));
                }
            }
            i = i + 1;
        }
        proof {
            assert(idx.take(self.list.len() as int) =~= idx);
        }
        out
    }

    /// The candidates for an application id (see `umid_candidates`).
    pub fn get_by_file_umid_candidates(&self, umid: &str) -> (r: Vec<(&StartMenuItem, StartMenuMatchKind)>)
        requires
            identity_measurable(umid@),
        ensures
            r@.len() == umid_candidates(self.items(), umid@).len(),
            forall|i: int| 0 <= i < r@.len() ==> {
                let c = #[trigger] umid_candidates(self.items(), umid@)[i];
                0 <= c.0 < self.list@.len() && *r@[i].0 == self.list@[c.0] && r@[i].1 == c.1
            },
    {
        let ghost v = self.items();
        let exact = self.matching_indices(umid, false);
        let suffix = if exact.len() > 0 {
            Vec::new()
        } else {
            self.matching_indices(umid, true)
        };
        let (chosen, kind) = if exact.len() > 0 {
            (exact, StartMenuMatchKind::ExactUmid)
        } else if suffix.len() > 0 {
            (suffix, StartMenuMatchKind::TargetSuffix)
        } else {
            let mut out: Vec<(&StartMenuItem, StartMenuMatchKind)> = Vec::new();
            match self.get_by_fuzzy_identity(umid) {
                Some(item) => {
                    out.push((item, StartMenuMatchKind::FuzzyIdentity));
                },
                None => {},
            }
            proof {
                assert(exact@.map_values(|k: usize| k as int).len() == 0);
                assert(suffix@.map_values(|k: usize| k as int).len() == 0);
                match fuzzy_pick(v, umid@) {
                    Some(k) => {
                        assert(umid_candidates(v, umid@) =~= seq![(k, StartMenuMatchKind::FuzzyIdentity)]);
                    },
                    None => {
                        assert(umid_candidates(v, umid@) =~= Seq::<(int, StartMenuMatchKind)>::empty());
                    },
                }
            }
            return out;
        };
        let ghost cv = chosen@.map_values(|k: usize| k as int);
        let mut out: Vec<(&StartMenuItem, StartMenuMatchKind)> = Vec::new();
        let mut i: usize = 0;
        while i < chosen.len()
            invariant
                i <= chosen.len(),
                cv == chosen@.map_values(|k: usize| k as int),
                forall|j: int| 0 <= j < chosen@.len() ==> chosen@[j] < self.list@.len(),
                out@.len() == i,
                forall|j: int| 0 <= j < i ==> *out@[j].0 == self.list@[chosen@[j] as int] && out@[j].1 == kind,
            decreases chosen.len() - i,
        {
            let k = chosen[i];
            out.push((&self.list[k], kind));
            i = i + 1;
        }
        proof {
            let c = umid_candidates(v, umid@);
            assert forall|i: int| 0 <= i < out@.len() implies {
                let c = #[trigger] umid_candidates(self.items(), umid@)[i];
                0 <= c.0 < self.list@.len() && *out@[i].0 == self.list@[c.0] && out@[i].1 == c.1
            } by {
                assert(cv[i] == chosen@[i] as int);
            }
        }
        out
    }

    /// The candidate of greatest weight (see `best_umid_match`), with how it
    /// matched.
    pub fn get_by_file_umid_with_match_kind(&self, umid: &str) -> (r: Option<(&StartMenuItem, StartMenuMatchKind)>)
        requires
            identity_measurable(umid@),
        ensures
            match best_umid_match(self.items(), umid@) {
                Some((k, kind)) => 0 <= k < self.list@.len() && (r matches Some(x) && *x.0 == self.list@[k] && x.1 == kind),
                None => r is None,
            },
    {
        let ghost v = self.items();
        let ghost c = umid_candidates(v, umid@);
        let ghost wv = c.map_values(|x: (int, StartMenuMatchKind)| candidate_weight(v, umid@, x));
        let cands = self.get_by_file_umid_candidates(umid);
        let mut weights: Vec<usize> = Vec::new();
        let mut i: usize = 0;
        while i < cands.len()
            invariant
                i <= cands.len(),
                v == self.items(),
                v == item_views(self.list@),
                identity_measurable(umid@),
                c == umid_candidates(v, umid@),
                wv == c.map_values(|x: (int, StartMenuMatchKind)| candidate_weight(v, umid@, x)),
                cands@.len() == c.len(),
                forall|j: int| 0 <= j < cands@.len() ==> {
                    let cc = #[trigger] umid_candidates(self.items(), umid@)[j];
                    0 <= cc.0 < self.list@.len() && *cands@[j].0 == self.list@[cc.0] && cands@[j].1 == cc.1
                },
                weights@.map_values(|x: usize| x as int) == wv.take(i as int),
            decreases cands.len() - i,
        {
            let (item, kind) = cands[i];
            let s = score_start_menu_item_identity(umid, item);
            let base: usize = match kind {
                StartMenuMatchKind::ExactUmid => 1000,
                StartMenuMatchKind::TargetSuffix => 500,
                StartMenuMatchKind::FuzzyIdentity => 0,
            };
            proof {
                let cc = umid_candidates(self.items(), umid@)[i as int];
                assert(v[cc.0] == self.list@[cc.0]@);
                assert(wv[i as int] == base as int + s as int);
            }
            let ghost before = weights@;
            weights.push(base + s);
            proof {
                assert(weights@.map_values(|x: usize| x as int) =~= before.map_values(|x: usize| x as int).push((base + s) as int));
                assert(wv.take(i + 1) =~= wv.take(i as int).push(wv[i as int]));
            }
            i = i + 1;
        }
        proof {
            assert(wv.take(cands.len() as int) =~= wv);
        }
        match last_max_at_least(&weights, 0) {
            Some(k) => {
                proof {
                    assert(is_last_max_at_least(wv, 0, k as int));
                    let d = choose|d: int| is_last_max_at_least(wv, 0, d);
                    if d < k {
                        assert(wv[k as int] < wv[d]);
                    }
                    if k < d {
                        assert(wv[d] < wv[k as int]);
                    }
                    let cc = umid_candidates(self.items(), umid@)[k as int];
                    assert(0 <= cc.0 < self.list@.len());
                }
                Some(cands[k])
            },
            None => {
                proof {
                    if c.len() > 0 {
                        assert(wv[0] >= 0);
                    }
                }
                None
            },
        }
    }

    /// The best shortcut for an application id.
    pub fn get_by_file_umid(&self, umid: &str) -> (r: Option<&StartMenuItem>)
        requires
            identity_measurable(umid@),
        ensures
            match best_umid_match(self.items(), umid@) {
                Some((k, _)) => r == Some(&self.list@[k]),
                None => r is None,
            },
    {
        match self.get_by_file_umid_with_match_kind(umid) {
            Some((item, _)) => Some(item),
            None => None,
        }
    }
}

/// A shortcut that matches an application id directly: it carries the id,
/// or its target's text ends with it.
pub open spec fn matches_umid_directly(item: ItemView, umid: Seq<char>) -> bool {
    ||| item.umid == Some(umid)
    ||| (item.target matches Some(t) && ends_with(t, umid))
}

impl StartMenuManager {
    /// The shortcut to take the icon of a property-store application id
    /// from: an error when no shortcut matches it at all, none when the best
    /// match is only a similar name (its icon would be another
    /// application's), else that shortcut.
    pub fn property_store_shortcut(&self, umid: &str) -> (r: Result<Option<&StartMenuItem>, String>)
        requires
            identity_measurable(umid@),
        ensures
            match best_umid_match(self.items(), umid@) {
                None => r matches Err(e) && e@ == "No shortcut found for umid "@ + umid@,
                Some((k, _)) => if matches_umid_directly(self.items()[k], umid@) {
                    r == Ok::<Option<&StartMenuItem>, String>(Some(&self.list@[k]))
                } else {
                    r == Ok::<Option<&StartMenuItem>, String>(None)
                },
            },
    {
        let ghost best = best_umid_match(self.items(), umid@);
        let found = match self.get_by_file_umid_with_match_kind(umid) {
            Some((item, _)) => Some(item),
            None => None,
        };
        match found {
            None => {
                let mut m = chars_of("No shortcut found for umid ");
                push_str_chars(&mut m, umid);
                Err(string_of(m.as_slice()))
            },
            Some(item) => {
                proof {
                    let (k, kind) = best->0;
                    assert(self.items()[k] == self.list@[k]@);
                }
                let by_id = match &item.umid {
                    Some(u) => eq_str(u.as_str(), umid),
                    None => false,
                };
                let by_target = match &item.target {
                    Some(t) => {
                        let tc = chars_of(t.as_str());
                        let uc = chars_of(umid);
                        ends_with_chars(tc.as_slice(), uc.as_slice())
                    },
                    None => false,
                };
                if by_id || by_target {
                    Ok(Some(item))
                } else {
                    Ok(None)
                }
            },
        }
    }
}

} // verus!
