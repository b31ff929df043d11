//! Small utilities: identifiers made from hashes and times, timing of named
//! operations, and the registry of held locks.
use std::hash::{Hash, Hasher};
use vstd::prelude::*;

use crate::text::{
    chars_of, decimal, eq_str, pad_left, pad_left_vec, push_all, push_str_chars, radix_digits,
    radix_digits_exec, string_of, to_lowercase, unicode_lowercase,
};
use crate::network::wifi::{lemma_seq_lt_total, lemma_seq_lt_trans, seq_lt, str_less};
use crate::whitelist::{
    first_index, lemma_first_index_bounds, lemma_first_index_is, lemma_first_index_none,
};

verus! {

// ---------------------------------------------------------------------------
// Identifiers
// ---------------------------------------------------------------------------
/// What `std::collections::hash_map::DefaultHasher::new()` yields after
/// hashing a string (SipHash with fixed keys; the algorithm is not written
/// out).
pub uninterp spec fn default_hash(s: Seq<char>) -> u64;

/// Hashes a string with a fresh `DefaultHasher` (`new`, `str::hash`,
/// `finish`); the value is named by `default_hash`.
#[verifier::external_body]
pub(crate) fn hash_str(s: &str) -> (r: u64)
    ensures
        r == default_hash(s@),
{
    let mut hasher = std::collections::hash_map::DefaultHasher::new();
    s.hash(&mut hasher);
    hasher.finish()
}

/// An id from the time: milliseconds since the epoch in lowercase hex.
pub fn date_based_hex_id(millis_since_epoch: u64) -> (r: String)
    ensures
        r@ == radix_digits(millis_since_epoch as nat, 16, false),
{
    let d = radix_digits_exec(millis_since_epoch, 16, false);
    string_of(d.as_slice())
}

/// An id for a path: the hash of its lowercase text in lowercase hex.
pub fn path_based_hash_id(path: &str) -> (r: String)
    ensures
        r@ == radix_digits(default_hash(unicode_lowercase(path@)) as nat, 16, false),
{
    let lower = to_lowercase(path);
    let h = hash_str(lower.as_str());
    let d = radix_digits_exec(h, 16, false);
    string_of(d.as_slice())
}

/// An id for an application id: its hash in lowercase hex.
pub fn umid_based_hash_id(umid: &str) -> (r: String)
    ensures
        r@ == radix_digits(default_hash(umid@) as nat, 16, false),
{
    let h = hash_str(umid);
    let d = radix_digits_exec(h, 16, false);
    string_of(d.as_slice())
}

/// Paths that differ only in case get the same id.
pub proof fn lemma_path_id_ignores_case(a: Seq<char>, b: Seq<char>)
    requires
        unicode_lowercase(a) == unicode_lowercase(b),
    ensures
        radix_digits(default_hash(unicode_lowercase(a)) as nat, 16, false) == radix_digits(
            default_hash(unicode_lowercase(b)) as nat,
            16,
            false,
        ),
{
}

// ---------------------------------------------------------------------------
// Timing named operations
// ---------------------------------------------------------------------------
/// When each named operation started (milliseconds of a monotonic clock).
pub struct PerformanceHelper {
    time: Vec<(String, u64)>,
}

pub open spec fn entry_named(name: Seq<char>) -> spec_fn((Seq<char>, u64)) -> bool {
    |e: (Seq<char>, u64)| e.0 == name
}

pub open spec fn timing_views(v: Seq<(String, u64)>) -> Seq<(Seq<char>, u64)> {
    v.map_values(|e: (String, u64)| (e.0@, e.1))
}

/// Names are kept once each.
pub open spec fn names_unique(v: Seq<(Seq<char>, u64)>) -> bool {
    forall|i: int, j: int| 0 <= i < j < v.len() ==> (#[trigger] v[i]).0 != (#[trigger] v[j]).0
}

impl PerformanceHelper {
    /// Start times by name.
    pub closed spec fn starts(&self) -> Map<Seq<char>, u64> {
        Map::new(
            |n: Seq<char>| first_index(timing_views(self.time@), entry_named(n)) is Some,
            |n: Seq<char>| timing_views(self.time@)[first_index(timing_views(self.time@), entry_named(n))->0].1,
        )
    }

    pub closed spec fn wf(&self) -> bool {
        names_unique(timing_views(self.time@))
    }

    pub fn new() -> (r: Self)
        ensures
            r.wf(),
            r.starts() == Map::<Seq<char>, u64>::empty(),
    {
        let r = PerformanceHelper { time: Vec::new() };
        assert(r.starts() =~= Map::<Seq<char>, u64>::empty());
        r
    }

    fn position(&self, name: &str) -> (r: Option<usize>)
        ensures
            match first_index(timing_views(self.time@), entry_named(name@)) {
                Some(k) => r == Some(k as usize) && 0 <= k < self.time.len(),
                None => r is None,
            },
    {
        let ghost v = timing_views(self.time@);
        proof {
            lemma_first_index_bounds(v, entry_named(name@));
        }
        let mut i: usize = 0;
        while i < self.time.len()
            invariant
                i <= self.time.len(),
                v == timing_views(self.time@),
                forall|j: int| 0 <= j < i ==> !(#[trigger] entry_named(name@))(v[j]),
            decreases self.time.len() - i,
        {
            if eq_str(self.time[i].0.as_str(), name) {
                proof {
                    lemma_first_index_is(v, entry_named(name@), i as int);
                }
                return Some(i);
            }
            i = i + 1;
        }
        proof {
            lemma_first_index_none(v, entry_named(name@));
        }
        None
    }

    /// Records that `name` starts now.
    pub fn start(&mut self, name: &str, now: u64)
        requires
            old(self).wf(),
        ensures
            final(self).wf(),
            final(self).starts() == old(self).starts().insert(name@, now),
    {
        let ghost v = timing_views(self.time@);
        let ghost before = self.starts();
        let nc = chars_of(name);
        let entry = (string_of(nc.as_slice()), now);
        match self.position(name) {
            Some(k) => {
                self.time.set(k, entry);
                proof {
                    let v2 = timing_views(self.time@);
                    assert(v2 =~= v.update(k as int, (name@, now)));
                    assert forall|n: Seq<char>| #![auto] true implies (first_index(v2, entry_named(n))
                        == first_index(v, entry_named(n))) by {
                        lemma_first_index_bounds(v, entry_named(n));
                        lemma_first_index_bounds(v2, entry_named(n));
                        match first_index(v, entry_named(n)) {
                            Some(i) => {
                                assert forall|j: int| 0 <= j < i implies !(#[trigger] entry_named(n))(v2[j]) by {
                                    if j == k {
                                        assert(v[k as int].0 == name@);
                                    }
                                }
                                if i == k {
                                    lemma_first_index_is(v2, entry_named(n), i);
                                } else {
                                    lemma_first_index_is(v2, entry_named(n), i);
                                }
                            },
                            None => {
                                assert(n != name@);
                                assert forall|j: int| 0 <= j < v2.len() implies !(#[trigger] entry_named(n))(v2[j]) by {
                                    if j != k {
                                        assert(v2[j] == v[j]);
                                    }
                                }
                                lemma_first_index_none(v2, entry_named(n));
                            },
                        }
                    }
                    assert(self.starts() =~= before.insert(name@, now));
                }
            },
            None => {
                self.time.push(entry);
                proof {
                    let v2 = timing_views(self.time@);
                    assert(v2 =~= v.push((name@, now)));
                    assert forall|n: Seq<char>| #![auto] true implies (first_index(v2, entry_named(n))
                        == if n == name@ {
                        Some(v.len() as int)
                    } else {
                        first_index(v, entry_named(n))
                    }) by {
                        lemma_first_index_bounds(v, entry_named(n));
                        match first_index(v, entry_named(n)) {
                            Some(i) => {
                                assert(n != name@);
                                lemma_first_index_is(v2, entry_named(n), i);
                            },
                            None => {
                                if n == name@ {
                                    lemma_first_index_is(v2, entry_named(n), v.len() as int);
                                } else {
                                    assert forall|j: int| 0 <= j < v2.len() implies !(#[trigger] entry_named(n))(v2[j]) by {
                                        if j < v.len() {
                                            assert(v2[j] == v[j]);
                                        }
                                    }
                                    lemma_first_index_none(v2, entry_named(n));
                                }
                            },
                        }
                    }
                    assert(self.starts() =~= before.insert(name@, now));
                }
            },
        }
    }

    /// Whether `name` was started and has not ended.
    pub fn is_started(&self, name: &str) -> (r: bool)
        ensures
            r == self.starts().contains_key(name@),
    {
        self.position(name).is_some()
    }

    /// Time since `name` started (0 if the clock went back).
    pub fn elapsed(&self, name: &str, now: u64) -> (r: u64)
        requires
            self.starts().contains_key(name@),
        ensures
            r == if now >= self.starts()[name@] {
                (now - self.starts()[name@]) as u64
            } else {
                0
            },
    {
        match self.position(name) {
            Some(k) => {
                proof {
                    assert(timing_views(self.time@)[k as int] == (self.time@[k as int].0@, self.time@[k as int].1));
                }
                now.saturating_sub(self.time[k].1)
            },
            None => 0,
        }
    }

    /// Forgets `name`; its elapsed time is what `elapsed` gave just before.
    /// Only a started name can end (the elapsed time of any other is not
    /// defined).
    pub fn end(&mut self, name: &str)
        requires
            old(self).wf(),
            old(self).starts().contains_key(name@),
        ensures
            final(self).wf(),
            final(self).starts() == old(self).starts().remove(name@),
    {
        let ghost v = timing_views(self.time@);
        let ghost before = self.starts();
        match self.position(name) {
            Some(k) => {
                self.time.remove(k);
                proof {
                    let v2 = timing_views(self.time@);
                    assert(v2 =~= v.remove(k as int));
                    assert forall|i: int, j: int| 0 <= i < j < v2.len() implies (#[trigger] v2[i]).0
                        != (#[trigger] v2[j]).0 by {
                        let a = if i < k { i } else { i + 1 };
                        let b = if j < k { j } else { j + 1 };
                        assert(v2[i] == v[a] && v2[j] == v[b]);
                    }
                    assert forall|n: Seq<char>| #![auto] true implies (first_index(v2, entry_named(n)) is Some
                        == (first_index(v, entry_named(n)) is Some && n != name@)) && (first_index(v2, entry_named(n)) is Some ==> v2[first_index(v2, entry_named(n))->0].1 == v[first_index(v, entry_named(n))->0].1) by {
                        lemma_first_index_bounds(v, entry_named(n));
                        lemma_first_index_bounds(v2, entry_named(n));
                        match first_index(v, entry_named(n)) {
                            Some(i) => {
                                if n == name@ {
                                    assert(i == k);
                                    assert forall|j: int| 0 <= j < v2.len() implies !(#[trigger] entry_named(n))(v2[j]) by {
                                        let b = if j < k { j } else { j + 1 };
                                        assert(v2[j] == v[b]);
                                        assert(b != i);
                                    }
                                    lemma_first_index_none(v2, entry_named(n));
                                } else {
                                    let i2 = if i < k { i } else { i - 1 };
                                    assert(v2[i2] == v[i]);
                                    assert forall|j: int| 0 <= j < i2 implies !(#[trigger] entry_named(n))(v2[j]) by {
                                        let b = if j < k { j } else { j + 1 };
                                        assert(v2[j] == v[b]);
                                    }
                                    lemma_first_index_is(v2, entry_named(n), i2);
                                }
                            },
                            None => {
                                assert forall|j: int| 0 <= j < v2.len() implies !(#[trigger] entry_named(n))(v2[j]) by {
                                    let b = if j < k { j } else { j + 1 };
                                    assert(v2[j] == v[b]);
                                }
                                lemma_first_index_none(v2, entry_named(n));
                            },
                        }
                    }
                    assert(self.starts() =~= before.remove(name@));
                }
            },
            None => {
                proof {
                    assert(before.remove(name@) =~= before);
                }
            },
        }
    }
}

// ---------------------------------------------------------------------------
// Held locks
// ---------------------------------------------------------------------------
/// A lock being held: where and by which thread it was taken, and when.
#[derive(Clone, Debug)]
pub struct LockHolder {
    pub key: String,
    pub kind: &'static str,
    pub thread_id: String,
    pub thread_name: String,
    pub location: String,
    pub acquired_at: u64,
    pub ticket: u64,
}

/// A lock holder as plain values.
pub struct HolderView {
    pub key: Seq<char>,
    pub kind: Seq<char>,
    pub thread_id: Seq<char>,
    pub thread_name: Seq<char>,
    pub location: Seq<char>,
    pub acquired_at: u64,
    pub ticket: u64,
}

impl View for LockHolder {
    type V = HolderView;

    open spec fn view(&self) -> HolderView {
        HolderView {
            key: self.key@,
            kind: self.kind@,
            thread_id: self.thread_id@,
            thread_name: self.thread_name@,
            location: self.location@,
            acquired_at: self.acquired_at,
            ticket: self.ticket,
        }
    }
}

/// Returned on registration; releasing it removes the holder.
pub struct LockTicket {
    pub key: String,
    pub ticket: u64,
}

/// The locks held right now.
pub struct ActiveLocks {
    holders: Vec<LockHolder>,
    next_ticket: u64,
}

pub open spec fn holder_views(v: Seq<LockHolder>) -> Seq<HolderView> {
    v.map_values(|h: LockHolder| h@)
}

fn copy_holder(h: &LockHolder) -> (r: LockHolder)
    ensures
        r@ == h@,
{
    let k = chars_of(h.key.as_str());
    let t = chars_of(h.thread_id.as_str());
    let n = chars_of(h.thread_name.as_str());
    let l = chars_of(h.location.as_str());
    LockHolder {
        key: string_of(k.as_slice()),
        kind: h.kind,
        thread_id: string_of(t.as_slice()),
        thread_name: string_of(n.as_slice()),
        location: string_of(l.as_slice()),
        acquired_at: h.acquired_at,
        ticket: h.ticket,
    }
}

pub open spec fn other_ticket(t: u64) -> spec_fn(HolderView) -> bool {
    |h: HolderView| h.ticket != t
}

/// Where a lock was taken: `file:line`.
pub open spec fn location_text(file: Seq<char>, line: u32) -> Seq<char> {
    file + ":"@ + radix_digits(line as nat, 10, false)
}

/// The holder a registration adds.
pub open spec fn registered_holder(
    key: Seq<char>,
    kind: Seq<char>,
    file: Seq<char>,
    line: u32,
    thread_id: Seq<char>,
    thread_name: Option<Seq<char>>,
    now: u64,
    ticket: u64,
) -> HolderView {
    HolderView {
        key,
        kind,
        thread_id,
        thread_name: match thread_name {
            Some(n) => n,
            None => "unnamed"@,
        },
        location: location_text(file, line),
        acquired_at: now,
        ticket,
    }
}

impl ActiveLocks {
    /// The holders, in order of registration.
    pub closed spec fn held(&self) -> Seq<HolderView> {
        holder_views(self.holders@)
    }

    pub closed spec fn wf(&self) -> bool {
        forall|i: int| 0 <= i < self.holders.len() ==> #[trigger] self.holders@[i].ticket < self.next_ticket
    }

    /// The ticket the next registration gets.
    pub closed spec fn next(&self) -> u64 {
        self.next_ticket
    }

    /// The ticket the next registration gets.
    pub fn next_ticket(&self) -> (r: u64)
        ensures
            r == self.next(),
    {
        self.next_ticket
    }

    pub fn new() -> (r: Self)
        ensures
            r.wf(),
            r.held() == Seq::<HolderView>::empty(),
            r.next() == 0,
    {
        let r = ActiveLocks { holders: Vec::new(), next_ticket: 0 };
        assert(r.held() =~= Seq::<HolderView>::empty());
        r
    }

    /// Records that a lock was taken (when tracing is on): the holder joins
    /// the registry with a fresh ticket, its location written `file:line`
    /// and its thread unnamed when it has no name.
    pub fn register_lock_acquire(
        &mut self,
        enabled: bool,
        key: &str,
        kind: &'static str,
        file: &str,
        line: u32,
        thread_id: &str,
        thread_name: Option<&str>,
        now: u64,
    ) -> (r: Option<LockTicket>)
        requires
            old(self).wf(),
            old(self).next() < u64::MAX,
        ensures
            final(self).wf(),
            !enabled ==> r is None && final(self).held() == old(self).held() && final(self).next()
                == old(self).next(),
            enabled ==> (r matches Some(t) && t.key@ == key@ && t.ticket == old(self).next()
                && final(self).held() == old(self).held().push(
                registered_holder(
                    key@,
                    kind@,
                    file@,
                    line,
                    thread_id@,
                    match thread_name {
                        Some(n) => Some(n@),
                        None => None,
                    },
                    now,
                    old(self).next(),
                ),
            ) && final(self).next() == old(self).next() + 1),
    {
        if !enabled {
            return None;
        }
        let mut loc = chars_of(file);
        loc.push(':');
        let d = decimal(line as u64);
        push_all(&mut loc, d.as_slice());
        proof {
            reveal_strlit(":");
            assert(loc@ =~= file@ + ":"@ + d@);
        }
        let name = match thread_name {
            Some(n) => chars_of(n),
            None => chars_of("unnamed"),
        };
        let kc = chars_of(key);
        let tc = chars_of(thread_id);
        let ticket = self.next_ticket;
        let holder = LockHolder {
            key: string_of(kc.as_slice()),
            kind,
            thread_id: string_of(tc.as_slice()),
            thread_name: string_of(name.as_slice()),
            location: string_of(loc.as_slice()),
            acquired_at: now,
            ticket,
        };
        let ghost h0 = self.held();
        let ghost hv = holder@;
        self.holders.push(holder);
        self.next_ticket = ticket + 1;
        proof {
            assert(hv.location =~= location_text(file@, line));
            assert(self.held() =~= h0.push(hv));
        }
        Some(LockTicket { key: string_of(kc.as_slice()), ticket })
    }

    /// Removes the holder of a ticket.
    pub fn release(&mut self, ticket: &LockTicket)
        requires
            old(self).wf(),
        ensures
            final(self).wf(),
            final(self).next() == old(self).next(),
            final(self).held() == old(self).held().filter(other_ticket(ticket.ticket)),
    {
        let ghost hv = holder_views(self.holders@);
        let ghost p = other_ticket(ticket.ticket);
        let mut kept: Vec<LockHolder> = Vec::new();
        let mut i: usize = 0;
        proof {
            assert(hv.take(0).filter(p) =~= seq![]);
        }
        while i < self.holders.len()
            invariant
                i <= self.holders.len(),
                hv == holder_views(self.holders@),
                p == other_ticket(ticket.ticket),
                holder_views(kept@) == hv.take(i as int).filter(p),
                forall|j: int| 0 <= j < kept.len() ==> #[trigger] kept@[j].ticket < self.next_ticket,
                forall|j: int| 0 <= j < self.holders.len() ==> #[trigger] self.holders@[j].ticket < self.next_ticket,
            decreases self.holders.len() - i,
        {
            proof {
                assert(hv[i as int] == self.holders@[i as int]@);
                assert(hv.take(i + 1) =~= hv.take(i as int).push(hv[i as int]));
                hv.take(i as int).lemma_filter_push(hv[i as int], p);
            }
            if self.holders[i].ticket != ticket.ticket {
                let h = copy_holder(&self.holders[i]);
                let ghost before = holder_views(kept@);
                kept.push(h);
                proof {
                    assert(holder_views(kept@) =~= before.push(hv[i as int]));
                }
            }
            i = i + 1;
        }
        proof {
            assert(hv.take(self.holders.len() as int) =~= hv);
        }
        self.holders = kept;
    }
}

/// Releasing the ticket of a registration leaves the registry as it was
/// before it.
pub proof fn lemma_release_undoes_register(held: Seq<HolderView>, h: HolderView)
    requires
        forall|i: int| 0 <= i < held.len() ==> (#[trigger] held[i]).ticket < h.ticket,
    ensures
        held.push(h).filter(other_ticket(h.ticket)) == held,
{
    let p = other_ticket(h.ticket);
    held.lemma_filter_push(h, p);
    lemma_filter_keeps_all(held, p);
}

proof fn lemma_filter_keeps_all(s: Seq<HolderView>, p: spec_fn(HolderView) -> bool)
    requires
        forall|i: int| 0 <= i < s.len() ==> p(#[trigger] s[i]),
    ensures
        s.filter(p) == s,
    decreases s.len(),
{
    if s.len() > 0 {
        let init = s.drop_last();
        assert forall|i: int| 0 <= i < init.len() implies p(#[trigger] init[i]) by {
            assert(init[i] == s[i]);
        }
        lemma_filter_keeps_all(init, p);
        assert(s =~= init.push(s.last()));
        init.lemma_filter_push(s.last(), p);
    } else {
        assert(s.filter(p) =~= s);
    }
}

proof fn lemma_filter_keeps_none(s: Seq<HolderView>, p: spec_fn(HolderView) -> bool)
    requires
        forall|i: int| 0 <= i < s.len() ==> !p(#[trigger] s[i]),
    ensures
        s.filter(p) == Seq::<HolderView>::empty(),
    decreases s.len(),
{
    if s.len() > 0 {
        let init = s.drop_last();
        assert forall|i: int| 0 <= i < init.len() implies !p(#[trigger] init[i]) by {
            assert(init[i] == s[i]);
        }
        lemma_filter_keeps_none(init, p);
        assert(s =~= init.push(s.last()));
        init.lemma_filter_push(s.last(), p);
    } else {
        assert(s.filter(p) =~= Seq::<HolderView>::empty());
    }
}

// ---------------------------------------------------------------------------
// The held locks by key
// ---------------------------------------------------------------------------
pub open spec fn key_is(k: Seq<char>) -> spec_fn(HolderView) -> bool {
    |h: HolderView| h.key == k
}

pub open spec fn groups_view(g: Seq<(String, Vec<LockHolder>)>) -> Seq<(Seq<char>, Seq<HolderView>)> {
    g.map_values(|e: (String, Vec<LockHolder>)| (e.0@, holder_views(e.1@)))
}

/// The holders grouped by key: keys in increasing order, each with its
/// holders in order of registration, no group empty, and every holder in
/// the group of its key.
pub open spec fn grouped_by_key(hv: Seq<HolderView>, g: Seq<(Seq<char>, Seq<HolderView>)>) -> bool {
    &&& forall|i: int, j: int| 0 <= i < j < g.len() ==> seq_lt(g[i].0, g[j].0)
    &&& forall|i: int|
        0 <= i < g.len() ==> (#[trigger] g[i]).1 == hv.filter(key_is(g[i].0)) && g[i].1.len() > 0
    &&& forall|j: int| 0 <= j < hv.len() ==> has_group(g, (#[trigger] hv[j]).key)
}

/// Some group has this key.
pub open spec fn has_group(g: Seq<(Seq<char>, Seq<HolderView>)>, key: Seq<char>) -> bool {
    exists|i: int| 0 <= i < g.len() && (#[trigger] g[i]).0 == key
}

/// A holder whose key has a group joins the end of it.
proof fn lemma_group_add_existing(
    hv: Seq<HolderView>,
    n: int,
    g: Seq<(Seq<char>, Seq<HolderView>)>,
    k: int,
)
    requires
        0 <= n < hv.len(),
        grouped_by_key(hv.take(n), g),
        0 <= k < g.len(),
        g[k].0 == hv[n].key,
    ensures
        grouped_by_key(hv.take(n + 1), g.update(k, (g[k].0, g[k].1.push(hv[n])))),
{
    let h = hv[n];
    let g2 = g.update(k, (g[k].0, g[k].1.push(h)));
    let pre = hv.take(n);
    assert(hv.take(n + 1) =~= pre.push(h));
    assert forall|i: int| 0 <= i < g2.len() implies (#[trigger] g2[i]).1 == hv.take(n + 1).filter(
        key_is(g2[i].0),
    ) && g2[i].1.len() > 0 by {
        pre.lemma_filter_push(h, key_is(g[i].0));
        if i != k {
            if g[i].0 == h.key {
                if i < k {
                    lemma_seq_lt_total(g[i].0, g[i].0);
                    assert(seq_lt(g[i].0, g[k].0));
                } else {
                    lemma_seq_lt_total(g[i].0, g[i].0);
                    assert(seq_lt(g[k].0, g[i].0));
                }
            }
        }
    }
    let hv2 = hv.take(n + 1);
    assert forall|j: int| 0 <= j < hv2.len() implies has_group(g2, (#[trigger] hv2[j]).key) by {
        if j < n {
            assert(hv2[j] == pre[j]);
            assert(has_group(g, pre[j].key));
            let i = choose|i: int| 0 <= i < g.len() && (#[trigger] g[i]).0 == pre[j].key;
            assert(g2[i].0 == g[i].0);
        } else {
            assert(hv2[j] == h);
            assert(g2[k].0 == h.key);
        }
    }
}

/// A holder whose key has no group starts one, at the place its key takes
/// among the others.
proof fn lemma_group_add_new(
    hv: Seq<HolderView>,
    n: int,
    g: Seq<(Seq<char>, Seq<HolderView>)>,
    p: int,
)
    requires
        0 <= n < hv.len(),
        grouped_by_key(hv.take(n), g),
        forall|m: int| 0 <= m < g.len() ==> (#[trigger] g[m]).0 != hv[n].key,
        0 <= p <= g.len(),
        forall|m: int| 0 <= m < p ==> !seq_lt(hv[n].key, (#[trigger] g[m]).0),
        p < g.len() ==> seq_lt(hv[n].key, g[p].0),
    ensures
        grouped_by_key(hv.take(n + 1), g.insert(p, (hv[n].key, seq![hv[n]]))),
{
    let h = hv[n];
    let key = h.key;
    let g2 = g.insert(p, (key, seq![h]));
    let pre = hv.take(n);
    let hv2 = hv.take(n + 1);
    assert forall|j: int| 0 <= j < hv2.len() implies has_group(g2, (#[trigger] hv2[j]).key) by {
        if j < n {
            assert(hv2[j] == pre[j]);
            assert(has_group(g, pre[j].key));
            let i = choose|i: int| 0 <= i < g.len() && (#[trigger] g[i]).0 == pre[j].key;
            if i < p {
                assert(g2[i] == g[i]);
            } else {
                assert(g2[i + 1] == g[i]);
            }
        } else {
            assert(hv2[j] == h);
            assert(g2[p].0 == h.key);
        }
    }
    assert(hv.take(n + 1) =~= pre.push(h));
    assert forall|m: int| 0 <= m < p implies seq_lt((#[trigger] g[m]).0, key) by {
        lemma_seq_lt_total(g[m].0, key);
    }
    assert forall|m: int| p <= m < g.len() implies seq_lt(key, (#[trigger] g[m]).0) by {
        if m > p {
            lemma_seq_lt_trans(key, g[p].0, g[m].0);
        }
    }
    assert forall|i: int, j: int| 0 <= i < j < g2.len() implies seq_lt(g2[i].0, g2[j].0) by {
        if j < p {
            assert(g2[i] == g[i] && g2[j] == g[j]);
        } else if j == p {
            assert(g2[i] == g[i]);
        } else if i < p {
            assert(g2[i] == g[i] && g2[j] == g[j - 1]);
            lemma_seq_lt_trans(g[i].0, key, g[j - 1].0);
        } else if i == p {
            assert(g2[j] == g[j - 1]);
        } else {
            assert(g2[i] == g[i - 1] && g2[j] == g[j - 1]);
        }
    }
    assert forall|j: int| 0 <= j < pre.len() implies !key_is(key)(#[trigger] pre[j]) by {
        assert(has_group(g, pre[j].key));
        let i = choose|i: int| 0 <= i < g.len() && (#[trigger] g[i]).0 == pre[j].key;
    }
    lemma_filter_keeps_none(pre, key_is(key));
    assert forall|i: int| 0 <= i < g2.len() implies (#[trigger] g2[i]).1 == hv.take(n + 1).filter(
        key_is(g2[i].0),
    ) && g2[i].1.len() > 0 by {
        pre.lemma_filter_push(h, key_is(g2[i].0));
        if i == p {
            assert(seq![h] =~= Seq::<HolderView>::empty().push(h));
        } else if i < p {
            assert(g2[i] == g[i]);
        } else {
            assert(g2[i] == g[i - 1]);
        }
    }
}

fn find_group(groups: &Vec<(String, Vec<LockHolder>)>, key: &str) -> (r: Option<usize>)
    ensures
        r matches Some(k) ==> k < groups.len() && groups@[k as int].0@ == key@,
        r is None ==> forall|m: int| 0 <= m < groups.len() ==> (#[trigger] groups@[m]).0@ != key@,
{
    let mut i: usize = 0;
    while i < groups.len()
        invariant
            i <= groups.len(),
            forall|m: int| 0 <= m < i ==> (#[trigger] groups@[m]).0@ != key@,
        decreases groups.len() - i,
    {
        if eq_str(groups[i].0.as_str(), key) {
            return Some(i);
        }
        i = i + 1;
    }
    None
}

fn group_position(groups: &Vec<(String, Vec<LockHolder>)>, key: &str) -> (r: usize)
    ensures
        r <= groups.len(),
        forall|m: int| 0 <= m < r ==> !seq_lt(key@, (#[trigger] groups@[m]).0@),
        r < groups.len() ==> seq_lt(key@, groups@[r as int].0@),
{
    let mut i: usize = 0;
    while i < groups.len()
        invariant
            i <= groups.len(),
            forall|m: int| 0 <= m < i ==> !seq_lt(key@, (#[trigger] groups@[m]).0@),
        decreases groups.len() - i,
    {
        if str_less(key, groups[i].0.as_str()) {
            return i;
        }
        i = i + 1;
    }
    i
}

impl ActiveLocks {
    /// The holders grouped by key (see `grouped_by_key`).
    pub fn lock_groups(&self) -> (r: Vec<(String, Vec<LockHolder>)>)
        ensures
            grouped_by_key(self.held(), groups_view(r@)),
    {
        let ghost hv = self.held();
        let mut groups: Vec<(String, Vec<LockHolder>)> = Vec::new();
        proof {
            assert(groups_view(groups@) =~= Seq::<(Seq<char>, Seq<HolderView>)>::empty());
        }
        let mut i: usize = 0;
        while i < self.holders.len()
            invariant
                i <= self.holders.len(),
                hv == holder_views(self.holders@),
                grouped_by_key(hv.take(i as int), groups_view(groups@)),
            decreases self.holders.len() - i,
        {
            let h = &self.holders[i];
            let ghost gv = groups_view(groups@);
            proof {
                assert(hv[i as int] == h@);
            }
            match find_group(&groups, h.key.as_str()) {
                Some(k) => {
                    proof {
                        assert(gv[k as int].0 == hv[i as int].key);
                        lemma_group_add_existing(hv, i as int, gv, k as int);
                    }
                    let mut entry = groups.remove(k);
                    let c = copy_holder(h);
                    let ghost ev = holder_views(entry.1@);
                    entry.1.push(c);
                    proof {
                        assert(holder_views(entry.1@) =~= ev.push(h@));
                    }
                    groups.insert(k, entry);
                    proof {
                        assert(groups_view(groups@) =~= gv.update(
                            k as int,
                            (gv[k as int].0, gv[k as int].1.push(hv[i as int])),
                        ));
                    }
                },
                None => {
                    let p = group_position(&groups, h.key.as_str());
                    proof {
                        assert forall|m: int| 0 <= m < gv.len() implies (#[trigger] gv[m]).0
                            != hv[i as int].key by {
                            assert(gv[m].0 == groups@[m].0@);
                        }
                        assert forall|m: int| 0 <= m < p implies !seq_lt(
                            hv[i as int].key,
                            (#[trigger] gv[m]).0,
                        ) by {
                            assert(gv[m].0 == groups@[m].0@);
                        }
                        if p < groups.len() {
                            assert(gv[p as int].0 == groups@[p as int].0@);
                        }
                        lemma_group_add_new(hv, i as int, gv, p as int);
                    }
                    let kc = chars_of(h.key.as_str());
                    let mut members: Vec<LockHolder> = Vec::new();
                    members.push(copy_holder(h));
                    let entry = (string_of(kc.as_slice()), members);
                    proof {
                        assert(holder_views(entry.1@) =~= seq![hv[i as int]]);
                    }
                    groups.insert(p, entry);
                    proof {
                        assert(groups_view(groups@) =~= gv.insert(
                            p as int,
                            (hv[i as int].key, seq![hv[i as int]]),
                        ));
                    }
                },
            }
            i = i + 1;
        }
        proof {
            assert(hv.take(self.holders.len() as int) =~= hv);
        }
        groups
    }
}

// ---------------------------------------------------------------------------
// The report of held locks
// ---------------------------------------------------------------------------
/// Time since a holder took its lock, in milliseconds (none when the clock
/// went back).
pub open spec fn held_ms(now: u64, at: u64) -> nat {
    if now >= at {
        (now - at) as nat
    } else {
        0
    }
}

/// Milliseconds as seconds with three decimals.
pub open spec fn seconds_text(ms: nat) -> Seq<char> {
    radix_digits(ms / 1000, 10, false) + "."@ + pad_left(radix_digits(ms % 1000, 10, false), 3, '0')
}

/// `    [thread=<id>|<name>] kind=<kind> acquired at <location> held_for=<s>s`.
pub open spec fn holder_line(h: HolderView, now: u64) -> Seq<char> {
    "    [thread="@ + h.thread_id + "|"@ + h.thread_name + "] kind="@ + h.kind + " acquired at "@
        + h.location + " held_for="@ + seconds_text(held_ms(now, h.acquired_at)) + "s\n"@
}

pub open spec fn holders_text(hs: Seq<HolderView>, now: u64) -> Seq<char>
    decreases hs.len(),
{
    if hs.len() == 0 {
        seq![]
    } else {
        holders_text(hs.drop_last(), now) + holder_line(hs.last(), now)
    }
}

/// Each group as `  <key>:` and the lines of its holders.
pub open spec fn groups_text(g: Seq<(Seq<char>, Seq<HolderView>)>, now: u64) -> Seq<char>
    decreases g.len(),
{
    if g.len() == 0 {
        seq![]
    } else {
        groups_text(g.drop_last(), now) + "  "@ + g.last().0 + ":\n"@ + holders_text(g.last().1, now)
    }
}

/// The report of the groups, or a line saying that no lock is held.
pub open spec fn report_text(g: Seq<(Seq<char>, Seq<HolderView>)>, now: u64) -> Seq<char> {
    if g.len() == 0 {
        "  <no active locks>\n"@
    } else {
        groups_text(g, now)
    }
}

fn push_holder_line(out: &mut Vec<char>, h: &LockHolder, now: u64)
    ensures
        final(out)@ == old(out)@ + holder_line(h@, now),
{
    let ms: u64 = now.saturating_sub(h.acquired_at);
    push_str_chars(out, "    [thread=");
    push_str_chars(out, h.thread_id.as_str());
    push_str_chars(out, "|");
    push_str_chars(out, h.thread_name.as_str());
    push_str_chars(out, "] kind=");
    push_str_chars(out, h.kind);
    push_str_chars(out, " acquired at ");
    push_str_chars(out, h.location.as_str());
    push_str_chars(out, " held_for=");
    let whole = decimal(ms / 1000);
    push_all(out, whole.as_slice());
    push_str_chars(out, ".");
    let frac = pad_left_vec(decimal(ms % 1000), 3, '0');
    push_all(out, frac.as_slice());
    push_str_chars(out, "s\n");
    proof {
        assert(ms as nat == held_ms(now, h.acquired_at));
        assert(final(out)@ =~= old(out)@ + holder_line(h@, now));
    }
}

/// The report of grouped holders, `now` being the current time.
pub fn lock_report(groups: &Vec<(String, Vec<LockHolder>)>, now: u64) -> (r: String)
    ensures
        r@ == report_text(groups_view(groups@), now),
{
    if groups.len() == 0 {
        let m = chars_of("  <no active locks>\n");
        return string_of(m.as_slice());
    }
    let ghost gv = groups_view(groups@);
    let mut out: Vec<char> = Vec::new();
    let mut i: usize = 0;
    proof {
        assert(gv.take(0) =~= Seq::<(Seq<char>, Seq<HolderView>)>::empty());
    }
    while i < groups.len()
        invariant
            i <= groups.len(),
            gv == groups_view(groups@),
            out@ == groups_text(gv.take(i as int), now),
        decreases groups.len() - i,
    {
        let ghost before = out@;
        let key = &groups[i].0;
        let members = &groups[i].1;
        let ghost hs = holder_views(members@);
        push_str_chars(&mut out, "  ");
        push_str_chars(&mut out, key.as_str());
        push_str_chars(&mut out, ":\n");
        let ghost head = out@;
        let mut j: usize = 0;
        proof {
            assert(hs.take(0) =~= Seq::<HolderView>::empty());
        }
        while j < members.len()
            invariant
                j <= members.len(),
                hs == holder_views(members@),
                out@ == head + holders_text(hs.take(j as int), now),
            decreases members.len() - j,
        {
            push_holder_line(&mut out, &members[j], now);
            proof {
                assert(hs.take(j + 1).drop_last() =~= hs.take(j as int));
                assert(hs.take(j + 1).last() == members@[j as int]@);
            }
            j = j + 1;
        }
        proof {
            assert(hs.take(members.len() as int) =~= hs);
            assert(gv[i as int] == (key@, hs));
            assert(gv.take(i + 1).drop_last() =~= gv.take(i as int));
            assert(gv.take(i + 1).last() == gv[i as int]);
            assert(out@ =~= groups_text(gv.take(i + 1), now));
        }
        i = i + 1;
    }
    proof {
        assert(gv.take(groups.len() as int) =~= gv);
    }
    string_of(out.as_slice())
}

impl ActiveLocks {
    /// The report of the held locks: by key in increasing order, each holder
    /// with its thread, kind, location and the time it has held the lock.
    pub fn dump_active_locks(&self, now: u64) -> (r: String)
        ensures
            exists|g: Seq<(Seq<char>, Seq<HolderView>)>|
                grouped_by_key(self.held(), g) && r@ == report_text(g, now),
    {
        let groups = self.lock_groups();
        let r = lock_report(&groups, now);
        proof {
            let g = groups_view(groups@);
            assert(grouped_by_key(self.held(), g) && r@ == report_text(g, now));
        }
        r
    }
}

/// A lock guard with the ticket of its registration; the guard is dropped
/// before the ticket, so a registered holder always still holds the lock.
pub struct TracedGuard<G> {
    pub inner: G,
    pub ticket: Option<LockTicket>,
}

} // verus!
