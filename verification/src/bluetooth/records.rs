//! What the device list keeps between events: the ids of the tracked
//! classic and low-energy devices, the discovered (unpaired) devices, the
//! ids being resolved, and the two throttles. Each event of the list
//! changes these records as its plan says.
use vstd::prelude::*;

use crate::bluetooth::devices::{
    copy_device, copy_text, device_views, event_kind, on_event, other_stamp, should_query_device_info,
    should_refresh_device, spec_event_plan, stamp_views, throttle_after, throttle_passes,
    AddedDevicePlan, BluetoothDevice, DeviceEventPlan, DeviceView, ThrottleTable,
    DEVICE_INFO_QUERY_INTERVAL_MS, DEVICE_REFRESH_INTERVAL_MS,
};
use crate::bluetooth::{BluetoothDeviceType, BluetoothManagerEvent};
use crate::text::{chars_of, eq_str, string_of};

verus! {

/// At most this many devices are resolved at a time.
pub const MAX_CONCURRENT_RESOLUTIONS: usize = 2;

/// The records of the device list.
pub struct DeviceRecords {
    pub classic: Vec<String>,
    pub low_energy: Vec<String>,
    pub discovered: Vec<BluetoothDevice>,
    pub resolving: Vec<String>,
    pub info_queries: ThrottleTable,
    pub refreshes: ThrottleTable,
}

pub struct RecordsView {
    pub classic: Seq<Seq<char>>,
    pub low_energy: Seq<Seq<char>>,
    pub discovered: Seq<DeviceView>,
    pub resolving: Seq<Seq<char>>,
    pub info_queries: Seq<(Seq<char>, u64)>,
    pub refreshes: Seq<(Seq<char>, u64)>,
}

pub open spec fn id_views(v: Seq<String>) -> Seq<Seq<char>> {
    v.map_values(|s: String| s@)
}

impl View for DeviceRecords {
    type V = RecordsView;

    open spec fn view(&self) -> RecordsView {
        RecordsView {
            classic: id_views(self.classic@),
            low_energy: id_views(self.low_energy@),
            discovered: device_views(self.discovered@),
            resolving: id_views(self.resolving@),
            info_queries: stamp_views(self.info_queries.entries@),
            refreshes: stamp_views(self.refreshes.entries@),
        }
    }
}

/// Holds of every id but `id`.
pub open spec fn other_id(id: Seq<char>) -> spec_fn(Seq<char>) -> bool {
    |x: Seq<char>| x != id
}

/// Holds of the records of every device but `id`.
pub open spec fn other_device(id: Seq<char>) -> spec_fn(DeviceView) -> bool {
    |d: DeviceView| d.id != id
}

pub open spec fn has_id(s: Seq<DeviceView>, id: Seq<char>) -> bool {
    exists|i: int| 0 <= i < s.len() && (#[trigger] s[i]).id == id
}

/// The tracked ids of one kind.
pub open spec fn tracked_of(v: RecordsView, kind: BluetoothDeviceType) -> Seq<Seq<char>> {
    match kind {
        BluetoothDeviceType::Classic => v.classic,
        BluetoothDeviceType::LowEnergy => v.low_energy,
    }
}

pub open spec fn with_tracked(v: RecordsView, kind: BluetoothDeviceType, s: Seq<Seq<char>>) -> RecordsView {
    match kind {
        BluetoothDeviceType::Classic => RecordsView { classic: s, ..v },
        BluetoothDeviceType::LowEnergy => RecordsView { low_energy: s, ..v },
    }
}

/// The id is tracked, of either kind.
pub open spec fn is_tracked(v: RecordsView, id: Seq<char>) -> bool {
    v.classic.contains(id) || v.low_energy.contains(id)
}

/// Tracking `id`: it is recorded once among the tracked ids of its kind,
/// and its discovered record is dropped.
pub open spec fn after_track(v: RecordsView, id: Seq<char>, kind: BluetoothDeviceType) -> RecordsView {
    RecordsView {
        discovered: v.discovered.filter(other_device(id)),
        ..with_tracked(v, kind, tracked_of(v, kind).filter(other_id(id)).push(id))
    }
}

/// Keeping a discovered device: its record replaces any earlier one.
pub open spec fn after_discover(v: RecordsView, d: DeviceView) -> RecordsView {
    RecordsView { discovered: v.discovered.filter(other_device(d.id)).push(d), ..v }
}

pub open spec fn after_drop_discovered(v: RecordsView, id: Seq<char>) -> RecordsView {
    RecordsView { discovered: v.discovered.filter(other_device(id)), ..v }
}

/// A removed device leaves the tracked ids of its kind, the discovered
/// records and both throttles.
pub open spec fn after_forget(v: RecordsView, id: Seq<char>, kind: BluetoothDeviceType) -> RecordsView {
    RecordsView {
        discovered: v.discovered.filter(other_device(id)),
        info_queries: v.info_queries.filter(other_stamp(id)),
        refreshes: v.refreshes.filter(other_stamp(id)),
        ..with_tracked(v, kind, tracked_of(v, kind).filter(other_id(id)))
    }
}

/// A resolution starts when the list is shown, the id is not being
/// resolved already, and fewer than the most resolutions run.
pub open spec fn resolution_starts(v: RecordsView, id: Seq<char>, enabled: bool) -> bool {
    enabled && !v.resolving.contains(id) && v.resolving.len() < MAX_CONCURRENT_RESOLUTIONS
}

pub open spec fn after_begin_resolution(v: RecordsView, id: Seq<char>, enabled: bool) -> RecordsView {
    if resolution_starts(v, id, enabled) {
        RecordsView { resolving: v.resolving.push(id), ..v }
    } else {
        v
    }
}

/// A finished resolution: a device that could be opened is tracked, and
/// the id stops being resolved either way.
pub open spec fn after_finish_resolution(
    v: RecordsView,
    id: Seq<char>,
    kind: BluetoothDeviceType,
    resolved: bool,
) -> RecordsView {
    let w = if resolved {
        after_track(v, id, kind)
    } else {
        v
    };
    RecordsView { resolving: w.resolving.filter(other_id(id)), ..w }
}

/// What a plan for an event of the list does to the records.
pub open spec fn after_event_plan(
    v: RecordsView,
    plan: DeviceEventPlan,
    id: Seq<char>,
    kind: BluetoothDeviceType,
) -> RecordsView {
    match plan {
        DeviceEventPlan::UpdateTracked { .. } => after_drop_discovered(v, id),
        DeviceEventPlan::ResolveDiscovered => after_begin_resolution(v, id, true),
        DeviceEventPlan::RemoveEverywhere => after_forget(v, id, kind),
        _ => v,
    }
}

/// What the plan for the details of an added device does to the records.
pub open spec fn after_added_plan(
    v: RecordsView,
    plan: AddedDevicePlan,
    d: DeviceView,
    kind: BluetoothDeviceType,
) -> RecordsView {
    match plan {
        AddedDevicePlan::Discovered { resolve } => {
            let w = after_discover(v, d);
            if resolve {
                after_begin_resolution(w, d.id, true)
            } else {
                w
            }
        },
        AddedDevicePlan::Track => after_track(v, d.id, kind),
        AddedDevicePlan::Nothing => v,
    }
}

/// The device an event of the list is about, and its kind.
pub open spec fn event_target(e: BluetoothManagerEvent) -> (Seq<char>, BluetoothDeviceType) {
    match e {
        BluetoothManagerEvent::DeviceAdded(id, k) => (id@, k),
        BluetoothManagerEvent::DeviceUpdated(id, k) => (id@, k),
        BluetoothManagerEvent::DeviceRemoved(id, k) => (id@, k),
    }
}

/// The plan for an event, read from the records: the detail query of an
/// added device is throttled, a tracked device's refresh is throttled.
pub open spec fn handled_plan(v: RecordsView, e: BluetoothManagerEvent, enabled: bool, now: u64) -> (
    DeviceEventPlan,
    bool,
) {
    let (id, kind) = event_target(e);
    spec_event_plan(
        enabled,
        event_kind(e),
        throttle_passes(v.info_queries, id, now, DEVICE_INFO_QUERY_INTERVAL_MS),
        tracked_of(v, kind).contains(id),
        has_id(v.discovered, id),
        v.resolving.contains(id),
        throttle_passes(v.refreshes, id, now, DEVICE_REFRESH_INTERVAL_MS),
    )
}

/// The records once the throttles consulted for an event have recorded it.
pub open spec fn throttled_view(v: RecordsView, e: BluetoothManagerEvent, enabled: bool, now: u64) -> RecordsView {
    let (id, kind) = event_target(e);
    if !enabled {
        v
    } else {
        match e {
            BluetoothManagerEvent::DeviceAdded(_, _) => RecordsView {
                info_queries: throttle_after(v.info_queries, id, now, DEVICE_INFO_QUERY_INTERVAL_MS),
                ..v
            },
            BluetoothManagerEvent::DeviceUpdated(_, _) => if tracked_of(v, kind).contains(id) {
                RecordsView {
                    refreshes: throttle_after(v.refreshes, id, now, DEVICE_REFRESH_INTERVAL_MS),
                    ..v
                }
            } else {
                v
            },
            BluetoothManagerEvent::DeviceRemoved(_, _) => v,
        }
    }
}

/// The records after an event of the list.
pub open spec fn handled_records(v: RecordsView, e: BluetoothManagerEvent, enabled: bool, now: u64) -> RecordsView {
    let (id, kind) = event_target(e);
    after_event_plan(throttled_view(v, e, enabled, now), handled_plan(v, e, enabled, now).0, id, kind)
}

/// No device is both tracked and discovered.
pub open spec fn separated(v: RecordsView) -> bool {
    forall|id: Seq<char>| #[trigger] has_id(v.discovered, id) ==> !is_tracked(v, id)
}

/// The ids being resolved are distinct and at most the most resolutions.
pub open spec fn resolutions_bounded(v: RecordsView) -> bool {
    &&& v.resolving.no_duplicates()
    &&& v.resolving.len() <= MAX_CONCURRENT_RESOLUTIONS
}

fn contains_text(v: &Vec<String>, id: &str) -> (r: bool)
    ensures
        r == id_views(v@).contains(id@),
{
    let ghost s = id_views(v@);
    let mut i: usize = 0;
    while i < v.len()
        invariant
            i <= v.len(),
            s == id_views(v@),
            forall|j: int| 0 <= j < i ==> s[j] != id@,
        decreases v.len() - i,
    {
        if eq_str(v[i].as_str(), id) {
            assert(s[i as int] == id@);
            return true;
        }
        i = i + 1;
    }
    false
}

fn contains_device(v: &Vec<BluetoothDevice>, id: &str) -> (r: bool)
    ensures
        r == has_id(device_views(v@), id@),
{
    let ghost s = device_views(v@);
    let mut i: usize = 0;
    while i < v.len()
        invariant
            i <= v.len(),
            s == device_views(v@),
            forall|j: int| 0 <= j < i ==> (#[trigger] s[j]).id != id@,
        decreases v.len() - i,
    {
        if eq_str(v[i].id.as_str(), id) {
            assert(s[i as int].id == id@);
            return true;
        }
        i = i + 1;
    }
    false
}

fn drop_text(v: &mut Vec<String>, id: &str)
    ensures
        id_views(final(v)@) == id_views(old(v)@).filter(other_id(id@)),
{
    let ghost s = id_views(v@);
    let ghost p = other_id(id@);
    let mut kept: Vec<String> = Vec::new();
    let mut i: usize = 0;
    proof {
        assert(s.take(0).filter(p) =~= seq![]);
    }
    while i < v.len()
        invariant
            i <= v.len(),
            s == id_views(v@),
            p == other_id(id@),
            id_views(kept@) == s.take(i as int).filter(p),
        decreases v.len() - i,
    {
        proof {
            assert(s.take(i + 1) =~= s.take(i as int).push(s[i as int]));
            s.take(i as int).lemma_filter_push(s[i as int], p);
        }
        if !eq_str(v[i].as_str(), id) {
            let e = copy_text(&v[i]);
            let ghost before = id_views(kept@);
            kept.push(e);
            proof {
                assert(id_views(kept@) =~= before.push(s[i as int]));
            }
        }
        i = i + 1;
    }
    proof {
        assert(s.take(v.len() as int) =~= s);
    }
    *v = kept;
}

fn drop_device(v: &mut Vec<BluetoothDevice>, id: &str)
    ensures
        device_views(final(v)@) == device_views(old(v)@).filter(other_device(id@)),
{
    let ghost s = device_views(v@);
    let ghost p = other_device(id@);
    let mut kept: Vec<BluetoothDevice> = Vec::new();
    let mut i: usize = 0;
    proof {
        assert(s.take(0).filter(p) =~= seq![]);
    }
    while i < v.len()
        invariant
            i <= v.len(),
            s == device_views(v@),
            p == other_device(id@),
            device_views(kept@) == s.take(i as int).filter(p),
        decreases v.len() - i,
    {
        proof {
            assert(s.take(i + 1) =~= s.take(i as int).push(s[i as int]));
            s.take(i as int).lemma_filter_push(s[i as int], p);
        }
        if !eq_str(v[i].id.as_str(), id) {
            let e = copy_device(&v[i]);
            let ghost before = device_views(kept@);
            kept.push(e);
            proof {
                assert(device_views(kept@) =~= before.push(s[i as int]));
            }
        }
        i = i + 1;
    }
    proof {
        assert(s.take(v.len() as int) =~= s);
    }
    *v = kept;
}

fn text_of(id: &str) -> (r: String)
    ensures
        r@ == id@,
{
    let c = chars_of(id);
    string_of(c.as_slice())
}

impl DeviceRecords {
    pub fn new() -> (r: Self)
        ensures
            r@.classic.len() == 0,
            r@.low_energy.len() == 0,
            r@.discovered.len() == 0,
            r@.resolving.len() == 0,
            r@.info_queries.len() == 0,
            r@.refreshes.len() == 0,
    {
        let r = DeviceRecords {
            classic: Vec::new(),
            low_energy: Vec::new(),
            discovered: Vec::new(),
            resolving: Vec::new(),
            info_queries: ThrottleTable::new(),
            refreshes: ThrottleTable::new(),
        };
        proof {
            assert(id_views(r.classic@).len() == 0);
            assert(id_views(r.low_energy@).len() == 0);
            assert(device_views(r.discovered@).len() == 0);
            assert(id_views(r.resolving@).len() == 0);
        }
        r
    }

    /// Whether `id` is tracked as a device of the given kind.
    pub fn is_known(&self, id: &str, kind: BluetoothDeviceType) -> (r: bool)
        ensures
            r == tracked_of(self@, kind).contains(id@),
    {
        match kind {
            BluetoothDeviceType::Classic => contains_text(&self.classic, id),
            BluetoothDeviceType::LowEnergy => contains_text(&self.low_energy, id),
        }
    }

    pub fn is_discovered(&self, id: &str) -> (r: bool)
        ensures
            r == has_id(self@.discovered, id@),
    {
        contains_device(&self.discovered, id)
    }

    pub fn is_resolving(&self, id: &str) -> (r: bool)
        ensures
            r == self@.resolving.contains(id@),
    {
        contains_text(&self.resolving, id)
    }

    /// Tracks `id` as a device of the given kind and drops its discovered
    /// record.
    pub fn track(&mut self, id: &str, kind: BluetoothDeviceType)
        ensures
            final(self)@ == after_track(old(self)@, id@, kind),
    {
        match kind {
            BluetoothDeviceType::Classic => {
                drop_text(&mut self.classic, id);
                let ghost before = id_views(self.classic@);
                self.classic.push(text_of(id));
                proof {
                    assert(id_views(self.classic@) =~= before.push(id@));
                }
            },
            BluetoothDeviceType::LowEnergy => {
                drop_text(&mut self.low_energy, id);
                let ghost before = id_views(self.low_energy@);
                self.low_energy.push(text_of(id));
                proof {
                    assert(id_views(self.low_energy@) =~= before.push(id@));
                }
            },
        }
        drop_device(&mut self.discovered, id);
    }

    /// Keeps a discovered device, in place of any earlier record of its id.
    pub fn discover(&mut self, d: BluetoothDevice)
        ensures
            final(self)@ == after_discover(old(self)@, d@),
    {
        drop_device(&mut self.discovered, d.id.as_str());
        let ghost before = device_views(self.discovered@);
        let ghost dv = d@;
        self.discovered.push(d);
        proof {
            assert(device_views(self.discovered@) =~= before.push(dv));
        }
    }

    /// Drops the discovered record of `id`.
    pub fn drop_discovered(&mut self, id: &str)
        ensures
            final(self)@ == after_drop_discovered(old(self)@, id@),
    {
        drop_device(&mut self.discovered, id);
    }

    /// Forgets a removed device everywhere the list keeps it.
    pub fn forget(&mut self, id: &str, kind: BluetoothDeviceType)
        ensures
            final(self)@ == after_forget(old(self)@, id@, kind),
    {
        match kind {
            BluetoothDeviceType::Classic => drop_text(&mut self.classic, id),
            BluetoothDeviceType::LowEnergy => drop_text(&mut self.low_energy, id),
        }
        drop_device(&mut self.discovered, id);
        self.info_queries.remove(id);
        self.refreshes.remove(id);
    }

    /// Starts resolving `id` when a resolution may start; says whether it
    /// did.
    pub fn begin_resolution(&mut self, id: &str, enabled: bool) -> (r: bool)
        ensures
            r == resolution_starts(old(self)@, id@, enabled),
            final(self)@ == after_begin_resolution(old(self)@, id@, enabled),
    {
        if !enabled {
            return false;
        }
        if contains_text(&self.resolving, id) {
            return false;
        }
        if self.resolving.len() >= MAX_CONCURRENT_RESOLUTIONS {
            proof {
                assert(id_views(self.resolving@).len() == self.resolving@.len());
            }
            return false;
        }
        let ghost before = id_views(self.resolving@);
        self.resolving.push(text_of(id));
        proof {
            assert(id_views(self.resolving@) =~= before.push(id@));
        }
        true
    }

    /// Ends the resolution of `id`, tracking the device when it could be
    /// opened.
    pub fn finish_resolution(&mut self, id: &str, kind: BluetoothDeviceType, resolved: bool)
        ensures
            final(self)@ == after_finish_resolution(old(self)@, id@, kind, resolved),
    {
        if resolved {
            self.track(id, kind);
        }
        drop_text(&mut self.resolving, id);
    }

    /// Carries out the plan for an event of the list (see `on_event`) on
    /// the device `id` of the given kind.
    pub fn apply_event_plan(&mut self, plan: DeviceEventPlan, id: &str, kind: BluetoothDeviceType)
        ensures
            final(self)@ == after_event_plan(old(self)@, plan, id@, kind),
    {
        match plan {
            DeviceEventPlan::UpdateTracked { .. } => self.drop_discovered(id),
            DeviceEventPlan::ResolveDiscovered => {
                let _ = self.begin_resolution(id, true);
            },
            DeviceEventPlan::RemoveEverywhere => self.forget(id, kind),
            _ => {},
        }
    }

    /// Handles an event of the list at time `now` (ms): reads what the
    /// records know of the device, consults the throttles, and carries out
    /// the plan, which it returns with whether the list is sent at once.
    pub fn handle_event(&mut self, e: &BluetoothManagerEvent, enabled: bool, now: u64) -> (r: (
        DeviceEventPlan,
        bool,
    ))
        ensures
            r == handled_plan(old(self)@, *e, enabled, now),
            final(self)@ == handled_records(old(self)@, *e, enabled, now),
    {
        let (id, kind): (&String, BluetoothDeviceType) = match e {
            BluetoothManagerEvent::DeviceAdded(id, k) => (id, *k),
            BluetoothManagerEvent::DeviceUpdated(id, k) => (id, *k),
            BluetoothManagerEvent::DeviceRemoved(id, k) => (id, *k),
        };
        if !enabled {
            return on_event(e, false, false, false, false, false, false);
        }
        let known = self.is_known(id.as_str(), kind);
        let discovered = self.is_discovered(id.as_str());
        let resolving = self.is_resolving(id.as_str());
        let mut query_passes = false;
        let mut refresh_passes = false;
        match e {
            BluetoothManagerEvent::DeviceAdded(_, _) => {
                query_passes = should_query_device_info(&mut self.info_queries, id.as_str(), now);
            },
            BluetoothManagerEvent::DeviceUpdated(_, _) => {
                if known {
                    refresh_passes = should_refresh_device(&mut self.refreshes, id.as_str(), now);
                }
            },
            BluetoothManagerEvent::DeviceRemoved(_, _) => {},
        }
        let r = on_event(e, true, query_passes, known, discovered, resolving, refresh_passes);
        self.apply_event_plan(r.0, id.as_str(), kind);
        r
    }

    /// Carries out the plan for the details of an added device (see
    /// `added_device_plan`); `d` is its discovered record.
    pub fn apply_added_plan(&mut self, plan: AddedDevicePlan, d: BluetoothDevice, kind: BluetoothDeviceType)
        ensures
            final(self)@ == after_added_plan(old(self)@, plan, d@, kind),
    {
        match plan {
            AddedDevicePlan::Discovered { resolve } => {
                let id = copy_text(&d.id);
                self.discover(d);
                if resolve {
                    let _ = self.begin_resolution(id.as_str(), true);
                }
            },
            AddedDevicePlan::Track => self.track(d.id.as_str(), kind),
            AddedDevicePlan::Nothing => {},
        }
    }
}

// ---------------------------------------------------------------------------
// Laws of the records
// ---------------------------------------------------------------------------
proof fn lemma_has_id_filtered(s: Seq<DeviceView>, id: Seq<char>, x: Seq<char>)
    requires
        has_id(s.filter(other_device(id)), x),
    ensures
        has_id(s, x),
        x != id,
{
    let f = s.filter(other_device(id));
    let i = choose|i: int| 0 <= i < f.len() && (#[trigger] f[i]).id == x;
    s.lemma_filter_pred(other_device(id), i);
    s.lemma_filter_contains_rev(other_device(id), f[i]);
    let j = choose|j: int| 0 <= j < s.len() && s[j] == f[i];
    assert(s[j].id == x);
}

proof fn lemma_has_id_pushed(s: Seq<DeviceView>, d: DeviceView, x: Seq<char>)
    requires
        has_id(s.push(d), x),
    ensures
        x == d.id || has_id(s, x),
{
    let t = s.push(d);
    let i = choose|i: int| 0 <= i < t.len() && (#[trigger] t[i]).id == x;
    if i < s.len() {
        assert(s[i] == t[i]);
    }
}

proof fn lemma_ids_filtered(s: Seq<Seq<char>>, id: Seq<char>, x: Seq<char>)
    requires
        s.filter(other_id(id)).contains(x),
    ensures
        s.contains(x),
        x != id,
{
    let f = s.filter(other_id(id));
    let i = choose|i: int| 0 <= i < f.len() && f[i] == x;
    s.lemma_filter_pred(other_id(id), i);
    s.lemma_filter_contains_rev(other_id(id), x);
}

proof fn lemma_ids_pushed(s: Seq<Seq<char>>, a: Seq<char>, x: Seq<char>)
    requires
        s.push(a).contains(x),
    ensures
        x == a || s.contains(x),
{
    let t = s.push(a);
    let i = choose|i: int| 0 <= i < t.len() && t[i] == x;
    if i < s.len() {
        assert(s[i] == t[i]);
    }
}

proof fn lemma_filter_no_duplicates(s: Seq<Seq<char>>, p: spec_fn(Seq<char>) -> bool)
    requires
        s.no_duplicates(),
    ensures
        s.filter(p).no_duplicates(),
        s.filter(p).len() <= s.len(),
    decreases s.len(),
{
    reveal(Seq::filter);
    s.lemma_filter_len(p);
    if s.len() > 0 {
        let r = s.drop_last();
        assert forall|i: int, j: int| 0 <= i < j < r.len() implies r[i] != r[j] by {
            assert(r[i] == s[i] && r[j] == s[j]);
        }
        lemma_filter_no_duplicates(r, p);
        if p(s.last()) {
            let f = r.filter(p);
            if f.contains(s.last()) {
                r.lemma_filter_contains_rev(p, s.last());
                let k = choose|k: int| 0 <= k < r.len() && r[k] == s.last();
                assert(s[k] == s[s.len() - 1]);
            }
            assert forall|i: int, j: int| 0 <= i < j < f.push(s.last()).len() implies f.push(
                s.last(),
            )[i] != f.push(s.last())[j] by {
                if j == f.len() {
                    assert(f.push(s.last())[i] == f[i]);
                    assert(f.contains(f[i]));
                }
            }
        }
    }
}

/// After a device is removed, its id is in none of the records of its
/// kind: not tracked, not discovered, and in neither throttle.
pub proof fn lemma_forgotten_id_in_no_record(v: RecordsView, id: Seq<char>, kind: BluetoothDeviceType)
    ensures
        !tracked_of(after_forget(v, id, kind), kind).contains(id),
        !has_id(after_forget(v, id, kind).discovered, id),
        forall|i: int|
            0 <= i < after_forget(v, id, kind).info_queries.len() ==> (#[trigger] after_forget(
                v,
                id,
                kind,
            ).info_queries[i]).0 != id,
        forall|i: int|
            0 <= i < after_forget(v, id, kind).refreshes.len() ==> (#[trigger] after_forget(
                v,
                id,
                kind,
            ).refreshes[i]).0 != id,
{
    let n = after_forget(v, id, kind);
    if tracked_of(n, kind).contains(id) {
        lemma_ids_filtered(tracked_of(v, kind), id, id);
    }
    if has_id(n.discovered, id) {
        lemma_has_id_filtered(v.discovered, id, id);
    }
    assert forall|i: int| 0 <= i < n.info_queries.len() implies (#[trigger] n.info_queries[i]).0
        != id by {
        v.info_queries.lemma_filter_pred(other_stamp(id), i);
    }
    assert forall|i: int| 0 <= i < n.refreshes.len() implies (#[trigger] n.refreshes[i]).0 != id by {
        v.refreshes.lemma_filter_pred(other_stamp(id), i);
    }
}

/// Tracking a device keeps every device out of being both tracked and
/// discovered.
pub proof fn lemma_track_keeps_separated(v: RecordsView, id: Seq<char>, kind: BluetoothDeviceType)
    requires
        separated(v),
    ensures
        separated(after_track(v, id, kind)),
{
    let n = after_track(v, id, kind);
    assert forall|x: Seq<char>| #[trigger] has_id(n.discovered, x) implies !is_tracked(n, x) by {
        lemma_has_id_filtered(v.discovered, id, x);
        assert(!is_tracked(v, x));
        let t = tracked_of(v, kind).filter(other_id(id));
        if t.push(id).contains(x) {
            lemma_ids_pushed(t, id, x);
            if t.contains(x) {
                lemma_ids_filtered(tracked_of(v, kind), id, x);
            }
        }
    }
}

/// Removing a device keeps every device out of being both tracked and
/// discovered.
pub proof fn lemma_forget_keeps_separated(v: RecordsView, id: Seq<char>, kind: BluetoothDeviceType)
    requires
        separated(v),
    ensures
        separated(after_forget(v, id, kind)),
{
    let n = after_forget(v, id, kind);
    assert forall|x: Seq<char>| #[trigger] has_id(n.discovered, x) implies !is_tracked(n, x) by {
        lemma_has_id_filtered(v.discovered, id, x);
        assert(!is_tracked(v, x));
        if tracked_of(v, kind).filter(other_id(id)).contains(x) {
            lemma_ids_filtered(tracked_of(v, kind), id, x);
        }
    }
}

/// Keeping a discovered device that is not tracked keeps every device out
/// of being both tracked and discovered.
pub proof fn lemma_discover_keeps_separated(v: RecordsView, d: DeviceView)
    requires
        separated(v),
        !is_tracked(v, d.id),
    ensures
        separated(after_discover(v, d)),
{
    let n = after_discover(v, d);
    assert forall|x: Seq<char>| #[trigger] has_id(n.discovered, x) implies !is_tracked(n, x) by {
        lemma_has_id_pushed(v.discovered.filter(other_device(d.id)), d, x);
        if x != d.id {
            lemma_has_id_filtered(v.discovered, d.id, x);
        }
    }
}

/// A resolution that starts or ends keeps the resolved ids distinct and
/// within the most resolutions, and keeps every device out of being both
/// tracked and discovered.
pub proof fn lemma_resolutions_keep_invariants(
    v: RecordsView,
    id: Seq<char>,
    kind: BluetoothDeviceType,
    enabled: bool,
    resolved: bool,
)
    requires
        separated(v),
        resolutions_bounded(v),
    ensures
        separated(after_begin_resolution(v, id, enabled)),
        resolutions_bounded(after_begin_resolution(v, id, enabled)),
        separated(after_finish_resolution(v, id, kind, resolved)),
        resolutions_bounded(after_finish_resolution(v, id, kind, resolved)),
{
    let b = after_begin_resolution(v, id, enabled);
    if resolution_starts(v, id, enabled) {
        assert(b.discovered == v.discovered && b.classic == v.classic && b.low_energy == v.low_energy);
        assert forall|i: int, j: int| 0 <= i < j < b.resolving.len() implies b.resolving[i]
            != b.resolving[j] by {
            if j == v.resolving.len() {
                assert(b.resolving[i] == v.resolving[i]);
                assert(v.resolving.contains(v.resolving[i]));
            } else {
                assert(b.resolving[i] == v.resolving[i] && b.resolving[j] == v.resolving[j]);
            }
        }
    }
    let w = if resolved {
        after_track(v, id, kind)
    } else {
        v
    };
    if resolved {
        lemma_track_keeps_separated(v, id, kind);
    }
    assert(w.resolving == v.resolving);
    lemma_filter_no_duplicates(w.resolving, other_id(id));
}

/// Every plan for an event of the list keeps every device out of being
/// both tracked and discovered, and keeps the resolved ids distinct and
/// within the most resolutions.
pub proof fn lemma_event_plan_keeps_invariants(
    v: RecordsView,
    plan: DeviceEventPlan,
    id: Seq<char>,
    kind: BluetoothDeviceType,
)
    requires
        separated(v),
        resolutions_bounded(v),
    ensures
        separated(after_event_plan(v, plan, id, kind)),
        resolutions_bounded(after_event_plan(v, plan, id, kind)),
{
    match plan {
        DeviceEventPlan::UpdateTracked { .. } => {
            let n = after_drop_discovered(v, id);
            assert forall|x: Seq<char>| #[trigger] has_id(n.discovered, x) implies !is_tracked(
                n,
                x,
            ) by {
                lemma_has_id_filtered(v.discovered, id, x);
            }
        },
        DeviceEventPlan::ResolveDiscovered => {
            lemma_resolutions_keep_invariants(v, id, kind, true, false);
        },
        DeviceEventPlan::RemoveEverywhere => {
            lemma_forget_keeps_separated(v, id, kind);
        },
        _ => {},
    }
}

/// The plan for the details of an added device keeps the same invariants,
/// for a device that is kept as discovered only while it is not tracked.
pub proof fn lemma_added_plan_keeps_invariants(
    v: RecordsView,
    plan: AddedDevicePlan,
    d: DeviceView,
    kind: BluetoothDeviceType,
)
    requires
        separated(v),
        resolutions_bounded(v),
        plan is Discovered ==> !is_tracked(v, d.id),
    ensures
        separated(after_added_plan(v, plan, d, kind)),
        resolutions_bounded(after_added_plan(v, plan, d, kind)),
{
    match plan {
        AddedDevicePlan::Discovered { resolve } => {
            lemma_discover_keeps_separated(v, d);
            let w = after_discover(v, d);
            assert(w.resolving == v.resolving);
            lemma_resolutions_keep_invariants(w, d.id, kind, true, false);
        },
        AddedDevicePlan::Track => {
            lemma_track_keeps_separated(v, d.id, kind);
        },
        AddedDevicePlan::Nothing => {},
    }
}

/// A removal event, while the list is shown, leaves the removed id in no
/// record of its kind, and the list is sent at once.
pub proof fn lemma_removal_event_leaves_no_record(v: RecordsView, e: BluetoothManagerEvent, now: u64)
    requires
        e is DeviceRemoved,
    ensures
        handled_plan(v, e, true, now) == (DeviceEventPlan::RemoveEverywhere, true),
        !tracked_of(handled_records(v, e, true, now), event_target(e).1).contains(event_target(e).0),
        !has_id(handled_records(v, e, true, now).discovered, event_target(e).0),
{
    let (id, kind) = event_target(e);
    assert(handled_records(v, e, true, now) == after_forget(v, id, kind));
    lemma_forgotten_id_in_no_record(v, id, kind);
}

/// Every event of the list keeps every device out of being both tracked
/// and discovered, and keeps the resolved ids distinct and within the most
/// resolutions.
pub proof fn lemma_event_keeps_invariants(v: RecordsView, e: BluetoothManagerEvent, enabled: bool, now: u64)
    requires
        separated(v),
        resolutions_bounded(v),
    ensures
        separated(handled_records(v, e, enabled, now)),
        resolutions_bounded(handled_records(v, e, enabled, now)),
{
    let (id, kind) = event_target(e);
    let t = throttled_view(v, e, enabled, now);
    assert(t.discovered == v.discovered && t.classic == v.classic && t.low_energy == v.low_energy
        && t.resolving == v.resolving);
    assert forall|x: Seq<char>| #[trigger] has_id(t.discovered, x) implies !is_tracked(t, x) by {
        assert(has_id(v.discovered, x));
    }
    lemma_event_plan_keeps_invariants(t, handled_plan(v, e, enabled, now).0, id, kind);
}

} // verus!
