//! Device records and the device list: a record built from what the system
//! reports, the live state laid over it, one record per id, throttles, and
//! pairing.
use vstd::prelude::*;

use crate::bluetooth::{spec_major, spec_minor, spec_services, BluetoothDeviceType, BluetoothMajorClass, BluetoothMajorServiceClass, BluetoothManagerEvent, BluetoothMinorClass, DevicePairingNeededAction};
use crate::text::{chars_of, eq_str, push_str_chars, string_of};
use crate::whitelist::{
    first_index, lemma_first_index_bounds, lemma_first_index_is, lemma_first_index_none,
};

verus! {

/// A Bluetooth device as the toolbar lists it.
#[derive(Debug, Clone)]
pub struct BluetoothDevice {
    pub id: String,
    pub name: String,
    pub address: u64,
    pub major_service_classes: Vec<BluetoothMajorServiceClass>,
    pub major_class: BluetoothMajorClass,
    pub minor_class: BluetoothMinorClass,
    pub appearance: Option<u16>,
    pub connected: bool,
    pub paired: bool,
    pub can_pair: bool,
    pub can_disconnect: bool,
    pub is_low_energy: bool,
    pub battery_percentage: Option<u8>,
}

pub struct DeviceView {
    pub id: Seq<char>,
    pub name: Seq<char>,
    pub address: u64,
    pub services: Seq<BluetoothMajorServiceClass>,
    pub major_class: BluetoothMajorClass,
    pub minor_class: BluetoothMinorClass,
    pub appearance: Option<u16>,
    pub connected: bool,
    pub paired: bool,
    pub can_pair: bool,
    pub can_disconnect: bool,
    pub is_low_energy: bool,
    pub battery_percentage: Option<u8>,
}

impl View for BluetoothDevice {
    type V = DeviceView;

    open spec fn view(&self) -> DeviceView {
        DeviceView {
            id: self.id@,
            name: self.name@,
            address: self.address,
            services: self.major_service_classes@,
            major_class: self.major_class,
            minor_class: self.minor_class,
            appearance: self.appearance,
            connected: self.connected,
            paired: self.paired,
            can_pair: self.can_pair,
            can_disconnect: self.can_disconnect,
            is_low_energy: self.is_low_energy,
            battery_percentage: self.battery_percentage,
        }
    }
}

pub fn copy_text(s: &String) -> (r: String)
    ensures
        r@ == s@,
{
    let c = chars_of(s.as_str());
    string_of(c.as_slice())
}

fn copy_services(v: &Vec<BluetoothMajorServiceClass>) -> (r: Vec<BluetoothMajorServiceClass>)
    ensures
        r@ == v@,
{
    let mut out: Vec<BluetoothMajorServiceClass> = Vec::new();
    let mut i: usize = 0;
    while i < v.len()
        invariant
            i <= v.len(),
            out@ == v@.take(i as int),
        decreases v.len() - i,
    {
        out.push(v[i]);
        i = i + 1;
        assert(out@ =~= v@.take(i as int));
    }
    assert(v@.take(v.len() as int) =~= v@);
    out
}

/// An exact copy of a record.
pub fn copy_device(d: &BluetoothDevice) -> (r: BluetoothDevice)
    ensures
        r@ == d@,
{
    BluetoothDevice {
        id: copy_text(&d.id),
        name: copy_text(&d.name),
        address: d.address,
        major_service_classes: copy_services(&d.major_service_classes),
        major_class: d.major_class,
        minor_class: d.minor_class,
        appearance: d.appearance,
        connected: d.connected,
        paired: d.paired,
        can_pair: d.can_pair,
        can_disconnect: d.can_disconnect,
        is_low_energy: d.is_low_energy,
        battery_percentage: d.battery_percentage,
    }
}

// ---------------------------------------------------------------------------
// Records from what the system reports
// ---------------------------------------------------------------------------
/// What the system reports of a classic device.
pub struct ClassicDeviceFacts {
    pub name: String,
    pub address: u64,
    pub class_of_device: Option<u32>,
    pub connected: bool,
    pub paired: bool,
    pub can_pair: bool,
}

/// What the system reports of a low-energy device; the battery level is
/// read only while it is connected.
pub struct LowEnergyDeviceFacts {
    pub name: String,
    pub address: u64,
    pub appearance: Option<u16>,
    pub connected: bool,
    pub paired: bool,
    pub can_pair: bool,
    pub battery_level: Option<u8>,
}

/// The record of a classic device: classes from its class value when there
/// is one, no appearance or battery level.
pub open spec fn classic_record(id: Seq<char>, f: ClassicDeviceFacts) -> DeviceView {
    DeviceView {
        id,
        name: f.name@,
        address: f.address,
        services: match f.class_of_device {
            Some(c) => spec_services(c),
            None => seq![],
        },
        major_class: match f.class_of_device {
            Some(c) => spec_major(c),
            None => BluetoothMajorClass::Uncategorized,
        },
        minor_class: match f.class_of_device {
            Some(c) => spec_minor(c),
            None => BluetoothMinorClass::Uncategorized { unused: 0 },
        },
        appearance: None,
        connected: f.connected,
        paired: f.paired,
        can_pair: f.can_pair,
        can_disconnect: false,
        is_low_energy: false,
        battery_percentage: None,
    }
}

/// The record of a low-energy device: no classes, its appearance, and the
/// battery level when connected.
pub open spec fn low_energy_record(id: Seq<char>, f: LowEnergyDeviceFacts) -> DeviceView {
    DeviceView {
        id,
        name: f.name@,
        address: f.address,
        services: seq![],
        major_class: BluetoothMajorClass::Uncategorized,
        minor_class: BluetoothMinorClass::Uncategorized { unused: 0 },
        appearance: f.appearance,
        connected: f.connected,
        paired: f.paired,
        can_pair: f.can_pair,
        can_disconnect: false,
        is_low_energy: true,
        battery_percentage: if f.connected {
            f.battery_level
        } else {
            None
        },
    }
}

/// The record with the live connection and pairing state laid over it,
/// where the system could report them.
pub open spec fn overlay(d: DeviceView, connected: Option<bool>, paired: Option<bool>) -> DeviceView {
    DeviceView {
        connected: match connected {
            Some(c) => c,
            None => d.connected,
        },
        paired: match paired {
            Some(p) => p,
            None => d.paired,
        },
        ..d
    }
}

pub fn overlay_exec(d: &BluetoothDevice, connected: Option<bool>, paired: Option<bool>) -> (r: BluetoothDevice)
    ensures
        r@ == overlay(d@, connected, paired),
{
    let mut s = copy_device(d);
    match connected {
        Some(c) => {
            s.connected = c;
        },
        None => {},
    }
    match paired {
        Some(p) => {
            s.paired = p;
        },
        None => {},
    }
    s
}

// ---------------------------------------------------------------------------
// One record per device
// ---------------------------------------------------------------------------
/// How much a record tells: paired 100, connected 50, an appearance 10, a
/// known major class 10, a name 1.
pub open spec fn spec_device_score(d: DeviceView) -> int {
    (if d.paired {
        100int
    } else {
        0
    }) + (if d.connected {
        50int
    } else {
        0
    }) + (if d.appearance is Some {
        10int
    } else {
        0
    }) + (if d.major_class != BluetoothMajorClass::Uncategorized {
        10int
    } else {
        0
    }) + (if d.name.len() > 0 {
        1int
    } else {
        0
    })
}

pub fn device_score(d: &BluetoothDevice) -> (r: i32)
    ensures
        r as int == spec_device_score(d@),
{
    let mut s: i32 = 0;
    if d.paired {
        s = s + 100;
    }
    if d.connected {
        s = s + 50;
    }
    if d.appearance.is_some() {
        s = s + 10;
    }
    if d.major_class != BluetoothMajorClass::Uncategorized {
        s = s + 10;
    }
    let name = chars_of(d.name.as_str());
    if name.len() > 0 {
        s = s + 1;
    }
    s
}

pub open spec fn device_has_id(id: Seq<char>) -> spec_fn(DeviceView) -> bool {
    |d: DeviceView| d.id == id
}

/// The records after one more candidate: a new id joins, a known one is
/// replaced only by a record that tells strictly more.
pub open spec fn merge_step(m: Seq<DeviceView>, d: DeviceView) -> Seq<DeviceView> {
    match first_index(m, device_has_id(d.id)) {
        Some(k) => if spec_device_score(d) > spec_device_score(m[k]) {
            m.update(k, d)
        } else {
            m
        },
        None => m.push(d),
    }
}

/// One record per id, ids in order of first appearance, each the first of
/// the highest score among the candidates with that id.
pub open spec fn merge_devices(c: Seq<DeviceView>) -> Seq<DeviceView>
    decreases c.len(),
{
    if c.len() == 0 {
        seq![]
    } else {
        merge_step(merge_devices(c.drop_last()), c.last())
    }
}

pub open spec fn device_views(v: Seq<BluetoothDevice>) -> Seq<DeviceView> {
    v.map_values(|d: BluetoothDevice| d@)
}

fn position_of_device(m: &Vec<BluetoothDevice>, id: &str) -> (r: Option<usize>)
    ensures
        match first_index(device_views(m@), device_has_id(id@)) {
            Some(k) => r == Some(k as usize) && 0 <= k < m.len(),
            None => r is None,
        },
{
    let ghost v = device_views(m@);
    proof {
        lemma_first_index_bounds(v, device_has_id(id@));
    }
    let mut i: usize = 0;
    while i < m.len()
        invariant
            i <= m.len(),
            v == device_views(m@),
            forall|j: int| 0 <= j < i ==> !(#[trigger] device_has_id(id@))(v[j]),
        decreases m.len() - i,
    {
        if eq_str(m[i].id.as_str(), id) {
            proof {
                lemma_first_index_is(v, device_has_id(id@), i as int);
            }
            return Some(i);
        }
        i = i + 1;
    }
    proof {
        lemma_first_index_none(v, device_has_id(id@));
    }
    None
}

/// The device list from the candidate records (tracked classic devices,
/// tracked low-energy ones, cached low-energy ones, discovered ones).
pub fn get_all_devices(candidates: &Vec<BluetoothDevice>) -> (r: Vec<BluetoothDevice>)
    ensures
        device_views(r@) == merge_devices(device_views(candidates@)),
{
    let ghost cv = device_views(candidates@);
    let mut m: Vec<BluetoothDevice> = Vec::new();
    let mut i: usize = 0;
    while i < candidates.len()
        invariant
            i <= candidates.len(),
            cv == device_views(candidates@),
            device_views(m@) == merge_devices(cv.take(i as int)),
        decreases candidates.len() - i,
    {
        proof {
            assert(cv.take(i + 1).drop_last() == cv.take(i as int));
            assert(cv.take(i + 1).last() == cv[i as int]);
            assert(cv[i as int] == candidates@[i as int]@);
        }
        let d = copy_device(&candidates[i]);
        match position_of_device(&m, d.id.as_str()) {
            Some(k) => {
                proof {
                    assert(device_views(m@)[k as int] == m@[k as int]@);
                }
                if device_score(&d) > device_score(&m[k]) {
                    let ghost before = device_views(m@);
                    m.set(k, d);
                    proof {
                        assert(device_views(m@) =~= before.update(k as int, cv[i as int]));
                    }
                }
            },
            None => {
                let ghost before = device_views(m@);
                m.push(d);
                proof {
                    assert(device_views(m@) =~= before.push(cv[i as int]));
                }
            },
        }
        i = i + 1;
    }
    assert(cv.take(candidates.len() as int) == cv);
    m
}

/// No two records of the merged list share an id.
pub proof fn lemma_merged_ids_unique(c: Seq<DeviceView>)
    ensures
        forall|i: int, j: int|
            0 <= i < j < merge_devices(c).len() ==> (#[trigger] merge_devices(c)[i]).id
                != (#[trigger] merge_devices(c)[j]).id,
    decreases c.len(),
{
    if c.len() > 0 {
        lemma_merged_ids_unique(c.drop_last());
        let m = merge_devices(c.drop_last());
        let d = c.last();
        lemma_first_index_bounds(m, device_has_id(d.id));
        match first_index(m, device_has_id(d.id)) {
            Some(k) => {
                let r = merge_step(m, d);
                assert forall|i: int, j: int| 0 <= i < j < r.len() implies (#[trigger] r[i]).id
                    != (#[trigger] r[j]).id by {
                    assert(r[i].id == m[i].id);
                    assert(r[j].id == m[j].id);
                }
            },
            None => {
                let r = m.push(d);
                assert forall|i: int, j: int| 0 <= i < j < r.len() implies (#[trigger] r[i]).id
                    != (#[trigger] r[j]).id by {
                    if j == m.len() {
                        assert(!(device_has_id(d.id))(m[i]));
                    } else {
                        assert(r[i] == m[i] && r[j] == m[j]);
                    }
                }
            },
        }
    }
}

// ---------------------------------------------------------------------------
// Throttles
// ---------------------------------------------------------------------------
/// When each device id last passed a throttle, in milliseconds.
pub struct ThrottleTable {
    pub entries: Vec<(String, u64)>,
}

pub open spec fn stamp_of(id: Seq<char>) -> spec_fn((Seq<char>, u64)) -> bool {
    |e: (Seq<char>, u64)| e.0 == id
}

/// Holds of the stamps of every id but `id`.
pub open spec fn other_stamp(id: Seq<char>) -> spec_fn((Seq<char>, u64)) -> bool {
    |e: (Seq<char>, u64)| e.0 != id
}

pub open spec fn stamp_views(v: Seq<(String, u64)>) -> Seq<(Seq<char>, u64)> {
    v.map_values(|e: (String, u64)| (e.0@, e.1))
}

/// A throttled action passes unless the id passed less than `min_interval`
/// ms ago (a clock that went back counts as no time); passing records the
/// time.
pub open spec fn throttle_passes(t: Seq<(Seq<char>, u64)>, id: Seq<char>, now: u64, min_interval: u64) -> bool {
    match first_index(t, stamp_of(id)) {
        Some(k) => !((if now >= t[k].1 {
            now - t[k].1
        } else {
            0
        }) < min_interval),
        None => true,
    }
}

pub open spec fn throttle_after(t: Seq<(Seq<char>, u64)>, id: Seq<char>, now: u64, min_interval: u64) -> Seq<
    (Seq<char>, u64),
> {
    if !throttle_passes(t, id, now, min_interval) {
        t
    } else {
        match first_index(t, stamp_of(id)) {
            Some(k) => t.update(k, (id, now)),
            None => t.push((id, now)),
        }
    }
}

impl ThrottleTable {
    pub fn new() -> (r: Self)
        ensures
            stamp_views(r.entries@) == Seq::<(Seq<char>, u64)>::empty(),
    {
        ThrottleTable { entries: Vec::new() }
    }

    fn position(&self, id: &str) -> (r: Option<usize>)
        ensures
            match first_index(stamp_views(self.entries@), stamp_of(id@)) {
                Some(k) => r == Some(k as usize) && 0 <= k < self.entries.len(),
                None => r is None,
            },
    {
        let ghost v = stamp_views(self.entries@);
        proof {
            lemma_first_index_bounds(v, stamp_of(id@));
        }
        let mut i: usize = 0;
        while i < self.entries.len()
            invariant
                i <= self.entries.len(),
                v == stamp_views(self.entries@),
                forall|j: int| 0 <= j < i ==> !(#[trigger] stamp_of(id@))(v[j]),
            decreases self.entries.len() - i,
        {
            if eq_str(self.entries[i].0.as_str(), id) {
                proof {
                    lemma_first_index_is(v, stamp_of(id@), i as int);
                }
                return Some(i);
            }
            i = i + 1;
        }
        proof {
            lemma_first_index_none(v, stamp_of(id@));
        }
        None
    }

    /// Whether the action for `id` may run now, recording the time when it
    /// may.
    pub fn pass(&mut self, id: &str, now: u64, min_interval: u64) -> (r: bool)
        ensures
            r == throttle_passes(stamp_views(old(self).entries@), id@, now, min_interval),
            stamp_views(final(self).entries@) == throttle_after(
                stamp_views(old(self).entries@),
                id@,
                now,
                min_interval,
            ),
    {
        let ghost v = stamp_views(self.entries@);
        let idc = chars_of(id);
        match self.position(id) {
            Some(k) => {
                let last = self.entries[k].1;
                let elapsed = now.saturating_sub(last);
                if elapsed < min_interval {
                    return false;
                }
                self.entries.set(k, (string_of(idc.as_slice()), now));
                proof {
                    assert(stamp_views(self.entries@) =~= v.update(k as int, (id@, now)));
                }
                true
            },
            None => {
                self.entries.push((string_of(idc.as_slice()), now));
                proof {
                    assert(stamp_views(self.entries@) =~= v.push((id@, now)));
                }
                true
            },
        }
    }

    /// Forgets the times recorded for `id`.
    pub fn remove(&mut self, id: &str)
        ensures
            stamp_views(final(self).entries@) == stamp_views(old(self).entries@).filter(
                other_stamp(id@),
            ),
    {
        let ghost v = stamp_views(self.entries@);
        let ghost p = other_stamp(id@);
        let mut kept: Vec<(String, u64)> = Vec::new();
        let mut i: usize = 0;
        proof {
            assert(v.take(0).filter(p) =~= seq![]);
        }
        while i < self.entries.len()
            invariant
                i <= self.entries.len(),
                v == stamp_views(self.entries@),
                p == other_stamp(id@),
                stamp_views(kept@) == v.take(i as int).filter(p),
            decreases self.entries.len() - i,
        {
            proof {
                assert(v[i as int] == (self.entries@[i as int].0@, self.entries@[i as int].1));
                assert(v.take(i + 1) =~= v.take(i as int).push(v[i as int]));
                v.take(i as int).lemma_filter_push(v[i as int], p);
            }
            if !eq_str(self.entries[i].0.as_str(), id) {
                let e = (copy_text(&self.entries[i].0), self.entries[i].1);
                let ghost before = stamp_views(kept@);
                kept.push(e);
                proof {
                    assert(stamp_views(kept@) =~= before.push(v[i as int]));
                }
            }
            i = i + 1;
        }
        proof {
            assert(v.take(self.entries.len() as int) =~= v);
        }
        self.entries = kept;
    }
}

/// A device's details are queried at most every 3 s.
pub const DEVICE_INFO_QUERY_INTERVAL_MS: u64 = 3000;

/// A device's record is rebuilt at most every 2 s.
pub const DEVICE_REFRESH_INTERVAL_MS: u64 = 2000;

pub fn should_query_device_info(table: &mut ThrottleTable, id: &str, now: u64) -> (r: bool)
    ensures
        r == throttle_passes(stamp_views(old(table).entries@), id@, now, DEVICE_INFO_QUERY_INTERVAL_MS),
        stamp_views(final(table).entries@) == throttle_after(
            stamp_views(old(table).entries@),
            id@,
            now,
            DEVICE_INFO_QUERY_INTERVAL_MS,
        ),
{
    table.pass(id, now, DEVICE_INFO_QUERY_INTERVAL_MS)
}

pub fn should_refresh_device(table: &mut ThrottleTable, id: &str, now: u64) -> (r: bool)
    ensures
        r == throttle_passes(stamp_views(old(table).entries@), id@, now, DEVICE_REFRESH_INTERVAL_MS),
        stamp_views(final(table).entries@) == throttle_after(
            stamp_views(old(table).entries@),
            id@,
            now,
            DEVICE_REFRESH_INTERVAL_MS,
        ),
{
    table.pass(id, now, DEVICE_REFRESH_INTERVAL_MS)
}

/// Right after an action passes, the same action for the same id is held
/// back until the interval has gone by.
pub proof fn lemma_throttle_holds_back(
    t: Seq<(Seq<char>, u64)>,
    id: Seq<char>,
    now: u64,
    later: u64,
    min_interval: u64,
)
    requires
        throttle_passes(t, id, now, min_interval),
        now <= later,
        later - now < min_interval,
    ensures
        !throttle_passes(throttle_after(t, id, now, min_interval), id, later, min_interval),
{
    let t2 = throttle_after(t, id, now, min_interval);
    lemma_first_index_bounds(t, stamp_of(id));
    match first_index(t, stamp_of(id)) {
        Some(k) => {
            lemma_first_index_is(t2, stamp_of(id), k);
        },
        None => {
            assert forall|j: int| 0 <= j < t.len() implies !(#[trigger] stamp_of(id))(t2[j]) by {
                assert(t2[j] == t[j]);
            }
            lemma_first_index_is(t2, stamp_of(id), t.len() as int);
        },
    }
}

// ---------------------------------------------------------------------------
// Sending the device list
// ---------------------------------------------------------------------------
/// The device list is sent at most every 250 ms.
pub const EMIT_INTERVAL_MS: u64 = 250;

/// What to do with a request to send the device list.
#[derive(Debug, Clone, Copy, PartialEq, Eq, Structural)]
pub enum EmitDecision {
    /// Send now (and record the time).
    Now,
    /// Send after this many milliseconds, unless a send is already due.
    After(u64),
    /// Nothing: events are off, or a delayed send is already due.
    Skip,
}

pub open spec fn since(now: u64, last: u64) -> int {
    if now >= last {
        now - last
    } else {
        0
    }
}

pub open spec fn spec_emit_decision(enabled: bool, immediate: bool, now: u64, last: u64, scheduled: bool) -> EmitDecision {
    if !enabled {
        EmitDecision::Skip
    } else if immediate || since(now, last) >= EMIT_INTERVAL_MS {
        EmitDecision::Now
    } else if scheduled {
        EmitDecision::Skip
    } else {
        EmitDecision::After((EMIT_INTERVAL_MS - since(now, last)) as u64)
    }
}

pub fn request_emit_devices_snapshot(enabled: bool, immediate: bool, now: u64, last: u64, scheduled: bool) -> (r: EmitDecision)
    ensures
        r == spec_emit_decision(enabled, immediate, now, last, scheduled),
{
    if !enabled {
        return EmitDecision::Skip;
    }
    let elapsed = now.saturating_sub(last);
    if immediate || elapsed >= EMIT_INTERVAL_MS {
        return EmitDecision::Now;
    }
    if scheduled {
        return EmitDecision::Skip;
    }
    EmitDecision::After(EMIT_INTERVAL_MS - elapsed)
}

/// A device-watcher event as the list's event, when events are on.
#[derive(Debug, Clone)]
pub enum DeviceEvent {
    Added(String),
    Updated(String),
    Removed(String),
}

pub fn handle_device_event(enabled: bool, event: DeviceEvent, device_type: BluetoothDeviceType) -> (r: Option<BluetoothManagerEvent>)
    ensures
        !enabled ==> r is None,
        enabled ==> match event {
            DeviceEvent::Added(id) => r matches Some(BluetoothManagerEvent::DeviceAdded(i, t)) && i == id && t == device_type,
            DeviceEvent::Updated(id) => r matches Some(BluetoothManagerEvent::DeviceUpdated(i, t)) && i == id && t == device_type,
            DeviceEvent::Removed(id) => r matches Some(BluetoothManagerEvent::DeviceRemoved(i, t)) && i == id && t == device_type,
        },
{
    if !enabled {
        return None;
    }
    match event {
        DeviceEvent::Added(id) => Some(BluetoothManagerEvent::DeviceAdded(id, device_type)),
        DeviceEvent::Updated(id) => Some(BluetoothManagerEvent::DeviceUpdated(id, device_type)),
        DeviceEvent::Removed(id) => Some(BluetoothManagerEvent::DeviceRemoved(id, device_type)),
    }
}

/// At most two devices are resolved at once.
pub const MAX_CONCURRENT_RESOLUTIONS: u64 = 2;

/// Whether resolving a discovered device starts: events on, the device not
/// already being resolved, and fewer than two resolutions running.
pub fn should_schedule_resolution(enabled: bool, already_resolving: bool, active: u64) -> (r: bool)
    ensures
        r == (enabled && !already_resolving && active < MAX_CONCURRENT_RESOLUTIONS),
{
    enabled && !already_resolving && active < MAX_CONCURRENT_RESOLUTIONS
}

// ---------------------------------------------------------------------------
// Pairing
// ---------------------------------------------------------------------------
/// The pairing kinds the system may ask for.
#[derive(Debug, Clone, Copy, PartialEq, Eq, Structural)]
pub enum DevicePairingKind {
    NoKind,
    ConfirmOnly,
    DisplayPin,
    ProvidePin,
    ConfirmPinMatch,
    ProvidePasswordCredential,
    ProvideAddress,
    Other,
}

/// What the user is asked for a pairing kind; the PIN is shown or compared
/// where the kind has one.
pub fn pairing_action(kind: DevicePairingKind, pin: &str) -> (r: DevicePairingNeededAction)
    ensures
        match kind {
            DevicePairingKind::ConfirmOnly => r == DevicePairingNeededAction::ConfirmOnly,
            DevicePairingKind::DisplayPin => r matches DevicePairingNeededAction::DisplayPin { pin: p } && p@ == pin@,
            DevicePairingKind::ProvidePin => r == DevicePairingNeededAction::ProvidePin,
            DevicePairingKind::ConfirmPinMatch => r matches DevicePairingNeededAction::ConfirmPinMatch { pin: p } && p@ == pin@,
            DevicePairingKind::ProvidePasswordCredential => r == DevicePairingNeededAction::ProvidePasswordCredential,
            DevicePairingKind::ProvideAddress => r == DevicePairingNeededAction::ProvideAddress,
            _ => r == DevicePairingNeededAction::NotNeeded,
        },
{
    match kind {
        DevicePairingKind::ConfirmOnly => DevicePairingNeededAction::ConfirmOnly,
        DevicePairingKind::DisplayPin => {
            let c = chars_of(pin);
            DevicePairingNeededAction::DisplayPin { pin: string_of(c.as_slice()) }
        },
        DevicePairingKind::ProvidePin => DevicePairingNeededAction::ProvidePin,
        DevicePairingKind::ConfirmPinMatch => {
            let c = chars_of(pin);
            DevicePairingNeededAction::ConfirmPinMatch { pin: string_of(c.as_slice()) }
        },
        DevicePairingKind::ProvidePasswordCredential => DevicePairingNeededAction::ProvidePasswordCredential,
        DevicePairingKind::ProvideAddress => DevicePairingNeededAction::ProvideAddress,
        _ => DevicePairingNeededAction::NotNeeded,
    }
}

/// Whether pairing may start: not for a device already paired, nor for one
/// that cannot pair.
pub fn check_pairable(paired: bool, can_pair: bool) -> (r: Result<(), String>)
    ensures
        paired ==> (r matches Err(e) && e@ == "Device is already paired"@),
        !paired && !can_pair ==> (r matches Err(e) && e@ == "Device cannot be paired"@),
        !paired && can_pair ==> r is Ok,
{
    if paired {
        let m = chars_of("Device is already paired");
        return Err(string_of(m.as_slice()));
    }
    if !can_pair {
        let m = chars_of("Device cannot be paired");
        return Err(string_of(m.as_slice()));
    }
    Ok(())
}

/// The outcome of a pairing, as the system reports it.
#[derive(Debug, Clone, Copy, PartialEq, Eq, Structural)]
pub enum PairingStatus {
    Paired,
    RejectedByHandler,
    Other(u32),
}

/// The status a confirmation should end in: paired when accepted, rejected
/// by the handler when declined.
pub fn expected_pairing_status(accept: bool) -> (r: PairingStatus)
    ensures
        r == if accept {
            PairingStatus::Paired
        } else {
            PairingStatus::RejectedByHandler
        },
{
    if accept {
        PairingStatus::Paired
    } else {
        PairingStatus::RejectedByHandler
    }
}

/// The status reached after confirming: paired right away, paired once the
/// device shows up as tracked, else the first status reported.
pub fn confirmed_pairing_status(accept: bool, initial: PairingStatus, tracked_later: bool) -> (r: PairingStatus)
    ensures
        r == if !accept || initial == PairingStatus::Paired {
            initial
        } else if tracked_later {
            PairingStatus::Paired
        } else {
            initial
        },
{
    if !accept || initial == PairingStatus::Paired {
        initial
    } else if tracked_later {
        PairingStatus::Paired
    } else {
        initial
    }
}

/// Unpairing fails when access is denied or the system reports failure.
pub fn unpair_outcome(denied_or_failed: bool) -> (r: Result<(), String>)
    ensures
        denied_or_failed ==> (r matches Err(e) && e@ == "Unpair was not successful!"@),
        !denied_or_failed ==> r is Ok,
{
    if denied_or_failed {
        let m = chars_of("Unpair was not successful!");
        Err(string_of(m.as_slice()))
    } else {
        Ok(())
    }
}

// ---------------------------------------------------------------------------
// Events of the device list
// ---------------------------------------------------------------------------
/// What to do for a device-list event.
#[derive(Debug, Clone, Copy, PartialEq, Eq, Structural)]
pub enum DeviceEventPlan {
    /// The panel is closed: nothing at all.
    Ignore,
    /// Query the device's details, then follow `added_device_plan`.
    QueryDetails,
    /// Rebuild the tracked record (when `refresh`) and drop any discovered
    /// record of the id.
    UpdateTracked { refresh: bool },
    /// Start resolving the discovered device.
    ResolveDiscovered,
    /// Drop the id from the tracked and discovered records and from both
    /// throttles.
    RemoveEverywhere,
    /// Nothing for the device itself.
    Nothing,
}

/// The plan for an event and whether the list is then sent at once (for a
/// removal) or at the usual pace.
pub open spec fn spec_event_plan(
    enabled: bool,
    kind: u8,
    query_passes: bool,
    known: bool,
    discovered: bool,
    resolving: bool,
    refresh_passes: bool,
) -> (DeviceEventPlan, bool) {
    if !enabled {
        (DeviceEventPlan::Ignore, false)
    } else if kind == 0 {
        (if query_passes {
            DeviceEventPlan::QueryDetails
        } else {
            DeviceEventPlan::Nothing
        }, false)
    } else if kind == 1 {
        (if known {
            DeviceEventPlan::UpdateTracked { refresh: refresh_passes }
        } else if discovered && !resolving {
            DeviceEventPlan::ResolveDiscovered
        } else {
            DeviceEventPlan::Nothing
        }, false)
    } else {
        (DeviceEventPlan::RemoveEverywhere, true)
    }
}

pub open spec fn event_kind(e: BluetoothManagerEvent) -> u8 {
    match e {
        BluetoothManagerEvent::DeviceAdded(_, _) => 0,
        BluetoothManagerEvent::DeviceUpdated(_, _) => 1,
        BluetoothManagerEvent::DeviceRemoved(_, _) => 2,
    }
}

/// The plan for an event of the device list, given whether the detail
/// query and refresh throttles pass for its id, and what is known of it.
pub fn on_event(
    e: &BluetoothManagerEvent,
    enabled: bool,
    query_passes: bool,
    known: bool,
    discovered: bool,
    resolving: bool,
    refresh_passes: bool,
) -> (r: (DeviceEventPlan, bool))
    ensures
        r == spec_event_plan(
            enabled,
            event_kind(*e),
            query_passes,
            known,
            discovered,
            resolving,
            refresh_passes,
        ),
{
    if !enabled {
        return (DeviceEventPlan::Ignore, false);
    }
    match e {
        BluetoothManagerEvent::DeviceAdded(_, _) => {
            if query_passes {
                (DeviceEventPlan::QueryDetails, false)
            } else {
                (DeviceEventPlan::Nothing, false)
            }
        },
        BluetoothManagerEvent::DeviceUpdated(_, _) => {
            if known {
                (DeviceEventPlan::UpdateTracked { refresh: refresh_passes }, false)
            } else if discovered && !resolving {
                (DeviceEventPlan::ResolveDiscovered, false)
            } else {
                (DeviceEventPlan::Nothing, false)
            }
        },
        BluetoothManagerEvent::DeviceRemoved(_, _) => (DeviceEventPlan::RemoveEverywhere, true),
    }
}

/// What follows the details of an added device.
#[derive(Debug, Clone, Copy, PartialEq, Eq, Structural)]
pub enum AddedDevicePlan {
    /// Keep it as a discovered (unpaired) device and, when `resolve`, start
    /// resolving it.
    Discovered { resolve: bool },
    /// Track the device (its record was built) and drop any discovered
    /// record.
    Track,
    /// Nothing.
    Nothing,
}

/// After the details query of an added device: an unpaired device is kept
/// as discovered (a classic one resolved unless already resolving, a
/// low-energy one always); a paired one is tracked when its record could be
/// built, else a low-energy one is kept as discovered. When the details
/// could not be read, a low-energy device is still tracked if its record
/// can be built.
pub open spec fn spec_added_plan(
    kind: BluetoothDeviceType,
    details: Option<bool>,
    record_built: bool,
    resolving: bool,
) -> AddedDevicePlan {
    match details {
        Some(paired) => if !paired {
            AddedDevicePlan::Discovered {
                resolve: kind == BluetoothDeviceType::LowEnergy || !resolving,
            }
        } else if record_built {
            AddedDevicePlan::Track
        } else if kind == BluetoothDeviceType::LowEnergy {
            AddedDevicePlan::Discovered { resolve: true }
        } else {
            AddedDevicePlan::Nothing
        },
        None => if kind == BluetoothDeviceType::LowEnergy && record_built {
            AddedDevicePlan::Track
        } else {
            AddedDevicePlan::Nothing
        },
    }
}

pub fn added_device_plan(
    kind: BluetoothDeviceType,
    details: Option<bool>,
    record_built: bool,
    resolving: bool,
) -> (r: AddedDevicePlan)
    ensures
        r == spec_added_plan(kind, details, record_built, resolving),
{
    match details {
        Some(paired) => {
            if !paired {
                AddedDevicePlan::Discovered {
                    resolve: kind == BluetoothDeviceType::LowEnergy || !resolving,
                }
            } else if record_built {
                AddedDevicePlan::Track
            } else if kind == BluetoothDeviceType::LowEnergy {
                AddedDevicePlan::Discovered { resolve: true }
            } else {
                AddedDevicePlan::Nothing
            }
        },
        None => {
            if kind == BluetoothDeviceType::LowEnergy && record_built {
                AddedDevicePlan::Track
            } else {
                AddedDevicePlan::Nothing
            }
        },
    }
}

/// The record of a discovered device: only its id, name and pairing
/// state are known.
pub open spec fn discovered_record(id: Seq<char>, name: Seq<char>, paired: bool, can_pair: bool, low_energy: bool) -> DeviceView {
    DeviceView {
        id,
        name,
        address: 0,
        services: seq![],
        major_class: BluetoothMajorClass::Uncategorized,
        minor_class: BluetoothMinorClass::Uncategorized { unused: 0 },
        appearance: None,
        connected: false,
        paired,
        can_pair,
        can_disconnect: false,
        is_low_energy: low_energy,
        battery_percentage: None,
    }
}

pub fn discovered_device(id: &str, name: &str, paired: bool, can_pair: bool, low_energy: bool) -> (r: BluetoothDevice)
    ensures
        r@ == discovered_record(id@, name@, paired, can_pair, low_energy),
{
    let i = chars_of(id);
    let n = chars_of(name);
    BluetoothDevice {
        id: string_of(i.as_slice()),
        name: string_of(n.as_slice()),
        address: 0,
        major_service_classes: Vec::new(),
        major_class: BluetoothMajorClass::Uncategorized,
        minor_class: BluetoothMinorClass::Uncategorized { unused: 0 },
        appearance: None,
        connected: false,
        paired,
        can_pair,
        can_disconnect: false,
        is_low_energy: low_energy,
        battery_percentage: None,
    }
}

/// When scanning stops, the paired low-energy devices are kept as cached
/// records (with their live state) so that the list shows them at once
/// next time.
pub fn low_energy_cache(records: &Vec<(BluetoothDevice, bool, Option<bool>, Option<bool>)>) -> (r: Vec<BluetoothDevice>)
    ensures
        device_views(r@) == records@.filter(|x: (BluetoothDevice, bool, Option<bool>, Option<bool>)| x.0.paired).map_values(
            |x: (BluetoothDevice, bool, Option<bool>, Option<bool>)| overlay(x.0@, x.2, x.3),
        ),
{
    let ghost f = |x: (BluetoothDevice, bool, Option<bool>, Option<bool>)| x.0.paired;
    let ghost g = |x: (BluetoothDevice, bool, Option<bool>, Option<bool>)| overlay(x.0@, x.2, x.3);
    let mut out: Vec<BluetoothDevice> = Vec::new();
    let mut i: usize = 0;
    proof {
        assert(records@.take(0).filter(f) =~= seq![]);
    }
    while i < records.len()
        invariant
            i <= records.len(),
            f == (|x: (BluetoothDevice, bool, Option<bool>, Option<bool>)| x.0.paired),
            g == (|x: (BluetoothDevice, bool, Option<bool>, Option<bool>)| overlay(x.0@, x.2, x.3)),
            device_views(out@) == records@.take(i as int).filter(f).map_values(g),
        decreases records.len() - i,
    {
        proof {
            assert(records@.take(i + 1) =~= records@.take(i as int).push(records@[i as int]));
            records@.take(i as int).lemma_filter_push(records@[i as int], f);
        }
        let rec = &records[i];
        if rec.0.paired {
            let d = overlay_exec(&rec.0, rec.2, rec.3);
            let ghost before = device_views(out@);
            out.push(d);
            proof {
                let a = records@.take(i as int).filter(f);
                assert(records@.take(i + 1).filter(f) == a.push(records@[i as int]));
                assert(a.push(records@[i as int]).map_values(g) =~= a.map_values(g).push(
                    g(records@[i as int]),
                ));
                assert(d@ == g(records@[i as int]));
                assert(device_views(out@) =~= before.push(d@));
            }
        } else {
            proof {
                assert(records@.take(i + 1).filter(f) == records@.take(i as int).filter(f));
            }
        }
        i = i + 1;
    }
    proof {
        assert(records@.take(records.len() as int) =~= records@);
    }
    out
}

/// A pairing waiting for the user's answer: what was asked, and whether
/// the request and the pairing operation are at hand.
pub struct PendingPairRequest {
    pub action: DevicePairingNeededAction,
    pub has_request: bool,
    pub has_operation: bool,
    pub has_deferral: bool,
}

/// Whether a confirmation can go ahead: a pending request for the device,
/// with its request and its pairing operation.
pub fn check_pending_pairing(pending: Option<&PendingPairRequest>, device_id: &str) -> (r: Result<(), String>)
    ensures
        pending is None ==> (r matches Err(e) && e@ == "No pending pairing request for device "@ + device_id@),
        pending matches Some(p) && !p.has_request ==> (r matches Err(e) && e@ == "Pairing args are null"@),
        pending matches Some(p) && p.has_request && !p.has_operation ==> (r matches Err(e) && e@ == "Pairing async operation is null"@),
        pending matches Some(p) && p.has_request && p.has_operation ==> r is Ok,
{
    match pending {
        None => {
            let mut m = chars_of("No pending pairing request for device ");
            push_str_chars(&mut m, device_id);
            Err(string_of(m.as_slice()))
        },
        Some(p) => {
            if !p.has_request {
                let m = chars_of("Pairing args are null");
                Err(string_of(m.as_slice()))
            } else if !p.has_operation {
                let m = chars_of("Pairing async operation is null");
                Err(string_of(m.as_slice()))
            } else {
                Ok(())
            }
        },
    }
}

} // verus!
