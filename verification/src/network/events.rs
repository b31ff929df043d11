//! WLAN notifications: which ones matter, when the Wi-Fi list is read again,
//! and the signal patched into the list that is sent on.
use vstd::prelude::*;

use crate::network::wifi::{network_views, NetRow, WifiNetwork};
use crate::text::{chars_of, eq_str, string_of};
use crate::whitelist::{
    first_index, lemma_first_index_bounds, lemma_first_index_is, lemma_first_index_none,
};

verus! {

/// A WLAN notification the worker reacts to.
#[derive(Clone, Copy, Debug, PartialEq, Eq, Structural)]
pub enum WlanNotification {
    Connected,
    Disconnected,
    SignalChanged(u32),
    Other,
}

/// Auto-configuration notifications (bit 3 of the source).
pub const WLAN_NOTIFICATION_SOURCE_ACM: u32 = 0x0000_0008;

/// Media-specific notifications (bit 4 of the source).
pub const WLAN_NOTIFICATION_SOURCE_MSM: u32 = 0x0000_0010;

pub const WLAN_NOTIFICATION_ACM_CONNECTION_COMPLETE: u32 = 10;

pub const WLAN_NOTIFICATION_ACM_DISCONNECTED: u32 = 21;

/// The notification a callback reports: a media-specific one with a 4-byte
/// payload is a new signal quality; an auto-configuration one is a
/// completed connection (code 10) or a disconnection (code 21); any other
/// is dropped.
pub open spec fn spec_classify(source: u32, code: u32, data_size: u32, payload: Option<u32>) -> Option<
    WlanNotification,
> {
    if source & WLAN_NOTIFICATION_SOURCE_MSM != 0 {
        if data_size == 4 && payload is Some {
            Some(WlanNotification::SignalChanged(payload->0))
        } else {
            None
        }
    } else if source & WLAN_NOTIFICATION_SOURCE_ACM != 0 {
        if code == WLAN_NOTIFICATION_ACM_CONNECTION_COMPLETE {
            Some(WlanNotification::Connected)
        } else if code == WLAN_NOTIFICATION_ACM_DISCONNECTED {
            Some(WlanNotification::Disconnected)
        } else {
            None
        }
    } else {
        None
    }
}

pub fn classify_notification(source: u32, code: u32, data_size: u32, payload: Option<u32>) -> (r:
    Option<WlanNotification>)
    ensures
        r == spec_classify(source, code, data_size, payload),
{
    if source & WLAN_NOTIFICATION_SOURCE_MSM != 0 {
        match payload {
            Some(p) => if data_size == 4 {
                Some(WlanNotification::SignalChanged(p))
            } else {
                None
            },
            None => None,
        }
    } else if source & WLAN_NOTIFICATION_SOURCE_ACM != 0 {
        if code == WLAN_NOTIFICATION_ACM_CONNECTION_COMPLETE {
            Some(WlanNotification::Connected)
        } else if code == WLAN_NOTIFICATION_ACM_DISCONNECTED {
            Some(WlanNotification::Disconnected)
        } else {
            None
        }
    } else {
        None
    }
}

/// A list holding only the connected network: right after a connection
/// the scan may not be complete yet.
pub open spec fn connected_only(list: Seq<NetRow>) -> bool {
    list.len() == 1 && list[0].connected
}

pub fn is_connected_only_snapshot(list: &[WifiNetwork]) -> (r: bool)
    ensures
        r == connected_only(network_views(list@)),
{
    list.len() == 1 && list[0].connected
}

/// Whether a list read for an event is sent on: when waiting for a full
/// list, one with only the connected network is read again.
pub fn accept_event_snapshot(wait_for_full_list: bool, list: &[WifiNetwork]) -> (r: bool)
    ensures
        r == (!wait_for_full_list || !connected_only(network_views(list@))),
{
    !wait_for_full_list || !is_connected_only_snapshot(list)
}

/// What the worker remembers between notifications.
pub struct TrackerView {
    pub last_signal: Option<u32>,
    pub last_connected: Option<bool>,
    pub last_ssid: Option<Seq<char>>,
}

/// The worker's memory: last signal, connection state and connected SSID.
pub struct WlanEventTracker {
    pub last_signal: Option<u32>,
    pub last_connected: Option<bool>,
    pub last_connected_ssid: Option<String>,
}

pub open spec fn opt_str_view(s: Option<String>) -> Option<Seq<char>> {
    match s {
        Some(x) => Some(x@),
        None => None,
    }
}

impl View for WlanEventTracker {
    type V = TrackerView;

    open spec fn view(&self) -> TrackerView {
        TrackerView {
            last_signal: self.last_signal,
            last_connected: self.last_connected,
            last_ssid: opt_str_view(self.last_connected_ssid),
        }
    }
}

/// The state after a notification, before the list is read, and whether the
/// list is read (and then whether a full list is waited for).
pub open spec fn notification_step(t: TrackerView, msg: WlanNotification) -> (TrackerView, Option<bool>) {
    match msg {
        WlanNotification::Connected => if t.last_connected != Some(true) {
            (TrackerView { last_connected: Some(true), ..t }, Some(true))
        } else {
            (t, None)
        },
        WlanNotification::Disconnected => if t.last_connected != Some(false) {
            (TrackerView { last_connected: Some(false), last_ssid: None, last_signal: None }, Some(false))
        } else {
            (t, None)
        },
        WlanNotification::SignalChanged(sig) => if t.last_signal != Some(sig) {
            (TrackerView { last_signal: Some(sig), ..t }, Some(true))
        } else {
            (t, None)
        },
        WlanNotification::Other => (t, None),
    }
}

pub open spec fn is_connected_row() -> spec_fn(NetRow) -> bool {
    |n: NetRow| n.connected
}

pub open spec fn row_named(ssid: Seq<char>) -> spec_fn(NetRow) -> bool {
    |n: NetRow| n.ssid == ssid
}

/// After a connection the connected row of the list read gives the signal
/// and SSID remembered (kept as they were when there is none).
pub open spec fn remember_connected(t: TrackerView, list: Seq<NetRow>) -> TrackerView {
    match first_index(list, is_connected_row()) {
        Some(k) => TrackerView { last_signal: Some(list[k].signal), last_ssid: Some(list[k].ssid), ..t },
        None => t,
    }
}

/// The list sent after a signal change while connected: the row of the
/// remembered SSID (else the first connected row) carries the new signal;
/// a row found by SSID is also marked connected.
pub open spec fn patch_signal(t: TrackerView, list: Seq<NetRow>, sig: u32) -> Seq<NetRow> {
    if t.last_connected != Some(true) {
        list
    } else {
        match t.last_ssid {
            Some(ssid) => match first_index(list, row_named(ssid)) {
                Some(k) => list.update(k, NetRow { signal: sig, connected: true, ..list[k] }),
                None => match first_index(list, is_connected_row()) {
                    Some(k) => list.update(k, NetRow { signal: sig, ..list[k] }),
                    None => list,
                },
            },
            None => match first_index(list, is_connected_row()) {
                Some(k) => list.update(k, NetRow { signal: sig, ..list[k] }),
                None => list,
            },
        }
    }
}

/// The state after the list read for a notification, and the list sent.
pub open spec fn snapshot_step(t: TrackerView, msg: WlanNotification, list: Seq<NetRow>) -> (
    TrackerView,
    Seq<NetRow>,
) {
    match msg {
        WlanNotification::Connected => (remember_connected(t, list), list),
        WlanNotification::SignalChanged(sig) => (t, patch_signal(t, list, sig)),
        _ => (t, list),
    }
}

fn first_connected(list: &Vec<WifiNetwork>) -> (r: Option<usize>)
    ensures
        match first_index(network_views(list@), is_connected_row()) {
            Some(k) => r == Some(k as usize) && 0 <= k < list.len(),
            None => r is None,
        },
{
    let ghost v = network_views(list@);
    proof {
        lemma_first_index_bounds(v, is_connected_row());
    }
    let mut i: usize = 0;
    while i < list.len()
        invariant
            i <= list.len(),
            v == network_views(list@),
            forall|j: int| 0 <= j < i ==> !(#[trigger] is_connected_row())(v[j]),
        decreases list.len() - i,
    {
        proof {
            assert(v[i as int] == list@[i as int]@);
        }
        if list[i].connected {
            proof {
                lemma_first_index_is(v, is_connected_row(), i as int);
            }
            return Some(i);
        }
        i = i + 1;
    }
    proof {
        lemma_first_index_none(v, is_connected_row());
    }
    None
}

fn first_named(list: &Vec<WifiNetwork>, ssid: &str) -> (r: Option<usize>)
    ensures
        match first_index(network_views(list@), row_named(ssid@)) {
            Some(k) => r == Some(k as usize) && 0 <= k < list.len(),
            None => r is None,
        },
{
    let ghost v = network_views(list@);
    proof {
        lemma_first_index_bounds(v, row_named(ssid@));
    }
    let mut i: usize = 0;
    while i < list.len()
        invariant
            i <= list.len(),
            v == network_views(list@),
            forall|j: int| 0 <= j < i ==> !(#[trigger] row_named(ssid@))(v[j]),
        decreases list.len() - i,
    {
        proof {
            assert(v[i as int] == list@[i as int]@);
        }
        if eq_str(list[i].ssid.as_str(), ssid) {
            proof {
                lemma_first_index_is(v, row_named(ssid@), i as int);
            }
            return Some(i);
        }
        i = i + 1;
    }
    proof {
        lemma_first_index_none(v, row_named(ssid@));
    }
    None
}

fn set_signal(list: &mut Vec<WifiNetwork>, k: usize, sig: u32, mark_connected: bool)
    requires
        k < old(list).len(),
    ensures
        network_views(final(list)@) == network_views(old(list)@).update(
            k as int,
            NetRow {
                signal: sig,
                connected: if mark_connected {
                    true
                } else {
                    old(list)@[k as int].connected
                },
                ..network_views(old(list)@)[k as int]
            },
        ),
{
    let ghost before = network_views(list@);
    let ssid_chars = chars_of(list[k].ssid.as_str());
    let n = WifiNetwork {
        ssid: string_of(ssid_chars.as_slice()),
        signal: sig,
        security: list[k].security,
        connected: mark_connected || list[k].connected,
    };
    list.set(k, n);
    proof {
        assert(network_views(list@) =~= before.update(
            k as int,
            NetRow {
                signal: sig,
                connected: if mark_connected {
                    true
                } else {
                    old(list)@[k as int].connected
                },
                ..before[k as int]
            },
        ));
    }
}

impl WlanEventTracker {
    pub fn new() -> (r: Self)
        ensures
            r@ == (TrackerView { last_signal: None, last_connected: None, last_ssid: None }),
    {
        WlanEventTracker { last_signal: None, last_connected: None, last_connected_ssid: None }
    }

    /// Takes in a notification; whether the Wi-Fi list is to be read (and
    /// then whether a full list is waited for).
    pub fn handle_notification(&mut self, msg: WlanNotification) -> (fetch: Option<bool>)
        ensures
            (final(self)@, fetch) == notification_step(old(self)@, msg),
    {
        match msg {
            WlanNotification::Connected => {
                if self.last_connected != Some(true) {
                    self.last_connected = Some(true);
                    Some(true)
                } else {
                    None
                }
            },
            WlanNotification::Disconnected => {
                if self.last_connected != Some(false) {
                    self.last_connected = Some(false);
                    self.last_connected_ssid = None;
                    self.last_signal = None;
                    Some(false)
                } else {
                    None
                }
            },
            WlanNotification::SignalChanged(sig) => {
                if self.last_signal != Some(sig) {
                    self.last_signal = Some(sig);
                    Some(true)
                } else {
                    None
                }
            },
            WlanNotification::Other => None,
        }
    }

    /// Takes in the list read for a notification; the list to send.
    pub fn apply_snapshot(&mut self, msg: WlanNotification, list: Vec<WifiNetwork>) -> (r: Vec<
        WifiNetwork,
    >)
        ensures
            (final(self)@, network_views(r@)) == snapshot_step(
                old(self)@,
                msg,
                network_views(list@),
            ),
    {
        let mut list = list;
        match msg {
            WlanNotification::Connected => {
                match first_connected(&list) {
                    Some(k) => {
                        proof {
                            assert(network_views(list@)[k as int] == list@[k as int]@);
                        }
                        self.last_signal = Some(list[k].signal);
                        let ssid_chars = chars_of(list[k].ssid.as_str());
                        self.last_connected_ssid = Some(string_of(ssid_chars.as_slice()));
                    },
                    None => {},
                }
                list
            },
            WlanNotification::SignalChanged(sig) => {
                if self.last_connected == Some(true) {
                    let by_name = match &self.last_connected_ssid {
                        Some(ssid) => first_named(&list, ssid.as_str()),
                        None => None,
                    };
                    match by_name {
                        Some(k) => {
                            set_signal(&mut list, k, sig, true);
                        },
                        None => {
                            match first_connected(&list) {
                                Some(k) => {
                                    proof {
                                        assert(network_views(list@)[k as int] == list@[k as int]@);
                                    }
                                    set_signal(&mut list, k, sig, false);
                                },
                                None => {},
                            }
                        },
                    }
                }
                list
            },
            _ => list,
        }
    }
}

/// A repeated notification changes nothing and reads nothing: the list is
/// read again only when the connection state or the signal changes.
pub proof fn lemma_repeated_notification_is_quiet(t: TrackerView, msg: WlanNotification)
    requires
        msg != WlanNotification::Other,
    ensures
        ({
            let (t1, _) = notification_step(t, msg);
            let (t2, fetch2) = notification_step(t1, msg);
            t2 == t1 && fetch2 is None
        }),
{
}

/// A disconnection forgets the connected SSID and signal.
pub proof fn lemma_disconnect_forgets(t: TrackerView)
    requires
        t.last_connected != Some(false),
    ensures
        notification_step(t, WlanNotification::Disconnected).0 == (TrackerView {
            last_signal: None,
            last_connected: Some(false),
            last_ssid: None,
        }),
{
}

} // verus!
