//! The list of network-share devices the toolbar shows, and its updates.
//! Each update says whether the list changed, which is when listeners are
//! told.
use vstd::prelude::*;

use crate::text::{chars_of, eq_str, string_of};
use crate::whitelist::{
    first_index, lemma_first_index_bounds, lemma_first_index_is, lemma_first_index_none,
};

verus! {

/// A device offered for network sharing.
#[derive(Clone, Debug)]
pub struct NetworkShareDevice {
    pub device_id: String,
    pub name: String,
    pub connected: bool,
}

pub struct ShareView {
    pub device_id: Seq<char>,
    pub name: Seq<char>,
    pub connected: bool,
}

impl View for NetworkShareDevice {
    type V = ShareView;

    open spec fn view(&self) -> ShareView {
        ShareView { device_id: self.device_id@, name: self.name@, connected: self.connected }
    }
}

pub open spec fn share_views(v: Seq<NetworkShareDevice>) -> Seq<ShareView> {
    v.map_values(|d: NetworkShareDevice| d@)
}

fn copy_device(d: &NetworkShareDevice) -> (r: NetworkShareDevice)
    ensures
        r@ == d@,
{
    let id = chars_of(d.device_id.as_str());
    let name = chars_of(d.name.as_str());
    NetworkShareDevice {
        device_id: string_of(id.as_slice()),
        name: string_of(name.as_slice()),
        connected: d.connected,
    }
}

pub open spec fn has_id(id: Seq<char>) -> spec_fn(ShareView) -> bool {
    |d: ShareView| d.device_id == id
}

fn position_of_id(v: &Vec<NetworkShareDevice>, id: &str) -> (r: Option<usize>)
    ensures
        match first_index(share_views(v@), has_id(id@)) {
            Some(k) => r == Some(k as usize) && 0 <= k < v.len(),
            None => r is None,
        },
{
    let ghost sv = share_views(v@);
    proof {
        lemma_first_index_bounds(sv, has_id(id@));
    }
    let mut i: usize = 0;
    while i < v.len()
        invariant
            i <= v.len(),
            sv == share_views(v@),
            forall|j: int| 0 <= j < i ==> !(#[trigger] has_id(id@))(sv[j]),
        decreases v.len() - i,
    {
        if eq_str(v[i].device_id.as_str(), id) {
            proof {
                lemma_first_index_is(sv, has_id(id@), i as int);
            }
            return Some(i);
        }
        i = i + 1;
    }
    proof {
        lemma_first_index_none(sv, has_id(id@));
    }
    None
}

// ---------------------------------------------------------------------------
// Replacing the list
// ---------------------------------------------------------------------------
/// A reported device keeps the connection state the list already had for
/// its id.
pub open spec fn keep_connection(old: Seq<ShareView>, d: ShareView) -> ShareView {
    match first_index(old, has_id(d.device_id)) {
        Some(k) => ShareView { connected: old[k].connected, ..d },
        None => d,
    }
}

/// Replaces the list by the reported devices, each keeping the connection
/// state already known for its id.
pub fn update_network_share_devices(
    registry: &mut Vec<NetworkShareDevice>,
    devices: Vec<NetworkShareDevice>,
)
    ensures
        share_views(final(registry)@) == share_views(devices@).map_values(
            |d: ShareView| keep_connection(share_views(old(registry)@), d),
        ),
{
    let ghost old_v = share_views(registry@);
    let ghost target = share_views(devices@).map_values(|d: ShareView| keep_connection(old_v, d));
    let mut merged: Vec<NetworkShareDevice> = Vec::new();
    let mut i: usize = 0;
    while i < devices.len()
        invariant
            i <= devices.len(),
            old_v == share_views(registry@),
            target == share_views(devices@).map_values(|d: ShareView| keep_connection(old_v, d)),
            merged.len() == i,
            share_views(merged@) =~= target.take(i as int),
        decreases devices.len() - i,
    {
        let d = copy_device(&devices[i]);
        let connected = match position_of_id(registry, devices[i].device_id.as_str()) {
            Some(k) => {
                proof {
                    assert(old_v[k as int] == registry@[k as int]@);
                }
                registry[k].connected
            },
            None => d.connected,
        };
        let n = NetworkShareDevice { device_id: d.device_id, name: d.name, connected };
        proof {
            assert(share_views(devices@)[i as int] == devices@[i as int]@);
            assert(n@ == target[i as int]);
        }
        let ghost before = merged@;
        merged.push(n);
        proof {
            assert(share_views(merged@) =~= share_views(before).push(target[i as int]));
        }
        i = i + 1;
    }
    assert(target.take(devices.len() as int) =~= target);
    *registry = merged;
}

// ---------------------------------------------------------------------------
// Adding devices
// ---------------------------------------------------------------------------
/// The list after the devices are offered in order: each joins at the end
/// unless a device with its id is already there.
pub open spec fn add_devices(reg: Seq<ShareView>, devices: Seq<ShareView>) -> Seq<ShareView>
    decreases devices.len(),
{
    if devices.len() == 0 {
        reg
    } else {
        let before = add_devices(reg, devices.drop_last());
        let d = devices.last();
        if first_index(before, has_id(d.device_id)) is Some {
            before
        } else {
            before.push(d)
        }
    }
}

proof fn lemma_add_devices_grows(reg: Seq<ShareView>, devices: Seq<ShareView>)
    ensures
        add_devices(reg, devices).len() >= reg.len(),
        add_devices(reg, devices).take(reg.len() as int) == reg,
    decreases devices.len(),
{
    if devices.len() > 0 {
        lemma_add_devices_grows(reg, devices.drop_last());
        let before = add_devices(reg, devices.drop_last());
        assert(before.push(devices.last()).take(reg.len() as int) =~= before.take(
            reg.len() as int,
        ));
    }
}

/// Adds the devices whose ids are new; whether the list changed.
pub fn add_network_share_devices(
    registry: &mut Vec<NetworkShareDevice>,
    devices: Vec<NetworkShareDevice>,
) -> (changed: bool)
    ensures
        share_views(final(registry)@) == add_devices(
            share_views(old(registry)@),
            share_views(devices@),
        ),
        changed == (share_views(final(registry)@) != share_views(old(registry)@)),
{
    let ghost reg0 = share_views(registry@);
    let ghost dv = share_views(devices@);
    let mut changed = false;
    let mut i: usize = 0;
    proof {
        assert(dv.take(0) =~= seq![]);
    }
    while i < devices.len()
        invariant
            i <= devices.len(),
            reg0.len() <= registry.len(),
            dv == share_views(devices@),
            share_views(registry@) == add_devices(reg0, dv.take(i as int)),
            changed == (registry.len() > reg0.len()),
        decreases devices.len() - i,
    {
        proof {
            assert(dv.take(i + 1).drop_last() == dv.take(i as int));
            assert(dv.take(i + 1).last() == dv[i as int]);
            assert(dv[i as int] == devices@[i as int]@);
        }
        match position_of_id(registry, devices[i].device_id.as_str()) {
            Some(_) => {},
            None => {
                let d = copy_device(&devices[i]);
                let ghost before = share_views(registry@);
                registry.push(d);
                proof {
                    assert(share_views(registry@) =~= before.push(dv[i as int]));
                }
                changed = true;
            },
        }
        i = i + 1;
    }
    proof {
        assert(dv.take(devices.len() as int) =~= dv);
        lemma_add_devices_grows(reg0, dv);
        if registry.len() == reg0.len() {
            assert(share_views(registry@) =~= reg0);
        }
    }
    changed
}

// ---------------------------------------------------------------------------
// Connection state
// ---------------------------------------------------------------------------
pub open spec fn needs_state(id: Seq<char>, connected: bool) -> spec_fn(ShareView) -> bool {
    |d: ShareView| d.device_id == id && d.connected != connected
}

/// The list with the first device of that id whose state differs set to
/// the new state (nothing for an empty id).
pub open spec fn set_connected(reg: Seq<ShareView>, id: Seq<char>, connected: bool) -> Seq<
    ShareView,
> {
    if id.len() == 0 {
        reg
    } else {
        match first_index(reg, needs_state(id, connected)) {
            Some(k) => reg.update(k, ShareView { connected, ..reg[k] }),
            None => reg,
        }
    }
}

/// Sets the connection state of the device with that id; whether the list
/// changed.
pub fn set_network_share_device_connected(
    registry: &mut Vec<NetworkShareDevice>,
    device_id: &str,
    connected: bool,
) -> (changed: bool)
    ensures
        share_views(final(registry)@) == set_connected(
            share_views(old(registry)@),
            device_id@,
            connected,
        ),
        changed == (share_views(final(registry)@) != share_views(old(registry)@)),
{
    let id = chars_of(device_id);
    if id.len() == 0 {
        return false;
    }
    let ghost sv = share_views(registry@);
    proof {
        lemma_first_index_bounds(sv, needs_state(device_id@, connected));
    }
    let mut i: usize = 0;
    let mut found: Option<usize> = None;
    while i < registry.len()
        invariant_except_break
            found is None,
        invariant
            i <= registry.len(),
            sv == share_views(registry@),
            forall|j: int| 0 <= j < i ==> !(#[trigger] needs_state(device_id@, connected))(sv[j]),
        ensures
            match found {
                Some(k) => k < registry.len() && first_index(sv, needs_state(device_id@, connected))
                    == Some(k as int),
                None => first_index(sv, needs_state(device_id@, connected)) is None,
            },
        decreases registry.len() - i,
    {
        proof {
            assert(sv[i as int] == registry@[i as int]@);
        }
        if eq_str(registry[i].device_id.as_str(), device_id) && registry[i].connected != connected {
            proof {
                lemma_first_index_is(sv, needs_state(device_id@, connected), i as int);
            }
            found = Some(i);
            break;
        }
        i = i + 1;
    }
    proof {
        if found is None {
            lemma_first_index_none(sv, needs_state(device_id@, connected));
        }
    }
    match found {
        Some(k) => {
            proof {
                assert(sv[k as int] == registry@[k as int]@);
            }
            let d = copy_device(&registry[k]);
            let n = NetworkShareDevice { device_id: d.device_id, name: d.name, connected };
            registry.set(k, n);
            proof {
                assert(share_views(registry@) =~= sv.update(
                    k as int,
                    ShareView { connected, ..sv[k as int] },
                ));
                assert(share_views(registry@)[k as int] != sv[k as int]);
            }
            true
        },
        None => false,
    }
}

// ---------------------------------------------------------------------------
// Removing devices
// ---------------------------------------------------------------------------
pub open spec fn not_listed(ids: Seq<Seq<char>>) -> spec_fn(ShareView) -> bool {
    |d: ShareView| !ids.contains(d.device_id)
}

/// Removes every device whose id is listed; whether the list changed.
pub fn remove_network_share_devices_by_ids(
    registry: &mut Vec<NetworkShareDevice>,
    device_ids: Vec<String>,
) -> (changed: bool)
    ensures
        share_views(final(registry)@) == share_views(old(registry)@).filter(
            not_listed(device_ids@.map_values(|s: String| s@)),
        ),
        changed == (final(registry)@.len() != old(registry)@.len()),
{
    let ghost ids = device_ids@.map_values(|s: String| s@);
    let ghost sv = share_views(registry@);
    let ghost p = not_listed(ids);
    let mut kept: Vec<NetworkShareDevice> = Vec::new();
    let mut i: usize = 0;
    proof {
        assert(sv.take(0).filter(p) =~= seq![]);
    }
    while i < registry.len()
        invariant
            i <= registry.len(),
            sv == share_views(registry@),
            ids == device_ids@.map_values(|s: String| s@),
            p == not_listed(ids),
            share_views(kept@) == sv.take(i as int).filter(p),
        decreases registry.len() - i,
    {
        let mut listed = false;
        let mut j: usize = 0;
        while j < device_ids.len()
            invariant
                j <= device_ids.len(),
                i < registry.len(),
                ids == device_ids@.map_values(|s: String| s@),
                listed == exists|k: int| 0 <= k < j && ids[k] == registry@[i as int].device_id@,
            decreases device_ids.len() - j,
        {
            proof {
                assert(ids[j as int] == device_ids@[j as int]@);
            }
            if eq_str(device_ids[j].as_str(), registry[i].device_id.as_str()) {
                listed = true;
            }
            j = j + 1;
        }
        proof {
            assert(sv[i as int] == registry@[i as int]@);
            assert(sv.take(i + 1).drop_last() =~= sv.take(i as int));
            assert(sv.take(i + 1) =~= sv.take(i as int).push(sv[i as int]));
            sv.take(i as int).lemma_filter_push(sv[i as int], p);
            if listed {
                let k = choose|k: int| 0 <= k < device_ids.len() && ids[k] == registry@[i as int].device_id@;
                assert(ids.contains(sv[i as int].device_id));
            } else {
                assert(!ids.contains(sv[i as int].device_id)) by {
                    if ids.contains(sv[i as int].device_id) {
                        let k = choose|k: int| 0 <= k < ids.len() && ids[k] == sv[i as int].device_id;
                        assert(ids[k] == registry@[i as int].device_id@);
                    }
                }
            }
        }
        if !listed {
            let d = copy_device(&registry[i]);
            let ghost before = share_views(kept@);
            kept.push(d);
            proof {
                assert(share_views(kept@) =~= before.push(sv[i as int]));
            }
        }
        i = i + 1;
    }
    proof {
        assert(sv.take(registry.len() as int) =~= sv);
    }
    let changed = kept.len() != registry.len();
    *registry = kept;
    changed
}

// ---------------------------------------------------------------------------
// Laws of the list
// ---------------------------------------------------------------------------
/// No two devices of the list share an id.
pub open spec fn ids_unique(reg: Seq<ShareView>) -> bool {
    forall|i: int, j: int| 0 <= i < j < reg.len() ==> #[trigger] reg[i].device_id != #[trigger] reg[j].device_id
}

/// Adding devices keeps every id listed once.
pub proof fn lemma_add_keeps_ids_unique(reg: Seq<ShareView>, devices: Seq<ShareView>)
    requires
        ids_unique(reg),
    ensures
        ids_unique(add_devices(reg, devices)),
    decreases devices.len(),
{
    if devices.len() > 0 {
        lemma_add_keeps_ids_unique(reg, devices.drop_last());
        let before = add_devices(reg, devices.drop_last());
        let d = devices.last();
        if first_index(before, has_id(d.device_id)) is None {
            let after = before.push(d);
            assert forall|i: int, j: int| 0 <= i < j < after.len() implies #[trigger] after[i].device_id
                != #[trigger] after[j].device_id by {
                if j == before.len() {
                    if after[i].device_id == d.device_id {
                        assert(has_id(d.device_id)(before[i]));
                        lemma_first_index_bounds(before, has_id(d.device_id));
                        assert(exists|k: int| 0 <= k < before.len() && has_id(d.device_id)(before[k]));
                    }
                } else {
                    assert(after[i] == before[i] && after[j] == before[j]);
                }
            }
        }
    }
}

/// After a removal, no device with a removed id is listed.
pub proof fn lemma_removed_ids_gone(reg: Seq<ShareView>, ids: Seq<Seq<char>>)
    ensures
        forall|k: int| 0 <= k < reg.filter(not_listed(ids)).len() ==> !ids.contains(
            #[trigger] reg.filter(not_listed(ids))[k].device_id,
        ),
{
    assert forall|k: int| 0 <= k < reg.filter(not_listed(ids)).len() implies !ids.contains(
        #[trigger] reg.filter(not_listed(ids))[k].device_id,
    ) by {
        reg.lemma_filter_pred(not_listed(ids), k);
    }
}

/// Setting the state of a listed device, when ids are unique, gives that
/// device the state and leaves every other device as it was.
pub proof fn lemma_set_connected_sets(reg: Seq<ShareView>, id: Seq<char>, connected: bool, k: int)
    requires
        ids_unique(reg),
        id.len() > 0,
        0 <= k < reg.len(),
        reg[k].device_id == id,
    ensures
        set_connected(reg, id, connected).len() == reg.len(),
        set_connected(reg, id, connected)[k].connected == connected,
        forall|j: int| 0 <= j < reg.len() && j != k ==> #[trigger] set_connected(reg, id, connected)[j] == reg[j],
{
    let p = needs_state(id, connected);
    lemma_first_index_bounds(reg, p);
    if reg[k].connected != connected {
        assert(p(reg[k]));
        match first_index(reg, p) {
            Some(m) => {
                assert(reg[m].device_id == id);
                if m != k {
                    if m < k {
                        assert(reg[m].device_id != reg[k].device_id);
                    } else {
                        assert(reg[k].device_id != reg[m].device_id);
                    }
                }
            },
            None => {
                assert(exists|i: int| 0 <= i < reg.len() && p(reg[i]));
            },
        }
    } else {
        match first_index(reg, p) {
            Some(m) => {
                assert(reg[m].device_id == id);
                if m < k {
                    assert(reg[m].device_id != reg[k].device_id);
                } else if m > k {
                    assert(reg[k].device_id != reg[m].device_id);
                }
            },
            None => {},
        }
    }
}

} // verus!
