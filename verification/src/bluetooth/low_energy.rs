//! Low-energy devices: their record and the tracked device.
use vstd::prelude::*;

use crate::bluetooth::devices::{copy_text, low_energy_record, overlay, overlay_exec, BluetoothDevice, LowEnergyDeviceFacts};
use crate::bluetooth::{BluetoothMajorClass, BluetoothMinorClass};
use crate::text::{chars_of, string_of};

verus! {

/// The record of a low-energy device from what the system reports.
pub fn to_serializable(id: &str, facts: &LowEnergyDeviceFacts) -> (r: BluetoothDevice)
    ensures
        r@ == low_energy_record(id@, *facts),
{
    let idc = chars_of(id);
    BluetoothDevice {
        id: string_of(idc.as_slice()),
        name: copy_text(&facts.name),
        address: facts.address,
        major_service_classes: Vec::new(),
        major_class: BluetoothMajorClass::Uncategorized,
        minor_class: BluetoothMinorClass::Uncategorized { unused: 0 },
        appearance: facts.appearance,
        connected: facts.connected,
        paired: facts.paired,
        can_pair: facts.can_pair,
        can_disconnect: false,
        is_low_energy: true,
        battery_percentage: if facts.connected {
            facts.battery_level
        } else {
            None
        },
    }
}

/// A low-energy device the toolbar tracks.
pub struct BluetoothLEDeviceWrapper {
    pub id: String,
    pub state: BluetoothDevice,
}

impl BluetoothLEDeviceWrapper {
    pub fn create(device_id: &str, facts: &LowEnergyDeviceFacts) -> (r: Self)
        ensures
            r.id@ == device_id@,
            r.state@ == low_energy_record(device_id@, *facts),
    {
        let idc = chars_of(device_id);
        BluetoothLEDeviceWrapper {
            id: string_of(idc.as_slice()),
            state: to_serializable(device_id, facts),
        }
    }

    pub fn snapshot(&self, connected: Option<bool>, paired: Option<bool>) -> (r: BluetoothDevice)
        ensures
            r@ == overlay(self.state@, connected, paired),
    {
        overlay_exec(&self.state, connected, paired)
    }

    pub fn refresh_state(&mut self, facts: &LowEnergyDeviceFacts)
        ensures
            final(self).id == old(self).id,
            final(self).state@ == low_energy_record(old(self).id@, *facts),
    {
        self.state = to_serializable(self.id.as_str(), facts);
    }
}

} // verus!
