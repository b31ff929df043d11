//! Classic devices: their record and the tracked device.
use vstd::prelude::*;

use crate::bluetooth::devices::{classic_record, copy_text, overlay, overlay_exec, BluetoothDevice, ClassicDeviceFacts};
use crate::bluetooth::{default_device_classes, parse_class_of_device};
use crate::text::{chars_of, string_of};

verus! {

/// The record of a classic device from what the system reports.
pub fn to_serializable(id: &str, facts: &ClassicDeviceFacts) -> (r: BluetoothDevice)
    ensures
        r@ == classic_record(id@, *facts),
{
    let (services, major, minor) = match facts.class_of_device {
        Some(c) => parse_class_of_device(c),
        None => default_device_classes(),
    };
    let idc = chars_of(id);
    BluetoothDevice {
        id: string_of(idc.as_slice()),
        name: copy_text(&facts.name),
        address: facts.address,
        major_service_classes: services,
        major_class: major,
        minor_class: minor,
        appearance: None,
        connected: facts.connected,
        paired: facts.paired,
        can_pair: facts.can_pair,
        can_disconnect: false,
        is_low_energy: false,
        battery_percentage: None,
    }
}

/// A classic device the toolbar tracks: its id and its last record.
pub struct BluetoothDeviceWrapper {
    pub id: String,
    pub state: BluetoothDevice,
}

impl BluetoothDeviceWrapper {
    pub fn create(device_id: &str, facts: &ClassicDeviceFacts) -> (r: Self)
        ensures
            r.id@ == device_id@,
            r.state@ == classic_record(device_id@, *facts),
    {
        let idc = chars_of(device_id);
        BluetoothDeviceWrapper {
            id: string_of(idc.as_slice()),
            state: to_serializable(device_id, facts),
        }
    }

    /// The record with the live state laid over it.
    pub fn snapshot(&self, connected: Option<bool>, paired: Option<bool>) -> (r: BluetoothDevice)
        ensures
            r@ == overlay(self.state@, connected, paired),
    {
        overlay_exec(&self.state, connected, paired)
    }

    /// Rebuilds the record from a new report.
    pub fn refresh_state(&mut self, facts: &ClassicDeviceFacts)
        ensures
            final(self).id == old(self).id,
            final(self).state@ == classic_record(old(self).id@, *facts),
    {
        self.state = to_serializable(self.id.as_str(), facts);
    }
}

} // verus!
