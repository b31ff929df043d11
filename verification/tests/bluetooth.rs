use magictaskbar::bluetooth::classic::BluetoothDeviceWrapper;
use magictaskbar::bluetooth::devices::{
    added_device_plan, check_pairable, confirmed_pairing_status, device_score, discovered_device,
    expected_pairing_status, get_all_devices, handle_device_event, low_energy_cache, on_event,
    pairing_action, request_emit_devices_snapshot, should_query_device_info,
    should_refresh_device, should_schedule_resolution, unpair_outcome, AddedDevicePlan,
    BluetoothDevice, ClassicDeviceFacts, DeviceEvent, DeviceEventPlan, DevicePairingKind,
    EmitDecision, LowEnergyDeviceFacts, PairingStatus, ThrottleTable,
};
use magictaskbar::bluetooth::low_energy::BluetoothLEDeviceWrapper;
use magictaskbar::bluetooth::records::DeviceRecords;
use magictaskbar::bluetooth::{
    default_device_classes, parse_class_of_device, set_cached_bluetooth_enabled,
    BluetoothAudioVideoMinor, BluetoothComputerMinor, BluetoothDeviceType, BluetoothEnabledCache,
    BluetoothMajorClass, BluetoothMajorServiceClass, BluetoothManagerEvent, BluetoothMinorClass,
    BluetoothPeripheralMinor, BluetoothPeripheralSubMinor, DevicePairingNeededAction,
};

#[test]
fn class_of_device_values_are_decoded() {
    let (services, major, minor) = parse_class_of_device(0x240404);
    assert_eq!(services, vec![BluetoothMajorServiceClass::Rendering, BluetoothMajorServiceClass::Audio]);
    assert_eq!(major, BluetoothMajorClass::AudioVideo);
    assert_eq!(minor, BluetoothMinorClass::AudioVideo(BluetoothAudioVideoMinor::Headset));
    let (services, major, minor) = parse_class_of_device(0x10010c);
    assert_eq!(services, vec![BluetoothMajorServiceClass::ObjectTransfer]);
    assert_eq!(major, BluetoothMajorClass::Computer);
    assert_eq!(minor, BluetoothMinorClass::Computer(BluetoothComputerMinor::Laptop));
    let (_, major, minor) = parse_class_of_device(0x002540);
    assert_eq!(major, BluetoothMajorClass::Peripheral);
    assert_eq!(
        minor,
        BluetoothMinorClass::Peripheral(BluetoothPeripheralMinor::Keyboard, BluetoothPeripheralSubMinor::Uncategorized)
    );
    let (_, major, minor) = parse_class_of_device(0x001f00);
    assert_eq!(major, BluetoothMajorClass::Uncategorized);
    assert_eq!(minor, BluetoothMinorClass::Uncategorized { unused: 0 });
    assert_eq!(BluetoothMajorServiceClass::Telephony.bit(), 0x200);
    let (s, m, n) = default_device_classes();
    assert!(s.is_empty());
    assert_eq!(m, BluetoothMajorClass::Uncategorized);
    assert_eq!(n, BluetoothMinorClass::Uncategorized { unused: 0 });
}

fn classic_facts(name: &str, class: Option<u32>, connected: bool, paired: bool) -> ClassicDeviceFacts {
    ClassicDeviceFacts { name: name.to_string(), address: 0xa1b2, class_of_device: class, connected, paired, can_pair: !paired }
}

#[test]
fn classic_records_come_from_their_facts() {
    let mut w = BluetoothDeviceWrapper::create("bt1", &classic_facts("Buds", Some(0x240404), false, true));
    assert_eq!(w.state.id, "bt1");
    assert_eq!(w.state.major_class, BluetoothMajorClass::AudioVideo);
    assert!(!w.state.is_low_energy && w.state.appearance.is_none());
    let snap = w.snapshot(Some(true), None);
    assert!(snap.connected && snap.paired);
    w.refresh_state(&classic_facts("Buds Pro", None, false, false));
    assert_eq!(w.id, "bt1");
    assert_eq!(w.state.name, "Buds Pro");
    assert_eq!(w.state.major_class, BluetoothMajorClass::Uncategorized);
}

#[test]
fn low_energy_battery_is_known_only_while_connected() {
    let facts = LowEnergyDeviceFacts {
        name: "Mouse".to_string(),
        address: 7,
        appearance: Some(0x03c2),
        connected: false,
        paired: true,
        can_pair: false,
        battery_level: Some(80),
    };
    let mut w = BluetoothLEDeviceWrapper::create("le1", &facts);
    assert!(w.state.is_low_energy);
    assert_eq!(w.state.battery_percentage, None);
    let on = LowEnergyDeviceFacts { connected: true, ..facts };
    w.refresh_state(&on);
    assert_eq!(w.state.battery_percentage, Some(80));
    assert_eq!(w.state.appearance, Some(0x03c2));
}

fn device(id: &str, name: &str, paired: bool, connected: bool) -> BluetoothDevice {
    let mut d = discovered_device(id, name, paired, !paired, false);
    d.connected = connected;
    d
}

#[test]
fn device_scores_weigh_what_is_known() {
    assert_eq!(device_score(&device("a", "", false, false)), 0);
    assert_eq!(device_score(&device("a", "x", true, true)), 151);
    let mut d = device("a", "x", false, false);
    d.appearance = Some(1);
    d.major_class = BluetoothMajorClass::Phone;
    assert_eq!(device_score(&d), 21);
}

#[test]
fn merged_devices_keep_one_best_record_per_id() {
    let c = vec![
        device("a", "A", false, false),
        device("b", "B", true, false),
        device("a", "A2", true, false),
        device("a", "A3", true, false),
    ];
    let all = get_all_devices(&c);
    let view: Vec<(&str, &str)> = all.iter().map(|d| (d.id.as_str(), d.name.as_str())).collect();
    assert_eq!(view, vec![("a", "A2"), ("b", "B")]);
}

#[test]
fn throttles_hold_back_repeats() {
    let mut t = ThrottleTable::new();
    assert!(should_query_device_info(&mut t, "a", 1000));
    assert!(!should_query_device_info(&mut t, "a", 2000));
    assert!(should_query_device_info(&mut t, "b", 2000));
    assert!(should_query_device_info(&mut t, "a", 4000));
    let mut r = ThrottleTable::new();
    assert!(should_refresh_device(&mut r, "a", 10));
    assert!(!should_refresh_device(&mut r, "a", 5));
    assert!(should_refresh_device(&mut r, "a", 2010));
    r.remove("a");
    assert!(should_refresh_device(&mut r, "a", 2011));
}

#[test]
fn device_list_sends_are_spaced() {
    assert_eq!(request_emit_devices_snapshot(false, true, 0, 0, false), EmitDecision::Skip);
    assert_eq!(request_emit_devices_snapshot(true, true, 10, 0, true), EmitDecision::Now);
    assert_eq!(request_emit_devices_snapshot(true, false, 300, 0, false), EmitDecision::Now);
    assert_eq!(request_emit_devices_snapshot(true, false, 100, 0, false), EmitDecision::After(150));
    assert_eq!(request_emit_devices_snapshot(true, false, 100, 0, true), EmitDecision::Skip);
    assert_eq!(request_emit_devices_snapshot(true, false, 0, 100, false), EmitDecision::After(250));
}

#[test]
fn device_events_are_forwarded_only_when_enabled() {
    assert!(handle_device_event(false, DeviceEvent::Added("x".into()), BluetoothDeviceType::Classic).is_none());
    match handle_device_event(true, DeviceEvent::Removed("x".into()), BluetoothDeviceType::LowEnergy) {
        Some(BluetoothManagerEvent::DeviceRemoved(id, t)) => {
            assert_eq!(id, "x");
            assert_eq!(t, BluetoothDeviceType::LowEnergy);
        }
        other => panic!("unexpected {:?}", other),
    }
    assert!(should_schedule_resolution(true, false, 1));
    assert!(!should_schedule_resolution(true, false, 2));
    assert!(!should_schedule_resolution(true, true, 0));
    assert!(!should_schedule_resolution(false, false, 0));
}

#[test]
fn event_plans_follow_what_is_known() {
    let added = BluetoothManagerEvent::DeviceAdded("x".into(), BluetoothDeviceType::Classic);
    let updated = BluetoothManagerEvent::DeviceUpdated("x".into(), BluetoothDeviceType::Classic);
    let removed = BluetoothManagerEvent::DeviceRemoved("x".into(), BluetoothDeviceType::Classic);
    assert_eq!(on_event(&added, false, true, true, true, false, true), (DeviceEventPlan::Ignore, false));
    assert_eq!(on_event(&added, true, true, false, false, false, false), (DeviceEventPlan::QueryDetails, false));
    assert_eq!(on_event(&added, true, false, false, false, false, false), (DeviceEventPlan::Nothing, false));
    assert_eq!(
        on_event(&updated, true, false, true, false, false, false),
        (DeviceEventPlan::UpdateTracked { refresh: false }, false)
    );
    assert_eq!(on_event(&updated, true, false, false, true, false, true), (DeviceEventPlan::ResolveDiscovered, false));
    assert_eq!(on_event(&updated, true, false, false, true, true, true), (DeviceEventPlan::Nothing, false));
    assert_eq!(on_event(&removed, true, false, false, false, false, false), (DeviceEventPlan::RemoveEverywhere, true));
    assert_eq!(
        added_device_plan(BluetoothDeviceType::Classic, Some(false), false, true),
        AddedDevicePlan::Discovered { resolve: false }
    );
    assert_eq!(
        added_device_plan(BluetoothDeviceType::LowEnergy, Some(false), false, true),
        AddedDevicePlan::Discovered { resolve: true }
    );
    assert_eq!(added_device_plan(BluetoothDeviceType::Classic, Some(true), true, false), AddedDevicePlan::Track);
    assert_eq!(added_device_plan(BluetoothDeviceType::Classic, Some(true), false, false), AddedDevicePlan::Nothing);
    assert_eq!(added_device_plan(BluetoothDeviceType::LowEnergy, None, true, false), AddedDevicePlan::Track);
    assert_eq!(added_device_plan(BluetoothDeviceType::Classic, None, true, false), AddedDevicePlan::Nothing);
}

#[test]
fn pairing_requests_and_outcomes() {
    assert_eq!(pairing_action(DevicePairingKind::ConfirmOnly, ""), DevicePairingNeededAction::ConfirmOnly);
    assert_eq!(
        pairing_action(DevicePairingKind::DisplayPin, "1234"),
        DevicePairingNeededAction::DisplayPin { pin: "1234".to_string() }
    );
    assert_eq!(
        pairing_action(DevicePairingKind::ConfirmPinMatch, "42"),
        DevicePairingNeededAction::ConfirmPinMatch { pin: "42".to_string() }
    );
    assert_eq!(pairing_action(DevicePairingKind::NoKind, "1"), DevicePairingNeededAction::NotNeeded);
    assert_eq!(check_pairable(true, true), Err("Device is already paired".to_string()));
    assert_eq!(check_pairable(false, false), Err("Device cannot be paired".to_string()));
    assert_eq!(check_pairable(false, true), Ok(()));
    assert_eq!(expected_pairing_status(true), PairingStatus::Paired);
    assert_eq!(expected_pairing_status(false), PairingStatus::RejectedByHandler);
    assert_eq!(confirmed_pairing_status(true, PairingStatus::Other(19), true), PairingStatus::Paired);
    assert_eq!(confirmed_pairing_status(true, PairingStatus::Other(19), false), PairingStatus::Other(19));
    assert_eq!(confirmed_pairing_status(false, PairingStatus::Other(19), true), PairingStatus::Other(19));
    assert_eq!(unpair_outcome(true), Err("Unpair was not successful!".to_string()));
    assert_eq!(unpair_outcome(false), Ok(()));
}

#[test]
fn paired_low_energy_devices_are_cached_with_live_state() {
    let records = vec![
        (device("a", "A", true, false), true, Some(true), None),
        (device("b", "B", false, false), true, Some(true), Some(true)),
    ];
    let cached = low_energy_cache(&records);
    assert_eq!(cached.len(), 1);
    assert_eq!(cached[0].id, "a");
    assert!(cached[0].connected && cached[0].paired);
    let mut cache = BluetoothEnabledCache { enabled: false };
    set_cached_bluetooth_enabled(&mut cache, true);
    assert!(cache.enabled);
}

fn added(id: &str, t: BluetoothDeviceType) -> BluetoothManagerEvent {
    BluetoothManagerEvent::DeviceAdded(id.to_string(), t)
}

fn updated(id: &str, t: BluetoothDeviceType) -> BluetoothManagerEvent {
    BluetoothManagerEvent::DeviceUpdated(id.to_string(), t)
}

fn removed(id: &str, t: BluetoothDeviceType) -> BluetoothManagerEvent {
    BluetoothManagerEvent::DeviceRemoved(id.to_string(), t)
}

#[test]
fn a_removed_device_leaves_every_record() {
    let mut r = DeviceRecords::new();
    let c = BluetoothDeviceType::Classic;
    assert_eq!(r.handle_event(&added("dev", c), true, 10_000), (DeviceEventPlan::QueryDetails, false));
    r.apply_added_plan(AddedDevicePlan::Track, discovered_device("dev", "Phone", true, false, false), c);
    assert!(r.is_known("dev", c));
    assert_eq!(
        r.handle_event(&updated("dev", c), true, 10_100),
        (DeviceEventPlan::UpdateTracked { refresh: true }, false)
    );
    assert_eq!(r.handle_event(&removed("dev", c), true, 10_200), (DeviceEventPlan::RemoveEverywhere, true));
    assert!(!r.is_known("dev", c));
    assert!(!r.is_discovered("dev"));
    assert!(r.info_queries.entries.is_empty());
    assert!(r.refreshes.entries.is_empty());
    // The detail query is no longer held back after the removal.
    assert_eq!(r.handle_event(&added("dev", c), true, 10_300), (DeviceEventPlan::QueryDetails, false));
}

#[test]
fn a_tracked_device_is_no_longer_discovered() {
    let mut r = DeviceRecords::new();
    let le = BluetoothDeviceType::LowEnergy;
    r.apply_added_plan(
        AddedDevicePlan::Discovered { resolve: true },
        discovered_device("ble", "Band", false, true, true),
        le,
    );
    assert!(r.is_discovered("ble"));
    assert!(r.is_resolving("ble"));
    assert!(!r.is_known("ble", le));
    r.finish_resolution("ble", le, true);
    assert!(r.is_known("ble", le));
    assert!(!r.is_discovered("ble"));
    assert!(!r.is_resolving("ble"));
    assert!(!r.is_known("ble", BluetoothDeviceType::Classic));
}

#[test]
fn at_most_two_devices_are_resolved_at_a_time() {
    let mut r = DeviceRecords::new();
    assert!(!r.begin_resolution("a", false));
    assert!(r.begin_resolution("a", true));
    assert!(!r.begin_resolution("a", true));
    assert!(r.begin_resolution("b", true));
    assert!(!r.begin_resolution("c", true));
    r.finish_resolution("a", BluetoothDeviceType::Classic, false);
    assert!(!r.is_known("a", BluetoothDeviceType::Classic));
    assert!(r.begin_resolution("c", true));
    assert_eq!(r.resolving.len(), 2);
}

#[test]
fn updates_of_discovered_devices_start_a_resolution_and_closed_panels_change_nothing() {
    let mut r = DeviceRecords::new();
    let c = BluetoothDeviceType::Classic;
    r.discover(discovered_device("x", "Speaker", false, true, false));
    assert_eq!(r.handle_event(&removed("x", c), false, 0), (DeviceEventPlan::Ignore, false));
    assert!(r.is_discovered("x"));
    assert_eq!(r.handle_event(&updated("x", c), true, 0), (DeviceEventPlan::ResolveDiscovered, false));
    assert!(r.is_resolving("x"));
    assert_eq!(r.handle_event(&updated("x", c), true, 1), (DeviceEventPlan::Nothing, false));
    // A second record of the same id replaces the first.
    r.discover(discovered_device("x", "Speaker 2", false, true, false));
    assert_eq!(r.discovered.len(), 1);
    assert_eq!(r.discovered[0].name, "Speaker 2");
    // A detail query within 3 s of the last one is held back.
    assert_eq!(r.handle_event(&added("y", c), true, 5_000), (DeviceEventPlan::QueryDetails, false));
    assert_eq!(r.handle_event(&added("y", c), true, 7_999), (DeviceEventPlan::Nothing, false));
}
