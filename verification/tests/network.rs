use magictaskbar::network::netsh::{location_restriction_verdict, GeolocationAccess, LocationStatusReading};
use magictaskbar::network::radio::preferred_interface_index;
use magictaskbar::network::connect::{
    check_connect_policy, connect_failure_message, connect_profile_name,
    get_profile_failure_message, infer_auth_enc_from_available_list, prepare_profile_rollback,
    requested_security, rollback_on_failure, validate_connect_request, ProfileRollback,
    SecurityCandidate,
};
use magictaskbar::network::events::{
    accept_event_snapshot, classify_notification, is_connected_only_snapshot, WlanEventTracker,
    WlanNotification,
};
use magictaskbar::network::netsh::{
    decode_netsh_text, is_wlan_location_permission_restricted_output, netsh_needs_fallback,
    netsh_wifi_networks, parse_netsh_interface, parse_netsh_networks, truncate_for_log,
    LocationRestrictionProbe,
};
use magictaskbar::network::profile::{
    auth_alg_to_profile_auth, band_from_center_freq_khz, bssid_to_string,
    calculate_network_score, cipher_alg_to_profile_enc, create_profile_xml, is_enterprise_auth,
    is_enterprise_auth_alg, normalize_authentication, normalize_encryption,
    parse_profile_autoconnect, parse_bssid, set_profile_connection_mode, xml_escape,
};
use magictaskbar::network::radio::{
    available_list_score, captive_portal_verdict, desired_radio_state, forget_profile_outcome,
    radio_switch_outcome, scan_poll_attempts, set_profile_failure_message, trimmed_profile_name,
    wlan_enabled_from_radio_states, PhyRadioState, RadioAttempt, ScanPoll,
};
use magictaskbar::network::share::{
    add_network_share_devices, remove_network_share_devices_by_ids,
    set_network_share_device_connected, update_network_share_devices, NetworkShareDevice,
};
use magictaskbar::network::wifi::{
    add_current_connection, assemble_wlan_networks, ssid_to_string, str_less, AvailableNetwork,
    BssEntry, CurrentConnection, WifiNetwork, WifiSecurity,
};

fn ssid(text: &[u8]) -> ([u8; 32], u32) {
    let mut b = [0u8; 32];
    b[..text.len()].copy_from_slice(text);
    (b, text.len() as u32)
}

fn bss(name: &str, link_quality: u32, rssi: i32, center_freq_khz: u32) -> BssEntry {
    let (ssid_bytes, ssid_len) = ssid(name.as_bytes());
    BssEntry { ssid_len, ssid_bytes, link_quality, rssi, center_freq_khz }
}

fn avail(name: &str, signal_quality: u32, secured: bool, auth: u32) -> AvailableNetwork {
    let (ssid_bytes, ssid_len) = ssid(name.as_bytes());
    AvailableNetwork {
        ssid_len,
        ssid_bytes,
        signal_quality,
        security_enabled: secured,
        default_auth_algorithm: auth,
        flagged_connected: false,
    }
}

fn net(name: &str, signal: u32, security: WifiSecurity, connected: bool) -> WifiNetwork {
    WifiNetwork { ssid: name.to_string(), signal, security, connected }
}

fn rows(list: &[WifiNetwork]) -> Vec<(String, u32, WifiSecurity, bool)> {
    list.iter().map(|n| (n.ssid.clone(), n.signal, n.security, n.connected)).collect()
}

#[test]
fn xml_special_characters_are_escaped() {
    assert_eq!(xml_escape("a&b<c>\"d'e"), "a&amp;b&lt;c&gt;&quot;d&apos;e");
    assert_eq!(xml_escape("plain"), "plain");
}

#[test]
fn security_labels_are_normalized() {
    assert_eq!(normalize_authentication(" wpa2_psk "), "WPA2PSK");
    assert_eq!(normalize_authentication("OPEN"), "open");
    assert_eq!(normalize_authentication("wpa2 enterprise"), "WPA2");
    assert_eq!(normalize_authentication("wpa3-sae"), "WPA3SAE");
    assert_eq!(normalize_authentication("Custom"), "Custom");
    assert_eq!(normalize_authentication("   "), "");
    assert_eq!(normalize_encryption("ccmp"), "AES");
    assert_eq!(normalize_encryption(" None"), "none");
    assert_eq!(normalize_encryption("tkip"), "TKIP");
    assert!(is_enterprise_auth("WPA2-Enterprise"));
    assert!(!is_enterprise_auth("WPA2PSK"));
    assert!(is_enterprise_auth_alg(3) && is_enterprise_auth_alg(6));
    assert!(!is_enterprise_auth_alg(7));
    assert_eq!(auth_alg_to_profile_auth(1), "open");
    assert_eq!(auth_alg_to_profile_auth(4), "WPAPSK");
    assert_eq!(auth_alg_to_profile_auth(99), "WPA2PSK");
    assert_eq!(cipher_alg_to_profile_enc(0), "none");
    assert_eq!(cipher_alg_to_profile_enc(2), "TKIP");
    assert_eq!(cipher_alg_to_profile_enc(4), "AES");
}

#[test]
fn open_profile_xml_has_no_key() {
    let xml = create_profile_xml("Cafe", "Cafe", "open", "none", Some("ignored"));
    let expected = "<?xml version=\"1.0\"?>\n<WLANProfile xmlns=\"http://www.microsoft.com/networking/WLAN/profile/v1\">\n  <name>Cafe</name>\n  <SSIDConfig>\n    <SSID>\n            <hex>43616665</hex>\n      <name>Cafe</name>\n    </SSID>\n  </SSIDConfig>\n  <connectionType>ESS</connectionType>\n    <connectionMode>auto</connectionMode>\n  <MSM>\n    <security>\n      <authEncryption>\n        <authentication>open</authentication>\n        <encryption>none</encryption>\n        <useOneX>false</useOneX>\n      </authEncryption>\n    </security>\n  </MSM>\n</WLANProfile>";
    assert_eq!(xml, expected);
}

#[test]
fn secured_profile_xml_carries_escaped_key() {
    let xml = create_profile_xml("Home<1>", "Home", "wpa2-psk", "ccmp", Some("p&ss"));
    assert!(xml.contains("<name>Home&lt;1&gt;</name>"));
    assert!(xml.contains("<hex>486F6D65</hex>"));
    assert!(xml.contains("<authentication>WPA2PSK</authentication>"));
    assert!(xml.contains("<encryption>AES</encryption>"));
    assert!(xml.contains("<keyMaterial>p&amp;ss</keyMaterial>"));
    assert!(xml.ends_with("</keyMaterial>\n      </sharedKey>\n    </security>\n  </MSM>\n</WLANProfile>"));
}

#[test]
fn autoconnect_is_read_case_insensitively() {
    assert!(parse_profile_autoconnect("<WLANProfile></WLANProfile>"));
    assert!(parse_profile_autoconnect("<connectionMode> Auto </connectionMode>"));
    assert!(!parse_profile_autoconnect("<CONNECTIONMODE>manual</CONNECTIONMODE>"));
    assert!(parse_profile_autoconnect("<connectionMode>manual"));
}

#[test]
fn setting_the_mode_then_reading_it_gives_it_back() {
    let created = create_profile_xml("Cafe", "Cafe", "open", "none", None);
    for enabled in [true, false] {
        let updated = set_profile_connection_mode(&created, enabled);
        assert_eq!(parse_profile_autoconnect(&updated), enabled);
    }
    let bare = "<WLANProfile><name>x</name><SSIDConfig/></WLANProfile>";
    let manual = set_profile_connection_mode(bare, false);
    assert_eq!(
        manual,
        "<WLANProfile><name>x</name>\n    <connectionMode>manual</connectionMode><SSIDConfig/></WLANProfile>"
    );
    assert!(!parse_profile_autoconnect(&manual));
    let typed = "<a><connectionType>ESS</connectionType></a>";
    assert_eq!(
        set_profile_connection_mode(typed, true),
        "<a><connectionType>ESS</connectionType>\n    <connectionMode>auto</connectionMode></a>"
    );
    assert_eq!(set_profile_connection_mode("x", true), "x\n    <connectionMode>auto</connectionMode>");
}

#[test]
fn bssids_print_and_parse() {
    assert_eq!(bssid_to_string(&[0xaa, 0x0b, 0xcc, 0x01, 0xee, 0xff]), "aa:0b:cc:01:ee:ff");
    assert_eq!(parse_bssid(" AA-0B-cc:01:ee:FF "), Ok([0xaa, 0x0b, 0xcc, 0x01, 0xee, 0xff]));
    assert_eq!(
        parse_bssid("aa:bb:cc"),
        Err("Invalid BSSID format: 'aa:bb:cc'".to_string())
    );
    assert_eq!(
        parse_bssid("aa:bb:zz:dd:ee:ff"),
        Err("Invalid BSSID hex at index 2: 'zz'".to_string())
    );
    assert_eq!(
        parse_bssid("aa:bb:cc:dd:ee:100"),
        Err("Invalid BSSID hex at index 5: '100'".to_string())
    );
}

#[test]
fn bands_and_scores() {
    assert_eq!(band_from_center_freq_khz(2_412_000), "2.4G");
    assert_eq!(band_from_center_freq_khz(5_180_000), "5G");
    assert_eq!(band_from_center_freq_khz(5_955_000), "6G");
    assert_eq!(band_from_center_freq_khz(900_000), "unknown");
    assert_eq!(calculate_network_score(70, "5G", true, -60, true), 105);
    assert_eq!(calculate_network_score(40, "2.4G", false, -75, false), 35);
    assert_eq!(calculate_network_score(40, "6G", false, -81, false), 45);
    assert_eq!(calculate_network_score(40, "6G", false, i32::MIN, false), 55);
    let on = calculate_network_score(50, "5G", false, -90, true);
    let off = calculate_network_score(50, "5G", false, -90, false);
    assert_eq!(on, off + 20);
}

#[test]
fn ssids_decode_as_utf8_or_gbk_and_are_trimmed() {
    let (b, n) = ssid(" Home ".as_bytes());
    assert_eq!(ssid_to_string(n, &b), "Home");
    let (g, gn) = ssid(&[0xd6, 0xd0, 0xce, 0xc4]);
    assert_eq!(ssid_to_string(gn, &g), "中文");
    let (u, un) = ssid("咖啡".as_bytes());
    assert_eq!(ssid_to_string(un, &u), "咖啡");
    assert_eq!(ssid_to_string(0, &b), "");
}

#[test]
fn the_wlan_list_has_one_row_per_ssid_connected_first() {
    let scan = vec![bss("Home", 70, -60, 5_180_000), bss("Cafe", 40, -75, 2_412_000)];
    let list = vec![
        avail("Cafe", 50, false, 1),
        avail("Home", 60, true, 7),
        avail("Home", 65, true, 7),
        avail("", 99, false, 1),
    ];
    let current = Some(CurrentConnection { ssid: "Home".to_string(), signal: 66, secured: true });
    let out = assemble_wlan_networks(&scan, &list, &current);
    assert_eq!(
        rows(&out),
        vec![
            ("Home".to_string(), 70, WifiSecurity::Secured, true),
            ("Cafe".to_string(), 50, WifiSecurity::Open, false),
        ]
    );
}

#[test]
fn the_current_connection_is_added_when_unlisted() {
    let current = Some(CurrentConnection { ssid: "Hidden".to_string(), signal: 40, secured: false });
    let out = add_current_connection(vec![net("Cafe", 50, WifiSecurity::Open, false)], &current);
    assert_eq!(
        rows(&out),
        vec![
            ("Hidden".to_string(), 40, WifiSecurity::Open, true),
            ("Cafe".to_string(), 50, WifiSecurity::Open, false),
        ]
    );
    let kept = add_current_connection(vec![net("Hidden", 10, WifiSecurity::Secured, true)], &current);
    assert_eq!(rows(&kept), vec![("Hidden".to_string(), 10, WifiSecurity::Secured, true)]);
    assert_eq!(add_current_connection(vec![], &None).len(), 0);
}

#[test]
fn ssids_order_like_strings() {
    assert!(str_less("Apple", "Banana"));
    assert!(str_less("Home", "Home2"));
    assert!(!str_less("Home", "Home"));
    assert!(!str_less("b", "B"));
    assert_eq!(WifiSecurity::Enterprise.as_str(), "enterprise");
}

const NETWORKS: &str = "Interface name : Wi-Fi
There are 2 networks currently visible.

SSID 1 : Home
    Network type            : Infrastructure
    Authentication          : WPA2-Personal
    Encryption              : CCMP
    BSSID 1                 : aa:bb:cc:dd:ee:ff
         Signal             : 80%
         Radio type         : 802.11ac
    BSSID 2                 : aa:bb:cc:dd:ee:00
         Signal             : 90%

SSID 2 : Office
    Network type            : Infrastructure
    Authentication          : WPA2-Enterprise
    Encryption              : CCMP
    BSSID 1                 : 11:22:33:44:55:66
         Signal             : 40%

SSID 3 : Home
    Authentication          : Open
         Signal             : 20%
";

const INTERFACE: &str = "    Name                   : Wi-Fi
    State                  : connected
    SSID                   : Home
    BSSID                  : aa:bb:cc:dd:ee:ff
    Signal                 : 88%
";

#[test]
fn netsh_listing_gives_one_row_per_ssid_with_best_signal() {
    let rows: Vec<(String, u32, WifiSecurity)> = parse_netsh_networks(NETWORKS);
    assert_eq!(
        rows,
        vec![
            ("Home".to_string(), 90, WifiSecurity::Secured),
            ("Office".to_string(), 40, WifiSecurity::Enterprise),
        ]
    );
    assert!(parse_netsh_networks("").is_empty());
}

#[test]
fn netsh_interface_names_the_connection() {
    assert_eq!(parse_netsh_interface(INTERFACE), Some(("Home".to_string(), 88)));
    assert_eq!(
        parse_netsh_interface("    State : disconnected\n    SSID : Home\n"),
        None
    );
}

#[test]
fn netsh_networks_are_marked_with_the_connection() {
    let out = netsh_wifi_networks(LocationRestrictionProbe::Allowed, NETWORKS, INTERFACE, None)
        .unwrap();
    assert_eq!(
        rows(&out),
        vec![
            ("Home".to_string(), 88, WifiSecurity::Secured, true),
            ("Office".to_string(), 40, WifiSecurity::Enterprise, false),
        ]
    );
}

#[test]
fn location_privacy_blocks_an_empty_listing() {
    let msg = "Network shell commands need location permission to access WLAN information.";
    assert!(is_wlan_location_permission_restricted_output(msg));
    assert!(!is_wlan_location_permission_restricted_output("   "));
    assert!(is_wlan_location_permission_restricted_output("请在 ms-settings:privacy-location 打开"));
    let blocked = netsh_wifi_networks(LocationRestrictionProbe::Unknown, msg, "", None);
    assert_eq!(blocked.map(|v| v.len()), Err("WLAN_LOCATION_PERMISSION_REQUIRED".to_string()));
    let restricted = netsh_wifi_networks(LocationRestrictionProbe::Restricted, "", "", None);
    assert_eq!(restricted.map(|v| v.len()), Err("WLAN_LOCATION_PERMISSION_REQUIRED".to_string()));
    let allowed = netsh_wifi_networks(LocationRestrictionProbe::Allowed, msg, "", None).unwrap();
    assert!(allowed.is_empty());
}

#[test]
fn the_plain_listing_is_used_when_the_detailed_one_has_no_row() {
    assert!(netsh_needs_fallback("Some text without networks"));
    assert!(!netsh_needs_fallback("   "));
    assert!(!netsh_needs_fallback(NETWORKS));
    let plain = "SSID 1 : Guest\n    Authentication : Open\n    Signal : 30%\n";
    let out = netsh_wifi_networks(
        LocationRestrictionProbe::Allowed,
        "Some text without networks",
        "",
        Some(plain),
    )
    .unwrap();
    assert_eq!(rows(&out), vec![("Guest".to_string(), 30, WifiSecurity::Open, false)]);
}

#[test]
fn netsh_bytes_decode_by_their_encoding() {
    assert_eq!(decode_netsh_text(b"SSID 1 : Home"), "SSID 1 : Home");
    let mut utf16 = vec![0xff, 0xfe];
    for u in "SSID".encode_utf16() {
        utf16.extend_from_slice(&u.to_le_bytes());
    }
    assert_eq!(decode_netsh_text(&utf16), "SSID");
    let mut bare16 = Vec::new();
    for u in "ssid x".encode_utf16() {
        bare16.extend_from_slice(&u.to_le_bytes());
    }
    assert_eq!(decode_netsh_text(&bare16), "ssid x");
    assert_eq!(decode_netsh_text(&[0xd0, 0xc5, 0xba, 0xc5]), "信号");
    assert_eq!(decode_netsh_text(&[]), "");
}

#[test]
fn log_text_is_cut_with_an_ellipsis() {
    assert_eq!(truncate_for_log("  short  ", 20), "short");
    assert_eq!(truncate_for_log("abcdef", 3), "abc…");
    assert_eq!(truncate_for_log("ab   cdef", 4), "ab  …");
}

#[test]
fn wlan_notifications_are_classified() {
    assert_eq!(classify_notification(0x10, 0, 4, Some(77)), Some(WlanNotification::SignalChanged(77)));
    assert_eq!(classify_notification(0x10, 0, 8, Some(77)), None);
    assert_eq!(classify_notification(0x08, 10, 0, None), Some(WlanNotification::Connected));
    assert_eq!(classify_notification(0x08, 21, 0, None), Some(WlanNotification::Disconnected));
    assert_eq!(classify_notification(0x08, 5, 0, None), None);
    assert_eq!(classify_notification(0x01, 10, 0, None), None);
}

#[test]
fn repeated_notifications_read_the_list_once() {
    let mut t = WlanEventTracker::new();
    assert_eq!(t.handle_notification(WlanNotification::Connected), Some(true));
    assert_eq!(t.handle_notification(WlanNotification::Connected), None);
    assert_eq!(t.handle_notification(WlanNotification::SignalChanged(50)), Some(true));
    assert_eq!(t.handle_notification(WlanNotification::SignalChanged(50)), None);
    assert_eq!(t.handle_notification(WlanNotification::Disconnected), Some(false));
    assert_eq!(t.last_signal, None);
    assert_eq!(t.last_connected_ssid, None);
    assert_eq!(t.handle_notification(WlanNotification::Disconnected), None);
    assert_eq!(t.handle_notification(WlanNotification::Other), None);
}

#[test]
fn snapshots_remember_and_patch_the_connected_row() {
    let mut t = WlanEventTracker::new();
    t.handle_notification(WlanNotification::Connected);
    let list = vec![net("Cafe", 30, WifiSecurity::Open, false), net("Home", 60, WifiSecurity::Secured, true)];
    let sent = t.apply_snapshot(WlanNotification::Connected, list);
    assert_eq!(sent.len(), 2);
    assert_eq!(t.last_connected_ssid, Some("Home".to_string()));
    assert_eq!(t.last_signal, Some(60));
    t.handle_notification(WlanNotification::SignalChanged(75));
    let list2 = vec![net("Home", 60, WifiSecurity::Secured, false), net("Cafe", 30, WifiSecurity::Open, false)];
    let patched = t.apply_snapshot(WlanNotification::SignalChanged(75), list2);
    assert_eq!(
        rows(&patched),
        vec![
            ("Home".to_string(), 75, WifiSecurity::Secured, true),
            ("Cafe".to_string(), 30, WifiSecurity::Open, false),
        ]
    );
}

#[test]
fn connected_only_snapshots_wait_for_the_full_list() {
    let only = vec![net("Home", 60, WifiSecurity::Secured, true)];
    let full = vec![net("Home", 60, WifiSecurity::Secured, true), net("Cafe", 30, WifiSecurity::Open, false)];
    assert!(is_connected_only_snapshot(&only));
    assert!(!is_connected_only_snapshot(&full));
    assert!(!accept_event_snapshot(true, &only));
    assert!(accept_event_snapshot(false, &only));
    assert!(accept_event_snapshot(true, &full));
}

fn dev(id: &str, name: &str, connected: bool) -> NetworkShareDevice {
    NetworkShareDevice { device_id: id.to_string(), name: name.to_string(), connected }
}

fn devs(v: &[NetworkShareDevice]) -> Vec<(String, String, bool)> {
    v.iter().map(|d| (d.device_id.clone(), d.name.clone(), d.connected)).collect()
}

#[test]
fn share_devices_keep_their_connection_state() {
    let mut reg = vec![dev("a", "A", true)];
    update_network_share_devices(&mut reg, vec![dev("a", "A2", false), dev("b", "B", false)]);
    assert_eq!(devs(&reg), vec![("a".into(), "A2".into(), true), ("b".into(), "B".into(), false)]);
    assert!(add_network_share_devices(&mut reg, vec![dev("c", "C", false), dev("a", "x", false)]));
    assert_eq!(reg.len(), 3);
    assert!(!add_network_share_devices(&mut reg, vec![dev("a", "x", false)]));
    assert!(set_network_share_device_connected(&mut reg, "b", true));
    assert!(!set_network_share_device_connected(&mut reg, "b", true));
    assert!(!set_network_share_device_connected(&mut reg, "zz", true));
    assert!(remove_network_share_devices_by_ids(&mut reg, vec!["a".to_string()]));
    assert!(!remove_network_share_devices_by_ids(&mut reg, vec!["a".to_string()]));
    assert_eq!(devs(&reg), vec![("b".into(), "B".into(), true), ("c".into(), "C".into(), false)]);
}

#[test]
fn connect_requests_are_validated() {
    assert_eq!(validate_connect_request("  ", None), Err("SSID is empty".to_string()));
    assert_eq!(validate_connect_request(" Home ", None), Ok(("Home".to_string(), None)));
    assert_eq!(validate_connect_request("Home", Some("  ")), Ok(("Home".to_string(), None)));
    assert_eq!(
        validate_connect_request("Home", Some("00:11:22:33:44:55")),
        Ok(("Home".to_string(), Some([0, 0x11, 0x22, 0x33, 0x44, 0x55])))
    );
    assert_eq!(
        validate_connect_request("Home", Some("00:11")),
        Err("Invalid BSSID format: '00:11'".to_string())
    );
    assert_eq!(connect_profile_name(None, " Home "), Ok("Home".to_string()));
    assert_eq!(connect_profile_name(Some("Work"), "Home"), Ok("Work".to_string()));
    assert_eq!(connect_profile_name(Some(" "), "Home"), Err("profileName/SSID is empty".to_string()));
    assert_eq!(requested_security(Some(" WPA2PSK "), Some("AES")), Some(("WPA2PSK".to_string(), "AES".to_string())));
    assert_eq!(requested_security(Some("WPA2PSK"), None), None);
}

fn cand(name: &str, connectable: bool, secured: bool, signal: u32, auth: u32, cipher: u32) -> SecurityCandidate {
    let (ssid_bytes, ssid_len) = ssid(name.as_bytes());
    SecurityCandidate { ssid_len, ssid_bytes, connectable, security_enabled: secured, signal, auth_alg: auth, cipher_alg: cipher }
}

#[test]
fn security_is_inferred_from_the_best_candidate() {
    let c = vec![
        cand("Home", true, false, 90, 1, 0),
        cand("Home", true, true, 40, 7, 4),
        cand("Home", false, true, 99, 4, 2),
        cand("Other", true, true, 99, 4, 2),
    ];
    assert_eq!(infer_auth_enc_from_available_list(&c, "Home"), Ok(("WPA2PSK".to_string(), "AES".to_string())));
    let open = vec![cand("Cafe", true, false, 50, 1, 0)];
    assert_eq!(infer_auth_enc_from_available_list(&open, "Cafe"), Ok(("open".to_string(), "none".to_string())));
    assert_eq!(
        infer_auth_enc_from_available_list(&open, "Gone"),
        Err("Could not infer auth/encryption for ssid='Gone' from available network list".to_string())
    );
}

#[test]
fn connect_policy_by_security() {
    assert_eq!(check_connect_policy("Open", None), Ok(()));
    assert_eq!(
        check_connect_policy("WPA2", Some("secret")),
        Err("enterprise networks must be connected from Windows Wi-Fi settings".to_string())
    );
    assert_eq!(
        check_connect_policy("WPA2PSK", Some("  ")),
        Err("password is required for secured networks (authorized=false)".to_string())
    );
    assert_eq!(check_connect_policy("WPA2PSK", Some("secret")), Ok(()));
}

#[test]
fn rollback_plans_follow_the_profile_read() {
    assert!(matches!(
        prepare_profile_rollback("Home", Ok(Some("<xml/>".to_string()))),
        Ok(ProfileRollback::Restore(x)) if x == "<xml/>"
    ));
    assert!(matches!(prepare_profile_rollback("Home", Err(1168)), Ok(ProfileRollback::DeleteCreated)));
    assert!(matches!(prepare_profile_rollback("Home", Ok(None)), Ok(ProfileRollback::Nothing)));
    assert!(matches!(
        prepare_profile_rollback("Home", Err(5)),
        Err(m) if m == "WlanGetProfile failed while preparing rollback for profile='Home': 5"
    ));
    assert!(matches!(rollback_on_failure(true, ProfileRollback::DeleteCreated), ProfileRollback::Nothing));
    assert!(matches!(rollback_on_failure(false, ProfileRollback::DeleteCreated), ProfileRollback::DeleteCreated));
    assert_eq!(connect_failure_message(1223), "WlanConnect failed: 1223");
    assert_eq!(get_profile_failure_message("Home", 87), "WlanGetProfile failed for profile='Home': 87");
}

#[test]
fn radio_states_and_switch_outcomes() {
    let off = PhyRadioState { software: 2, hardware: 1 };
    let on = PhyRadioState { software: 1, hardware: 1 };
    assert!(wlan_enabled_from_radio_states(&vec![vec![off], vec![off, on]]));
    assert!(!wlan_enabled_from_radio_states(&vec![vec![off]]));
    assert!(!wlan_enabled_from_radio_states(&vec![]));
    assert_eq!(desired_radio_state(true), 1);
    assert_eq!(desired_radio_state(false), 2);
    assert_eq!(radio_switch_outcome(&[RadioAttempt::Applied(5), RadioAttempt::Applied(0)]), Ok(()));
    assert_eq!(
        radio_switch_outcome(&[RadioAttempt::Applied(5), RadioAttempt::QueryFailed(7), RadioAttempt::Applied(0x48)]),
        Err("WlanSetInterface(wlan_intf_opcode_radio_state) failed: Some(72)".to_string())
    );
    assert_eq!(
        radio_switch_outcome(&[]),
        Err("WlanSetInterface(wlan_intf_opcode_radio_state) failed: None".to_string())
    );
}

#[test]
fn profile_names_and_deletion_outcomes() {
    assert_eq!(trimmed_profile_name("  Home "), Ok("Home".to_string()));
    assert_eq!(trimmed_profile_name(" "), Err("profileName is empty".to_string()));
    assert_eq!(forget_profile_outcome("Home", 0), Ok(()));
    assert_eq!(forget_profile_outcome("Home", 1168), Ok(()));
    assert_eq!(forget_profile_outcome("Home", 5), Err("WlanDeleteProfile failed for profile='Home': 5".to_string()));
    assert_eq!(set_profile_failure_message(1206, 3, "bad xml"), "WlanSetProfile failed: 1206, reason=3 (bad xml)");
}

#[test]
fn scan_polling_stops_when_the_list_settles() {
    assert_eq!(scan_poll_attempts(true), 5);
    assert_eq!(scan_poll_attempts(false), 1);
    let list = vec![avail("A", 1, false, 1), avail("B", 1, false, 1), avail("A", 2, false, 1), avail("", 3, false, 1)];
    assert_eq!(available_list_score(&list), (2, 4));
    let mut p = ScanPoll::new(true);
    assert_eq!(p.observe((2, 4)), (true, false));
    assert_eq!(p.observe((3, 5)), (true, false));
    assert_eq!(p.observe((3, 5)), (false, true));
    let mut q = ScanPoll::new(false);
    assert_eq!(q.observe((4, 4)), (true, false));
    assert_eq!(q.observe((4, 4)), (false, false));
}

#[test]
fn captive_portal_verdicts() {
    assert!(captive_portal_verdict(302, None));
    assert!(!captive_portal_verdict(204, Some("x")));
    assert!(!captive_portal_verdict(500, Some("x")));
    assert!(!captive_portal_verdict(200, Some(" Microsoft Connect Test\n")));
    assert!(captive_portal_verdict(200, Some("<html>login</html>")));
    assert!(!captive_portal_verdict(200, None));
}

#[test]
fn the_connected_interface_is_preferred() {
    assert_eq!(preferred_interface_index(&vec![false, true, true]), Ok(1));
    assert_eq!(preferred_interface_index(&vec![false, false]), Ok(0));
    assert_eq!(
        preferred_interface_index(&vec![]),
        Err("No WLAN interface found".to_string())
    );
}

#[test]
fn location_probe_verdicts() {
    assert_eq!(location_restriction_verdict(None, LocationStatusReading::Working), LocationRestrictionProbe::Unknown);
    assert_eq!(
        location_restriction_verdict(Some(GeolocationAccess::Denied), LocationStatusReading::Working),
        LocationRestrictionProbe::Restricted
    );
    assert_eq!(
        location_restriction_verdict(Some(GeolocationAccess::Unspecified), LocationStatusReading::Disabled),
        LocationRestrictionProbe::Unknown
    );
    for status in [LocationStatusReading::Disabled, LocationStatusReading::NotAvailable, LocationStatusReading::NoData] {
        assert_eq!(
            location_restriction_verdict(Some(GeolocationAccess::Allowed), status),
            LocationRestrictionProbe::Restricted
        );
    }
    for status in [LocationStatusReading::Working, LocationStatusReading::Unreadable] {
        assert_eq!(
            location_restriction_verdict(Some(GeolocationAccess::Allowed), status),
            LocationRestrictionProbe::Allowed
        );
    }
}
