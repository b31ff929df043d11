use magictaskbar::input_method::{
    active_profile_index, attempt_limit, dedup_input_profiles, format_hkl, get_ime_mode,
    get_installed_keyboard_layouts, get_last_active_input_profile_cached, guid_to_string,
    handle_tsf_change_from_service, hkl_to_u64, hotkey_probe_delays, is_english_keyboard_layout,
    keyboard_key_up, keyboard_klid_from_langid, keyboard_layout_flags, langid_from_hkl,
    needs_layout_switch, normalize_klid, pcwstr_from_str, preload_layout_candidates,
    primary_langid, probe_reached, profile_matches_active, resolve_target_profile_by_guid, resolve_in_enumeration, activation_route, ActivationRoute,
    target_not_found, Guid, TargetLookup, TsfChange, TsfProfile,
};

fn guid() -> Guid {
    Guid { data1: 0x1a2b3c4d, data2: 0x0e0f, data3: 0xa1, data4: [0, 1, 0xab, 0xcd, 2, 3, 4, 0xff] }
}

fn profile(guid_profile: &str, langid: u16, name: &str) -> TsfProfile {
    TsfProfile {
        clsid: "{1a2b3c4d-0e0f-00a1-0001-abcd020304ff}".to_string(),
        langid,
        guid_profile: guid_profile.to_string(),
        name: name.to_string(),
        description: String::new(),
    }
}

#[test]
fn guids_print_in_registry_form() {
    assert_eq!(guid_to_string(&guid()), "{1a2b3c4d-0e0f-00a1-0001-abcd020304ff}");
    let p = profile("{1A2B3C4D-0E0F-00A1-0001-ABCD020304FF}", 0x0804, "Pinyin");
    assert!(profile_matches_active(&p, 0x0804, &guid(), &guid()));
    assert!(!profile_matches_active(&p, 0x0409, &guid(), &guid()));
}

#[test]
fn keyboard_layout_handles_and_languages() {
    assert_eq!(hkl_to_u64(0x04090409), 0x04090409);
    assert_eq!(hkl_to_u64(-1), u64::MAX);
    assert_eq!(format_hkl(0x04090409), "0x0000000004090409");
    assert_eq!(format_hkl(-1), "0xFFFFFFFFFFFFFFFF");
    assert_eq!(langid_from_hkl(0xf0020409), 0x0409);
    assert_eq!(primary_langid(0x0809), 0x09);
    assert_eq!(keyboard_klid_from_langid(0x0409), "00000409");
    assert_eq!(keyboard_klid_from_langid(0xabc), "00000ABC");
    assert!(is_english_keyboard_layout(0x0809));
    assert!(!is_english_keyboard_layout(0x0804));
    assert!(needs_layout_switch(0x0804, 0x0409));
    assert!(!needs_layout_switch(0x0809, 0x0409));
    assert_eq!(keyboard_layout_flags(&[0x1, 0x100, 0x1]), 0x101);
    assert_eq!(keyboard_layout_flags(&[]), 0);
}

#[test]
fn layout_ids_are_checked_and_upper_cased() {
    assert_eq!(normalize_klid(" 0000040a "), Ok("0000040A".to_string()));
    assert_eq!(normalize_klid("409"), Err("Invalid keyboard layout id: 409".to_string()));
    assert_eq!(normalize_klid("0000040g"), Err("Invalid keyboard layout id: 0000040g".to_string()));
}

#[test]
fn wide_strings_end_with_a_nul() {
    assert_eq!(pcwstr_from_str("ab"), vec![0x61, 0x62, 0]);
    assert_eq!(pcwstr_from_str(""), vec![0]);
    assert_eq!(pcwstr_from_str("😀"), vec![0xd83d, 0xde00, 0]);
}

#[test]
fn profiles_are_found_and_deduplicated_by_guid() {
    let list = vec![
        profile("{A}", 0x0804, "one"),
        profile("{B}", 0x0409, "two"),
        profile("{a}", 0x0804, "three"),
    ];
    assert_eq!(active_profile_index(&list, "{a}"), Some(0));
    assert_eq!(active_profile_index(&list, "{b}"), Some(1));
    assert_eq!(active_profile_index(&list, "{c}"), None);
    let d = dedup_input_profiles(&list);
    let names: Vec<&str> = d.iter().map(|p| p.name.as_str()).collect();
    assert_eq!(names, vec!["one", "two"]);
}

#[test]
fn switch_targets_are_resolved() {
    let list = vec![profile("{A}", 0x0804, "one")];
    assert!(matches!(resolve_target_profile_by_guid(&list, "  "), Err(e) if e == "Input method target guid_profile is empty"));
    assert!(matches!(resolve_target_profile_by_guid(&list, " {a} "), Ok(TargetLookup::Found(p)) if p.name == "one"));
    assert!(matches!(resolve_target_profile_by_guid(&list, " {z} "), Ok(TargetLookup::Unknown(t)) if t == "{z}"));
    assert_eq!(target_not_found("{z}"), "Input method guid_profile not found: {z}");
    assert_eq!(attempt_limit(2), 3);
    assert_eq!(attempt_limit(9), 6);
    assert_eq!(hotkey_probe_delays(), vec![120, 220, 360]);
    let p = profile("{A}", 0x0804, "one");
    assert!(probe_reached(Some(&p), "{a}"));
    assert!(!probe_reached(None, "{a}"));
}

#[test]
fn profile_changes_are_reported_once() {
    let mut last = -1;
    assert_eq!(handle_tsf_change_from_service(&mut last, 1, false, 3), TsfChange::Report(1));
    assert_eq!(last, 1);
    assert_eq!(handle_tsf_change_from_service(&mut last, 1, false, 3), TsfChange::Ignore);
    assert_eq!(handle_tsf_change_from_service(&mut last, 2, true, 3), TsfChange::Ignore);
    assert_eq!(handle_tsf_change_from_service(&mut last, 5, false, 3), TsfChange::Refresh(5));
    assert_eq!(last, 5);
    assert_eq!(handle_tsf_change_from_service(&mut last, -1, false, 3), TsfChange::Ignore);
    assert_eq!(keyboard_key_up(&mut last, 0, 3), Some(0));
    assert_eq!(keyboard_key_up(&mut last, 0, 3), None);
    assert_eq!(keyboard_key_up(&mut last, 7, 3), None);
    assert_eq!(last, 7);
    let list = vec![profile("{A}", 0x0804, "one")];
    assert_eq!(get_last_active_input_profile_cached(0, &list).map(|p| p.name), Some("one".to_string()));
    assert!(get_last_active_input_profile_cached(1, &list).is_none());
    assert!(get_last_active_input_profile_cached(-1, &list).is_none());
}

#[test]
fn preloaded_english_layouts_in_order() {
    let values = vec![
        ("2".to_string(), "00000809".to_string()),
        ("1".to_string(), "00000409".to_string()),
        ("x".to_string(), "00000c09".to_string()),
        ("3".to_string(), "00000804".to_string()),
        ("4".to_string(), "00000409".to_string()),
    ];
    assert_eq!(
        preload_layout_candidates(&values),
        vec![("00000409".to_string(), 0x0409), ("00000809".to_string(), 0x0809)]
    );
    let cands = vec![
        ("00000409".to_string(), 0x0409, Some("US".to_string())),
        ("00000809".to_string(), 0x0809, Some("  ".to_string())),
    ];
    let layouts = get_installed_keyboard_layouts(&cands, 0x0809);
    assert_eq!(layouts[0].description, "US");
    assert_eq!(layouts[1].description, "Keyboard Layout 00000809");
    assert_eq!(layouts[0].hkl, "0x0000000000000409");
    assert!(!layouts[0].active && layouts[1].active);
    let mode = get_ime_mode();
    assert_eq!((mode.mode.as_str(), mode.open, mode.conversion), ("eng", false, 0));
}

#[test]
fn a_guid_unknown_at_first_is_searched_in_the_new_enumeration() {
    let list = vec![profile("{A}", 0x0804, "one"), profile("{B}", 0x0409, "two")];
    let found = resolve_in_enumeration(&list, "{b}").unwrap();
    assert_eq!(found.name, "two");
    assert_eq!(found.langid, 0x0409);
    assert_eq!(
        resolve_in_enumeration(&list, "{C}").err().unwrap(),
        "Input method guid_profile not found: {C}"
    );
    assert_eq!(
        resolve_in_enumeration(&Vec::new(), "{A}").err().unwrap(),
        "Input method guid_profile not found: {A}"
    );
}

#[test]
fn activation_goes_through_the_service_when_it_runs() {
    assert!(matches!(activation_route(true), ActivationRoute::ViaService));
    assert!(matches!(activation_route(false), ActivationRoute::ByHotkey));
}
