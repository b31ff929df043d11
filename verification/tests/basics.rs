use magictaskbar::constants::{
    extract_launcher_arg_value, find_launcher_by_exe, find_launcher_by_umid, join_path,
    multi_app_launchers, VarCommon,
};
use magictaskbar::geometry::{are_overlaped, Rect};
use magictaskbar::identity::{
    match_kind_score, normalize_identity, score_identity_match, tokenize_identity,
    StartMenuMatchKind,
};
use magictaskbar::utils::{
    date_based_hex_id, path_based_hash_id, umid_based_hash_id, ActiveLocks, PerformanceHelper,
};
use magictaskbar::whitelist::{
    get_mapped_process_name, icon_stem_of, init_icon_whitelist, is_app_or_window_whitelisted,
    is_app_whitelisted, is_generic_installer, is_process_whitelisted, is_window_whitelisted,
    parse_whitelist_config,
};

fn rect(left: i32, top: i32, right: i32, bottom: i32) -> Rect {
    Rect { left, top, right, bottom }
}

#[test]
fn overlapping_rectangles_overlap_both_ways() {
    let a = rect(0, 0, 10, 10);
    let b = rect(5, 5, 15, 15);
    assert!(are_overlaped(&a, &b));
    assert!(are_overlaped(&b, &a));
    assert!(are_overlaped(&a, &a));
}

#[test]
fn touching_or_zero_rectangles_do_not_overlap() {
    let a = rect(0, 0, 10, 10);
    assert!(!are_overlaped(&a, &rect(10, 0, 20, 10)));
    assert!(!are_overlaped(&a, &rect(0, 10, 10, 20)));
    assert!(!are_overlaped(&a, &rect(0, 0, 0, 0)));
    assert!(!are_overlaped(&rect(0, 0, 0, 0), &rect(0, 0, 0, 0)));
}

const WHITELIST: &str = "// icon whitelist
let process = [
  \"Code.exe\",
  explorer.exe,
  {name: \"Steam.exe\", requires_backplate: true},
  {
    name: qq.exe,
    requires_backplate: true,
  },
];
let window = [
  WindowWhitelistEntry {
    class: \"CabinetWClass\",
    titles: [
      \"Downloads\",
    ],
    requires_backplate: true,
  },
]
";

#[test]
fn whitelist_config_is_read_entry_by_entry() {
    let w = parse_whitelist_config(WHITELIST).expect("readable");
    let names: Vec<(&str, bool)> =
        w.process.iter().map(|e| (e.name.as_str(), e.requires_backplate)).collect();
    assert_eq!(
        names,
        vec![("Code.exe", false), ("explorer.exe", false), ("Steam.exe", true), ("qq.exe", true)]
    );
    assert_eq!(w.window.len(), 1);
    assert_eq!(w.window[0].class, "CabinetWClass");
    assert_eq!(w.window[0].titles, vec!["Downloads".to_string()]);
    assert!(w.window[0].requires_backplate);
}

#[test]
fn whitelist_lookups_ignore_case_of_process_names() {
    let w = parse_whitelist_config(WHITELIST).unwrap();
    assert_eq!(is_process_whitelisted(&w, "CODE.EXE"), (true, false));
    assert_eq!(is_process_whitelisted(&w, "steam.exe"), (true, true));
    assert_eq!(is_process_whitelisted(&w, "notepad.exe"), (false, false));
    assert!(is_app_whitelisted(&w, "QQ.exe"));
    assert!(!is_app_whitelisted(&w, "qq"));
}

#[test]
fn window_whitelist_matches_class_and_title() {
    let w = parse_whitelist_config(WHITELIST).unwrap();
    assert_eq!(is_window_whitelisted(&w, "cabinetwclass", "My Downloads"), (true, true));
    assert_eq!(is_window_whitelisted(&w, "CabinetWClass", "Documents"), (false, false));
    assert_eq!(is_window_whitelisted(&w, "Notepad", "Downloads"), (false, false));
    assert_eq!(
        is_app_or_window_whitelisted(&w, "explorer.exe", "Other", "x"),
        (true, false)
    );
    assert_eq!(
        is_app_or_window_whitelisted(&w, "other.exe", "CabinetWClass", "Downloads"),
        (true, true)
    );
}

#[test]
fn missing_whitelist_file_gives_empty_lists_and_lone_quote_fails() {
    let empty = init_icon_whitelist(None).unwrap();
    assert!(empty.process.is_empty() && empty.window.is_empty());
    let bad = "let process = [\n  \",\n];\n";
    assert!(parse_whitelist_config(bad).is_none());
    assert!(init_icon_whitelist(Some(bad)).is_none());
}

#[test]
fn generic_installers_and_mapped_names() {
    assert!(is_generic_installer("Setup.EXE"));
    assert!(is_generic_installer("launcher.exe"));
    assert!(!is_generic_installer("notepad.exe"));
    assert_eq!(get_mapped_process_name("Microsoft Edge"), "msedge");
    assert_eq!(get_mapped_process_name("MSEDGE"), "msedge");
    assert_eq!(get_mapped_process_name("Chrome"), "Chrome");
}

#[test]
fn icon_stem_drops_the_extension() {
    assert_eq!(icon_stem_of("code.exe"), "code");
    assert_eq!(icon_stem_of("a.b.c"), "a");
    assert_eq!(icon_stem_of(".hidden"), ".hidden");
    assert_eq!(icon_stem_of("noext"), "noext");
}

#[test]
fn identities_split_into_lowercase_words() {
    assert_eq!(normalize_identity("SomeVendor.App2Go"), "some vendor app2 go");
    assert_eq!(normalize_identity("  __ "), "");
    assert_eq!(
        tokenize_identity("SomeVendor.App2Go X"),
        vec!["some".to_string(), "vendor".into(), "app2".into(), "go".into()]
    );
}

#[test]
fn identity_scores_count_equality_containment_and_shared_tokens() {
    let norm = normalize_identity("SomeVendor.App2Go");
    let toks = tokenize_identity("SomeVendor.App2Go");
    assert_eq!(score_identity_match(&norm, &toks, "Some Vendor App2 Go"), 14);
    assert_eq!(score_identity_match(&norm, &toks, "App2Go"), 6);
    assert_eq!(score_identity_match(&norm, &toks, "x"), 0);
    assert_eq!(score_identity_match(&norm, &toks, ""), 0);
    assert_eq!(match_kind_score(StartMenuMatchKind::ExactUmid), 1000);
    assert_eq!(match_kind_score(StartMenuMatchKind::TargetSuffix), 500);
    assert_eq!(match_kind_score(StartMenuMatchKind::FuzzyIdentity), 0);
}

#[test]
fn ids_are_lowercase_hex() {
    assert_eq!(date_based_hex_id(255), "ff");
    assert_eq!(date_based_hex_id(0), "0");
    assert_eq!(date_based_hex_id(0x1234abcd), "1234abcd");
    let id = umid_based_hash_id("Microsoft.WindowsTerminal");
    assert!(!id.is_empty());
    assert!(id.chars().all(|c| c.is_ascii_digit() || ('a'..='f').contains(&c)));
}

#[test]
fn path_ids_ignore_case_but_not_content() {
    let a = path_based_hash_id("C:\\Windows\\Notepad.exe");
    let b = path_based_hash_id("c:\\windows\\notepad.EXE");
    let c = path_based_hash_id("C:\\Windows\\Write.exe");
    assert_eq!(a, b);
    assert_ne!(a, c);
    assert_eq!(umid_based_hash_id("c:\\windows\\notepad.exe"), a);
}

#[test]
fn timings_are_kept_by_name() {
    let mut p = PerformanceHelper::new();
    p.start("load", 100);
    p.start("draw", 150);
    assert_eq!(p.elapsed("load", 160), 60);
    p.start("load", 200);
    assert_eq!(p.elapsed("load", 260), 60);
    assert_eq!(p.elapsed("draw", 100), 0);
    p.end("load");
    assert_eq!(p.elapsed("draw", 151), 1);
}

#[test]
fn lock_tickets_count_up_and_tracing_off_registers_nothing() {
    let mut locks = ActiveLocks::new();
    let t0 = locks
        .register_lock_acquire(true, "settings", "write", "src/a.rs", 10, "1", None, 5)
        .unwrap();
    let t1 = locks
        .register_lock_acquire(true, "cache", "read", "src/b.rs", 20, "2", Some("main"), 6)
        .unwrap();
    assert_eq!((t0.key.as_str(), t0.ticket), ("settings", 0));
    assert_eq!((t1.key.as_str(), t1.ticket), ("cache", 1));
    assert!(locks
        .register_lock_acquire(false, "x", "read", "src/c.rs", 1, "3", None, 7)
        .is_none());
    locks.release(&t0);
    let t2 = locks
        .register_lock_acquire(true, "settings", "write", "src/a.rs", 11, "1", None, 8)
        .unwrap();
    assert_eq!(t2.ticket, 2);
}

#[test]
fn held_locks_are_reported_by_key() {
    let mut locks = ActiveLocks::new();
    assert_eq!(locks.dump_active_locks(0), "  <no active locks>\n");
    locks.register_lock_acquire(true, "settings", "write", "src/a.rs", 10, "1", None, 5);
    let t = locks
        .register_lock_acquire(true, "cache", "read", "src/b.rs", 20, "2", Some("main"), 6)
        .unwrap();
    locks.register_lock_acquire(true, "settings", "read", "src/c.rs", 3, "3", Some("io"), 1000);
    assert_eq!(
        locks.dump_active_locks(2011),
        "  cache:\n    [thread=2|main] kind=read acquired at src/b.rs:20 held_for=2.005s\n  settings:\n    [thread=1|unnamed] kind=write acquired at src/a.rs:10 held_for=2.006s\n    [thread=3|io] kind=read acquired at src/c.rs:3 held_for=1.011s\n"
    );
    locks.release(&t);
    assert_eq!(
        locks.dump_active_locks(999),
        "  settings:\n    [thread=1|unnamed] kind=write acquired at src/a.rs:10 held_for=0.994s\n    [thread=3|io] kind=read acquired at src/c.rs:3 held_for=0.000s\n"
    );
}

#[test]
fn launchers_are_found_by_exe_and_umid() {
    let all = multi_app_launchers();
    assert_eq!(all.len(), 1);
    let l = find_launcher_by_exe("AndrowsLauncher.EXE").unwrap();
    assert_eq!(l.arg_key, "--launch-pkg-name");
    assert!(find_launcher_by_exe("androws.exe").is_none());
    let u = find_launcher_by_umid("Tencent.Androws.Androws.com.tencent.mm").unwrap();
    assert_eq!(u.exe_name, "androwslauncher.exe");
    assert!(find_launcher_by_umid("Tencent.Androws.com").is_none());
}

#[test]
fn launcher_argument_values() {
    let key = "--launch-pkg-name";
    assert_eq!(
        extract_launcher_arg_value("--launch-pkg-name com.tencent.mm --x", key),
        Some("com.tencent.mm".to_string())
    );
    assert_eq!(
        extract_launcher_arg_value("-a --launch-pkg-name \"com.app two\" -b", key),
        Some("com.app two".to_string())
    );
    assert_eq!(extract_launcher_arg_value("--launch-pkg-name   ", key), None);
    assert_eq!(extract_launcher_arg_value("--other x", key), None);
}

#[test]
fn windows_paths_are_joined_with_backslashes() {
    assert_eq!(join_path("C:\\data", "settings.json"), "C:\\data\\settings.json");
    assert_eq!(join_path("C:\\data\\", "x"), "C:\\data\\x");
    assert_eq!(join_path("C:", "x"), "C:x");
    assert_eq!(join_path("", "x"), "x");
}

#[test]
fn app_directories_derive_their_files() {
    let v = VarCommon::new("R:\\res", "D:\\data", "C:\\cache", "T:\\tmp", "C:\\Windows\\System32");
    assert_eq!(v.app_resource_dir(), "R:\\res");
    assert_eq!(v.app_data_dir(), "D:\\data");
    assert_eq!(v.app_cache_dir(), "C:\\cache");
    assert_eq!(v.app_temp_dir(), "T:\\tmp\\taskbarAndAIbar");
    assert_eq!(v.system_dir(), "C:\\Windows\\System32");
    assert_eq!(v.settings_path(), "D:\\data\\settings.json");
    assert_eq!(v.taskbar_items_path(), "D:\\data\\taskbar_items_v4.yml");
    assert_eq!(v.user_icons_path(), "D:\\data\\iconpacks");
    assert_eq!(v.user_themes_path(), "D:\\data\\themes");
    assert_eq!(v.bundled_themes_path(), "R:\\res\\static/themes");
    assert_eq!(v.user_widgets_path(), "D:\\data\\widgets");
    assert_eq!(v.bundled_widgets_path(), "R:\\res\\static/widgets");
}

#[test]
fn timers_report_whether_they_were_started() {
    let mut p = PerformanceHelper::new();
    assert!(!p.is_started("load"));
    p.start("load", 10);
    assert!(p.is_started("load"));
    assert!(!p.is_started("draw"));
    p.end("load");
    assert!(!p.is_started("load"));
}

#[test]
fn the_next_lock_ticket_is_visible() {
    let mut locks = ActiveLocks::new();
    assert_eq!(locks.next_ticket(), 0);
    locks.register_lock_acquire(true, "settings", "write", "src/a.rs", 10, "1", None, 5);
    assert_eq!(locks.next_ticket(), 1);
    locks.register_lock_acquire(false, "settings", "write", "src/a.rs", 10, "1", None, 5);
    assert_eq!(locks.next_ticket(), 1);
}
