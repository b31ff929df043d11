use magictaskbar::constants::VarCommon;
use magictaskbar::identity::StartMenuMatchKind;
use magictaskbar::start_menu::{score_start_menu_item_identity, StartMenuItem, StartMenuManager};

fn item(path: &str, umid: Option<&str>, target: Option<&str>) -> StartMenuItem {
    StartMenuItem {
        path: path.to_string(),
        umid: umid.map(|u| u.to_string()),
        toast_activator: None,
        target: target.map(|t| t.to_string()),
    }
}

fn manager() -> StartMenuManager {
    let vars = VarCommon::new("R:/res", "D:/data", "C:/cache", "T:/tmp", "C:/Windows/System32");
    let mut m = StartMenuManager::new(&vars);
    m.list = vec![
        item(
            "C:/ProgramData/Start Menu/Programs/Windows Terminal.lnk",
            Some("Microsoft.WindowsTerminal_8wekyb3d8bbwe!App"),
            None,
        ),
        item(
            "C:/ProgramData/Start Menu/Programs/Notepad++.lnk",
            None,
            Some("C:/Program Files/Notepad++/notepad++.exe"),
        ),
        item(
            "C:/ProgramData/Start Menu/Programs/Some Vendor App2Go.lnk",
            None,
            Some("C:/Apps/App2Go/launcher.exe"),
        ),
    ];
    m
}

#[test]
fn the_cache_lives_in_the_cache_folder() {
    let vars = VarCommon::new("R:\\res", "D:\\data", "C:\\cache", "T:\\tmp", "C:\\Windows");
    let m = StartMenuManager::new(&vars);
    assert!(m.list.is_empty());
    assert_eq!(m.cache_path, "C:\\cache\\start_menu_v2.json");
}

#[test]
fn exact_application_ids_win() {
    let m = manager();
    let c = m.get_by_file_umid_candidates("Microsoft.WindowsTerminal_8wekyb3d8bbwe!App");
    assert_eq!(c.len(), 1);
    assert_eq!(c[0].1, StartMenuMatchKind::ExactUmid);
    assert!(c[0].0.path.ends_with("Windows Terminal.lnk"));
    let (best, kind) = m.get_by_file_umid_with_match_kind("Microsoft.WindowsTerminal_8wekyb3d8bbwe!App").unwrap();
    assert_eq!(kind, StartMenuMatchKind::ExactUmid);
    assert_eq!(best.umid.as_deref(), Some("Microsoft.WindowsTerminal_8wekyb3d8bbwe!App"));
}

#[test]
fn a_process_name_finds_the_shortcut_by_its_target() {
    let m = manager();
    let (best, kind) = m.get_by_file_umid_with_match_kind("notepad++.exe").unwrap();
    assert_eq!(kind, StartMenuMatchKind::TargetSuffix);
    assert!(best.path.ends_with("Notepad++.lnk"));
    let t = m.get_by_target("C:/Program Files//Notepad++/notepad++.exe").unwrap();
    assert!(t.path.ends_with("Notepad++.lnk"));
    assert!(m.get_by_target("C:/Program Files/Other/notepad++.exe").is_none());
}

#[test]
fn similar_names_find_the_shortcut_last() {
    let m = manager();
    let c = m.get_by_file_umid_candidates("SomeVendor.App2Go");
    assert_eq!(c.len(), 1);
    assert_eq!(c[0].1, StartMenuMatchKind::FuzzyIdentity);
    assert!(m.get_by_file_umid("SomeVendor.App2Go").unwrap().path.ends_with("Some Vendor App2Go.lnk"));
    assert_eq!(score_start_menu_item_identity("SomeVendor.App2Go", &m.list[2]), 14);
    assert_eq!(score_start_menu_item_identity("SomeVendor.App2Go", &m.list[0]), 0);
    assert_eq!(score_start_menu_item_identity("", &m.list[2]), 0);
    assert!(m.get_by_file_umid("Unrelated.Thing").is_none());
    assert!(m.get_by_fuzzy_identity("x").is_none());
}

#[test]
fn property_store_ids_take_only_direct_shortcuts() {
    let m = manager();
    let direct = m.property_store_shortcut("Microsoft.WindowsTerminal_8wekyb3d8bbwe!App").unwrap().unwrap();
    assert!(direct.path.ends_with("Windows Terminal.lnk"));
    let by_target = m.property_store_shortcut("notepad++.exe").unwrap().unwrap();
    assert!(by_target.path.ends_with("Notepad++.lnk"));
    assert!(m.property_store_shortcut("SomeVendor.App2Go").unwrap().is_none());
    assert_eq!(
        m.property_store_shortcut("Unrelated.Thing").err(),
        Some("No shortcut found for umid Unrelated.Thing".to_string())
    );
}
