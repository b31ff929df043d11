use magictaskbar::icon_packs::{get_file_icon, has_app_icon, IconPackEntry};
use magictaskbar::user_apps::{UserAppWindow, UserAppsManager};
use magictaskbar::window_filter::UserAppsEvent;

fn win(hwnd: isize, class: &str) -> UserAppWindow {
    UserAppWindow {
        hwnd,
        title: format!("window {}", hwnd),
        class: class.to_string(),
        process_name: "app.exe".to_string(),
    }
}

fn handles(m: &UserAppsManager) -> Vec<isize> {
    m.interactable_windows.iter().map(|w| w.hwnd).collect()
}

#[test]
fn listed_windows_are_found_by_handle() {
    let m = UserAppsManager::init(vec![win(10, "A"), win(20, "B")]);
    assert!(m.contains_win(10));
    assert!(m.contains_win(20));
    assert!(!m.contains_win(30));
}

#[test]
fn adding_a_listed_window_again_changes_nothing() {
    let mut m = UserAppsManager::init(vec![win(10, "A")]);
    assert!(!m.add_win_if_missing(win(10, "A")));
    assert_eq!(handles(&m), vec![10]);
    assert!(m.add_win_if_missing(win(11, "A")));
    assert_eq!(handles(&m), vec![10, 11]);
}

#[test]
fn removing_drops_every_window_with_the_handle() {
    let mut m = UserAppsManager::init(vec![win(1, "A"), win(2, "B"), win(1, "C"), win(3, "D")]);
    m.remove_win(1);
    assert_eq!(handles(&m), vec![2, 3]);
    assert!(!m.contains_win(1));
    assert_eq!(m.interactable_windows[0].class, "B");
}

#[test]
fn closed_window_of_a_gone_process_is_removed() {
    let mut m = UserAppsManager::init(vec![win(5, "A"), win(6, "B")]);
    let e = m.reconcile_closed_window(5, false, true);
    assert!(matches!(e, Some(UserAppsEvent::WinRemoved(5))));
    assert_eq!(handles(&m), vec![6]);
}

#[test]
fn closed_window_that_still_qualifies_stays() {
    let mut m = UserAppsManager::init(vec![win(5, "A")]);
    assert!(m.reconcile_closed_window(5, true, true).is_none());
    assert_eq!(handles(&m), vec![5]);
    assert!(m.reconcile_closed_window(9, false, false).is_none());
    let e = m.reconcile_closed_window(5, true, false);
    assert!(matches!(e, Some(UserAppsEvent::WinRemoved(5))));
    assert!(handles(&m).is_empty());
}

#[test]
fn observed_window_is_listed_once() {
    let mut m = UserAppsManager::init(vec![]);
    let e = m.reconcile_observed_window(win(7, "Notepad"), true);
    assert!(matches!(e, Some(UserAppsEvent::WinAdded(7))));
    assert!(m.reconcile_observed_window(win(7, "Notepad"), true).is_none());
    assert_eq!(handles(&m), vec![7]);
}

#[test]
fn own_windows_and_unqualified_windows_are_not_listed() {
    let mut m = UserAppsManager::init(vec![]);
    assert!(m.reconcile_observed_window(win(8, "Tauri Window"), true).is_none());
    assert!(m.reconcile_observed_window(win(9, "Other"), false).is_none());
    assert!(handles(&m).is_empty());
}

fn unique(umid: Option<&str>, path: Option<&str>, redirect: Option<&str>, on_disk: bool) -> IconPackEntry {
    IconPackEntry::Unique {
        umid: umid.map(|s| s.to_string()),
        path: path.map(|s| s.to_string()),
        redirect: redirect.map(|s| s.to_string()),
        icon_on_disk: on_disk,
    }
}

#[test]
fn app_icon_found_by_id_or_by_path_up_to_case() {
    let entries = vec![
        unique(Some("App.Id"), None, None, true),
        unique(None, Some("C:/Apps/Tool.EXE"), None, true),
    ];
    assert!(has_app_icon(&entries, Some("App.Id"), None));
    assert!(!has_app_icon(&entries, Some("app.id"), None));
    assert!(has_app_icon(&entries, None, Some("c:/apps/tool.exe")));
    assert!(!has_app_icon(&entries, None, None));
    assert!(!has_app_icon(&entries, Some("Other"), Some("c:/apps/other.exe")));
}

#[test]
fn app_icon_missing_on_disk_is_a_miss() {
    let entries = vec![unique(Some("App.Id"), Some("C:/a.exe"), None, false)];
    assert!(!has_app_icon(&entries, Some("App.Id"), None));
    assert!(!has_app_icon(&entries, None, Some("C:/a.exe")));
}

#[test]
fn redirect_serves_only_when_its_target_has_an_icon() {
    let good = vec![
        unique(None, Some("C:/link.lnk"), Some("C:/Target.exe"), false),
        unique(None, Some("c:/target.exe"), None, true),
    ];
    assert!(has_app_icon(&good, None, Some("C:/LINK.lnk")));
    let bad = vec![
        unique(None, Some("C:/link.lnk"), Some("C:/Target.exe"), true),
        unique(None, Some("c:/target.exe"), None, false),
    ];
    assert!(!has_app_icon(&bad, None, Some("C:/link.lnk")));
}

#[test]
fn file_icon_by_extension_up_to_case() {
    let entries = vec![
        IconPackEntry::Custom { key: "@effect/taskbar::start-menu".to_string() },
        IconPackEntry::Shared { extension: "TXT".to_string(), icon_on_disk: false },
        IconPackEntry::Shared { extension: "txt".to_string(), icon_on_disk: true },
        IconPackEntry::Shared { extension: "pdf".to_string(), icon_on_disk: true },
    ];
    assert_eq!(get_file_icon(&entries, "C:/docs/readme.Txt"), Some(2));
    assert_eq!(get_file_icon(&entries, "C:/docs/a.PDF"), Some(3));
    assert_eq!(get_file_icon(&entries, "C:/docs/a.doc"), None);
    assert_eq!(get_file_icon(&entries, "C:/docs/noext"), None);
}
