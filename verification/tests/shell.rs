use magictaskbar::constants::VarCommon;
use magictaskbar::geometry::Rect;
use magictaskbar::icons::{
    app_icon_file_name, extract_and_save_icon_from_file, extract_and_save_icon_umid,
    file_icon_file_name, file_not_found, lnk_redirects, plan_icon_extraction, uwp_icon_files,
    window_icon_file_name, AppUserModelId, IconExtractorRequest, IconFileFacts, IconFilePlan,
};
use magictaskbar::messages::{
    register_toolbar_custom_messages, system_open_location_settings, system_open_volume_mixer,
    system_open_wifi_settings, system_open_wlan_flyout, InputModeLabel, ToolbarMessage,
};
use magictaskbar::notification::{
    whitelist_from_config, AppNotificationEvent, AppNotificationService, NotificationWhitelist,
    WhitelistConfig,
};
use magictaskbar::resources::{
    current_is_dark_mode, ResourceCommand, ResourceKind, ResourceManagerCli, ResourceRegistry,
    RestorationAndMigration, ThemeState,
};
use magictaskbar::utils::path_based_hash_id;
use magictaskbar::utils::umid_based_hash_id;
use magictaskbar::window_filter::{
    handle_uac_window, is_immersive_shell_window, is_interactable_and_not_hidden, on_win_event,
    get_process_name_with_fallback, process_uwp_window, should_filter_by_title_and_process, WinEvent,
    WindowFacts,
};

#[test]
fn process_names_fall_back_to_the_title() {
    assert_eq!(get_process_name_with_fallback(Some("code.exe"), Some("svc"), "t"), Some("code.exe".to_string()));
    assert_eq!(get_process_name_with_fallback(None, Some("svc"), "t"), Some("svc".to_string()));
    assert_eq!(get_process_name_with_fallback(None, None, "Title"), Some("Title".to_string()));
    assert_eq!(get_process_name_with_fallback(None, None, ""), Some("Unknown App".to_string()));
}

#[test]
fn helper_windows_are_filtered_by_title() {
    assert!(should_filter_by_title_and_process("x.exe", "HonorTaskbar"));
    assert!(should_filter_by_title_and_process("explorer.exe", "Recycle Bin (2)"));
    assert!(should_filter_by_title_and_process("Thunder.exe", "悬浮球"));
    assert!(!should_filter_by_title_and_process("Other.exe", "悬浮球"));
    assert!(should_filter_by_title_and_process("a.exe", "YKPlayer now"));
    assert!(should_filter_by_title_and_process("PowerToys.MonacoPreviewHandler.exe", ""));
    assert!(!should_filter_by_title_and_process("code.exe", "main.rs - Code"));
    assert!(handle_uac_window("consent.exe"));
    assert!(!handle_uac_window("Consent.exe"));
}

#[test]
fn immersive_shell_windows() {
    assert!(is_immersive_shell_window("ApplicationFrameWindow", 0, None));
    assert!(!is_immersive_shell_window("ApplicationFrameWindow", 0x100, None));
    assert!(is_immersive_shell_window("SearchPane", 0, Some("C:\\Windows\\EXPLORER.EXE")));
    assert!(!is_immersive_shell_window("SearchPane", 0, Some("C:\\Tools\\other.exe")));
    assert!(!is_immersive_shell_window("Notepad", 0, Some("C:\\Windows\\explorer.exe")));
}

fn rect(left: i32, top: i32, right: i32, bottom: i32) -> Option<Rect> {
    Some(Rect { left, top, right, bottom })
}

#[test]
fn hidden_frame_windows() {
    assert!(process_uwp_window("Windows.UI.Core.CoreWindow", false, false, rect(-32000, -32000, -31000, -31000), false, false));
    assert!(process_uwp_window("X", false, false, rect(0, 0, 0, 100), true, true));
    assert!(!process_uwp_window("X", true, false, rect(0, 0, 0, 100), true, true));
    assert!(process_uwp_window("ApplicationFrameWindow", false, true, rect(0, 0, 100, 100), false, false));
    assert!(!process_uwp_window("ApplicationFrameWindow", false, true, rect(0, 0, 100, 100), true, false));
    assert!(!process_uwp_window("ApplicationFrameWindow", false, false, None, false, false));
}

fn window(process: &str, title: &str) -> WindowFacts {
    WindowFacts {
        is_window: true,
        is_visible: true,
        class: "Notepad".to_string(),
        title: title.to_string(),
        process_name: process.to_string(),
        is_frozen: Some(false),
        style: 0x0002_0000,
        ex_style: 0,
        is_cloaked: false,
        has_owner: false,
        process_accessible: true,
        is_taskbar_process: false,
        task_list_deleted: false,
        is_minimized: false,
        outer_rect: rect(0, 0, 800, 600),
        is_focused: false,
        is_foreground: false,
        program_path: Some("C:\\Windows\\notepad.exe".to_string()),
    }
}

#[test]
fn ordinary_windows_are_listed_and_others_are_not() {
    assert!(is_interactable_and_not_hidden(&window("notepad.exe", "a.txt")));
    let mut hidden = window("notepad.exe", "a.txt");
    hidden.is_visible = false;
    assert!(!is_interactable_and_not_hidden(&hidden));
    let mut owned = window("notepad.exe", "a.txt");
    owned.has_owner = true;
    assert!(!is_interactable_and_not_hidden(&owned));
    owned.ex_style = 0x0004_0000;
    assert!(is_interactable_and_not_hidden(&owned));
    let mut frozen = window("notepad.exe", "a.txt");
    frozen.is_frozen = Some(true);
    assert!(!is_interactable_and_not_hidden(&frozen));
    let mut tool = window("notepad.exe", "a.txt");
    tool.ex_style = 0x80;
    assert!(!is_interactable_and_not_hidden(&tool));
    let mut cloaked = window("notepad.exe", "a.txt");
    cloaked.is_cloaked = true;
    assert!(!is_interactable_and_not_hidden(&cloaked));
    assert!(!is_interactable_and_not_hidden(&window("x.exe", "HonorToolbar")));
    let mut own = window("taskbar.exe", "x");
    own.style = 0;
    own.ex_style = 0x0004_0000;
    own.is_taskbar_process = true;
    assert!(!is_interactable_and_not_hidden(&own));
}

#[test]
fn window_events_update_the_list() {
    let o = on_win_event(WinEvent::ObjectShow, false, true, false, false, false);
    assert!(o.add && !o.remove && !o.refresh);
    let o = on_win_event(WinEvent::ObjectShow, true, true, false, false, false);
    assert!(!o.add);
    let o = on_win_event(WinEvent::ObjectNameChange, true, false, false, false, false);
    assert!(o.remove && !o.refresh);
    let o = on_win_event(WinEvent::ObjectNameChange, true, true, false, false, false);
    assert!(!o.remove && o.refresh);
    let o = on_win_event(WinEvent::ObjectHide, true, true, true, false, false);
    assert!(!o.remove);
    let o = on_win_event(WinEvent::ObjectHide, true, true, false, false, false);
    assert!(o.remove);
    let o = on_win_event(WinEvent::SystemMinimizeStart, true, false, false, true, false);
    assert!(o.remove && o.refresh);
    let o = on_win_event(WinEvent::ObjectDestroy, true, true, false, false, false);
    assert!(o.remove && !o.add);
    let o = on_win_event(WinEvent::ObjectParentChange, false, false, false, false, true);
    assert!(o.add_parent);
    let o = on_win_event(WinEvent::SyntheticMonitorChanged, false, true, false, false, false);
    assert!(!o.refresh && !o.add);
}

#[test]
fn toolbar_messages_are_decoded() {
    assert_eq!(register_toolbar_custom_messages(0x403, 1, 0), ToolbarMessage::CheckUpdate { has_new_version: true });
    assert_eq!(register_toolbar_custom_messages(0x404, 1003, 42), ToolbarMessage::DownloadUpdate { status: 1003, progress: 42 });
    assert_eq!(register_toolbar_custom_messages(0x404, 1004, 42), ToolbarMessage::DownloadUpdate { status: 1004, progress: 0 });
    assert_eq!(register_toolbar_custom_messages(0x464, 0, 0), ToolbarMessage::Custom);
    assert_eq!(register_toolbar_custom_messages(0x40b, 0, 0), ToolbarMessage::OpenPureModeSettings);
    assert_eq!(register_toolbar_custom_messages(0x465, 3, 0), ToolbarMessage::InputMethodChanged(3));
    assert_eq!(
        register_toolbar_custom_messages(0x591, 2, 0),
        ToolbarMessage::InputMethodMode(InputModeLabel::English)
    );
    assert_eq!(register_toolbar_custom_messages(0x591, 9, 0), ToolbarMessage::UnknownInputMethodMode);
    assert_eq!(register_toolbar_custom_messages(0x415, 5, 0), ToolbarMessage::NotificationIcon(true));
    assert_eq!(register_toolbar_custom_messages(0x10, 0, 0), ToolbarMessage::Other);
    assert_eq!(InputModeLabel::Chinese.text(), "中");
    assert_eq!(InputModeLabel::EnglishUpper.text(), "EN");
}

fn commands(v: &[magictaskbar::messages::LaunchCommand]) -> Vec<(String, Vec<String>)> {
    v.iter().map(|c| (c.program.clone(), c.args.clone())).collect()
}

#[test]
fn system_pages_open_with_fallbacks() {
    let start = |t: &str| ("cmd".to_string(), vec!["/c".to_string(), format!("start {}", t)]);
    assert_eq!(
        commands(&system_open_wifi_settings()),
        vec![start("ms-settings:network-wifi"), start("ms-settings:network")]
    );
    assert_eq!(
        commands(&system_open_location_settings()),
        vec![start("ms-settings:privacy-location"), start("ms-settings:privacy")]
    );
    assert_eq!(
        commands(&system_open_wlan_flyout()),
        vec![
            ("explorer".to_string(), vec!["ms-availablenetworks:".to_string()]),
            start("ms-availablenetworks:"),
            start("ms-settings:network-wifi"),
            start("ms-settings:network"),
        ]
    );
    assert_eq!(
        commands(&system_open_volume_mixer("C:\\Windows\\System32")),
        vec![start("ms-settings:apps-volume"), ("C:\\Windows\\System32\\SndVol.exe".to_string(), vec![])]
    );
}

fn facts(is_file: bool, ext: Option<&str>) -> IconFileFacts {
    IconFileFacts {
        is_file,
        extension: ext.map(|e| e.to_string()),
        local_custom_icon: false,
        cached_app_icon: false,
        cached_file_icon: false,
        window_found: false,
    }
}

#[test]
fn icon_plans_by_file_kind() {
    assert_eq!(plan_icon_extraction(&facts(false, Some("exe"))), IconFilePlan::FromWindowOrMissing);
    assert_eq!(plan_icon_extraction(&facts(true, None)), IconFilePlan::Nothing);
    assert_eq!(plan_icon_extraction(&facts(true, Some("ICO"))), IconFilePlan::Nothing);
    assert_eq!(plan_icon_extraction(&facts(true, Some("URL"))), IconFilePlan::UrlShortcut);
    assert_eq!(plan_icon_extraction(&facts(true, Some("lnk"))), IconFilePlan::Shortcut);
    assert_eq!(
        plan_icon_extraction(&facts(true, Some("EXE"))),
        IconFilePlan::Extract { app: true, extension: "exe".to_string() }
    );
    assert_eq!(
        plan_icon_extraction(&facts(true, Some("txt"))),
        IconFilePlan::Extract { app: false, extension: "txt".to_string() }
    );
    let cached = IconFileFacts { cached_app_icon: true, ..facts(true, Some("exe")) };
    assert_eq!(plan_icon_extraction(&cached), IconFilePlan::Cached);
    let local = IconFileFacts { local_custom_icon: true, cached_app_icon: true, ..facts(true, Some("exe")) };
    assert_eq!(
        plan_icon_extraction(&local),
        IconFilePlan::Extract { app: true, extension: "exe".to_string() }
    );
    let window = IconFileFacts { window_found: true, ..facts(true, Some("pdf")) };
    assert_eq!(plan_icon_extraction(&window), IconFilePlan::FromWindow);
}

#[test]
fn icon_file_names() {
    assert_eq!(file_not_found("C:\\x.exe"), "File not found: C:\\x.exe");
    assert!(lnk_redirects(Some("EXE"), 0, false, false));
    assert!(!lnk_redirects(Some("exe"), 1, false, false));
    assert!(!lnk_redirects(Some("exe"), 0, true, false));
    assert!(!lnk_redirects(Some("txt"), 0, false, false));
    assert!(!lnk_redirects(None, 0, false, false));
    let id = path_based_hash_id("C:\\App\\app.exe");
    assert_eq!(app_icon_file_name("app", "C:\\APP\\APP.EXE"), format!("app_{}.png", id));
    assert_eq!(file_icon_file_name("txt", "C:\\App\\app.exe"), format!("txt_{}.png", id));
    let u = umid_based_hash_id("Vendor.App");
    assert_eq!(uwp_icon_files("Vendor.App", "a.png", "a.png"), (Some(format!("{}.png", u)), None, None));
    assert_eq!(
        uwp_icon_files("Vendor.App", "l.png", "d.png"),
        (None, Some(format!("{}_light.png", u)), Some(format!("{}_dark.png", u)))
    );
    assert_eq!(window_icon_file_name("code.exe"), "code.png");
    assert_eq!(window_icon_file_name("code.EXE"), "code.EXE.png");
    assert!(matches!(
        extract_and_save_icon_from_file("C:\\a.exe", true),
        IconExtractorRequest::Path { path, use_local_icon: true } if path == "C:\\a.exe"
    ));
    assert!(matches!(
        extract_and_save_icon_umid(AppUserModelId::Appx("A!b".to_string()), false),
        IconExtractorRequest::AppUmid { umid: AppUserModelId::Appx(u), use_local_icon: false } if u == "A!b"
    ));
}

fn event(name: &str) -> AppNotificationEvent {
    AppNotificationEvent {
        hwnd: 0x1234,
        process_id: 42,
        process_name: name.to_string(),
        window_title: "New message".to_string(),
        window_class: "Chat".to_string(),
    }
}

#[test]
fn flashing_windows_of_listed_programs_notify() {
    let config = WhitelistConfig { notifications: vec!["WeChat.exe".to_string(), "QQ.exe".to_string()] };
    let list = whitelist_from_config(&config);
    assert!(list.contains("QQ.exe"));
    assert!(!list.contains("qq.exe"));
    let service = AppNotificationService::new(list);
    let n = service.process_shell_hook_event(0x8006, Some(&event("WeChat.exe")), 1700).unwrap();
    assert_eq!((n.id, n.app_umid.as_str(), n.app_name.as_str(), n.app_description.as_str(), n.date), (42, "WeChat.exe", "WeChat.exe", "New message", 1700));
    assert!(service.process_shell_hook_event(0x8006, Some(&event("Other.exe")), 1).is_none());
    assert!(service.process_shell_hook_event(4, Some(&event("WeChat.exe")), 1).is_none());
    assert!(service.process_shell_hook_event(0x8006, None, 1).is_none());
}

#[test]
fn added_programs_are_listed() {
    let mut w = NotificationWhitelist::new();
    assert!(!w.contains("a.exe"));
    w.add("a.exe".to_string());
    w.add("a.exe".to_string());
    assert!(w.contains("a.exe"));
}

#[test]
fn manual_resources_are_recorded_and_forgotten() {
    let vars = VarCommon::new("R:/res", "D:/data", "C:/cache", "T:/tmp", "C:/Windows");
    let mut registry = ResourceRegistry::new();
    let load = ResourceManagerCli { subcommand: ResourceCommand::Load { kind: ResourceKind::Theme, path: "t1".into() } };
    assert_eq!(load.process(&mut registry, "@me/t1", &vars), (ResourceKind::Theme, true));
    let load2 = ResourceManagerCli { subcommand: ResourceCommand::Load { kind: ResourceKind::Widget, path: "w".into() } };
    assert_eq!(load2.process(&mut registry, "", &vars), (ResourceKind::Widget, true));
    let again = ResourceManagerCli { subcommand: ResourceCommand::Load { kind: ResourceKind::Theme, path: "t1".into() } };
    again.process(&mut registry, "@me/t1-v2", &vars);
    assert_eq!(registry.manual, vec!["t1".to_string(), "w".into()]);
    assert_eq!(registry.themes.len(), 1);
    assert_eq!(registry.themes[0].id, "@me/t1-v2");
    let unload = ResourceManagerCli { subcommand: ResourceCommand::Unload { kind: ResourceKind::Theme, path: "t1".into() } };
    assert_eq!(unload.process(&mut registry, "", &vars), (ResourceKind::Theme, false));
    assert_eq!(registry.manual, vec!["w".to_string()]);
    assert!(registry.themes.is_empty());
}

#[test]
fn restoration_lists_the_needed_folders() {
    let v = VarCommon::new("R:\\res", "D:\\data", "C:\\cache", "T:\\tmp\\", "C:\\Windows");
    assert_eq!(
        RestorationAndMigration::run_full(&v),
        vec![
            "T:\\tmp\\taskbarAndAIbar".to_string(),
            "D:\\data\\themes".into(),
            "D:\\data\\iconpacks/system".into(),
            "D:\\data\\plugins".into(),
            "D:\\data\\widgets".into(),
        ]
    );
    assert!(current_is_dark_mode(&ThemeState { is_dark: true }));
    assert!(!current_is_dark_mode(&ThemeState { is_dark: false }));
}
