use magictaskbar::constants::VarCommon;
use magictaskbar::logs::log_file_path;
use magictaskbar::taskbar_items::yoyo_claw_migration_path;
use magictaskbar::whitelist::whitelist_config_path;
use magictaskbar::imaging::bgra_to_rgba;
use magictaskbar::logs::{expired_log_files, log_file_name, LogDirEntry, LogSizeTracker};
use magictaskbar::taskbar_items::{
    carry_over_windows, ensure_yoyo_claw_pinned_once, is_yoyo_claw_item, TaskbarItem, TaskbarItemKind, TaskbarItems,
};

#[test]
fn log_file_name_pads_every_field() {
    let name = log_file_name("MagicBarUI", 2024, 3, 7, 9, 5, 1, 42);
    assert_eq!(name, "MagicBarUI_2024_03_07_090501_042.log");
    let name = log_file_name("x", 12345, 12, 31, 23, 59, 59, 999);
    assert_eq!(name, "x_12345_12_31_235959_999.log");
}

#[test]
fn log_file_name_of_a_negative_year() {
    assert_eq!(log_file_name("x", -5, 1, 1, 0, 0, 0, 0), format!("x_{:04}_01_01_000000_000.log", -5));
}

fn log(name: &str, modified: i128) -> LogDirEntry {
    LogDirEntry { name: Some(name.to_string()), is_file: true, modified: Some(modified) }
}

#[test]
fn only_the_newest_logs_are_kept() {
    let entries = vec![
        log("MagicBarUI_a.log", 10),
        log("MagicBarUI_b.log", 40),
        log("other.log", 1),
        log("MagicBarUI_c.txt", 2),
        log("MagicBarUI_d.log", 20),
        log("MagicBarUI_e.log", 30),
    ];
    assert_eq!(expired_log_files(&entries, "MagicBarUI", 2), vec![0, 4]);
    assert_eq!(expired_log_files(&entries, "MagicBarUI", 0), vec![0, 1, 4, 5]);
    assert!(expired_log_files(&entries, "MagicBarUI", 4).is_empty());
}

#[test]
fn logs_of_equal_time_keep_the_directory_order() {
    let entries = vec![log("p1.log", 5), log("p2.log", 5), log("p3.log", 5)];
    assert_eq!(expired_log_files(&entries, "p", 1), vec![1, 2]);
}

#[test]
fn directories_and_unreadable_files_are_not_logs() {
    let entries = vec![
        LogDirEntry { name: Some("p_dir.log".to_string()), is_file: false, modified: Some(1) },
        LogDirEntry { name: Some("p_x.log".to_string()), is_file: true, modified: None },
        LogDirEntry { name: None, is_file: true, modified: Some(1) },
        log("p_y.log", 2),
    ];
    assert!(expired_log_files(&entries, "p", 0) == vec![3]);
}

#[test]
fn a_full_log_file_is_rotated_before_the_next_write() {
    let mut t = LogSizeTracker::new(0, 10);
    assert!(!t.begin_write());
    t.record_written(6);
    assert!(!t.begin_write());
    t.record_written(4);
    assert!(t.begin_write());
    assert_eq!(t.current_size, 0);
    t.record_written(3);
    assert_eq!(t.current_size, 3);
}

#[test]
fn bgra_becomes_rgba_in_whole_blocks() {
    let mut data: Vec<u8> = (0u8..20).collect();
    bgra_to_rgba(&mut data);
    assert_eq!(
        data,
        vec![2, 1, 0, 3, 6, 5, 4, 7, 10, 9, 8, 11, 14, 13, 12, 15, 16, 17, 18, 19]
    );
    let mut short = vec![1u8, 2, 3, 4];
    bgra_to_rgba(&mut short);
    assert_eq!(short, vec![1, 2, 3, 4]);
}

fn item(kind: TaskbarItemKind, path: &str, program: &str, name: &str) -> TaskbarItem {
    TaskbarItem {
        kind,
        id: "id".to_string(),
        path: path.to_string(),
        relaunch_program: program.to_string(),
        display_name: name.to_string(),
        windows: vec![],
    }
}

#[test]
fn the_assistant_is_recognised_by_path_program_or_name() {
    let path = r"c:\program files\honor\magicclaw\hnmagicclawui.exe";
    assert!(is_yoyo_claw_item(&item(TaskbarItemKind::Pinned, path, "", "")));
    assert!(is_yoyo_claw_item(&item(TaskbarItemKind::Pinned, "", path, "")));
    assert!(is_yoyo_claw_item(&item(TaskbarItemKind::Pinned, "", "", "yoyoclaw")));
    assert!(!is_yoyo_claw_item(&item(TaskbarItemKind::Temporal, path, path, "YOYOClaw")));
    assert!(!is_yoyo_claw_item(&item(TaskbarItemKind::Pinned, "C:/other.exe", "", "Other")));
}

#[test]
fn the_assistant_is_pinned_once() {
    let mut items = TaskbarItems {
        left: vec![item(TaskbarItemKind::StartMenu, "", "", "")],
        center: vec![],
        right: vec![item(TaskbarItemKind::RecycleBin, "", "", "")],
    };
    assert!(!ensure_yoyo_claw_pinned_once(&mut items, true, true));
    assert!(!ensure_yoyo_claw_pinned_once(&mut items, false, false));
    assert_eq!(items.left.len(), 1);
    assert!(ensure_yoyo_claw_pinned_once(&mut items, false, true));
    assert_eq!(items.left.len(), 2);
    let pinned = &items.left[1];
    assert_eq!(pinned.kind, TaskbarItemKind::Pinned);
    assert_eq!(pinned.id, "e6717ab2-ec8d-45e4-9288-f205f5d53162");
    assert_eq!(pinned.path, r"C:\Program Files\HONOR\MagicClaw\HnMagicClawUI.exe");
    assert_eq!(pinned.display_name, "YOYOClaw");
    assert!(!ensure_yoyo_claw_pinned_once(&mut items, false, true));
    assert_eq!(items.left.len(), 2);
}

#[test]
fn an_assistant_pinned_elsewhere_is_not_pinned_again() {
    let mut items = TaskbarItems {
        left: vec![],
        center: vec![item(TaskbarItemKind::Pinned, "", "", "YOYOClaw")],
        right: vec![],
    };
    assert!(!ensure_yoyo_claw_pinned_once(&mut items, false, true));
    assert!(items.left.is_empty());
}

fn app(kind: TaskbarItemKind, id: &str, windows: Vec<isize>) -> TaskbarItem {
    let mut i = item(kind, "C:/app.exe", "", id);
    i.id = id.to_string();
    i.windows = windows;
    i
}

#[test]
fn written_items_take_over_the_running_windows_by_id() {
    let running = TaskbarItems {
        left: vec![app(TaskbarItemKind::Pinned, "a", vec![1, 2])],
        center: vec![
            app(TaskbarItemKind::Temporal, "b", vec![3]),
            app(TaskbarItemKind::Pinned, "c", vec![]),
            app(TaskbarItemKind::Other, "d", vec![9]),
        ],
        right: vec![app(TaskbarItemKind::Pinned, "a", vec![7])],
    };
    let mut items = TaskbarItems {
        left: vec![app(TaskbarItemKind::Pinned, "b", vec![]), app(TaskbarItemKind::StartMenu, "a", vec![])],
        center: vec![app(TaskbarItemKind::Pinned, "a", vec![5]), app(TaskbarItemKind::Pinned, "c", vec![6])],
        right: vec![app(TaskbarItemKind::Temporal, "d", vec![8])],
    };
    carry_over_windows(&mut items, &running);
    assert_eq!(items.left[0].windows, vec![3]);
    assert_eq!(items.left[1].windows, Vec::<isize>::new());
    assert_eq!(items.center[0].windows, vec![7]);
    assert_eq!(items.center[1].windows, vec![6]);
    assert_eq!(items.right[0].windows, vec![8]);
    assert_eq!(items.center[0].display_name, "a");
}

#[test]
fn paths_of_the_log_and_the_pin_marker() {
    assert_eq!(
        log_file_path(r"C:\logs", "MagicBarUI", 2024, 1, 2, 3, 4, 5, 6),
        r"C:\logs\MagicBarUI_2024_01_02_030405_006.log"
    );
    let vars = VarCommon::new("R:/res", r"D:\data", "C:/cache", "T:/tmp", "C:/Windows/System32");
    assert_eq!(yoyo_claw_migration_path(&vars), r"D:\data\migrations\default_pin_yoyoclaw_v1.done");
}

#[test]
fn the_whitelist_file_lies_in_static() {
    assert_eq!(whitelist_config_path(r"C:\App"), r"C:\App\static\whitelist.txt");
}
