use magictaskbar::icons::{is_unc_path, strip_verbatim_prefixes};
use magictaskbar::whitelist::{local_icon_dir_candidates, local_icon_file_names, IconBackplateStyle};

#[test]
fn local_icon_names_use_the_stem_then_the_mapped_name() {
    assert_eq!(local_icon_file_names("notepad.exe"), vec!["notepad.png"]);
    assert_eq!(local_icon_file_names("MSEdge.exe"), vec!["MSEdge.png", "msedge.png"]);
    assert_eq!(local_icon_file_names("msedge.exe"), vec!["msedge.png"]);
    assert_eq!(local_icon_file_names("Microsoft Edge"), vec!["Microsoft Edge.png", "msedge.png"]);
    assert_eq!(local_icon_file_names(".hidden.exe"), vec![".hidden.exe.png"]);
}

#[test]
fn local_icon_folders_are_searched_upwards() {
    let dirs = local_icon_dir_candidates(r"C:\App\bin", IconBackplateStyle::White);
    assert_eq!(
        dirs,
        vec![
            r"C:\App\bin\res\drawable\DockIconWhite",
            r"C:\App\bin\..\..\res\drawable\DockIconWhite",
            r"C:\App\bin\..\..\..\res\drawable\DockIconWhite",
        ]
    );
    let dirs = local_icon_dir_candidates(r"C:\App\", IconBackplateStyle::Transparent);
    assert_eq!(dirs[0], r"C:\App\res\drawable\DockIcon");
}

#[test]
fn network_paths_are_recognised() {
    assert!(is_unc_path(r"\\server\share\a.exe"));
    assert!(!is_unc_path(r"C:\a.exe"));
    assert!(!is_unc_path(r"\a.exe"));
}

#[test]
fn verbatim_prefixes_are_removed() {
    assert_eq!(strip_verbatim_prefixes(r"\\?\C:\a.exe"), r"C:\a.exe");
    assert_eq!(strip_verbatim_prefixes(r"\\?\\\?\C:\a.exe"), r"C:\a.exe");
    assert_eq!(strip_verbatim_prefixes(r"C:\a.exe"), r"C:\a.exe");
    assert_eq!(strip_verbatim_prefixes(r"\\?"), r"\\?");
}
