use magictaskbar::constants::VarCommon;
use magictaskbar::resources::{LoadedResource, ResourceKind, ResourceRegistry};

fn vars() -> VarCommon {
    VarCommon::new("R:/res", "D:/data", "C:/cache", "T:/tmp", "C:/Windows/System32")
}

fn ids(list: &[LoadedResource]) -> Vec<String> {
    list.iter().map(|r| r.id.clone()).collect()
}

#[test]
fn themes_are_keyed_by_folder_and_flagged_when_bundled() {
    let v = vars();
    let bundled_dir = format!("{}/dark", v.bundled_themes_path());
    let mut reg = ResourceRegistry::new();
    reg.load(ResourceKind::Theme, &bundled_dir, "@default/dark", &v);
    reg.load(ResourceKind::Theme, "D:/data/themes/mine", "@me/mine", &v);
    reg.load(ResourceKind::Theme, "D:/data/themes/mine", "@me/mine-v2", &v);
    assert_eq!(ids(&reg.themes), vec!["@default/dark", "@me/mine-v2"]);
    assert!(reg.themes[0].bundled);
    assert!(!reg.themes[1].bundled);
}

#[test]
fn deprecated_themes_are_not_loaded() {
    let v = vars();
    let mut reg = ResourceRegistry::new();
    reg.load(ResourceKind::Theme, "D:/data/themes/old", "@deprecated/old", &v);
    assert!(reg.themes.is_empty());
    reg.load(ResourceKind::Widget, "D:/data/widgets/w", "@w", &v);
    assert!(reg.themes.is_empty() && reg.icon_packs.is_empty());
}

#[test]
fn the_system_icon_pack_is_bundled() {
    let v = vars();
    let system = format!("{}\\system", v.user_icons_path());
    let mut reg = ResourceRegistry::new();
    reg.load(ResourceKind::IconPack, &system, "@system/icon-pack", &v);
    reg.load(ResourceKind::IconPack, "D:/data/iconpacks/other", "@me/pack", &v);
    assert!(reg.icon_packs[0].bundled);
    assert!(!reg.icon_packs[1].bundled);
}

#[test]
fn unloading_forgets_the_folder() {
    let v = vars();
    let mut reg = ResourceRegistry::new();
    reg.load(ResourceKind::Theme, "D:/data/themes/a", "@a", &v);
    reg.load(ResourceKind::Theme, "D:/data/themes/b", "@b", &v);
    reg.unload(ResourceKind::Theme, "D:/data/themes/a");
    assert_eq!(ids(&reg.themes), vec!["@b"]);
    reg.unload(ResourceKind::IconPack, "D:/data/themes/b");
    assert_eq!(ids(&reg.themes), vec!["@b"]);
}

#[test]
fn reloading_keeps_only_manual_resources() {
    let v = vars();
    let mut reg = ResourceRegistry::new();
    reg.load(ResourceKind::Theme, "D:/data/themes/a", "@a", &v);
    reg.load(ResourceKind::Theme, "E:/dev/theme", "@dev", &v);
    reg.manual.push("E:/dev/theme".to_string());
    reg.unload_all(ResourceKind::Theme);
    assert_eq!(ids(&reg.themes), vec!["@dev"]);
}

#[test]
fn removing_by_id_spares_bundled_resources() {
    let v = vars();
    let bundled_dir = format!("{}/x", v.bundled_themes_path());
    let mut reg = ResourceRegistry::new();
    reg.load(ResourceKind::Theme, &bundled_dir, "@x", &v);
    reg.load(ResourceKind::Theme, "D:/data/themes/x", "@x", &v);
    reg.load(ResourceKind::Theme, "D:/data/themes/y", "@y", &v);
    reg.remove_resource(ResourceKind::Theme, "@x");
    assert_eq!(ids(&reg.themes), vec!["@x", "@y"]);
    assert!(reg.themes[0].bundled);
}
