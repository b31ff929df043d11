//! Themes and icon packs: those loaded by hand, the loaded ones keyed by
//! folder, the folders the application keeps, and the theme state.
use vstd::prelude::*;

use crate::constants::{join_path, joined, VarCommon};
use crate::start_menu::{path_eq_text, path_equal};
use crate::text::{
    chars_of, digit_value, digit_value_exec, eq_str, is_ascii_hex, starts_with, starts_with_str, string_of,
};

verus! {

/// The kinds of resources.
#[derive(Debug, Clone, Copy, PartialEq, Eq, Structural)]
pub enum ResourceKind {
    Theme,
    IconPack,
    Widget,
}

/// What the resource command asks for.
#[derive(Debug, Clone)]
pub enum ResourceCommand {
    /// Load a resource into the registry.
    Load { kind: ResourceKind, path: String },
    /// Remove a resource from the registry.
    Unload { kind: ResourceKind, path: String },
}

/// The resource command.
pub struct ResourceManagerCli {
    pub subcommand: ResourceCommand,
}

/// Restores the folders the application needs.
pub struct RestorationAndMigration;

impl RestorationAndMigration {
    /// The folders to create when missing: the temporary folder, then
    /// `themes`, `iconpacks/system`, `plugins` and `widgets` in the data
    /// folder.
    pub fn run_full(vars: &VarCommon) -> (r: Vec<String>)
        ensures
            r@.map_values(|p: String| p@) == seq![
                vars.bases().temp_root,
                joined(vars.bases().data_dir, "themes"@),
                joined(vars.bases().data_dir, "iconpacks/system"@),
                joined(vars.bases().data_dir, "plugins"@),
                joined(vars.bases().data_dir, "widgets"@),
            ],
    {
        let t = chars_of(vars.app_temp_dir());
        let data = vars.app_data_dir();
        let r = vec![
            string_of(t.as_slice()),
            join_path(data, "themes"),
            join_path(data, "iconpacks/system"),
            join_path(data, "plugins"),
            join_path(data, "widgets"),
        ];
        assert(r@.map_values(|p: String| p@) =~= seq![
            vars.bases().temp_root,
            joined(vars.bases().data_dir, "themes"@),
            joined(vars.bases().data_dir, "iconpacks/system"@),
            joined(vars.bases().data_dir, "plugins"@),
            joined(vars.bases().data_dir, "widgets"@),
        ]);
        r
    }
}

/// Whether the system theme is dark, as last reported.
pub struct ThemeState {
    pub is_dark: bool,
}

pub fn current_is_dark_mode(state: &ThemeState) -> (r: bool)
    ensures
        r == state.is_dark,
{
    state.is_dark
}

/// The acrylic tint of the preview and context-menu windows (ARGB): dark
/// grey in the dark theme, warm white in the light one.
pub fn acrylic_gradient_color(is_dark: bool) -> (r: u32)
    ensures
        r == if is_dark {
            0xA8303030u32
        } else {
            0xA8FDFBFAu32
        },
{
    if is_dark {
        0xA8303030u32
    } else {
        0xA8FDFBFAu32
    }
}

/// A window label of a preview or a context menu (labels are the base64
/// text of `@magic/preview` and `@magic/contextmenu`, with what follows).
pub open spec fn is_acrylic_label(label: Seq<char>) -> bool {
    starts_with(label, "QG1hZ2ljL3ByZXZpZXc"@) || starts_with(label, "QG1hZ2ljL2NvbnRleHRtZW51"@)
}

pub fn is_acrylic_window_label(label: &str) -> (r: bool)
    ensures
        r == is_acrylic_label(label@),
{
    starts_with_str(label, "QG1hZ2ljL3ByZXZpZXc") || starts_with_str(label, "QG1hZ2ljL2NvbnRleHRtZW51")
}

// ---------------------------------------------------------------------------
// Loaded themes and icon packs
// ---------------------------------------------------------------------------
/// What `std::path::Path::starts_with` decides: the base's components begin
/// the path's components.
pub uninterp spec fn path_starts_with(path: Seq<char>, base: Seq<char>) -> bool;

/// Calls `Path::starts_with`.
#[verifier::external_body]
fn path_starts_with_text(path: &str, base: &str) -> (r: bool)
    ensures
        r == path_starts_with(path@, base@),
{
    std::path::Path::new(path).starts_with(std::path::Path::new(base))
}

/// A loaded theme or icon pack: its folder, its id and whether it ships
/// with the application.
#[derive(Debug, Clone)]
pub struct LoadedResource {
    pub path: String,
    pub id: String,
    pub bundled: bool,
}

pub struct ResourceView {
    pub path: Seq<char>,
    pub id: Seq<char>,
    pub bundled: bool,
}

pub open spec fn resource_view(r: LoadedResource) -> ResourceView {
    ResourceView { path: r.path@, id: r.id@, bundled: r.bundled }
}

pub open spec fn resource_views(v: Seq<LoadedResource>) -> Seq<ResourceView> {
    v.map_values(|r: LoadedResource| resource_view(r))
}

/// Which loaded resources a pass keeps.
pub enum RetainRule {
    /// Those whose folder is not the path.
    OtherPath(String),
    /// Those whose folder is one of the paths.
    AmongPaths(Vec<String>),
    /// Those that do not have the id, and the bundled ones.
    NotRemovable(String),
}

pub open spec fn string_seq_views(v: Seq<String>) -> Seq<Seq<char>> {
    v.map_values(|p: String| p@)
}

pub open spec fn among(paths: Seq<Seq<char>>, path: Seq<char>) -> bool {
    exists|k: int| 0 <= k < paths.len() && path_equal(#[trigger] paths[k], path)
}

pub open spec fn rule_keeps(rule: RetainRule) -> spec_fn(ResourceView) -> bool {
    |r: ResourceView|
        match rule {
            RetainRule::OtherPath(p) => !path_equal(r.path, p@),
            RetainRule::AmongPaths(ps) => among(string_seq_views(ps@), r.path),
            RetainRule::NotRemovable(id) => !(r.id == id@ && !r.bundled),
        }
}

fn among_exec(paths: &Vec<String>, path: &str) -> (r: bool)
    ensures
        r == among(string_seq_views(paths@), path@),
{
    let ghost pv = string_seq_views(paths@);
    let mut i: usize = 0;
    while i < paths.len()
        invariant
            i <= paths.len(),
            pv == string_seq_views(paths@),
            forall|k: int| 0 <= k < i ==> !path_equal(#[trigger] pv[k], path@),
        decreases paths.len() - i,
    {
        proof {
            assert(pv[i as int] == paths@[i as int]@);
        }
        if path_eq_text(paths[i].as_str(), path) {
            return true;
        }
        i = i + 1;
    }
    false
}

fn keeps_exec(rule: &RetainRule, r: &LoadedResource) -> (b: bool)
    ensures
        b == rule_keeps(*rule)(resource_view(*r)),
{
    match rule {
        RetainRule::OtherPath(p) => !path_eq_text(r.path.as_str(), p.as_str()),
        RetainRule::AmongPaths(ps) => among_exec(ps, r.path.as_str()),
        RetainRule::NotRemovable(id) => !(eq_str(r.id.as_str(), id.as_str()) && !r.bundled),
    }
}

fn copy_resource(r: &LoadedResource) -> (c: LoadedResource)
    ensures
        resource_view(c) == resource_view(*r),
{
    let p = chars_of(r.path.as_str());
    let i = chars_of(r.id.as_str());
    LoadedResource { path: string_of(p.as_slice()), id: string_of(i.as_slice()), bundled: r.bundled }
}

fn retain_resources(list: &Vec<LoadedResource>, rule: &RetainRule) -> (r: Vec<LoadedResource>)
    ensures
        resource_views(r@) == resource_views(list@).filter(rule_keeps(*rule)),
{
    let ghost v = resource_views(list@);
    let ghost keep = rule_keeps(*rule);
    let mut out: Vec<LoadedResource> = Vec::new();
    let mut i: usize = 0;
    proof {
        assert(v.take(0).filter(keep) =~= Seq::<ResourceView>::empty());
        assert(resource_views(out@) =~= Seq::<ResourceView>::empty());
    }
    while i < list.len()
        invariant
            i <= list.len(),
            v == resource_views(list@),
            keep == rule_keeps(*rule),
            resource_views(out@) == v.take(i as int).filter(keep),
        decreases list.len() - i,
    {
        proof {
            assert(v[i as int] == resource_view(list@[i as int]));
            assert(v.take(i + 1) =~= v.take(i as int).push(v[i as int]));
            v.take(i as int).lemma_filter_push(v[i as int], keep);
        }
        if keeps_exec(rule, &list[i]) {
            let ghost before = resource_views(out@);
            let c = copy_resource(&list[i]);
            out.push(c);
            proof {
                assert(resource_views(out@) =~= before.push(v[i as int]));
            }
        }
        i = i + 1;
    }
    proof {
        assert(v.take(list.len() as int) =~= v);
    }
    out
}

/// The loaded themes and icon packs, each keyed by its folder (folders are
/// compared as paths), and the folders loaded by hand.
pub struct ResourceRegistry {
    pub themes: Vec<LoadedResource>,
    pub icon_packs: Vec<LoadedResource>,
    pub manual: Vec<String>,
}

/// Entry `r` put in place of the entries of its folder.
pub open spec fn upserted(list: Seq<ResourceView>, r: ResourceView) -> Seq<ResourceView> {
    list.filter(rule_keeps_other_path(r.path)).push(r)
}

pub open spec fn rule_keeps_other_path(path: Seq<char>) -> spec_fn(ResourceView) -> bool {
    |x: ResourceView| !path_equal(x.path, path)
}

/// A theme whose id marks it deprecated.
pub open spec fn is_deprecated_id(id: Seq<char>) -> bool {
    starts_with(id, "@deprecated"@)
}

impl ResourceRegistry {
    pub fn new() -> (r: Self)
        ensures
            r.themes@.len() == 0,
            r.icon_packs@.len() == 0,
            r.manual@.len() == 0,
    {
        ResourceRegistry { themes: Vec::new(), icon_packs: Vec::new(), manual: Vec::new() }
    }

    fn upsert(list: &mut Vec<LoadedResource>, item: LoadedResource)
        ensures
            resource_views(final(list)@) == upserted(resource_views(old(list)@), resource_view(item)),
    {
        let rule = RetainRule::OtherPath(string_of(chars_of(item.path.as_str()).as_slice()));
        let mut kept = retain_resources(list, &rule);
        proof {
            assert(rule_keeps(rule) == rule_keeps_other_path(item.path@));
        }
        let ghost before = resource_views(kept@);
        kept.push(item);
        proof {
            assert(resource_views(kept@) =~= before.push(resource_view(item)));
        }
        *list = kept;
    }

    /// Records a theme or icon pack read from `path` with the id it
    /// declares: a theme with a deprecated id is left out; a theme is
    /// bundled when its folder lies under the bundled themes, an icon pack
    /// when it is the system pack. It takes the place of what was loaded
    /// from the same folder. Other kinds are not kept here.
    pub fn load(&mut self, kind: ResourceKind, path: &str, id: &str, vars: &VarCommon)
        requires
            vars.wf(),
        ensures
            resource_views(final(self).themes@) == themes_after_load(
                resource_views(old(self).themes@),
                kind,
                path@,
                id@,
                joined(vars.bases().resource_dir, "static/themes"@),
            ),
            resource_views(final(self).icon_packs@) == packs_after_load(
                resource_views(old(self).icon_packs@),
                kind,
                path@,
                id@,
                joined(joined(vars.bases().data_dir, "iconpacks"@), "system"@),
            ),
            final(self).manual@ == old(self).manual@,
    {
        match kind {
            ResourceKind::Theme => {
                if starts_with_str(id, "@deprecated") {
                    return ;
                }
                let bundled = path_starts_with_text(path, vars.bundled_themes_path());
                let item = LoadedResource {
                    path: string_of(chars_of(path).as_slice()),
                    id: string_of(chars_of(id).as_slice()),
                    bundled,
                };
                Self::upsert(&mut self.themes, item);
            },
            ResourceKind::IconPack => {
                let system = join_path(vars.user_icons_path(), "system");
                let bundled = path_eq_text(path, system.as_str());
                let item = LoadedResource {
                    path: string_of(chars_of(path).as_slice()),
                    id: string_of(chars_of(id).as_slice()),
                    bundled,
                };
                Self::upsert(&mut self.icon_packs, item);
            },
            _ => {},
        }
    }

    /// Forgets what was loaded from the folder.
    pub fn unload(&mut self, kind: ResourceKind, path: &str)
        ensures
            resource_views(final(self).themes@) == after_unload(resource_views(old(self).themes@), kind == ResourceKind::Theme, path@),
            resource_views(final(self).icon_packs@) == after_unload(resource_views(old(self).icon_packs@), kind == ResourceKind::IconPack, path@),
            final(self).manual@ == old(self).manual@,
    {
        let rule = RetainRule::OtherPath(string_of(chars_of(path).as_slice()));
        proof {
            assert(rule_keeps(rule) == rule_keeps_other_path(path@));
        }
        match kind {
            ResourceKind::Theme => {
                self.themes = retain_resources(&self.themes, &rule);
            },
            ResourceKind::IconPack => {
                self.icon_packs = retain_resources(&self.icon_packs, &rule);
            },
            _ => {},
        }
    }

    /// Records a folder as loaded by hand, unless it is already recorded.
    fn remember_manual(&mut self, path: &str)
        ensures
            string_seq_views(final(self).manual@) == manual_after_insert(string_seq_views(old(self).manual@), path@),
            final(self).themes@ == old(self).themes@,
            final(self).icon_packs@ == old(self).icon_packs@,
    {
        if !among_exec(&self.manual, path) {
            let ghost before = string_seq_views(self.manual@);
            let c = string_of(chars_of(path).as_slice());
            self.manual.push(c);
            proof {
                assert(string_seq_views(self.manual@) =~= before.push(path@));
            }
        }
    }

    /// Forgets a folder loaded by hand.
    fn forget_manual(&mut self, path: &str)
        ensures
            string_seq_views(final(self).manual@) == string_seq_views(old(self).manual@).filter(other_path(path@)),
            !string_seq_views(final(self).manual@).contains(path@),
            final(self).themes@ == old(self).themes@,
            final(self).icon_packs@ == old(self).icon_packs@,
    {
        let ghost before = string_seq_views(self.manual@);
        let ghost q = other_path(path@);
        let mut kept: Vec<String> = Vec::new();
        let mut i: usize = 0;
        proof {
            assert(before.take(0).filter(q) =~= Seq::<Seq<char>>::empty());
            assert(string_seq_views(kept@) =~= Seq::<Seq<char>>::empty());
        }
        while i < self.manual.len()
            invariant
                i <= self.manual.len(),
                before == string_seq_views(self.manual@),
                q == other_path(path@),
                string_seq_views(kept@) == before.take(i as int).filter(q),
                forall|k: int| 0 <= k < kept@.len() ==> (#[trigger] kept@[k])@ != path@,
            decreases self.manual.len() - i,
        {
            proof {
                assert(before[i as int] == self.manual@[i as int]@);
                assert(before.take(i + 1) =~= before.take(i as int).push(before[i as int]));
                before.take(i as int).lemma_filter_push(before[i as int], q);
            }
            if !path_eq_text(self.manual[i].as_str(), path) {
                let ghost kb = string_seq_views(kept@);
                let c = string_of(chars_of(self.manual[i].as_str()).as_slice());
                kept.push(c);
                proof {
                    assert(string_seq_views(kept@) =~= kb.push(before[i as int]));
                }
            }
            i = i + 1;
        }
        proof {
            assert(before.take(self.manual.len() as int) =~= before);
            if string_seq_views(kept@).contains(path@) {
                let k = choose|k: int| 0 <= k < string_seq_views(kept@).len() && string_seq_views(kept@)[k] == path@;
                assert(kept@[k]@ == path@);
            }
        }
        self.manual = kept;
    }

    fn manual_rule(&self) -> (r: RetainRule)
        ensures
            r matches RetainRule::AmongPaths(ps) && string_seq_views(ps@) == string_seq_views(self.manual@),
    {
        let mut ps: Vec<String> = Vec::new();
        let mut i: usize = 0;
        while i < self.manual.len()
            invariant
                i <= self.manual.len(),
                string_seq_views(ps@) == string_seq_views(self.manual@).take(i as int),
            decreases self.manual.len() - i,
        {
            let ghost before = string_seq_views(ps@);
            let c = string_of(chars_of(self.manual[i].as_str()).as_slice());
            ps.push(c);
            proof {
                assert(string_seq_views(self.manual@)[i as int] == self.manual@[i as int]@);
                assert(string_seq_views(ps@) =~= before.push(c@));
                assert(string_seq_views(self.manual@).take(i + 1) =~= string_seq_views(self.manual@).take(
                    i as int,
                ).push(self.manual@[i as int]@));
            }
            i = i + 1;
        }
        proof {
            assert(string_seq_views(self.manual@).take(self.manual.len() as int) =~= string_seq_views(self.manual@));
        }
        RetainRule::AmongPaths(ps)
    }

    /// Before a full reload of a kind: forgets every resource of the kind
    /// but those loaded by hand.
    pub fn unload_all(&mut self, kind: ResourceKind)
        ensures
            kind == ResourceKind::Theme ==> resource_views(final(self).themes@) == resource_views(
                old(self).themes@,
            ).filter(rule_keeps_manual(string_seq_views(old(self).manual@))),
            kind != ResourceKind::Theme ==> final(self).themes@ == old(self).themes@,
            kind == ResourceKind::IconPack ==> resource_views(final(self).icon_packs@) == resource_views(
                old(self).icon_packs@,
            ).filter(rule_keeps_manual(string_seq_views(old(self).manual@))),
            kind != ResourceKind::IconPack ==> final(self).icon_packs@ == old(self).icon_packs@,
            final(self).manual@ == old(self).manual@,
    {
        let rule = self.manual_rule();
        proof {
            assert(rule_keeps(rule) =~= rule_keeps_manual(string_seq_views(self.manual@)));
        }
        match kind {
            ResourceKind::Theme => {
                self.themes = retain_resources(&self.themes, &rule);
            },
            ResourceKind::IconPack => {
                self.icon_packs = retain_resources(&self.icon_packs, &rule);
            },
            _ => {},
        }
    }

    /// Deletes the user's themes or icon packs with the id; bundled ones
    /// stay.
    pub fn remove_resource(&mut self, kind: ResourceKind, id: &str)
        ensures
            kind == ResourceKind::Theme ==> resource_views(final(self).themes@) == resource_views(
                old(self).themes@,
            ).filter(rule_keeps_removable(id@)),
            kind != ResourceKind::Theme ==> final(self).themes@ == old(self).themes@,
            kind == ResourceKind::IconPack ==> resource_views(final(self).icon_packs@) == resource_views(
                old(self).icon_packs@,
            ).filter(rule_keeps_removable(id@)),
            kind != ResourceKind::IconPack ==> final(self).icon_packs@ == old(self).icon_packs@,
            final(self).manual@ == old(self).manual@,
    {
        let rule = RetainRule::NotRemovable(string_of(chars_of(id).as_slice()));
        proof {
            assert(rule_keeps(rule) =~= rule_keeps_removable(id@));
        }
        match kind {
            ResourceKind::Theme => {
                self.themes = retain_resources(&self.themes, &rule);
            },
            ResourceKind::IconPack => {
                self.icon_packs = retain_resources(&self.icon_packs, &rule);
            },
            _ => {},
        }
    }
}

pub open spec fn rule_keeps_manual(manual: Seq<Seq<char>>) -> spec_fn(ResourceView) -> bool {
    |x: ResourceView| among(manual, x.path)
}

pub open spec fn rule_keeps_removable(id: Seq<char>) -> spec_fn(ResourceView) -> bool {
    |x: ResourceView| !(x.id == id && !x.bundled)
}

/// The themes after a load (see `ResourceRegistry::load`).
pub open spec fn themes_after_load(
    themes: Seq<ResourceView>,
    kind: ResourceKind,
    path: Seq<char>,
    id: Seq<char>,
    bundled_dir: Seq<char>,
) -> Seq<ResourceView> {
    if kind == ResourceKind::Theme && !is_deprecated_id(id) {
        upserted(themes, ResourceView { path, id, bundled: path_starts_with(path, bundled_dir) })
    } else {
        themes
    }
}

/// The icon packs after a load (see `ResourceRegistry::load`).
pub open spec fn packs_after_load(
    packs: Seq<ResourceView>,
    kind: ResourceKind,
    path: Seq<char>,
    id: Seq<char>,
    system_pack: Seq<char>,
) -> Seq<ResourceView> {
    if kind == ResourceKind::IconPack {
        upserted(packs, ResourceView { path, id, bundled: path_equal(path, system_pack) })
    } else {
        packs
    }
}

/// A list after an unload of a folder, when the kind is the list's.
pub open spec fn after_unload(list: Seq<ResourceView>, its_kind: bool, path: Seq<char>) -> Seq<ResourceView> {
    if its_kind {
        list.filter(rule_keeps_other_path(path))
    } else {
        list
    }
}

/// The folders loaded by hand after one more: a folder already recorded
/// (as a path) is not recorded twice.
pub open spec fn manual_after_insert(manual: Seq<Seq<char>>, path: Seq<char>) -> Seq<Seq<char>> {
    if among(manual, path) {
        manual
    } else {
        manual.push(path)
    }
}

pub open spec fn other_path(path: Seq<char>) -> spec_fn(Seq<char>) -> bool {
    |p: Seq<char>| !path_equal(p, path)
}

impl ResourceManagerCli {
    /// Runs the command on the registry: a load records the resource read
    /// from the folder (with the id it declares, `loaded_id`, which only
    /// themes and icon packs have) and remembers the folder as loaded by
    /// hand; an unload forgets both. The kind whose listeners are then
    /// told, and whether it was a load.
    pub fn process(self, registry: &mut ResourceRegistry, loaded_id: &str, vars: &VarCommon) -> (r: (ResourceKind, bool))
        requires
            vars.wf(),
        ensures
            match self.subcommand {
                ResourceCommand::Load { kind, path } => {
                    &&& r == (kind, true)
                    &&& resource_views(final(registry).themes@) == themes_after_load(
                        resource_views(old(registry).themes@),
                        kind,
                        path@,
                        loaded_id@,
                        joined(vars.bases().resource_dir, "static/themes"@),
                    )
                    &&& resource_views(final(registry).icon_packs@) == packs_after_load(
                        resource_views(old(registry).icon_packs@),
                        kind,
                        path@,
                        loaded_id@,
                        joined(joined(vars.bases().data_dir, "iconpacks"@), "system"@),
                    )
                    &&& string_seq_views(final(registry).manual@) == manual_after_insert(
                        string_seq_views(old(registry).manual@),
                        path@,
                    )
                },
                ResourceCommand::Unload { kind, path } => {
                    &&& r == (kind, false)
                    &&& resource_views(final(registry).themes@) == after_unload(
                        resource_views(old(registry).themes@),
                        kind == ResourceKind::Theme,
                        path@,
                    )
                    &&& resource_views(final(registry).icon_packs@) == after_unload(
                        resource_views(old(registry).icon_packs@),
                        kind == ResourceKind::IconPack,
                        path@,
                    )
                    &&& string_seq_views(final(registry).manual@) == string_seq_views(old(registry).manual@).filter(
                        other_path(path@),
                    )
                    &&& !string_seq_views(final(registry).manual@).contains(path@)
                },
            },
    {
        match self.subcommand {
            ResourceCommand::Load { kind, path } => {
                registry.load(kind, path.as_str(), loaded_id, vars);
                registry.remember_manual(path.as_str());
                (kind, true)
            },
            ResourceCommand::Unload { kind, path } => {
                registry.unload(kind, path.as_str());
                registry.forget_manual(path.as_str());
                (kind, false)
            },
        }
    }
}

/// Removing a resource by id never removes a bundled resource, and leaves
/// no resource of the user with that id.
pub proof fn lemma_removal_keeps_bundled(list: Seq<ResourceView>, id: Seq<char>)
    ensures
        forall|k: int| 0 <= k < list.len() && (#[trigger] list[k]).bundled ==> list.filter(
            rule_keeps_removable(id),
        ).contains(list[k]),
        forall|x: ResourceView| #[trigger] list.filter(rule_keeps_removable(id)).contains(x) ==> !(x.id == id
            && !x.bundled),
{
    let keep = rule_keeps_removable(id);
    assert forall|k: int| 0 <= k < list.len() && (#[trigger] list[k]).bundled implies list.filter(keep).contains(
        list[k],
    ) by {
        list.lemma_filter_contains(keep, k);
    }
    assert forall|x: ResourceView| #[trigger] list.filter(keep).contains(x) implies !(x.id == id && !x.bundled) by {
        let j = choose|j: int| 0 <= j < list.filter(keep).len() && list.filter(keep)[j] == x;
        list.lemma_filter_pred(keep, j);
    }
}

/// After a load, the resource is the entry of its folder: it is the last
/// entry, and no other entry has a folder equal to it.
pub proof fn lemma_load_replaces_the_folder(list: Seq<ResourceView>, r: ResourceView)
    ensures
        upserted(list, r).last() == r,
        forall|k: int| 0 <= k < upserted(list, r).len() - 1 ==> !path_equal(#[trigger] upserted(list, r)[k].path, r.path),
{
    let keep = rule_keeps_other_path(r.path);
    let f = list.filter(keep);
    assert forall|k: int| 0 <= k < upserted(list, r).len() - 1 implies !path_equal(#[trigger] upserted(list, r)[k].path, r.path) by {
        assert(upserted(list, r)[k] == f[k]);
        list.lemma_filter_pred(keep, k);
    }
}

/// After an unload, nothing loaded from the folder remains.
pub proof fn lemma_unload_forgets_the_folder(list: Seq<ResourceView>, path: Seq<char>)
    ensures
        forall|x: ResourceView| #[trigger] list.filter(rule_keeps_other_path(path)).contains(x) ==> !path_equal(
            x.path,
            path,
        ),
{
    let keep = rule_keeps_other_path(path);
    assert forall|x: ResourceView| #[trigger] list.filter(keep).contains(x) implies !path_equal(x.path, path) by {
        let j = choose|j: int| 0 <= j < list.filter(keep).len() && list.filter(keep)[j] == x;
        list.lemma_filter_pred(keep, j);
    }
}

/// The red component of a `#RRGGBB` colour read as `u8::from_str_radix`
/// reads its two characters in base 16 (a `+` sign may stand first).
pub open spec fn red_component(a: char, b: char) -> Option<nat> {
    if a == '+' && is_ascii_hex(b) {
        Some(digit_value(b))
    } else if is_ascii_hex(a) && is_ascii_hex(b) {
        Some(16 * digit_value(a) + digit_value(b))
    } else {
        None
    }
}

/// A background colour `#RRGGBB` is dark when its red component is below
/// 128; a colour that cannot be read is not dark. (The text's first byte
/// must be a one-byte character for bytes 1 to 3 to be the next two
/// characters.)
pub open spec fn dark_background(s: Seq<char>) -> bool {
    &&& s.len() >= 3
    &&& (s[0] as u32) < 128
    &&& match red_component(s[1], s[2]) {
        Some(v) => v < 128,
        None => false,
    }
}

pub fn is_dark_background(background: &str) -> (r: bool)
    ensures
        r == dark_background(background@),
{
    let c = chars_of(background);
    if c.len() < 3 || (c[0] as u32) >= 128 {
        return false;
    }
    let a = c[1];
    let b = c[2];
    let b_hex = ('0' <= b && b <= '9') || ('a' <= b && b <= 'f') || ('A' <= b && b <= 'F');
    let a_hex = ('0' <= a && a <= '9') || ('a' <= a && a <= 'f') || ('A' <= a && a <= 'F');
    if a == '+' && b_hex {
        digit_value_exec(b) < 128
    } else if a_hex && b_hex {
        let hi = digit_value_exec(a);
        let lo = digit_value_exec(b);
        16 * hi + lo < 128
    } else {
        false
    }
}

} // verus!
