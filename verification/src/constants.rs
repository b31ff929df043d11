//! Fixed configuration: launchers that host several apps, and the
//! application's directories and files.
use vstd::prelude::*;

use crate::text::{chars_of, eq_str, first_occurrence, index_of, index_of_exec, is_whitespace, is_ws, push_str_chars, slice_vec, starts_with, starts_with_str, string_of, to_lowercase, trim_start, trim_start_chars, find_chars, occurs_at, unicode_lowercase};

verus! {

// ---------------------------------------------------------------------------
// Launchers hosting several apps
// ---------------------------------------------------------------------------
/// A launcher program that hosts several apps, told apart by one argument.
#[derive(Debug, Clone, Copy)]
pub struct MultiAppLauncherConfig {
    /// The launcher's process name, lowercase.
    pub exe_name: &'static str,
    /// The argument naming the hosted app.
    pub arg_key: &'static str,
    /// The prefix of the application ids of hosted apps.
    pub umid_prefix: &'static str,
}

pub open spec fn androws_exe() -> Seq<char> {
    "androwslauncher.exe"@
}

pub open spec fn androws_arg() -> Seq<char> {
    "--launch-pkg-name"@
}

pub open spec fn androws_prefix() -> Seq<char> {
    "Tencent.Androws.Androws."@
}

/// The known launchers.
pub fn multi_app_launchers() -> (r: Vec<MultiAppLauncherConfig>)
    ensures
        r@.len() == 1,
        r@[0].exe_name@ == androws_exe(),
        r@[0].arg_key@ == androws_arg(),
        r@[0].umid_prefix@ == androws_prefix(),
{
    vec![
        MultiAppLauncherConfig {
            exe_name: "androwslauncher.exe",
            arg_key: "--launch-pkg-name",
            umid_prefix: "Tencent.Androws.Androws.",
        },
    ]
}

/// The launcher whose process name is that of the process, in lowercase.
pub fn find_launcher_by_exe(exe_name: &str) -> (r: Option<MultiAppLauncherConfig>)
    ensures
        unicode_lowercase(exe_name@) == androws_exe() ==> (r matches Some(c) && c.exe_name@
            == androws_exe() && c.arg_key@ == androws_arg() && c.umid_prefix@ == androws_prefix()),
        unicode_lowercase(exe_name@) != androws_exe() ==> r is None,
{
    let lower = to_lowercase(exe_name);
    let all = multi_app_launchers();
    if eq_str(all[0].exe_name, lower.as_str()) {
        Some(all[0])
    } else {
        None
    }
}

/// The launcher whose application-id prefix starts the id.
pub fn find_launcher_by_umid(umid: &str) -> (r: Option<MultiAppLauncherConfig>)
    ensures
        starts_with(umid@, androws_prefix()) ==> (r matches Some(c) && c.exe_name@ == androws_exe()
            && c.arg_key@ == androws_arg() && c.umid_prefix@ == androws_prefix()),
        !starts_with(umid@, androws_prefix()) ==> r is None,
{
    let all = multi_app_launchers();
    if starts_with_str(umid, all[0].umid_prefix) {
        Some(all[0])
    } else {
        None
    }
}

/// Number of leading characters that are not white space.
pub open spec fn lead_non_ws(s: Seq<char>) -> nat
    decreases s.len(),
{
    if s.len() > 0 && !is_ws(s[0]) {
        1 + lead_non_ws(s.drop_first())
    } else {
        0
    }
}

/// The value after the first occurrence of the argument key: up to the
/// closing quote when quoted, else the next word; none when empty.
pub open spec fn launcher_arg_value(args: Seq<char>, key: Seq<char>) -> Option<Seq<char>> {
    match first_occurrence(args, key) {
        None => None,
        Some(p) => {
            let after = trim_start(args.skip(p + key.len()));
            let value = if after.len() > 0 && after[0] == '"' {
                let rest = after.skip(1);
                match index_of(rest, '"') {
                    Some(q) => rest.take(q),
                    None => rest,
                }
            } else {
                after.take(lead_non_ws(after) as int)
            };
            if value.len() == 0 {
                None
            } else {
                Some(value)
            }
        },
    }
}

fn lead_non_ws_exec(s: &[char]) -> (r: usize)
    ensures
        r == lead_non_ws(s@),
        r <= s.len(),
{
    let mut i: usize = 0;
    assert(s@.skip(0) == s@);
    while i < s.len() && !is_whitespace(s[i])
        invariant
            i <= s.len(),
            lead_non_ws(s@) == i + lead_non_ws(s@.skip(i as int)),
        decreases s.len() - i,
    {
        assert(s@.skip(i as int).drop_first() == s@.skip(i + 1));
        i = i + 1;
    }
    i
}

pub fn extract_launcher_arg_value(args: &str, arg_key: &str) -> (r: Option<String>)
    ensures
        match launcher_arg_value(args@, arg_key@) {
            Some(v) => r matches Some(x) && x@ == v,
            None => r is None,
        },
{
    let a = chars_of(args);
    let k = chars_of(arg_key);
    let pos = match find_chars(a.as_slice(), k.as_slice()) {
        Some(p) => p,
        None => return None,
    };
    assert(occurs_at(a@, k@, pos as int));
    assert(pos + k.len() <= a.len());
    let tail = slice_vec(a.as_slice(), pos + k.len(), a.len());
    assert(tail@ == a@.skip(pos + k@.len()));
    let after = trim_start_chars(tail.as_slice());
    let value = if after.len() > 0 && after[0] == '"' {
        let rest = slice_vec(after.as_slice(), 1, after.len());
        assert(rest@ == after@.skip(1));
        match index_of_exec(rest.as_slice(), '"') {
            Some(q) => {
                let v = slice_vec(rest.as_slice(), 0, q);
                assert(v@ == rest@.take(q as int));
                v
            },
            None => rest,
        }
    } else {
        let n = lead_non_ws_exec(after.as_slice());
        let v = slice_vec(after.as_slice(), 0, n);
        assert(v@ == after@.take(n as int));
        v
    };
    if value.len() == 0 {
        None
    } else {
        Some(string_of(value.as_slice()))
    }
}

// ---------------------------------------------------------------------------
// Paths
// ---------------------------------------------------------------------------
pub open spec fn is_separator(c: char) -> bool {
    c == '\\' || c == '/'
}

/// A bare drive such as `C:`.
pub open spec fn is_bare_drive(p: Seq<char>) -> bool {
    p.len() == 2 && p[1] == ':' && (('a' <= p[0] <= 'z') || ('A' <= p[0] <= 'Z'))
}

/// A relative component appended to a Windows path: a `\` between them
/// unless the base is empty, a bare drive, or already ends in a separator.
pub open spec fn joined(base: Seq<char>, comp: Seq<char>) -> Seq<char> {
    if base.len() == 0 || is_bare_drive(base) || is_separator(base.last()) {
        base + comp
    } else {
        base + seq!['\\'] + comp
    }
}

pub fn join_path(base: &str, comp: &str) -> (r: String)
    ensures
        r@ == joined(base@, comp@),
{
    let b = chars_of(base);
    let mut out = chars_of(base);
    let bare_drive = b.len() == 2 && b[1] == ':' && (('a' <= b[0] && b[0] <= 'z') || ('A' <= b[0]
        && b[0] <= 'Z'));
    if !(b.len() == 0 || bare_drive || b[b.len() - 1] == '\\' || b[b.len() - 1] == '/') {
        out.push('\\');
    }
    push_str_chars(&mut out, comp);
    string_of(out.as_slice())
}

fn copy_str(s: &str) -> (r: String)
    ensures
        r@ == s@,
{
    let c = chars_of(s);
    string_of(c.as_slice())
}

/// The application's directories and the files it keeps in them.
pub struct VarCommon {
    resource_dir: String,
    data_dir: String,
    cache_dir: String,
    temp_dir: String,
    settings: String,
    taskbar_items: String,
    icons: String,
    user_themes: String,
    bundled_themes: String,
    widgets: String,
    bundled_widgets: String,
    system_dir: String,
}

/// The directories a `VarCommon` is made from.
pub struct BaseDirs {
    pub resource_dir: Seq<char>,
    pub data_dir: Seq<char>,
    pub cache_dir: Seq<char>,
    pub temp_root: Seq<char>,
    pub system_dir: Seq<char>,
}

impl VarCommon {
    /// The directories it was made from.
    pub closed spec fn bases(&self) -> BaseDirs {
        BaseDirs {
            resource_dir: self.resource_dir@,
            data_dir: self.data_dir@,
            cache_dir: self.cache_dir@,
            temp_root: self.temp_dir@,
            system_dir: self.system_dir@,
        }
    }

    pub closed spec fn wf(&self) -> bool {
        &&& self.settings@ == joined(self.data_dir@, "settings.json"@)
        &&& self.taskbar_items@ == joined(self.data_dir@, "taskbar_items_v4.yml"@)
        &&& self.icons@ == joined(self.data_dir@, "iconpacks"@)
        &&& self.user_themes@ == joined(self.data_dir@, "themes"@)
        &&& self.bundled_themes@ == joined(self.resource_dir@, "static/themes"@)
        &&& self.widgets@ == joined(self.data_dir@, "widgets"@)
        &&& self.bundled_widgets@ == joined(self.resource_dir@, "static/widgets"@)
    }

    /// The temporary directory is `taskbarAndAIbar` under the system's.
    pub fn new(
        resource_dir: &str,
        data_dir: &str,
        cache_dir: &str,
        temp_root: &str,
        system_dir: &str,
    ) -> (r: Self)
        ensures
            r.wf(),
            r.bases().resource_dir == resource_dir@,
            r.bases().data_dir == data_dir@,
            r.bases().cache_dir == cache_dir@,
            r.bases().temp_root == joined(temp_root@, "taskbarAndAIbar"@),
            r.bases().system_dir == system_dir@,
    {
        VarCommon {
            settings: join_path(data_dir, "settings.json"),
            taskbar_items: join_path(data_dir, "taskbar_items_v4.yml"),
            icons: join_path(data_dir, "iconpacks"),
            user_themes: join_path(data_dir, "themes"),
            bundled_themes: join_path(resource_dir, "static/themes"),
            widgets: join_path(data_dir, "widgets"),
            bundled_widgets: join_path(resource_dir, "static/widgets"),
            resource_dir: copy_str(resource_dir),
            data_dir: copy_str(data_dir),
            cache_dir: copy_str(cache_dir),
            temp_dir: join_path(temp_root, "taskbarAndAIbar"),
            system_dir: copy_str(system_dir),
        }
    }

    pub fn app_resource_dir(&self) -> (r: &str)
        ensures
            r@ == self.bases().resource_dir,
    {
        self.resource_dir.as_str()
    }

    pub fn app_data_dir(&self) -> (r: &str)
        ensures
            r@ == self.bases().data_dir,
    {
        self.data_dir.as_str()
    }

    pub fn app_cache_dir(&self) -> (r: &str)
        ensures
            r@ == self.bases().cache_dir,
    {
        self.cache_dir.as_str()
    }

    pub fn app_temp_dir(&self) -> (r: &str)
        ensures
            r@ == self.bases().temp_root,
    {
        self.temp_dir.as_str()
    }

    /// The Windows directory.
    pub fn system_dir(&self) -> (r: &str)
        ensures
            r@ == self.bases().system_dir,
    {
        self.system_dir.as_str()
    }

    pub fn settings_path(&self) -> (r: &str)
        requires
            self.wf(),
        ensures
            r@ == joined(self.bases().data_dir, "settings.json"@),
    {
        self.settings.as_str()
    }

    pub fn taskbar_items_path(&self) -> (r: &str)
        requires
            self.wf(),
        ensures
            r@ == joined(self.bases().data_dir, "taskbar_items_v4.yml"@),
    {
        self.taskbar_items.as_str()
    }

    pub fn user_icons_path(&self) -> (r: &str)
        requires
            self.wf(),
        ensures
            r@ == joined(self.bases().data_dir, "iconpacks"@),
    {
        self.icons.as_str()
    }

    pub fn user_themes_path(&self) -> (r: &str)
        requires
            self.wf(),
        ensures
            r@ == joined(self.bases().data_dir, "themes"@),
    {
        self.user_themes.as_str()
    }

    pub fn bundled_themes_path(&self) -> (r: &str)
        requires
            self.wf(),
        ensures
            r@ == joined(self.bases().resource_dir, "static/themes"@),
    {
        self.bundled_themes.as_str()
    }

    pub fn user_widgets_path(&self) -> (r: &str)
        requires
            self.wf(),
        ensures
            r@ == joined(self.bases().data_dir, "widgets"@),
    {
        self.widgets.as_str()
    }

    pub fn bundled_widgets_path(&self) -> (r: &str)
        requires
            self.wf(),
        ensures
            r@ == joined(self.bases().resource_dir, "static/widgets"@),
    {
        self.bundled_widgets.as_str()
    }
}

} // verus!
