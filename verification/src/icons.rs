//! Where an application icon comes from and under which file name it is
//! kept.
use vstd::prelude::*;

use crate::text::{chars_of, ends_with, slice_vec, starts_with, eq_str, push_str_chars, radix_digits, string_of, to_lowercase, unicode_lowercase};
use crate::utils::{default_hash, path_based_hash_id, umid_based_hash_id};

verus! {

/// What is known of a file whose icon is wanted.
pub struct IconFileFacts {
    /// The file exists and is not a directory.
    pub is_file: bool,
    /// Its extension, as written.
    pub extension: Option<String>,
    /// A custom icon is installed for its file name.
    pub local_custom_icon: bool,
    /// The icon packs already hold an icon for the path.
    pub cached_app_icon: bool,
    /// The icon packs already hold an icon for files of its kind.
    pub cached_file_icon: bool,
    /// A window of a process with its file name is open.
    pub window_found: bool,
}

/// What to do to get a file's icon.
#[derive(Debug, Clone, PartialEq, Eq)]
pub enum IconFilePlan {
    /// The file is missing: take the icon of a window of a process with its
    /// name when there is one, else fail with `File not found`.
    FromWindowOrMissing,
    /// Nothing to extract (no extension, or an `.ico` file).
    Nothing,
    /// The icon is already kept: only announce the icon packs.
    Cached,
    /// Take the icon of the process's window (a file that is no program).
    FromWindow,
    /// Read the icon an internet shortcut names.
    UrlShortcut,
    /// Resolve the shortcut, then follow `lnk_redirects`.
    Shortcut,
    /// Extract the icon of the file itself; `app` for programs (kept by
    /// path), else kept for the extension given.
    Extract { app: bool, extension: String },
}

pub open spec fn is_app_ext(e: Seq<char>) -> bool {
    e == "exe"@ || e == "lnk"@ || e == "url"@
}

/// The plan for a file's icon, by its extension in lowercase.
pub open spec fn spec_icon_plan(
    is_file: bool,
    extension: Option<Seq<char>>,
    local: bool,
    cached_app: bool,
    cached_file: bool,
    window: bool,
) -> Option<(u8, Seq<char>)> {
    if !is_file {
        Some((0, seq![]))
    } else {
        match extension {
            None => Some((1, seq![])),
            Some(raw) => {
                let e = unicode_lowercase(raw);
                if e == "ico"@ {
                    Some((1, seq![]))
                } else if !local && is_app_ext(e) && cached_app {
                    Some((2, seq![]))
                } else if !local && !is_app_ext(e) && (cached_app || cached_file) {
                    Some((2, seq![]))
                } else if !local && !is_app_ext(e) && window {
                    Some((3, seq![]))
                } else if e == "url"@ {
                    Some((4, seq![]))
                } else if e == "lnk"@ {
                    Some((5, seq![]))
                } else {
                    Some((6, e))
                }
            },
        }
    }
}

pub open spec fn plan_code(p: IconFilePlan) -> Option<(u8, Seq<char>)> {
    match p {
        IconFilePlan::FromWindowOrMissing => Some((0, seq![])),
        IconFilePlan::Nothing => Some((1, seq![])),
        IconFilePlan::Cached => Some((2, seq![])),
        IconFilePlan::FromWindow => Some((3, seq![])),
        IconFilePlan::UrlShortcut => Some((4, seq![])),
        IconFilePlan::Shortcut => Some((5, seq![])),
        IconFilePlan::Extract { app: _, extension } => Some((6, extension@)),
    }
}

pub fn plan_icon_extraction(facts: &IconFileFacts) -> (r: IconFilePlan)
    ensures
        plan_code(r) == spec_icon_plan(
            facts.is_file,
            match facts.extension {
                Some(e) => Some(e@),
                None => None,
            },
            facts.local_custom_icon,
            facts.cached_app_icon,
            facts.cached_file_icon,
            facts.window_found,
        ),
        r matches IconFilePlan::Extract { app, extension } ==> app == (extension@ == "exe"@
            || extension@ == "lnk"@),
{
    if !facts.is_file {
        return IconFilePlan::FromWindowOrMissing;
    }
    let raw = match &facts.extension {
        Some(e) => e,
        None => return IconFilePlan::Nothing,
    };
    let e = to_lowercase(raw.as_str());
    let es = e.as_str();
    proof {
        reveal_strlit("ico");
    }
    if eq_str(es, "ico") {
        return IconFilePlan::Nothing;
    }
    let is_exe = eq_str(es, "exe");
    let is_lnk = eq_str(es, "lnk");
    let is_url = eq_str(es, "url");
    let local = facts.local_custom_icon;
    if !local {
        if is_exe || is_lnk || is_url {
            if facts.cached_app_icon {
                return IconFilePlan::Cached;
            }
        } else {
            if facts.cached_app_icon || facts.cached_file_icon {
                return IconFilePlan::Cached;
            }
            if facts.window_found {
                return IconFilePlan::FromWindow;
            }
        }
    }
    if is_url {
        return IconFilePlan::UrlShortcut;
    }
    if is_lnk {
        return IconFilePlan::Shortcut;
    }
    IconFilePlan::Extract { app: is_exe || is_lnk, extension: e }
}

/// The error for a missing file without a window to take the icon from.
pub fn file_not_found(path: &str) -> (r: String)
    ensures
        r@ == "File not found: "@ + path@,
{
    let mut m = chars_of("File not found: ");
    push_str_chars(&mut m, path);
    string_of(m.as_slice())
}

/// A shortcut's icon is taken from its target (a program or another
/// shortcut) only when it names the target's first icon and no application
/// id is given, and no custom icon is installed.
pub open spec fn spec_lnk_redirects(target_ext: Option<Seq<char>>, icon_index: i32, umid_given: bool, local: bool) -> bool {
    &&& match target_ext {
        Some(e) => is_app_ext(unicode_lowercase(e)),
        None => false,
    }
    &&& icon_index == 0
    &&& !umid_given
    &&& !local
}

pub fn lnk_redirects(target_ext: Option<&str>, icon_index: i32, umid_given: bool, local: bool) -> (r: bool)
    ensures
        r == spec_lnk_redirects(
            match target_ext {
                Some(e) => Some(e@),
                None => None,
            },
            icon_index,
            umid_given,
            local,
        ),
{
    let app = match target_ext {
        Some(e) => {
            let l = to_lowercase(e);
            eq_str(l.as_str(), "exe") || eq_str(l.as_str(), "lnk") || eq_str(l.as_str(), "url")
        },
        None => false,
    };
    app && icon_index == 0 && !umid_given && !local
}

/// The hash id of a path.
pub open spec fn path_id(path: Seq<char>) -> Seq<char> {
    radix_digits(default_hash(unicode_lowercase(path)) as nat, 16, false)
}

/// `<stem>_<path id>.png`, the file of a program's icon.
pub fn app_icon_file_name(stem: &str, path: &str) -> (r: String)
    ensures
        r@ == stem@ + "_"@ + path_id(path@) + ".png"@,
{
    let mut m = chars_of(stem);
    push_str_chars(&mut m, "_");
    let h = path_based_hash_id(path);
    push_str_chars(&mut m, h.as_str());
    push_str_chars(&mut m, ".png");
    string_of(m.as_slice())
}

/// `<extension>_<path id>.png`, the file of the icon of a kind of file.
pub fn file_icon_file_name(extension: &str, path: &str) -> (r: String)
    ensures
        r@ == extension@ + "_"@ + path_id(path@) + ".png"@,
{
    app_icon_file_name(extension, path)
}

/// The icon files of a store app: one `<id>.png` when its light and dark
/// icons are the same file, else `<id>_light.png` and `<id>_dark.png`.
pub fn uwp_icon_files(umid: &str, light_path: &str, dark_path: &str) -> (r: (Option<String>, Option<String>, Option<String>))
    ensures
        ({
            let id = radix_digits(default_hash(umid@) as nat, 16, false);
            if light_path@ == dark_path@ {
                r.0 matches Some(b) && b@ == id + ".png"@ && r.1 is None && r.2 is None
            } else {
                r.0 is None && (r.1 matches Some(l) && l@ == id + "_light.png"@) && (r.2 matches Some(
                    d,
                ) && d@ == id + "_dark.png"@)
            }
        }),
{
    let id = umid_based_hash_id(umid);
    if eq_str(light_path, dark_path) {
        let mut b = chars_of(id.as_str());
        push_str_chars(&mut b, ".png");
        (Some(string_of(b.as_slice())), None, None)
    } else {
        let mut l = chars_of(id.as_str());
        push_str_chars(&mut l, "_light.png");
        let mut d = chars_of(id.as_str());
        push_str_chars(&mut d, "_dark.png");
        (None, Some(string_of(l.as_slice())), Some(string_of(d.as_slice())))
    }
}

/// The file of a custom icon taken for a window: the process name without
/// `.exe`, and `.png`.
pub fn window_icon_file_name(process_name: &str) -> (r: String)
    ensures
        r@ == (if ends_with(process_name@, ".exe"@) {
            process_name@.take(process_name@.len() - 4)
        } else {
            process_name@
        }) + ".png"@,
{
    let c = chars_of(process_name);
    let suffix = chars_of(".exe");
    let mut m = if crate::text::ends_with_chars(c.as_slice(), suffix.as_slice()) {
        assert(suffix@.len() == 4) by {
            reveal_strlit(".exe");
        }
        let t = crate::text::slice_vec(c.as_slice(), 0, c.len() - 4);
        assert(t@ == process_name@.take(process_name@.len() - 4));
        t
    } else {
        c
    };
    push_str_chars(&mut m, ".png");
    string_of(m.as_slice())
}

/// An application id: of a store app, or from a shortcut's property store.
#[derive(Debug, Clone)]
pub enum AppUserModelId {
    Appx(String),
    PropertyStore(String),
}

/// A queued request for an icon.
#[derive(Debug, Clone)]
pub enum IconExtractorRequest {
    Path { path: String, use_local_icon: bool },
    AppUmid { umid: AppUserModelId, use_local_icon: bool },
}

/// The request for the icon of a file (handled in queue order).
pub fn extract_and_save_icon_from_file(path: &str, use_local_icon: bool) -> (r: IconExtractorRequest)
    ensures
        r matches IconExtractorRequest::Path { path: p, use_local_icon: u } && p@ == path@ && u
            == use_local_icon,
{
    let c = chars_of(path);
    IconExtractorRequest::Path { path: string_of(c.as_slice()), use_local_icon }
}

/// The request for the icon of an application id.
pub fn extract_and_save_icon_umid(aumid: AppUserModelId, use_local_icon: bool) -> (r: IconExtractorRequest)
    ensures
        r matches IconExtractorRequest::AppUmid { umid: a, use_local_icon: u } && a == aumid && u
            == use_local_icon,
{
    IconExtractorRequest::AppUmid { umid: aumid, use_local_icon }
}

/// A network path: it starts with two backslashes.
pub open spec fn is_unc(path: Seq<char>) -> bool {
    starts_with(path, seq!['\\', '\\'])
}

pub fn is_unc_path(path: &str) -> (r: bool)
    ensures
        r == is_unc(path@),
{
    let v = chars_of(path);
    let r = v.len() >= 2 && v[0] == '\\' && v[1] == '\\';
    proof {
        let p: Seq<char> = seq!['\\', '\\'];
        if r {
            assert(path@.take(2) =~= p);
        }
        if is_unc(path@) {
            assert(path@.take(2)[0] == p[0]);
            assert(path@.take(2)[1] == p[1]);
        }
    }
    r
}

/// The verbatim prefix `\\?\` that a canonical path carries.
pub open spec fn verbatim_prefix() -> Seq<char> {
    seq!['\\', '\\', '?', '\\']
}

/// The path with every leading verbatim prefix removed
/// (`trim_start_matches`).
pub open spec fn without_verbatim_prefixes(path: Seq<char>) -> Seq<char>
    decreases path.len(),
{
    if starts_with(path, verbatim_prefix()) {
        without_verbatim_prefixes(path.skip(4))
    } else {
        path
    }
}

pub fn strip_verbatim_prefixes(path: &str) -> (r: String)
    ensures
        r@ == without_verbatim_prefixes(path@),
{
    let v = chars_of(path);
    let mut start: usize = 0;
    assert(v@.skip(0) =~= v@);
    while v.len() - start >= 4 && v[start] == '\\' && v[start + 1] == '\\' && v[start + 2] == '?'
        && v[start + 3] == '\\'
        invariant
            start <= v.len(),
            v@ == path@,
            without_verbatim_prefixes(v@.skip(start as int)) == without_verbatim_prefixes(path@),
        decreases v.len() - start,
    {
        proof {
            let t = v@.skip(start as int);
            assert(t.take(4) =~= verbatim_prefix());
            assert(t.skip(4) =~= v@.skip(start + 4));
        }
        start = start + 4;
    }
    proof {
        let t = v@.skip(start as int);
        if starts_with(t, verbatim_prefix()) {
            assert(t[0] == v@[start as int] && t[1] == v@[start + 1] && t[2] == v@[start + 2] && t[3]
                == v@[start + 3]);
            assert(t[0] == verbatim_prefix()[0]);
            assert(t[1] == verbatim_prefix()[1]);
            assert(t[2] == verbatim_prefix()[2]);
            assert(t[3] == verbatim_prefix()[3]);
        }
    }
    let rest = slice_vec(v.as_slice(), start, v.len());
    assert(rest@ == v@.skip(start as int));
    string_of(rest.as_slice())
}

} // verus!
