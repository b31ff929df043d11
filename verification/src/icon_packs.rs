//! The system icon pack: which applications and kinds of files already have
//! an icon kept for them.
use vstd::prelude::*;

use crate::text::{eq_str, to_lowercase, unicode_lowercase};

verus! {

/// What `std::path::Path::extension` gives for a path, as text.
pub uninterp spec fn path_extension(path: Seq<char>) -> Option<Seq<char>>;

/// Calls `Path::extension`; the extension of a path given as text is text.
#[verifier::external_body]
fn extension_text(path: &str) -> (r: Option<String>)
    ensures
        match path_extension(path@) {
            Some(e) => r matches Some(x) && x@ == e,
            None => r is None,
        },
{
    std::path::Path::new(path).extension().and_then(|e| e.to_str()).map(|e| e.to_string())
}

/// An entry of the system icon pack, with whether its icon files are on
/// disk (`icon_on_disk`: the entry has an icon, and its base file, or both
/// its light and dark files, exist).
#[derive(Debug, Clone)]
pub enum IconPackEntry {
    /// The icon of one application, by id or path, or a redirect to the
    /// entry of another path.
    Unique {
        umid: Option<String>,
        path: Option<String>,
        redirect: Option<String>,
        icon_on_disk: bool,
    },
    /// The icon of a kind of file.
    Shared { extension: String, icon_on_disk: bool },
    /// An icon of the interface, by key.
    Custom { key: String },
}

pub enum EntryView {
    Unique {
        umid: Option<Seq<char>>,
        path: Option<Seq<char>>,
        redirect: Option<Seq<char>>,
        icon_on_disk: bool,
    },
    Shared { extension: Seq<char>, icon_on_disk: bool },
    Custom { key: Seq<char> },
}

pub open spec fn opt_view(s: Option<String>) -> Option<Seq<char>> {
    match s {
        Some(x) => Some(x@),
        None => None,
    }
}

impl View for IconPackEntry {
    type V = EntryView;

    open spec fn view(&self) -> EntryView {
        match self {
            IconPackEntry::Unique { umid, path, redirect, icon_on_disk } => EntryView::Unique {
                umid: opt_view(*umid),
                path: opt_view(*path),
                redirect: opt_view(*redirect),
                icon_on_disk: *icon_on_disk,
            },
            IconPackEntry::Shared { extension, icon_on_disk } => EntryView::Shared {
                extension: extension@,
                icon_on_disk: *icon_on_disk,
            },
            IconPackEntry::Custom { key } => EntryView::Custom { key: key@ },
        }
    }
}

pub open spec fn entry_views(v: Seq<IconPackEntry>) -> Seq<EntryView> {
    v.map_values(|e: IconPackEntry| e@)
}

/// Two paths are the same when their lowercase texts are.
pub open spec fn same_path(a: Seq<char>, b: Seq<char>) -> bool {
    unicode_lowercase(a) == unicode_lowercase(b)
}

/// An application entry names the application: the same id, or (when a
/// path is asked for) the same path.
pub open spec fn entry_names(e: EntryView, umid: Option<Seq<char>>, path: Option<Seq<char>>) -> bool {
    match e {
        EntryView::Unique { umid: eu, path: ep, .. } => {
            ||| (eu matches Some(a) && umid matches Some(b) && a == b)
            ||| (path matches Some(p) && ep matches Some(q) && same_path(q, p))
        },
        _ => false,
    }
}

/// Some application entry of the path has its icon on disk.
pub open spec fn redirect_target_ok(entries: Seq<EntryView>, target: Seq<char>) -> bool {
    exists|j: int|
        0 <= j < entries.len() && (#[trigger] entries[j] matches EntryView::Unique {
            path: Some(p),
            icon_on_disk: true,
            ..
        } && same_path(p, target))
}

/// An entry that names the application serves it: through its redirect
/// when it has one, else through its own icon.
pub open spec fn entry_serves(entries: Seq<EntryView>, k: int, umid: Option<Seq<char>>, path: Option<Seq<char>>) -> bool {
    &&& entry_names(entries[k], umid, path)
    &&& match entries[k] {
        EntryView::Unique { redirect: Some(r), .. } => redirect_target_ok(entries, r),
        EntryView::Unique { redirect: None, icon_on_disk, .. } => icon_on_disk,
        _ => false,
    }
}

/// Whether some application entry of the target path (up to case) has its
/// icon on disk.
fn redirect_ok(entries: &Vec<IconPackEntry>, target: &str) -> (r: bool)
    ensures
        r == redirect_target_ok(entry_views(entries@), target@),
{
    let ghost v = entry_views(entries@);
    let target_lower = to_lowercase(target);
    let mut i: usize = 0;
    while i < entries.len()
        invariant
            i <= entries.len(),
            v == entry_views(entries@),
            target_lower@ == unicode_lowercase(target@),
            forall|j: int| 0 <= j < i ==> !(#[trigger] v[j] matches EntryView::Unique {
                path: Some(p),
                icon_on_disk: true,
                ..
            } && same_path(p, target@)),
        decreases entries.len() - i,
    {
        proof {
            assert(v[i as int] == entries@[i as int]@);
        }
        match &entries[i] {
            IconPackEntry::Unique { path: Some(p), icon_on_disk: true, .. } => {
                let lp = to_lowercase(p.as_str());
                if eq_str(lp.as_str(), target_lower.as_str()) {
                    return true;
                }
            },
            _ => {},
        }
        i = i + 1;
    }
    false
}

/// The text of an optional borrowed string.
pub open spec fn opt_str_view(s: Option<&str>) -> Option<Seq<char>> {
    match s {
        Some(x) => Some(x@),
        None => None,
    }
}

/// Whether the system pack already keeps an icon for the application
/// (by id, or by path up to case).
pub fn has_app_icon(entries: &Vec<IconPackEntry>, umid: Option<&str>, path: Option<&str>) -> (r: bool)
    ensures
        r == exists|k: int|
            0 <= k < entries@.len() && #[trigger] entry_serves(
                entry_views(entries@),
                k,
                opt_str_view(umid),
                opt_str_view(path),
            ),
{
    let ghost v = entry_views(entries@);
    let ghost uv = opt_str_view(umid);
    let ghost pv = opt_str_view(path);
    let lower_path: Option<String> = match path {
        Some(p) => Some(to_lowercase(p)),
        None => None,
    };
    let mut i: usize = 0;
    while i < entries.len()
        invariant
            i <= entries.len(),
            v == entry_views(entries@),
            uv == opt_str_view(umid),
            pv == opt_str_view(path),
            match path {
                Some(p) => lower_path matches Some(l) && l@ == unicode_lowercase(p@),
                None => lower_path is None,
            },
            forall|j: int| 0 <= j < i ==> !#[trigger] entry_serves(v, j, uv, pv),
        decreases entries.len() - i,
    {
        proof {
            assert(v[i as int] == entries@[i as int]@);
        }
        match &entries[i] {
            IconPackEntry::Unique { umid: eu, path: ep, redirect, icon_on_disk } => {
                let by_umid = match (eu, umid) {
                    (Some(a), Some(b)) => eq_str(a.as_str(), b),
                    _ => false,
                };
                let by_path = match (&lower_path, ep) {
                    (Some(l), Some(q)) => {
                        let lq = to_lowercase(q.as_str());
                        eq_str(lq.as_str(), l.as_str())
                    },
                    _ => false,
                };
                if by_umid || by_path {
                    match redirect {
                        Some(r) => {
                            if redirect_ok(entries, r.as_str()) {
                                proof {
                                    assert(entry_serves(v, i as int, uv, pv));
                                }
                                return true;
                            }
                        },
                        None => {
                            if *icon_on_disk {
                                proof {
                                    assert(entry_serves(v, i as int, uv, pv));
                                }
                                return true;
                            }
                        },
                    }
                }
            },
            _ => {},
        }
        i = i + 1;
    }
    false
}

/// The first entry for files of the path's extension (up to case) whose
/// icon is on disk.
pub fn get_file_icon(entries: &Vec<IconPackEntry>, path: &str) -> (r: Option<usize>)
    ensures
        match path_extension(path@) {
            None => r is None,
            Some(ext) => match r {
                Some(k) => k < entries@.len() && is_file_icon(entry_views(entries@)[k as int], ext)
                    && forall|j: int| 0 <= j < k ==> !is_file_icon(#[trigger] entry_views(entries@)[j], ext),
                None => forall|j: int| 0 <= j < entries@.len() ==> !is_file_icon(#[trigger] entry_views(entries@)[j], ext),
            },
        },
{
    let ext = match extension_text(path) {
        Some(e) => e,
        None => return None,
    };
    let lext = to_lowercase(ext.as_str());
    let ghost v = entry_views(entries@);
    let mut i: usize = 0;
    while i < entries.len()
        invariant
            i <= entries.len(),
            v == entry_views(entries@),
            path_extension(path@) == Some(ext@),
            lext@ == unicode_lowercase(ext@),
            forall|j: int| 0 <= j < i ==> !is_file_icon(#[trigger] v[j], ext@),
        decreases entries.len() - i,
    {
        proof {
            assert(v[i as int] == entries@[i as int]@);
        }
        match &entries[i] {
            IconPackEntry::Shared { extension, icon_on_disk } => {
                let le = to_lowercase(extension.as_str());
                if eq_str(le.as_str(), lext.as_str()) && *icon_on_disk {
                    return Some(i);
                }
            },
            _ => {},
        }
        i = i + 1;
    }
    None
}

/// An entry for files of the extension (up to case) with its icon on disk.
pub open spec fn is_file_icon(e: EntryView, ext: Seq<char>) -> bool {
    e matches EntryView::Shared { extension, icon_on_disk: true } && unicode_lowercase(extension)
        == unicode_lowercase(ext)
}

/// Whether an icon's files are on disk, given for each of its base, light
/// and dark files whether it exists (`None` when the icon names no such
/// file): the base file, or both the light and the dark file.
pub fn icon_files_present(base: Option<bool>, light: Option<bool>, dark: Option<bool>) -> (r: bool)
    ensures
        r == (base == Some(true) || (light == Some(true) && dark == Some(true))),
{
    base == Some(true) || (light == Some(true) && dark == Some(true))
}

} // verus!
