//! The items of the taskbar's three areas, and the one-time default pin of
//! the vendor's assistant application.
use vstd::prelude::*;

use crate::constants::{join_path, joined, VarCommon};
use crate::text::{chars_of, eq_ignore_ascii_case, eq_ignore_case, eq_str, string_of};

verus! {

/// What an item of the taskbar is.
#[derive(Debug, Clone, Copy, PartialEq, Eq, Structural)]
pub enum TaskbarItemKind {
    Pinned,
    Temporal,
    StartMenu,
    RecycleBin,
    Other,
}

/// An item of the taskbar, by what the rules here read of it: its id, the
/// path of its program, the program it relaunches, its name and the
/// handles of its open windows.
#[derive(Debug, Clone)]
pub struct TaskbarItem {
    pub kind: TaskbarItemKind,
    pub id: String,
    pub path: String,
    pub relaunch_program: String,
    pub display_name: String,
    pub windows: Vec<isize>,
}

/// The items of the left, center and right areas.
#[derive(Debug, Clone)]
pub struct TaskbarItems {
    pub left: Vec<TaskbarItem>,
    pub center: Vec<TaskbarItem>,
    pub right: Vec<TaskbarItem>,
}

/// Where the assistant is installed.
pub open spec fn assistant_path() -> Seq<char> {
    "C:\\Program Files\\HONOR\\MagicClaw\\HnMagicClawUI.exe"@
}

/// The name the assistant is shown under.
pub open spec fn assistant_name() -> Seq<char> {
    "YOYOClaw"@
}

/// The id of the item that pins the assistant.
pub open spec fn assistant_item_id() -> Seq<char> {
    "e6717ab2-ec8d-45e4-9288-f205f5d53162"@
}

/// A pinned item of the assistant: by its path or relaunched program (up to
/// ASCII case), or by its name (up to ASCII case).
pub open spec fn is_assistant_item(item: TaskbarItem) -> bool {
    &&& item.kind == TaskbarItemKind::Pinned
    &&& {
        ||| eq_ignore_case(item.path@, assistant_path())
        ||| eq_ignore_case(item.relaunch_program@, assistant_path())
        ||| eq_ignore_case(item.display_name@, assistant_name())
    }
}

pub fn is_yoyo_claw_item(item: &TaskbarItem) -> (r: bool)
    ensures
        r == is_assistant_item(*item),
{
    if item.kind != TaskbarItemKind::Pinned {
        return false;
    }
    let expected = "C:\\Program Files\\HONOR\\MagicClaw\\HnMagicClawUI.exe";
    eq_ignore_ascii_case(item.path.as_str(), expected) || eq_ignore_ascii_case(
        item.relaunch_program.as_str(),
        expected,
    ) || eq_ignore_ascii_case(item.display_name.as_str(), "YOYOClaw")
}

/// Some item of the sequence is the assistant's.
pub open spec fn has_assistant_item(items: Seq<TaskbarItem>) -> bool {
    exists|k: int| 0 <= k < items.len() && #[trigger] is_assistant_item(items[k])
}

fn any_yoyo_claw_item(items: &Vec<TaskbarItem>) -> (r: bool)
    ensures
        r == has_assistant_item(items@),
{
    let mut i: usize = 0;
    while i < items.len()
        invariant
            i <= items.len(),
            forall|k: int| 0 <= k < i ==> !#[trigger] is_assistant_item(items@[k]),
        decreases items.len() - i,
    {
        if is_yoyo_claw_item(&items[i]) {
            return true;
        }
        i = i + 1;
    }
    false
}

/// The pinned item that is added for the assistant.
pub open spec fn is_new_assistant_item(item: TaskbarItem) -> bool {
    &&& item.kind == TaskbarItemKind::Pinned
    &&& item.id@ == assistant_item_id()
    &&& item.path@ == assistant_path()
    &&& item.relaunch_program@ == assistant_path()
    &&& item.display_name@ == assistant_name()
}

fn text(s: &str) -> (r: String)
    ensures
        r@ == s@,
{
    let v = chars_of(s);
    string_of(v.as_slice())
}

/// Pins the assistant at the end of the left area, once: unless this was
/// already done (`migration_done`), the assistant is pinned in some area
/// already, or its program is not installed (`program_exists`). Whether it
/// was pinned now.
pub fn ensure_yoyo_claw_pinned_once(items: &mut TaskbarItems, migration_done: bool, program_exists: bool) -> (r: bool)
    ensures
        r == (!migration_done && !has_assistant_item(old(items).left@) && !has_assistant_item(
            old(items).center@,
        ) && !has_assistant_item(old(items).right@) && program_exists),
        r ==> final(items).left@.len() == old(items).left@.len() + 1 && final(items).left@.take(
            old(items).left@.len() as int,
        ) == old(items).left@ && is_new_assistant_item(final(items).left@.last()),
        !r ==> final(items).left@ == old(items).left@,
        final(items).center@ == old(items).center@,
        final(items).right@ == old(items).right@,
{
    if migration_done {
        return false;
    }
    let already_pinned = any_yoyo_claw_item(&items.left) || any_yoyo_claw_item(&items.center)
        || any_yoyo_claw_item(&items.right);
    if already_pinned {
        return false;
    }
    if !program_exists {
        return false;
    }
    let path = "C:\\Program Files\\HONOR\\MagicClaw\\HnMagicClawUI.exe";
    let item = TaskbarItem {
        kind: TaskbarItemKind::Pinned,
        id: text("e6717ab2-ec8d-45e4-9288-f205f5d53162"),
        path: text(path),
        relaunch_program: text(path),
        display_name: text("YOYOClaw"),
        windows: Vec::new(),
    };
    let ghost before = items.left@;
    items.left.push(item);
    proof {
        assert(items.left@.take(before.len() as int) =~= before);
    }
    true
}

/// The assistant is pinned at most once: the item that pins it is itself
/// an item of the assistant, so the left area holds one afterwards and a
/// later pass pins nothing more.
pub proof fn lemma_assistant_pinned_at_most_once(left: Seq<TaskbarItem>, item: TaskbarItem)
    requires
        is_new_assistant_item(item),
    ensures
        has_assistant_item(left.push(item)),
{
    let all = left.push(item);
    assert(all[left.len() as int] == item);
    assert(is_assistant_item(all[left.len() as int]));
}

/// The items of the three areas, left to right.
pub open spec fn all_items(t: TaskbarItems) -> Seq<TaskbarItem> {
    t.left@ + t.center@ + t.right@
}

/// A pinned or open application item with the id that has open windows.
pub open spec fn has_windows_for(item: TaskbarItem, id: Seq<char>) -> bool {
    &&& (item.kind == TaskbarItemKind::Pinned || item.kind == TaskbarItemKind::Temporal)
    &&& item.id@ == id
    &&& item.windows@.len() > 0
}

/// The windows of the last item of `all` with the id that has windows.
pub open spec fn windows_by_id(all: Seq<TaskbarItem>, id: Seq<char>) -> Option<Seq<isize>>
    decreases all.len(),
{
    if all.len() == 0 {
        None
    } else if has_windows_for(all.last(), id) {
        Some(all.last().windows@)
    } else {
        windows_by_id(all.drop_last(), id)
    }
}

/// The windows an application item takes over from the running items of
/// its id, else its own.
pub open spec fn carried_windows(item: TaskbarItem, running: Seq<TaskbarItem>) -> Seq<isize> {
    if item.kind == TaskbarItemKind::Pinned || item.kind == TaskbarItemKind::Temporal {
        match windows_by_id(running, item.id@) {
            Some(w) => w,
            None => item.windows@,
        }
    } else {
        item.windows@
    }
}

/// `b` is `a` with the given windows.
pub open spec fn same_item_with_windows(a: TaskbarItem, b: TaskbarItem, windows: Seq<isize>) -> bool {
    &&& b.kind == a.kind
    &&& b.id@ == a.id@
    &&& b.path@ == a.path@
    &&& b.relaunch_program@ == a.relaunch_program@
    &&& b.display_name@ == a.display_name@
    &&& b.windows@ == windows
}

/// Every item of `new` is the item of `old` at its place, with the windows
/// it takes over from the running items.
pub open spec fn windows_carried_over(old: Seq<TaskbarItem>, new: Seq<TaskbarItem>, running: Seq<TaskbarItem>) -> bool {
    &&& new.len() == old.len()
    &&& forall|p: int| 0 <= p < old.len() ==> #[trigger] same_item_with_windows(
        old[p],
        new[p],
        carried_windows(old[p], running),
    )
}

fn item_at(t: &TaskbarItems, i: usize) -> (r: &TaskbarItem)
    requires
        i < all_items(*t).len(),
    ensures
        *r == all_items(*t)[i as int],
{
    if i < t.left.len() {
        &t.left[i]
    } else if i - t.left.len() < t.center.len() {
        &t.center[i - t.left.len()]
    } else {
        &t.right[i - t.left.len() - t.center.len()]
    }
}

fn copy_handles(v: &Vec<isize>) -> (r: Vec<isize>)
    ensures
        r@ == v@,
{
    let mut r: Vec<isize> = Vec::new();
    let mut i: usize = 0;
    while i < v.len()
        invariant
            i <= v.len(),
            r@ == v@.take(i as int),
        decreases v.len() - i,
    {
        r.push(v[i]);
        assert(v@.take(i + 1) == v@.take(i as int).push(v@[i as int]));
        i = i + 1;
    }
    assert(v@.take(v.len() as int) == v@);
    r
}

fn find_windows_by_id(running: &TaskbarItems, id: &str) -> (r: Option<Vec<isize>>)
    requires
        all_items(*running).len() <= usize::MAX,
    ensures
        match windows_by_id(all_items(*running), id@) {
            Some(w) => r matches Some(v) && v@ == w,
            None => r is None,
        },
{
    let ghost all = all_items(*running);
    let total = running.left.len() + running.center.len() + running.right.len();
    let mut found: Option<Vec<isize>> = None;
    let mut i: usize = 0;
    while i < total
        invariant
            all == all_items(*running),
            total == all.len(),
            i <= total,
            match windows_by_id(all.take(i as int), id@) {
                Some(w) => found matches Some(v) && v@ == w,
                None => found is None,
            },
        decreases total - i,
    {
        let item = item_at(running, i);
        proof {
            assert(all.take(i + 1).drop_last() == all.take(i as int));
            assert(all.take(i + 1).last() == all[i as int]);
        }
        if (item.kind == TaskbarItemKind::Pinned || item.kind == TaskbarItemKind::Temporal) && eq_str(
            item.id.as_str(),
            id,
        ) && item.windows.len() > 0 {
            found = Some(copy_handles(&item.windows));
        }
        i = i + 1;
    }
    assert(all.take(total as int) == all);
    found
}

fn copy_item_with_windows(item: &TaskbarItem, windows: Vec<isize>) -> (r: TaskbarItem)
    ensures
        same_item_with_windows(*item, r, windows@),
{
    TaskbarItem {
        kind: item.kind,
        id: text(item.id.as_str()),
        path: text(item.path.as_str()),
        relaunch_program: text(item.relaunch_program.as_str()),
        display_name: text(item.display_name.as_str()),
        windows,
    }
}

fn carry_over_area(area: &Vec<TaskbarItem>, running: &TaskbarItems) -> (r: Vec<TaskbarItem>)
    requires
        all_items(*running).len() <= usize::MAX,
    ensures
        windows_carried_over(area@, r@, all_items(*running)),
{
    let mut r: Vec<TaskbarItem> = Vec::new();
    let mut p: usize = 0;
    while p < area.len()
        invariant
            p <= area.len(),
            all_items(*running).len() <= usize::MAX,
            r@.len() == p,
            forall|q: int| 0 <= q < p ==> #[trigger] same_item_with_windows(
                area@[q],
                r@[q],
                carried_windows(area@[q], all_items(*running)),
            ),
        decreases area.len() - p,
    {
        let item = &area[p];
        let windows = if item.kind == TaskbarItemKind::Pinned || item.kind == TaskbarItemKind::Temporal {
            match find_windows_by_id(running, item.id.as_str()) {
                Some(w) => w,
                None => copy_handles(&item.windows),
            }
        } else {
            copy_handles(&item.windows)
        };
        let copy = copy_item_with_windows(item, windows);
        r.push(copy);
        p = p + 1;
    }
    r
}

/// The items the interface writes back take over the open windows of the
/// running items with the same id (the last such item with windows when
/// several share an id); nothing else of them changes.
pub fn carry_over_windows(items: &mut TaskbarItems, running: &TaskbarItems)
    requires
        all_items(*running).len() <= usize::MAX,
    ensures
        windows_carried_over(old(items).left@, final(items).left@, all_items(*running)),
        windows_carried_over(old(items).center@, final(items).center@, all_items(*running)),
        windows_carried_over(old(items).right@, final(items).right@, all_items(*running)),
{
    let left = carry_over_area(&items.left, running);
    let center = carry_over_area(&items.center, running);
    let right = carry_over_area(&items.right, running);
    items.left = left;
    items.center = center;
    items.right = right;
}

/// The marker file whose presence says the assistant's one-time pin was
/// already done: `migrations\\default_pin_yoyoclaw_v1.done` in the data
/// folder.
pub fn yoyo_claw_migration_path(vars: &VarCommon) -> (r: String)
    ensures
        r@ == joined(joined(vars.bases().data_dir, "migrations"@), "default_pin_yoyoclaw_v1.done"@),
{
    let m = join_path(vars.app_data_dir(), "migrations");
    join_path(m.as_str(), "default_pin_yoyoclaw_v1.done")
}

} // verus!
