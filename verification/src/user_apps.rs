//! The list of application windows the taskbar shows, and how observed and
//! closed windows are reconciled with it.
use vstd::prelude::*;

use crate::text::{chars_of, eq_str, string_of};
use crate::window_filter::UserAppsEvent;

verus! {

/// A listed window.
#[derive(Debug, Clone)]
pub struct UserAppWindow {
    pub hwnd: isize,
    pub title: String,
    pub class: String,
    pub process_name: String,
}

pub open spec fn hwnds_of(v: Seq<UserAppWindow>) -> Seq<isize> {
    v.map_values(|w: UserAppWindow| w.hwnd)
}

/// The windows the taskbar lists.
pub struct UserAppsManager {
    pub interactable_windows: Vec<UserAppWindow>,
}

fn copy_window(w: &UserAppWindow) -> (r: UserAppWindow)
    ensures
        r.hwnd == w.hwnd,
        r.title@ == w.title@,
        r.class@ == w.class@,
        r.process_name@ == w.process_name@,
{
    let t = chars_of(w.title.as_str());
    let c = chars_of(w.class.as_str());
    let p = chars_of(w.process_name.as_str());
    UserAppWindow {
        hwnd: w.hwnd,
        title: string_of(t.as_slice()),
        class: string_of(c.as_slice()),
        process_name: string_of(p.as_slice()),
    }
}

pub open spec fn not_hwnd(hwnd: isize) -> spec_fn(isize) -> bool {
    |h: isize| h != hwnd
}

impl UserAppsManager {
    /// The handles of the listed windows, in order.
    pub open spec fn hwnds(&self) -> Seq<isize> {
        hwnds_of(self.interactable_windows@)
    }

    /// The list of the windows found at start.
    pub fn init(initial: Vec<UserAppWindow>) -> (r: Self)
        ensures
            r.hwnds() == hwnds_of(initial@),
    {
        UserAppsManager { interactable_windows: initial }
    }

    pub fn contains_win(&self, hwnd: isize) -> (r: bool)
        ensures
            r == self.hwnds().contains(hwnd),
    {
        let ghost v = self.hwnds();
        let mut i: usize = 0;
        while i < self.interactable_windows.len()
            invariant
                i <= self.interactable_windows.len(),
                v == self.hwnds(),
                forall|j: int| 0 <= j < i ==> v[j] != hwnd,
            decreases self.interactable_windows.len() - i,
        {
            if self.interactable_windows[i].hwnd == hwnd {
                proof {
                    assert(v[i as int] == hwnd);
                }
                return true;
            }
            i = i + 1;
        }
        false
    }

    /// Lists a window at the end.
    pub fn add_win(&mut self, window: UserAppWindow)
        ensures
            final(self).hwnds() == old(self).hwnds().push(window.hwnd),
    {
        let ghost before = self.hwnds();
        let h = window.hwnd;
        self.interactable_windows.push(window);
        assert(self.hwnds() =~= before.push(h));
    }

    /// Lists a window unless one with its handle is listed; whether it was
    /// added.
    pub fn add_win_if_missing(&mut self, window: UserAppWindow) -> (r: bool)
        ensures
            r == !old(self).hwnds().contains(window.hwnd),
            final(self).hwnds() == if r {
                old(self).hwnds().push(window.hwnd)
            } else {
                old(self).hwnds()
            },
    {
        if self.contains_win(window.hwnd) {
            return false;
        }
        self.add_win(window);
        true
    }

    /// Drops every listed window with the handle.
    pub fn remove_win(&mut self, hwnd: isize)
        ensures
            final(self).hwnds() == old(self).hwnds().filter(not_hwnd(hwnd)),
    {
        let ghost v = self.hwnds();
        let mut kept: Vec<UserAppWindow> = Vec::new();
        let mut i: usize = 0;
        proof {
            assert(v.take(0).filter(not_hwnd(hwnd)) =~= Seq::<isize>::empty());
            assert(hwnds_of(kept@) =~= Seq::<isize>::empty());
        }
        while i < self.interactable_windows.len()
            invariant
                i <= self.interactable_windows.len(),
                v == self.hwnds(),
                hwnds_of(kept@) == v.take(i as int).filter(not_hwnd(hwnd)),
            decreases self.interactable_windows.len() - i,
        {
            proof {
                assert(v.take(i + 1) =~= v.take(i as int).push(v[i as int]));
                v.take(i as int).lemma_filter_push(v[i as int], not_hwnd(hwnd));
            }
            if self.interactable_windows[i].hwnd != hwnd {
                let ghost before = hwnds_of(kept@);
                let w = copy_window(&self.interactable_windows[i]);
                kept.push(w);
                proof {
                    assert(hwnds_of(kept@) =~= before.push(v[i as int]));
                }
            }
            i = i + 1;
        }
        proof {
            assert(v.take(self.interactable_windows.len() as int) =~= v);
        }
        self.interactable_windows = kept;
    }

    /// After a window reported closing: a listed window whose process is
    /// gone or that no longer passes the listing test is dropped, and its
    /// removal reported.
    pub fn reconcile_closed_window(&mut self, hwnd: isize, process_exists: bool, interactable: bool) -> (r: Option<UserAppsEvent>)
        ensures
            (old(self).hwnds().contains(hwnd) && !(process_exists && interactable)) ==> (r == Some(
                UserAppsEvent::WinRemoved(hwnd),
            ) && final(self).hwnds() == old(self).hwnds().filter(not_hwnd(hwnd))),
            !(old(self).hwnds().contains(hwnd) && !(process_exists && interactable)) ==> (r is None
                && final(self).hwnds() == old(self).hwnds()),
    {
        if !self.contains_win(hwnd) {
            return None;
        }
        if process_exists && interactable {
            return None;
        }
        self.remove_win(hwnd);
        Some(UserAppsEvent::WinRemoved(hwnd))
    }

    /// After a window was seen: an unlisted window that passes the listing
    /// test (and is not one of the taskbar's own `Tauri Window`s) is listed,
    /// and its addition reported.
    pub fn reconcile_observed_window(&mut self, window: UserAppWindow, interactable: bool) -> (r: Option<UserAppsEvent>)
        ensures
            ({
                let add = !old(self).hwnds().contains(window.hwnd) && window.class@ != "Tauri Window"@
                    && interactable;
                &&& add ==> r == Some(UserAppsEvent::WinAdded(window.hwnd)) && final(self).hwnds()
                    == old(self).hwnds().push(window.hwnd)
                &&& !add ==> r is None && final(self).hwnds() == old(self).hwnds()
            }),
    {
        let h = window.hwnd;
        if self.contains_win(h) {
            return None;
        }
        if eq_str(window.class.as_str(), "Tauri Window") {
            return None;
        }
        if !interactable {
            return None;
        }
        if self.add_win_if_missing(window) {
            Some(UserAppsEvent::WinAdded(h))
        } else {
            None
        }
    }
}

/// Dropping a window's handle leaves that handle unlisted and every other
/// listed handle listed.
pub proof fn lemma_removed_window_unlisted(h: Seq<isize>, x: isize)
    ensures
        !h.filter(not_hwnd(x)).contains(x),
        forall|y: isize| y != x && h.contains(y) ==> #[trigger] h.filter(not_hwnd(x)).contains(y),
{
    let f = h.filter(not_hwnd(x));
    if f.contains(x) {
        let i = choose|i: int| 0 <= i < f.len() && f[i] == x;
        h.lemma_filter_pred(not_hwnd(x), i);
    }
    assert forall|y: isize| y != x && h.contains(y) implies #[trigger] h.filter(not_hwnd(x)).contains(y) by {
        let i = choose|i: int| 0 <= i < h.len() && h[i] == y;
        h.lemma_filter_contains(not_hwnd(x), i);
    }
}

/// Listing a window only when its handle is missing keeps every handle
/// listed once.
pub proof fn lemma_listing_without_repeats(h: Seq<isize>, x: isize)
    requires
        h.no_duplicates(),
    ensures
        (if h.contains(x) {
            h
        } else {
            h.push(x)
        }).no_duplicates(),
{
    if !h.contains(x) {
        let g = h.push(x);
        assert forall|i: int, j: int| 0 <= i < g.len() && 0 <= j < g.len() && i != j implies g[i]
            != g[j] by {
            if i < h.len() && j < h.len() {
                assert(g[i] == h[i] && g[j] == h[j]);
            } else if i < h.len() {
                assert(g[i] == h[i]);
            } else if j < h.len() {
                assert(g[j] == h[j]);
            }
        }
    }
}

} // verus!
