//! Application notifications: a flashing window of a whitelisted program is
//! reported as a notification.
use vstd::prelude::*;

use crate::text::{chars_of, eq_str, string_of};

verus! {

/// A window that flashed for attention, with its process and texts.
pub struct AppNotificationEvent {
    pub hwnd: isize,
    pub process_id: u32,
    pub process_name: String,
    pub window_title: String,
    pub window_class: String,
}

/// The programs whose flashing windows are reported.
pub struct NotificationWhitelist {
    applications: Vec<String>,
}

impl NotificationWhitelist {
    /// The listed program names.
    pub closed spec fn apps(&self) -> Set<Seq<char>> {
        self.applications@.map_values(|a: String| a@).to_set()
    }

    pub fn new() -> (r: Self)
        ensures
            r.apps() == Set::<Seq<char>>::empty(),
    {
        let r = NotificationWhitelist { applications: Vec::new() };
        assert(r.apps() =~= Set::<Seq<char>>::empty());
        r
    }

    pub fn contains(&self, app: &str) -> (r: bool)
        ensures
            r == self.apps().contains(app@),
    {
        let ghost v = self.applications@.map_values(|a: String| a@);
        let mut i: usize = 0;
        while i < self.applications.len()
            invariant
                i <= self.applications.len(),
                v == self.applications@.map_values(|a: String| a@),
                forall|j: int| 0 <= j < i ==> v[j] != app@,
            decreases self.applications.len() - i,
        {
            proof {
                assert(v[i as int] == self.applications@[i as int]@);
            }
            if eq_str(self.applications[i].as_str(), app) {
                proof {
                    assert(v.to_set().contains(v[i as int]));
                }
                return true;
            }
            i = i + 1;
        }
        proof {
            if v.to_set().contains(app@) {
                assert(v.contains(app@));
                let k = choose|k: int| 0 <= k < v.len() && v[k] == app@;
            }
        }
        false
    }

    pub fn add(&mut self, app: String)
        ensures
            final(self).apps() == old(self).apps().insert(app@),
    {
        let ghost before = self.applications@.map_values(|a: String| a@);
        if self.contains(app.as_str()) {
            proof {
                assert(before.to_set().insert(app@) =~= before.to_set());
            }
            return;
        }
        self.applications.push(app);
        proof {
            let after = self.applications@.map_values(|a: String| a@);
            assert(after =~= before.push(app@));
            assert(after.to_set() =~= before.to_set().insert(app@)) by {
                assert forall|x: Seq<char>| after.to_set().contains(x) <==> before.to_set().insert(app@).contains(x) by {
                    if after.contains(x) {
                        let k = choose|k: int| 0 <= k < after.len() && after[k] == x;
                        if k < before.len() {
                            assert(before[k] == x);
                        }
                    }
                    if before.contains(x) {
                        let k = choose|k: int| 0 <= k < before.len() && before[k] == x;
                        assert(after[k] == x);
                    }
                    if x == app@ {
                        assert(after[before.len() as int] == x);
                    }
                }
            }
        }
    }
}

/// A program whose name was added is on the list afterwards.
pub proof fn lemma_added_is_listed(before: Set<Seq<char>>, app: Seq<char>)
    ensures
        before.insert(app).contains(app),
{
}

/// The whitelist file's contents.
pub struct WhitelistConfig {
    pub notifications: Vec<String>,
}

/// The whitelist of every program the configuration names.
pub fn whitelist_from_config(config: &WhitelistConfig) -> (r: NotificationWhitelist)
    ensures
        r.apps() == config.notifications@.map_values(|a: String| a@).to_set(),
{
    let ghost names = config.notifications@.map_values(|a: String| a@);
    let mut w = NotificationWhitelist::new();
    let mut i: usize = 0;
    while i < config.notifications.len()
        invariant
            i <= config.notifications.len(),
            names == config.notifications@.map_values(|a: String| a@),
            w.apps() == names.take(i as int).to_set(),
        decreases config.notifications.len() - i,
    {
        let c = chars_of(config.notifications[i].as_str());
        proof {
            assert(names[i as int] == config.notifications@[i as int]@);
            assert(names.take(i + 1) =~= names.take(i as int).push(names[i as int]));
            Seq::lemma_to_set_insert_commutes(names.take(i as int), names[i as int]);
            assert(names.take(i as int) + seq![names[i as int]] =~= names.take(i + 1));
        }
        w.add(string_of(c.as_slice()));
        i = i + 1;
    }
    assert(names.take(config.notifications.len() as int) =~= names);
    w
}

/// A notification as reported to the interface.
pub struct AppNotification {
    pub id: u32,
    pub app_umid: String,
    pub app_name: String,
    pub app_description: String,
    pub date: i64,
}

/// `HSHELL_FLASH`: a window flashes for attention.
pub const HSHELL_FLASH: u32 = 0x8006;

/// Reports flashing windows of whitelisted programs.
pub struct AppNotificationService {
    whitelist: NotificationWhitelist,
}

impl AppNotificationService {
    pub closed spec fn listed(&self) -> Set<Seq<char>> {
        self.whitelist.apps()
    }

    pub fn new(whitelist: NotificationWhitelist) -> (r: Self)
        ensures
            r.listed() == whitelist.apps(),
    {
        AppNotificationService { whitelist }
    }

    /// The notification for a shell-hook event: a flash of a window (read
    /// into `event`) whose program is whitelisted, dated `now`.
    pub fn process_shell_hook_event(&self, wparam: u32, event: Option<&AppNotificationEvent>, now: i64) -> (r: Option<AppNotification>)
        ensures
            match event {
                Some(e) => if wparam == HSHELL_FLASH && self.listed().contains(e.process_name@) {
                    r matches Some(n) && n.id == e.process_id && n.app_umid@ == e.process_name@
                        && n.app_name@ == e.process_name@ && n.app_description@ == e.window_title@
                        && n.date == now
                } else {
                    r is None
                },
                None => r is None,
            },
    {
        if wparam != HSHELL_FLASH {
            return None;
        }
        match event {
            Some(e) => {
                if self.whitelist.contains(e.process_name.as_str()) {
                    let a = chars_of(e.process_name.as_str());
                    let t = chars_of(e.window_title.as_str());
                    Some(AppNotification {
                        id: e.process_id,
                        app_umid: string_of(a.as_slice()),
                        app_name: string_of(a.as_slice()),
                        app_description: string_of(t.as_slice()),
                        date: now,
                    })
                } else {
                    None
                }
            },
            None => None,
        }
    }
}

} // verus!
