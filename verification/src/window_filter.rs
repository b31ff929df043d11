//! Which top-level windows the taskbar lists, and how window events change
//! the list.
use vstd::prelude::*;

use crate::geometry::Rect;
use crate::text::{
    chars_of, contains, contains_str, eq_str, starts_with, starts_with_str, string_of,
    to_lowercase, unicode_lowercase,
};

verus! {

/// A change of the listed windows (by window handle) or applications.
#[derive(Debug, Clone, Copy, PartialEq, Eq, Structural)]
pub enum UserAppsEvent {
    WinAdded(isize),
    WinUpdated(isize),
    WinRemoved(isize),
    AppAdded,
    AppUpdated,
    AppRemoved,
}

pub const WS_CHILD: u32 = 0x4000_0000;

pub const WS_MINIMIZEBOX: u32 = 0x0002_0000;

pub const WS_EX_APPWINDOW: u32 = 0x0004_0000;

pub const WS_EX_TOOLWINDOW: u32 = 0x0000_0080;

pub const WS_EX_NOACTIVATE: u32 = 0x0800_0000;

/// The extended-style bit whose absence marks an immersive shell frame.
pub const EX_STYLE_SHELL_FRAME_BIT: u32 = 0x0000_0100;

/// What the system reports of a window.
pub struct WindowFacts {
    pub is_window: bool,
    pub is_visible: bool,
    pub class: String,
    pub title: String,
    /// The process name (see `get_process_name_with_fallback`).
    pub process_name: String,
    /// Whether the process is frozen, when that could be read.
    pub is_frozen: Option<bool>,
    pub style: u32,
    pub ex_style: u32,
    pub is_cloaked: bool,
    pub has_owner: bool,
    /// Whether a limited handle to the process could be opened.
    pub process_accessible: bool,
    /// Whether the process is the taskbar's own.
    pub is_taskbar_process: bool,
    /// Whether the window carries the `ITaskList_Deleted` property.
    pub task_list_deleted: bool,
    pub is_minimized: bool,
    pub outer_rect: Option<Rect>,
    pub is_focused: bool,
    pub is_foreground: bool,
    /// The path of the process's program, when it could be read.
    pub program_path: Option<String>,
}

/// The process name shown for a window: the program's file name, else the
/// name the service reports, else the title, else `Unknown App` (always
/// some name).
pub fn get_process_name_with_fallback(exe_name: Option<&str>, service_name: Option<&str>, title: &str) -> (r: Option<String>)
    ensures
        r matches Some(n) && n@ == match exe_name {
            Some(e) => e@,
            None => match service_name {
                Some(s) => s@,
                None => if title@.len() > 0 {
                    title@
                } else {
                    "Unknown App"@
                },
            },
        },
{
    let c = match exe_name {
        Some(n) => chars_of(n),
        None => match service_name {
            Some(s) => chars_of(s),
            None => {
                let t = chars_of(title);
                if t.len() > 0 {
                    t
                } else {
                    chars_of("Unknown App")
                }
            },
        },
    };
    Some(string_of(c.as_slice()))
}

/// Windows of the taskbar and toolbar themselves, recycle-bin windows, and a
/// few known helper windows of other programs.
pub open spec fn spec_filtered_by_title(process_name: Seq<char>, title: Seq<char>) -> bool {
    let lower = unicode_lowercase(title);
    ||| title == "HonorTaskbar"@ || title == "HonorToolbar"@
    ||| starts_with(title, "回收站"@) || starts_with(title, "Recycle Bin"@) || starts_with(
        title,
        "资源回收筒"@,
    )
    ||| process_name == "douyin_widget.exe"@
    ||| process_name == "Thunder.exe"@ && title == "悬浮球"@
    ||| lower == "ykplayer"@ || starts_with(lower, "ykplayer "@)
    ||| process_name == "Hihonornote.exe"@ && title == "HnCollectCenter"@
    ||| process_name == "PowerToys.MonacoPreviewHandler.exe"@ && title.len() == 0
}

pub fn should_filter_by_title_and_process(process_name: &str, title: &str) -> (r: bool)
    ensures
        r == spec_filtered_by_title(process_name@, title@),
{
    if eq_str(title, "HonorTaskbar") || eq_str(title, "HonorToolbar") {
        return true;
    }
    if starts_with_str(title, "回收站") || starts_with_str(title, "Recycle Bin")
        || starts_with_str(title, "资源回收筒") {
        return true;
    }
    if eq_str(process_name, "douyin_widget.exe") {
        return true;
    }
    if eq_str(process_name, "Thunder.exe") && eq_str(title, "悬浮球") {
        return true;
    }
    let lower = to_lowercase(title);
    if eq_str(lower.as_str(), "ykplayer") || starts_with_str(lower.as_str(), "ykplayer ") {
        return true;
    }
    if eq_str(process_name, "Hihonornote.exe") && eq_str(title, "HnCollectCenter") {
        return true;
    }
    let t = chars_of(title);
    if eq_str(process_name, "PowerToys.MonacoPreviewHandler.exe") && t.len() == 0 {
        return true;
    }
    false
}

pub open spec fn is_frame_class(class: Seq<char>) -> bool {
    class == "ApplicationFrameWindow"@ || class == "Windows.UI.Core.CoreWindow"@ || class
        == "StartMenuSizingFrame"@ || class == "Shell_LightDismissOverlay"@
}

pub open spec fn is_shell_host_class(class: Seq<char>) -> bool {
    class == "ImmersiveBackgroundWindow"@ || class == "SearchPane"@ || class == "NativeHWNDHost"@
        || class == "Shell_CharmWindow"@ || class == "ImmersiveLauncher"@
}

fn frame_class(class: &str) -> (r: bool)
    ensures
        r == is_frame_class(class@),
{
    eq_str(class, "ApplicationFrameWindow") || eq_str(class, "Windows.UI.Core.CoreWindow")
        || eq_str(class, "StartMenuSizingFrame") || eq_str(class, "Shell_LightDismissOverlay")
}

fn shell_host_class(class: &str) -> (r: bool)
    ensures
        r == is_shell_host_class(class@),
{
    eq_str(class, "ImmersiveBackgroundWindow") || eq_str(class, "SearchPane") || eq_str(
        class,
        "NativeHWNDHost",
    ) || eq_str(class, "Shell_CharmWindow") || eq_str(class, "ImmersiveLauncher")
}

/// Immersive shell windows: a frame class without the shell-frame bit, or a
/// shell host class owned by the explorer.
pub open spec fn spec_immersive_shell(class: Seq<char>, ex_style: u32, program_path: Option<Seq<char>>) -> bool {
    ||| is_frame_class(class) && (ex_style & EX_STYLE_SHELL_FRAME_BIT) == 0
    ||| is_shell_host_class(class) && (match program_path {
        Some(p) => contains(unicode_lowercase(p), "explorer.exe"@),
        None => false,
    })
}

pub fn is_immersive_shell_window(class: &str, ex_style: u32, program_path: Option<&str>) -> (r: bool)
    ensures
        r == spec_immersive_shell(
            class@,
            ex_style,
            match program_path {
                Some(p) => Some(p@),
                None => None,
            },
        ),
{
    if frame_class(class) && (ex_style & EX_STYLE_SHELL_FRAME_BIT) == 0 {
        return true;
    }
    if shell_host_class(class) {
        match program_path {
            Some(p) => {
                let lower = to_lowercase(p);
                if contains_str(lower.as_str(), "explorer.exe") {
                    return true;
                }
            },
            None => {},
        }
    }
    false
}

/// Rectangles whose width and height can be computed.
pub open spec fn rect_measurable(r: Rect) -> bool {
    i32::MIN <= r.right - r.left <= i32::MAX && i32::MIN <= r.bottom - r.top <= i32::MAX
}

pub open spec fn opt_rect_measurable(r: Option<Rect>) -> bool {
    match r {
        Some(x) => rect_measurable(x),
        None => true,
    }
}

/// A frame-class window that is really hidden: off screen or empty while
/// not minimized, parked far away while cloaked, or a cloaked application
/// frame that is neither focused nor in the foreground.
pub open spec fn spec_hidden_frame(
    class: Seq<char>,
    is_minimized: bool,
    is_cloaked: bool,
    rect: Option<Rect>,
    is_focused: bool,
    is_foreground: bool,
) -> bool {
    let sized = |r: Rect| r.right - r.left <= 0 || r.bottom - r.top <= 0;
    ||| !is_minimized && (match rect {
        Some(r) => r.left < -10000 || r.top < -10000 || r.right < -10000 || r.bottom < -10000
            || sized(r),
        None => false,
    })
    ||| is_cloaked && !is_minimized && (match rect {
        Some(r) => sized(r) || (r.left <= -30000 && r.top <= -30000),
        None => false,
    })
    ||| class == "ApplicationFrameWindow"@ && !is_focused && !is_minimized && !is_foreground
        && is_cloaked
}

pub fn process_uwp_window(
    class: &str,
    is_minimized: bool,
    is_cloaked: bool,
    rect: Option<Rect>,
    is_focused: bool,
    is_foreground: bool,
) -> (r: bool)
    requires
        !is_minimized ==> opt_rect_measurable(rect),
    ensures
        r == spec_hidden_frame(class@, is_minimized, is_cloaked, rect, is_focused, is_foreground),
{
    if !is_minimized {
        match rect {
            Some(r) => {
                let width = r.right - r.left;
                let height = r.bottom - r.top;
                let offscreen = r.left < -10000 || r.top < -10000 || r.right < -10000 || r.bottom
                    < -10000;
                if offscreen || width <= 0 || height <= 0 {
                    return true;
                }
            },
            None => {},
        }
    }
    if is_cloaked && !is_minimized {
        match rect {
            Some(r) => {
                let width = r.right - r.left;
                let height = r.bottom - r.top;
                if width <= 0 || height <= 0 {
                    return true;
                }
                if r.left <= -30000 && r.top <= -30000 {
                    return true;
                }
            },
            None => {},
        }
    }
    if eq_str(class, "ApplicationFrameWindow") && !is_focused && !is_minimized {
        if !is_foreground && is_cloaked {
            return true;
        }
    }
    false
}

pub open spec fn has_bits(v: u32, bits: u32) -> bool {
    v & bits == bits
}

pub struct WindowView {
    pub is_window: bool,
    pub is_visible: bool,
    pub class: Seq<char>,
    pub title: Seq<char>,
    pub process_name: Seq<char>,
    pub is_frozen: Option<bool>,
    pub style: u32,
    pub ex_style: u32,
    pub is_cloaked: bool,
    pub has_owner: bool,
    pub process_accessible: bool,
    pub is_taskbar_process: bool,
    pub task_list_deleted: bool,
    pub is_minimized: bool,
    pub outer_rect: Option<Rect>,
    pub is_focused: bool,
    pub is_foreground: bool,
    pub program_path: Option<Seq<char>>,
}

impl View for WindowFacts {
    type V = WindowView;

    open spec fn view(&self) -> WindowView {
        WindowView {
            is_window: self.is_window,
            is_visible: self.is_visible,
            class: self.class@,
            title: self.title@,
            process_name: self.process_name@,
            is_frozen: self.is_frozen,
            style: self.style,
            ex_style: self.ex_style,
            is_cloaked: self.is_cloaked,
            has_owner: self.has_owner,
            process_accessible: self.process_accessible,
            is_taskbar_process: self.is_taskbar_process,
            task_list_deleted: self.task_list_deleted,
            is_minimized: self.is_minimized,
            outer_rect: self.outer_rect,
            is_focused: self.is_focused,
            is_foreground: self.is_foreground,
            program_path: match self.program_path {
                Some(p) => Some(p@),
                None => None,
            },
        }
    }
}

/// Whether a window is listed on the taskbar: a visible window that no
/// rule hides (helper and shell windows, frozen processes, cloaked or
/// parked frames, owned, child and tool windows, windows of inaccessible
/// processes without a proper caption, and a few empty-titled hosts).
pub open spec fn spec_interactable(w: WindowView) -> bool {
    let pn = w.process_name;
    let class = w.class;
    let app = has_bits(w.ex_style, WS_EX_APPWINDOW);
    let tool = has_bits(w.ex_style, WS_EX_TOOLWINDOW) || has_bits(w.ex_style, WS_EX_NOACTIVATE);
    let minbox = has_bits(w.style, WS_MINIMIZEBOX);
    &&& w.is_window && w.is_visible
    &&& class != "Windows.Internal.Shell.TabProxyWindow"@
    &&& !(class == "Ghost"@ && pn == "dwm.exe"@)
    &&& !spec_filtered_by_title(pn, w.title)
    &&& !(match w.is_frozen {
        Some(f) => f,
        None => false,
    })
    &&& !spec_immersive_shell(class, w.ex_style, w.program_path)
    &&& if is_frame_class(class) {
        !spec_hidden_frame(
            class,
            w.is_minimized,
            w.is_cloaked,
            w.outer_rect,
            w.is_focused,
            w.is_foreground,
        )
    } else {
        !w.is_cloaked
    }
    &&& app || !(has_bits(w.style, WS_CHILD) || w.has_owner || tool)
    &&& w.process_accessible || !(w.is_cloaked || w.title.len() == 0 || (!minbox && !app) || tool)
    &&& !(!minbox && w.is_taskbar_process)
    &&& !(w.title.len() == 0 && ((pn == "explorer.exe"@ && class == "ApplicationFrameWindow"@)
        || (pn == "ApplicationFrameHost.exe"@ && class == "ApplicationFrameWindow"@) || (pn
        == "csrss.exe"@ && class == "#32769"@)))
    &&& !(pn == "douyin.exe"@ && w.task_list_deleted)
}

pub fn is_interactable_and_not_hidden(w: &WindowFacts) -> (r: bool)
    requires
        is_frame_class(w.class@) && !w.is_minimized ==> opt_rect_measurable(w.outer_rect),
    ensures
        r == spec_interactable(w@),
{
    if !w.is_window || !w.is_visible {
        return false;
    }
    let class = w.class.as_str();
    let pn = w.process_name.as_str();
    let title = w.title.as_str();
    if eq_str(class, "Windows.Internal.Shell.TabProxyWindow") {
        return false;
    }
    if eq_str(class, "Ghost") && eq_str(pn, "dwm.exe") {
        return false;
    }
    if should_filter_by_title_and_process(pn, title) {
        return false;
    }
    let frozen = match w.is_frozen {
        Some(f) => f,
        None => false,
    };
    if frozen {
        return false;
    }
    let style = w.style;
    let ex = w.ex_style;
    let special = frame_class(class);
    let path = match &w.program_path {
        Some(p) => Some(p.as_str()),
        None => None,
    };
    if is_immersive_shell_window(class, ex, path) {
        return false;
    }
    if special {
        if process_uwp_window(
            class,
            w.is_minimized,
            w.is_cloaked,
            w.outer_rect,
            w.is_focused,
            w.is_foreground,
        ) {
            return false;
        }
    } else {
        if w.is_cloaked {
            return false;
        }
    }
    let app = ex & WS_EX_APPWINDOW == WS_EX_APPWINDOW;
    let tool = ex & WS_EX_TOOLWINDOW == WS_EX_TOOLWINDOW || ex & WS_EX_NOACTIVATE
        == WS_EX_NOACTIVATE;
    let minbox = style & WS_MINIMIZEBOX == WS_MINIMIZEBOX;
    if !app {
        if style & WS_CHILD == WS_CHILD || w.has_owner {
            return false;
        }
        if tool {
            return false;
        }
    }
    let t = chars_of(title);
    if !w.process_accessible {
        if w.is_cloaked {
            return false;
        }
        if t.len() == 0 || (!minbox && !app) || tool {
            return false;
        }
    }
    if !minbox && w.is_taskbar_process {
        return false;
    }
    if t.len() == 0 {
        if (eq_str(pn, "explorer.exe") && eq_str(class, "ApplicationFrameWindow")) || (eq_str(
            pn,
            "ApplicationFrameHost.exe",
        ) && eq_str(class, "ApplicationFrameWindow")) || (eq_str(pn, "csrss.exe") && eq_str(
            class,
            "#32769",
        )) {
            return false;
        }
    }
    if eq_str(pn, "douyin.exe") && w.task_list_deleted {
        return false;
    }
    true
}

/// User-account-control prompts (`consent.exe`) are brought to the front.
pub fn handle_uac_window(process_name: &str) -> (focus: bool)
    ensures
        focus == (process_name@ == "consent.exe"@),
{
    eq_str(process_name, "consent.exe")
}

// ---------------------------------------------------------------------------
// Window events
// ---------------------------------------------------------------------------
/// The window events the list follows.
#[derive(Debug, Clone, Copy, PartialEq, Eq, Structural)]
pub enum WinEvent {
    ObjectCreate,
    ObjectShow,
    ObjectFocus,
    SystemForeground,
    ObjectNameChange,
    ObjectParentChange,
    ObjectHide,
    SystemMinimizeStart,
    SystemMinimizeEnd,
    ObjectDestroy,
    SyntheticFullscreenStart,
    SyntheticFullscreenEnd,
    SyntheticMonitorChanged,
    Other,
}

/// What an event does to the list: add or remove the window (or add its
/// parent), and whether the listed window's record is refreshed.
#[derive(Debug, Clone, Copy, PartialEq, Eq, Structural)]
pub struct WinEventOutcome {
    pub add: bool,
    pub remove: bool,
    pub add_parent: bool,
    pub refresh: bool,
}

/// The outcome of an event for a window that the list does (`listed`) or
/// does not hold, whose listing test now gives `interactable`.
pub open spec fn spec_win_event(
    event: WinEvent,
    listed: bool,
    interactable: bool,
    is_frame: bool,
    title_is_douyin: bool,
    parent_addable: bool,
) -> WinEventOutcome {
    let (add, remove, add_parent, now_listed) = match event {
        WinEvent::ObjectCreate | WinEvent::ObjectShow | WinEvent::ObjectFocus
        | WinEvent::SystemForeground => (!listed && interactable, false, false, listed),
        WinEvent::ObjectNameChange => (
            !listed && interactable,
            listed && !interactable,
            false,
            interactable,
        ),
        WinEvent::ObjectParentChange => (false, false, parent_addable, listed),
        WinEvent::ObjectHide => (false, listed && !is_frame, false, listed),
        WinEvent::SystemMinimizeStart => (
            false,
            title_is_douyin && !interactable && listed,
            false,
            listed,
        ),
        WinEvent::ObjectDestroy => (false, listed, false, listed),
        _ => (false, false, false, listed),
    };
    let refresh = now_listed && (event == WinEvent::ObjectNameChange || event
        == WinEvent::SystemMinimizeStart || event == WinEvent::SystemMinimizeEnd || event
        == WinEvent::SyntheticFullscreenStart || event == WinEvent::SyntheticFullscreenEnd || event
        == WinEvent::SyntheticMonitorChanged);
    WinEventOutcome { add, remove, add_parent, refresh }
}

pub fn on_win_event(
    event: WinEvent,
    listed: bool,
    interactable: bool,
    is_frame: bool,
    title_is_douyin: bool,
    parent_addable: bool,
) -> (r: WinEventOutcome)
    ensures
        r == spec_win_event(event, listed, interactable, is_frame, title_is_douyin, parent_addable),
{
    let mut now_listed = listed;
    let mut out = WinEventOutcome { add: false, remove: false, add_parent: false, refresh: false };
    match event {
        WinEvent::ObjectCreate | WinEvent::ObjectShow | WinEvent::ObjectFocus
        | WinEvent::SystemForeground => {
            out.add = !listed && interactable;
        },
        WinEvent::ObjectNameChange => {
            out.add = !listed && interactable;
            out.remove = listed && !interactable;
            now_listed = interactable;
        },
        WinEvent::ObjectParentChange => {
            out.add_parent = parent_addable;
        },
        WinEvent::ObjectHide => {
            out.remove = listed && !is_frame;
        },
        WinEvent::SystemMinimizeStart => {
            out.remove = title_is_douyin && !interactable && listed;
        },
        WinEvent::ObjectDestroy => {
            out.remove = listed;
        },
        _ => {},
    }
    let follows = match event {
        WinEvent::ObjectNameChange | WinEvent::SystemMinimizeStart | WinEvent::SystemMinimizeEnd
        | WinEvent::SyntheticFullscreenStart | WinEvent::SyntheticFullscreenEnd
        | WinEvent::SyntheticMonitorChanged => true,
        _ => false,
    };
    out.refresh = now_listed && follows;
    out
}

/// A listed window is never both added and removed by one event, and only a
/// listed window is removed.
pub proof fn lemma_win_event_consistent(
    event: WinEvent,
    listed: bool,
    interactable: bool,
    is_frame: bool,
    title_is_douyin: bool,
    parent_addable: bool,
)
    ensures
        ({
            let o = spec_win_event(event, listed, interactable, is_frame, title_is_douyin, parent_addable);
            !(o.add && o.remove) && (o.remove ==> listed) && (o.add ==> !listed && interactable)
        }),
{
}

/// Which events add a window: a window the list does not hold is added on
/// its creation, showing, focus, coming to the foreground or a title change
/// exactly when it now passes the listing test; no other event adds one.
pub proof fn lemma_win_event_adds(
    event: WinEvent,
    listed: bool,
    interactable: bool,
    is_frame: bool,
    title_is_douyin: bool,
    parent_addable: bool,
)
    ensures
        spec_win_event(event, listed, interactable, is_frame, title_is_douyin, parent_addable).add
            <==> (!listed && interactable && (event == WinEvent::ObjectCreate || event
            == WinEvent::ObjectShow || event == WinEvent::ObjectFocus || event
            == WinEvent::SystemForeground || event == WinEvent::ObjectNameChange)),
{
}

/// Which events remove a window: a listed window is removed when destroyed,
/// when hidden unless it is a frame window, when a title change makes it
/// fail the listing test, and when a Douyin window that fails the test is
/// minimized; a parent is added only on a parent change that allows it.
pub proof fn lemma_win_event_removes(
    event: WinEvent,
    listed: bool,
    interactable: bool,
    is_frame: bool,
    title_is_douyin: bool,
    parent_addable: bool,
)
    ensures
        ({
            let o = spec_win_event(event, listed, interactable, is_frame, title_is_douyin, parent_addable);
            &&& o.remove <==> listed && ((event == WinEvent::ObjectDestroy) || (event
                == WinEvent::ObjectHide && !is_frame) || (event == WinEvent::ObjectNameChange
                && !interactable) || (event == WinEvent::SystemMinimizeStart && title_is_douyin
                && !interactable))
            &&& o.add_parent <==> (event == WinEvent::ObjectParentChange && parent_addable)
        }),
{
}

/// A window that a filtered title or process marks is never listed; in
/// particular every recycle-bin window (title starting with 回收站,
/// Recycle Bin or 资源回收筒) and the taskbar's and toolbar's own windows.
pub proof fn lemma_filtered_windows_not_listed(w: WindowView)
    ensures
        spec_filtered_by_title(w.process_name, w.title) ==> !spec_interactable(w),
        starts_with(w.title, "回收站"@) ==> spec_filtered_by_title(w.process_name, w.title),
        starts_with(w.title, "Recycle Bin"@) ==> spec_filtered_by_title(w.process_name, w.title),
        starts_with(w.title, "资源回收筒"@) ==> spec_filtered_by_title(w.process_name, w.title),
        w.title == "HonorTaskbar"@ || w.title == "HonorToolbar"@ ==> spec_filtered_by_title(
            w.process_name,
            w.title,
        ),
        starts_with(w.title, "回收站"@) || starts_with(w.title, "Recycle Bin"@) || starts_with(
            w.title,
            "资源回收筒"@,
        ) ==> !spec_interactable(w),
{
}

/// Which events refresh a window's record: a title change of a window that
/// stays or becomes listed, and a minimize, restore, full-screen or monitor
/// change of a listed window; no other event.
pub proof fn lemma_win_event_refreshes(
    event: WinEvent,
    listed: bool,
    interactable: bool,
    is_frame: bool,
    title_is_douyin: bool,
    parent_addable: bool,
)
    ensures
        spec_win_event(event, listed, interactable, is_frame, title_is_douyin, parent_addable).refresh
            <==> ((event == WinEvent::ObjectNameChange && interactable) || (listed && (event
            == WinEvent::SystemMinimizeStart || event == WinEvent::SystemMinimizeEnd || event
            == WinEvent::SyntheticFullscreenStart || event == WinEvent::SyntheticFullscreenEnd
            || event == WinEvent::SyntheticMonitorChanged))),
{
}

} // verus!
