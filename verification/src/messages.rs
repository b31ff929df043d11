//! Window messages other processes send to the toolbar, what they mean, and
//! the commands that open system pages.
use vstd::prelude::*;

use crate::text::{chars_of, string_of};

verus! {

/// First private window message.
pub const WM_USER: u32 = 0x0400;

/// A message to the toolbar, decoded.
#[derive(Debug, Clone, Copy, PartialEq, Eq, Structural)]
pub enum ToolbarMessage {
    /// An update check finished; the pending version is read when there is
    /// a new one.
    CheckUpdate { has_new_version: bool },
    /// Download progress: status 1002 failed, 1003 in progress (with the
    /// percentage), 1004 finished.
    DownloadUpdate { status: u32, progress: u32 },
    /// A custom message, only noted.
    Custom,
    /// Open the settings window on the pure-mode page.
    OpenPureModeSettings,
    /// The service switched the input method to this index.
    InputMethodChanged(i32),
    /// The input method's mode label changed (`中`, `英`, `A`, `EN`).
    InputMethodMode(InputModeLabel),
    /// An unknown mode value, ignored.
    UnknownInputMethodMode,
    /// Whether there are notifications.
    NotificationIcon(bool),
    /// Any other message.
    Other,
}

/// The mode labels the input method reports.
#[derive(Debug, Clone, Copy, PartialEq, Eq, Structural)]
pub enum InputModeLabel {
    Chinese,
    English,
    Latin,
    EnglishUpper,
}

pub open spec fn mode_label_text(m: InputModeLabel) -> Seq<char> {
    match m {
        InputModeLabel::Chinese => "中"@,
        InputModeLabel::English => "英"@,
        InputModeLabel::Latin => "A"@,
        InputModeLabel::EnglishUpper => "EN"@,
    }
}

impl InputModeLabel {
    pub fn text(&self) -> (r: &'static str)
        ensures
            r@ == mode_label_text(*self),
    {
        match self {
            InputModeLabel::Chinese => "中",
            InputModeLabel::English => "英",
            InputModeLabel::Latin => "A",
            InputModeLabel::EnglishUpper => "EN",
        }
    }
}

pub const DOWNLOAD_PROCESS: u32 = 1003;

/// The meaning of a message, from its number and parameters.
pub open spec fn spec_decode(msg: u32, wparam: usize, lparam: isize) -> ToolbarMessage {
    if msg == WM_USER + 3 {
        ToolbarMessage::CheckUpdate { has_new_version: wparam == 1 }
    } else if msg == WM_USER + 4 {
        let status = wparam as u32;
        ToolbarMessage::DownloadUpdate {
            status,
            progress: if status == DOWNLOAD_PROCESS {
                lparam as u32
            } else {
                0
            },
        }
    } else if msg == WM_USER + 100 {
        ToolbarMessage::Custom
    } else if msg == WM_USER + 11 {
        ToolbarMessage::OpenPureModeSettings
    } else if msg == WM_USER + 101 {
        ToolbarMessage::InputMethodChanged(wparam as i32)
    } else if msg == WM_USER + 401 {
        if wparam == 1 {
            ToolbarMessage::InputMethodMode(InputModeLabel::Chinese)
        } else if wparam == 2 {
            ToolbarMessage::InputMethodMode(InputModeLabel::English)
        } else if wparam == 3 {
            ToolbarMessage::InputMethodMode(InputModeLabel::Latin)
        } else if wparam == 4 {
            ToolbarMessage::InputMethodMode(InputModeLabel::EnglishUpper)
        } else {
            ToolbarMessage::UnknownInputMethodMode
        }
    } else if msg == WM_USER + 21 {
        ToolbarMessage::NotificationIcon(wparam != 0)
    } else {
        ToolbarMessage::Other
    }
}

pub fn register_toolbar_custom_messages(msg: u32, wparam: usize, lparam: isize) -> (r: ToolbarMessage)
    ensures
        r == spec_decode(msg, wparam, lparam),
{
    if msg == WM_USER + 3 {
        ToolbarMessage::CheckUpdate { has_new_version: wparam == 1 }
    } else if msg == WM_USER + 4 {
        let status = wparam as u32;
        let progress = if status == DOWNLOAD_PROCESS {
            lparam as u32
        } else {
            0
        };
        ToolbarMessage::DownloadUpdate { status, progress }
    } else if msg == WM_USER + 100 {
        ToolbarMessage::Custom
    } else if msg == WM_USER + 11 {
        ToolbarMessage::OpenPureModeSettings
    } else if msg == WM_USER + 101 {
        ToolbarMessage::InputMethodChanged(wparam as i32)
    } else if msg == WM_USER + 401 {
        if wparam == 1 {
            ToolbarMessage::InputMethodMode(InputModeLabel::Chinese)
        } else if wparam == 2 {
            ToolbarMessage::InputMethodMode(InputModeLabel::English)
        } else if wparam == 3 {
            ToolbarMessage::InputMethodMode(InputModeLabel::Latin)
        } else if wparam == 4 {
            ToolbarMessage::InputMethodMode(InputModeLabel::EnglishUpper)
        } else {
            ToolbarMessage::UnknownInputMethodMode
        }
    } else if msg == WM_USER + 21 {
        ToolbarMessage::NotificationIcon(wparam != 0)
    } else {
        ToolbarMessage::Other
    }
}

// ---------------------------------------------------------------------------
// Opening system pages
// ---------------------------------------------------------------------------
/// A program to start and its arguments.
#[derive(Debug, Clone)]
pub struct LaunchCommand {
    pub program: String,
    pub args: Vec<String>,
}

pub open spec fn launch_view(c: LaunchCommand) -> (Seq<char>, Seq<Seq<char>>) {
    (c.program@, c.args@.map_values(|a: String| a@))
}

pub open spec fn launch_views(v: Seq<LaunchCommand>) -> Seq<(Seq<char>, Seq<Seq<char>>)> {
    v.map_values(|c: LaunchCommand| launch_view(c))
}

fn text(s: &str) -> (r: String)
    ensures
        r@ == s@,
{
    let c = chars_of(s);
    string_of(c.as_slice())
}

/// `cmd /c start <target>`.
pub open spec fn start_command(target: Seq<char>) -> (Seq<char>, Seq<Seq<char>>) {
    ("cmd"@, seq!["/c"@, "start "@ + target])
}

fn start_cmd(target: &str) -> (r: LaunchCommand)
    ensures
        launch_view(r) == start_command(target@),
{
    let mut arg = chars_of("start ");
    crate::text::push_str_chars(&mut arg, target);
    let args = vec![text("/c"), string_of(arg.as_slice())];
    let r = LaunchCommand { program: text("cmd"), args };
    assert(launch_view(r).1 =~= start_command(target@).1);
    r
}

/// The Wi-Fi settings page, else the network page; each command is tried
/// until one starts.
pub fn system_open_wifi_settings() -> (r: Vec<LaunchCommand>)
    ensures
        launch_views(r@) == seq![
            start_command("ms-settings:network-wifi"@),
            start_command("ms-settings:network"@),
        ],
{
    let r = vec![start_cmd("ms-settings:network-wifi"), start_cmd("ms-settings:network")];
    assert(launch_views(r@) =~= seq![
        start_command("ms-settings:network-wifi"@),
        start_command("ms-settings:network"@),
    ]);
    r
}

/// The location-privacy page, else the privacy page.
pub fn system_open_location_settings() -> (r: Vec<LaunchCommand>)
    ensures
        launch_views(r@) == seq![
            start_command("ms-settings:privacy-location"@),
            start_command("ms-settings:privacy"@),
        ],
{
    let r = vec![start_cmd("ms-settings:privacy-location"), start_cmd("ms-settings:privacy")];
    assert(launch_views(r@) =~= seq![
        start_command("ms-settings:privacy-location"@),
        start_command("ms-settings:privacy"@),
    ]);
    r
}

/// The available-networks flyout through the explorer, else through
/// `cmd`, else the Wi-Fi settings.
pub fn system_open_wlan_flyout() -> (r: Vec<LaunchCommand>)
    ensures
        launch_views(r@) == seq![
            ("explorer"@, seq!["ms-availablenetworks:"@]),
            start_command("ms-availablenetworks:"@),
            start_command("ms-settings:network-wifi"@),
            start_command("ms-settings:network"@),
        ],
{
    let explorer = LaunchCommand { program: text("explorer"), args: vec![text("ms-availablenetworks:")] };
    assert(launch_view(explorer).1 =~= seq!["ms-availablenetworks:"@]);
    let r = vec![
        explorer,
        start_cmd("ms-availablenetworks:"),
        start_cmd("ms-settings:network-wifi"),
        start_cmd("ms-settings:network"),
    ];
    assert(launch_views(r@) =~= seq![
        ("explorer"@, seq!["ms-availablenetworks:"@]),
        start_command("ms-availablenetworks:"@),
        start_command("ms-settings:network-wifi"@),
        start_command("ms-settings:network"@),
    ]);
    r
}

/// The app-volume settings page, else the classic mixer in the system
/// directory.
pub fn system_open_volume_mixer(system_dir: &str) -> (r: Vec<LaunchCommand>)
    ensures
        launch_views(r@) == seq![
            start_command("ms-settings:apps-volume"@),
            (crate::constants::joined(system_dir@, "SndVol.exe"@), Seq::<Seq<char>>::empty()),
        ],
{
    let mixer = LaunchCommand { program: crate::constants::join_path(system_dir, "SndVol.exe"), args: Vec::new() };
    assert(launch_view(mixer).1 =~= Seq::<Seq<char>>::empty());
    let r = vec![start_cmd("ms-settings:apps-volume"), mixer];
    assert(launch_views(r@) =~= seq![
        start_command("ms-settings:apps-volume"@),
        (crate::constants::joined(system_dir@, "SndVol.exe"@), Seq::<Seq<char>>::empty()),
    ]);
    r
}

// ---------------------------------------------------------------------------
// Event registration kept by the service
// ---------------------------------------------------------------------------
/// Window events are followed by the window list itself; nothing to
/// register.
pub fn register_app_win_events() {
}

/// Volume events come from the background service; nothing to register.
pub fn register_volume_events() {
}

/// Network events come from the background service; nothing to register.
pub fn register_network_events() {
}

} // verus!
