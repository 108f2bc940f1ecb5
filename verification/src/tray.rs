use vstd::prelude::*;
use crate::names::{name_views, newest_first, recent_images};

verus! {

// Win32 message numbers the tray window handles.

/// `WM_DESTROY`.
pub const WM_DESTROY: u32 = 0x0002;
/// `WM_COMMAND`: a menu item was chosen.
pub const WM_COMMAND: u32 = 0x0111;
/// `WM_HOTKEY`: a registered hotkey was pressed.
pub const WM_HOTKEY: u32 = 0x0312;
/// `WM_LBUTTONUP`.
pub const WM_LBUTTONUP: u32 = 0x0202;
/// `WM_RBUTTONUP`.
pub const WM_RBUTTONUP: u32 = 0x0205;
/// `WM_APP`: the first message number free for the application.
pub const WM_APP: u32 = 0x8000;

/// The message the tray icon sends to the window; its low word of `lParam` is the mouse event.
pub const WM_TRAYICON: u32 = WM_APP + 1;
/// Identifier of the tray icon.
pub const TRAY_ID: u32 = 1;
/// Identifier of the Ctrl+PrintScreen hotkey.
pub const HOTKEY_CTRL_PRTSC: i32 = 1;

/// Menu command identifiers.
pub const MENU_EXIT: u32 = 1001;
pub const MENU_AREA: u32 = 1002;
pub const MENU_FULLSCREEN: u32 = 1003;
pub const MENU_STARTUP: u32 = 1004;
pub const MENU_OPEN_IMAGE: u32 = 1005;
pub const MENU_OPEN_FOLDER: u32 = 1006;
/// The recent screenshots of the "Copy Image Path" submenu have the identifiers
/// `MENU_IMAGE_BASE`, `MENU_IMAGE_BASE + 1`, ..., newest first.
pub const MENU_IMAGE_BASE: u32 = 2000;
/// How many recent screenshots the submenu lists at most.
pub const MAX_RECENT_IMAGES: u32 = 10;

/// An item of the recent-screenshots submenu: choosing it copies the path of the
/// screenshot whose file name is its label.
#[derive(Debug, PartialEq, Eq)]
pub struct RecentItem {
    pub id: u32,
    pub label: String,
}

/// An entry of the tray icon's context menu.
#[derive(Debug, PartialEq, Eq)]
pub enum MenuEntry {
    Item { id: u32, label: &'static str, checked: bool },
    Separator,
    Submenu { label: &'static str, items: Vec<RecentItem> },
}

/// The tray menu built for a context menu, with the recent screenshots it lists, newest
/// first, which its submenu items refer to by position.
pub struct TrayMenu {
    pub entries: Vec<MenuEntry>,
    pub recent: Vec<String>,
}

/// How many screenshots of `recent` the submenu lists.
pub open spec fn recent_count(recent: Seq<String>) -> int {
    if recent.len() < MAX_RECENT_IMAGES {
        recent.len() as int
    } else {
        MAX_RECENT_IMAGES as int
    }
}

/// The "Copy Image Path" submenu listing `recent`: item `i` has the identifier
/// `MENU_IMAGE_BASE + i` and the file name `recent[i]` as its label.
pub open spec fn is_recent_submenu(e: MenuEntry, recent: Seq<String>) -> bool {
    &&& e matches MenuEntry::Submenu { label, items }
    &&& label == "Copy Image Path"
    &&& items@.len() == recent_count(recent)
    &&& forall|i: int|
        0 <= i < items@.len() ==> (#[trigger] items@[i]).id == MENU_IMAGE_BASE + i
            && items@[i].label@ == recent[i]@
}

/// The tray menu, top to bottom: the two capture modes (the one in use checked), the
/// start-at-login switch, the recent screenshots, opening the last screenshot, opening the
/// screenshot folder, and exiting.
pub open spec fn is_tray_menu(m: Seq<MenuEntry>, fullscreen: bool, startup: bool, recent: Seq<String>) -> bool {
    &&& m.len() == 9
    &&& m[0] == MenuEntry::Item { id: MENU_AREA, label: "Area screenshot", checked: !fullscreen }
    &&& m[1] == MenuEntry::Item { id: MENU_FULLSCREEN, label: "Fullscreen", checked: fullscreen }
    &&& m[2] == MenuEntry::Separator
    &&& m[3] == MenuEntry::Item { id: MENU_STARTUP, label: "Run at startup", checked: startup }
    &&& is_recent_submenu(m[4], recent)
    &&& m[5] == MenuEntry::Item { id: MENU_OPEN_IMAGE, label: "Open image", checked: false }
    &&& m[6] == MenuEntry::Item { id: MENU_OPEN_FOLDER, label: "Open folder", checked: false }
    &&& m[7] == MenuEntry::Separator
    &&& m[8] == MenuEntry::Item { id: MENU_EXIT, label: "Exit", checked: false }
}

/// Builds the tray menu for the current capture mode and start-at-login setting; its
/// submenu lists the newest screenshots of the folder `listing`.
pub fn tray_menu(fullscreen: bool, startup: bool, listing: &Vec<String>) -> (r: TrayMenu)
    ensures
        r.recent.len() == if MAX_RECENT_IMAGES < newest_first(name_views(listing@)).len() {
            MAX_RECENT_IMAGES as int
        } else {
            newest_first(name_views(listing@)).len() as int
        },
        forall|i: int| 0 <= i < r.recent.len() ==> #[trigger] r.recent@[i]@ == newest_first(name_views(listing@))[i],
        is_tray_menu(r.entries@, fullscreen, startup, r.recent@),
{
    let recent = recent_images(listing, MAX_RECENT_IMAGES as usize);
    let mut items: Vec<RecentItem> = Vec::new();
    let count = if recent.len() < MAX_RECENT_IMAGES as usize { recent.len() } else { MAX_RECENT_IMAGES as usize };
    for i in 0..count
        invariant
            count == recent_count(recent@),
            count <= recent.len(),
            items@.len() == i,
            forall|j: int| 0 <= j < i ==> (#[trigger] items@[j]).id == MENU_IMAGE_BASE + j
                && items@[j].label@ == recent@[j]@,
    {
        items.push(RecentItem { id: MENU_IMAGE_BASE + i as u32, label: recent[i].clone() });
    }
    let mut v: Vec<MenuEntry> = Vec::new();
    v.push(MenuEntry::Item { id: MENU_AREA, label: "Area screenshot", checked: !fullscreen });
    v.push(MenuEntry::Item { id: MENU_FULLSCREEN, label: "Fullscreen", checked: fullscreen });
    v.push(MenuEntry::Separator);
    v.push(MenuEntry::Item { id: MENU_STARTUP, label: "Run at startup", checked: startup });
    v.push(MenuEntry::Submenu { label: "Copy Image Path", items });
    v.push(MenuEntry::Item { id: MENU_OPEN_IMAGE, label: "Open image", checked: false });
    v.push(MenuEntry::Item { id: MENU_OPEN_FOLDER, label: "Open folder", checked: false });
    v.push(MenuEntry::Separator);
    v.push(MenuEntry::Item { id: MENU_EXIT, label: "Exit", checked: false });
    TrayMenu { entries: v, recent }
}

/// Exactly one capture mode is checked in the tray menu, and it is the mode in use.
pub proof fn lemma_one_capture_mode_checked(m: Seq<MenuEntry>, fullscreen: bool, startup: bool, recent: Seq<String>)
    requires
        is_tray_menu(m, fullscreen, startup, recent),
    ensures
        m[0] matches MenuEntry::Item { id, checked, .. } && id == MENU_AREA && checked == !fullscreen,
        m[1] matches MenuEntry::Item { id, checked, .. } && id == MENU_FULLSCREEN && checked == fullscreen,
        forall|i: int| 2 <= i < m.len() ==> !(#[trigger] m[i] matches MenuEntry::Item { id, .. } && (id == MENU_AREA || id == MENU_FULLSCREEN)),
{
}

/// What the tray window does with a message.
#[derive(Clone, Copy, Debug, PartialEq, Eq)]
pub enum WindowAction {
    /// Take a screenshot (the hotkey was pressed).
    StartCapture,
    /// Copy the path of the latest screenshot (left click on the icon).
    CopyLastPath,
    /// Open the context menu (right click on the icon).
    ShowMenu,
    /// Destroy the window (the Exit item).
    DestroyWindow,
    /// Switch between area and full-screen capture.
    SetFullscreen(bool),
    /// Turn starting at login off if it is on, on if it is off.
    ToggleStartup,
    /// Open the latest screenshot in the default viewer.
    OpenLastImage,
    /// Open the screenshot folder.
    OpenImagesFolder,
    /// Copy the path of the recent screenshot at this position of the submenu.
    CopyRecentImage(usize),
    /// Remove the tray icon and leave the message loop (the window is being destroyed).
    RemoveTrayIconAndQuit,
    /// The message is handled by doing nothing.
    Handled,
    /// The message goes to the default window procedure.
    Default,
}

/// The low 16 bits of a message parameter.
pub open spec fn low_word(v: usize) -> int {
    (v % 0x10000) as int
}

/// How the tray window responds to message `msg` with parameters `wparam` and `lparam`
/// (`lparam` taken as its unsigned bit pattern).
pub open spec fn window_action_of(msg: u32, wparam: usize, lparam: usize) -> WindowAction {
    if msg == WM_HOTKEY {
        if (wparam as int) % 0x1_0000_0000 == HOTKEY_CTRL_PRTSC {
            WindowAction::StartCapture
        } else {
            WindowAction::Handled
        }
    } else if msg == WM_TRAYICON {
        if low_word(lparam) == WM_LBUTTONUP {
            WindowAction::CopyLastPath
        } else if low_word(lparam) == WM_RBUTTONUP {
            WindowAction::ShowMenu
        } else {
            WindowAction::Handled
        }
    } else if msg == WM_COMMAND {
        let id = low_word(wparam);
        if id == MENU_EXIT {
            WindowAction::DestroyWindow
        } else if id == MENU_AREA {
            WindowAction::SetFullscreen(false)
        } else if id == MENU_FULLSCREEN {
            WindowAction::SetFullscreen(true)
        } else if id == MENU_STARTUP {
            WindowAction::ToggleStartup
        } else if id == MENU_OPEN_IMAGE {
            WindowAction::OpenLastImage
        } else if id == MENU_OPEN_FOLDER {
            WindowAction::OpenImagesFolder
        } else if MENU_IMAGE_BASE <= id < MENU_IMAGE_BASE + MAX_RECENT_IMAGES {
            WindowAction::CopyRecentImage((id - MENU_IMAGE_BASE) as usize)
        } else {
            WindowAction::Handled
        }
    } else if msg == WM_DESTROY {
        WindowAction::RemoveTrayIconAndQuit
    } else {
        WindowAction::Default
    }
}

/// Decides what the tray window does with a message.
pub fn window_action(msg: u32, wparam: usize, lparam: usize) -> (r: WindowAction)
    ensures
        r == window_action_of(msg, wparam, lparam),
        // Only WM_HOTKEY (0x0312), the tray message (0x8001), WM_COMMAND (0x0111) and
        // WM_DESTROY (0x0002) are handled; every other message, WM_NCCREATE and WM_CREATE
        // among them, goes to the default window procedure.
        msg != 0x0312 && msg != 0x8001 && msg != 0x0111 && msg != 0x0002 ==> r
            == WindowAction::Default,
        msg == 0x0002 ==> r == WindowAction::RemoveTrayIconAndQuit,
        msg == 0x0312 ==> r == if wparam as int % 0x1_0000_0000 == 1 {
            WindowAction::StartCapture
        } else {
            WindowAction::Handled
        },
        msg == 0x8001 ==> r == if lparam as int % 0x10000 == 0x0202 {
            WindowAction::CopyLastPath
        } else if lparam as int % 0x10000 == 0x0205 {
            WindowAction::ShowMenu
        } else {
            WindowAction::Handled
        },
        msg == 0x0111 ==> r == if wparam as int % 0x10000 == 1001 {
            WindowAction::DestroyWindow
        } else if wparam as int % 0x10000 == 1002 {
            WindowAction::SetFullscreen(false)
        } else if wparam as int % 0x10000 == 1003 {
            WindowAction::SetFullscreen(true)
        } else if wparam as int % 0x10000 == 1004 {
            WindowAction::ToggleStartup
        } else if wparam as int % 0x10000 == 1005 {
            WindowAction::OpenLastImage
        } else if wparam as int % 0x10000 == 1006 {
            WindowAction::OpenImagesFolder
        } else if 2000 <= wparam as int % 0x10000 < 2010 {
            WindowAction::CopyRecentImage((wparam as int % 0x10000 - 2000) as usize)
        } else {
            WindowAction::Handled
        },
{
    if msg == WM_HOTKEY {
        if (wparam as u64) % 0x1_0000_0000 == 1 {
            WindowAction::StartCapture
        } else {
            WindowAction::Handled
        }
    } else if msg == WM_TRAYICON {
        let event = lparam % 0x10000;
        if event == WM_LBUTTONUP as usize {
            WindowAction::CopyLastPath
        } else if event == WM_RBUTTONUP as usize {
            WindowAction::ShowMenu
        } else {
            WindowAction::Handled
        }
    } else if msg == WM_COMMAND {
        let id = wparam % 0x10000;
        if id == MENU_EXIT as usize {
            WindowAction::DestroyWindow
        } else if id == MENU_AREA as usize {
            WindowAction::SetFullscreen(false)
        } else if id == MENU_FULLSCREEN as usize {
            WindowAction::SetFullscreen(true)
        } else if id == MENU_STARTUP as usize {
            WindowAction::ToggleStartup
        } else if id == MENU_OPEN_IMAGE as usize {
            WindowAction::OpenLastImage
        } else if id == MENU_OPEN_FOLDER as usize {
            WindowAction::OpenImagesFolder
        } else if MENU_IMAGE_BASE as usize <= id && id < (MENU_IMAGE_BASE + MAX_RECENT_IMAGES) as usize {
            WindowAction::CopyRecentImage(id - MENU_IMAGE_BASE as usize)
        } else {
            WindowAction::Handled
        }
    } else if msg == WM_DESTROY {
        WindowAction::RemoveTrayIconAndQuit
    } else {
        WindowAction::Default
    }
}

/// The recent screenshot that the submenu item at `index` stands for, in the list the
/// menu was built with; `None` past its end.
pub fn copy_recent_image_path(recent: &Vec<String>, index: usize) -> (r: Option<String>)
    ensures
        r is Some <==> index < recent.len(),
        r matches Some(n) ==> n@ == recent@[index as int]@,
{
    if index < recent.len() {
        Some(recent[index].clone())
    } else {
        None
    }
}

/// Choosing the `i`-th item of the recent-screenshots submenu copies the path of the `i`-th
/// screenshot the menu lists (the `i`-th newest of the folder).
pub proof fn lemma_recent_item_copies_its_screenshot(
    m: Seq<MenuEntry>,
    fullscreen: bool,
    startup: bool,
    recent: Seq<String>,
    i: int,
    lparam: usize,
)
    requires
        is_tray_menu(m, fullscreen, startup, recent),
        m[4] matches MenuEntry::Submenu { items, .. } && 0 <= i < items@.len(),
    ensures
        m[4] matches MenuEntry::Submenu { items, .. } && window_action_of(
            WM_COMMAND,
            items@[i].id as usize,
            lparam,
        ) == WindowAction::CopyRecentImage(i as usize) && i < recent.len(),
{
    if let MenuEntry::Submenu { items, .. } = m[4] {
        assert(items@[i].id == MENU_IMAGE_BASE + i);
        assert(low_word(items@[i].id as usize) == MENU_IMAGE_BASE + i);
    }
}

/// How a screenshot is taken.
#[derive(Clone, Copy, Debug, PartialEq, Eq)]
pub enum CaptureMode {
    /// The user selects a region with the Snipping Tool.
    Area,
    /// All monitors are captured at once.
    Fullscreen,
}

/// The capture that the hotkey starts under the current setting.
pub fn capture_flow(fullscreen: bool) -> (r: CaptureMode)
    ensures
        r == if fullscreen {
            CaptureMode::Fullscreen
        } else {
            CaptureMode::Area
        },
{
    if fullscreen {
        CaptureMode::Fullscreen
    } else {
        CaptureMode::Area
    }
}

/// Every message the tray window does not handle itself (anything but the hotkey, the tray
/// icon's message, menu commands and WM_DESTROY) is passed to the default window procedure,
/// so that window creation (WM_NCCREATE, WM_CREATE) and all other system messages behave
/// as for any window.
pub proof fn lemma_unhandled_messages_go_to_default(msg: u32, wparam: usize, lparam: usize)
    requires
        msg != 0x0312,
        msg != 0x8001,
        msg != 0x0111,
        msg != 0x0002,
    ensures
        window_action_of(msg, wparam, lparam) == WindowAction::Default,
{
}

/// Choosing a capture mode in the menu makes the next hotkey press capture that way.
pub proof fn lemma_menu_choice_sets_mode(wparam: usize, lparam: usize)
    ensures
        low_word(wparam) == MENU_AREA ==> window_action_of(WM_COMMAND, wparam, lparam)
            == WindowAction::SetFullscreen(false),
        low_word(wparam) == MENU_FULLSCREEN ==> window_action_of(WM_COMMAND, wparam, lparam)
            == WindowAction::SetFullscreen(true),
{
}

/// An area capture in progress gives up once a newer capture has started or its time is up.
pub fn area_capture_abandoned(my_generation: u64, current_generation: u64, deadline_passed: bool) -> (r: bool)
    ensures
        r == (current_generation != my_generation || deadline_passed),
{
    current_generation != my_generation || deadline_passed
}

/// The Snipping Tool has delivered: the clipboard changed since the capture started and now
/// holds a bitmap.
pub fn area_capture_ready(seq_before: u32, seq_now: u32, has_bitmap: bool) -> (r: bool)
    ensures
        r == (seq_now != seq_before && has_bitmap),
{
    seq_now != seq_before && has_bitmap
}

/// A change to the start-at-login registry entry.
#[derive(Clone, Copy, Debug, PartialEq, Eq)]
pub enum StartupChange {
    /// Leave the entry as it is.
    Keep,
    /// Write the program's path into the entry.
    Write,
    /// Delete the entry.
    Delete,
}

/// Whether the program starts at login after `change` is applied to a setting that was
/// `registered`.
pub open spec fn registered_after(change: StartupChange, registered: bool) -> bool {
    match change {
        StartupChange::Keep => registered,
        StartupChange::Write => true,
        StartupChange::Delete => false,
    }
}

/// On launch the program registers itself to start at login unless an entry is there already
/// (so that a user who turned it off and on again keeps their entry).
pub fn register_startup(registered: bool) -> (r: StartupChange)
    ensures
        r == if registered {
            StartupChange::Keep
        } else {
            StartupChange::Write
        },
{
    if registered {
        StartupChange::Keep
    } else {
        StartupChange::Write
    }
}

/// Turning starting at login on writes the entry; turning it off deletes it.
pub fn set_startup(enabled: bool) -> (r: StartupChange)
    ensures
        r == if enabled {
            StartupChange::Write
        } else {
            StartupChange::Delete
        },
        registered_after(r, true) == enabled,
        registered_after(r, false) == enabled,
{
    if enabled {
        StartupChange::Write
    } else {
        StartupChange::Delete
    }
}

/// After launch the program always starts at login; choosing "Run at startup" flips the setting.
pub proof fn lemma_startup_settings(registered: bool)
    ensures
        registered_after(if registered { StartupChange::Keep } else { StartupChange::Write }, registered),
        registered_after(if !registered { StartupChange::Write } else { StartupChange::Delete }, registered)
            == !registered,
{
}

} // verus!
