use shot2path::tray::{
    area_capture_abandoned, area_capture_ready, capture_flow, copy_recent_image_path,
    register_startup, set_startup, tray_menu, window_action, CaptureMode, MenuEntry, RecentItem,
    StartupChange, WindowAction, MAX_RECENT_IMAGES, MENU_AREA, MENU_EXIT, MENU_FULLSCREEN,
    MENU_IMAGE_BASE, MENU_OPEN_FOLDER, MENU_OPEN_IMAGE, MENU_STARTUP, WM_COMMAND, WM_DESTROY,
    WM_HOTKEY, WM_LBUTTONUP, WM_RBUTTONUP, WM_TRAYICON,
};

fn owned(names: &[&str]) -> Vec<String> {
    names.iter().map(|s| s.to_string()).collect()
}

#[test]
fn tray_menu_layout() {
    let listing = owned(&["a.png", "notes.txt", "c.png", "b.png"]);
    let m = tray_menu(false, true, &listing);
    assert_eq!(m.recent, owned(&["c.png", "b.png", "a.png"]));
    let items = vec![
        RecentItem { id: MENU_IMAGE_BASE, label: "c.png".to_string() },
        RecentItem { id: MENU_IMAGE_BASE + 1, label: "b.png".to_string() },
        RecentItem { id: MENU_IMAGE_BASE + 2, label: "a.png".to_string() },
    ];
    assert_eq!(
        m.entries,
        vec![
            MenuEntry::Item { id: MENU_AREA, label: "Area screenshot", checked: true },
            MenuEntry::Item { id: MENU_FULLSCREEN, label: "Fullscreen", checked: false },
            MenuEntry::Separator,
            MenuEntry::Item { id: MENU_STARTUP, label: "Run at startup", checked: true },
            MenuEntry::Submenu { label: "Copy Image Path", items },
            MenuEntry::Item { id: MENU_OPEN_IMAGE, label: "Open image", checked: false },
            MenuEntry::Item { id: MENU_OPEN_FOLDER, label: "Open folder", checked: false },
            MenuEntry::Separator,
            MenuEntry::Item { id: MENU_EXIT, label: "Exit", checked: false },
        ]
    );
}

#[test]
fn tray_menu_checks_exactly_the_mode_in_use() {
    for fullscreen in [false, true] {
        let m = tray_menu(fullscreen, false, &Vec::new());
        let checked: Vec<u32> = m
            .entries
            .iter()
            .filter_map(|e| match e {
                MenuEntry::Item { id, checked: true, .. } if *id == MENU_AREA || *id == MENU_FULLSCREEN => Some(*id),
                _ => None,
            })
            .collect();
        assert_eq!(checked, vec![if fullscreen { MENU_FULLSCREEN } else { MENU_AREA }]);
    }
}

#[test]
fn hotkey_starts_capture() {
    assert_eq!(window_action(WM_HOTKEY, 1, 0), WindowAction::StartCapture);
    assert_eq!(window_action(WM_HOTKEY, 2, 0), WindowAction::Handled);
}

#[test]
fn tray_clicks() {
    assert_eq!(window_action(WM_TRAYICON, 0, WM_LBUTTONUP as usize), WindowAction::CopyLastPath);
    assert_eq!(window_action(WM_TRAYICON, 0, WM_RBUTTONUP as usize), WindowAction::ShowMenu);
    // only the low word of lParam carries the event
    assert_eq!(window_action(WM_TRAYICON, 0, 0x0005_0000 | WM_RBUTTONUP as usize), WindowAction::ShowMenu);
    assert_eq!(window_action(WM_TRAYICON, 0, 0x0200), WindowAction::Handled);
}

#[test]
fn menu_commands() {
    assert_eq!(window_action(WM_COMMAND, MENU_EXIT as usize, 0), WindowAction::DestroyWindow);
    assert_eq!(window_action(WM_COMMAND, MENU_AREA as usize, 0), WindowAction::SetFullscreen(false));
    assert_eq!(window_action(WM_COMMAND, MENU_FULLSCREEN as usize, 0), WindowAction::SetFullscreen(true));
    assert_eq!(window_action(WM_COMMAND, MENU_STARTUP as usize, 0), WindowAction::ToggleStartup);
    assert_eq!(window_action(WM_COMMAND, MENU_OPEN_IMAGE as usize, 0), WindowAction::OpenLastImage);
    assert_eq!(window_action(WM_COMMAND, 0x0001_0000 | MENU_EXIT as usize, 0), WindowAction::DestroyWindow);
    assert_eq!(window_action(WM_COMMAND, MENU_OPEN_FOLDER as usize, 0), WindowAction::OpenImagesFolder);
    assert_eq!(window_action(WM_COMMAND, MENU_IMAGE_BASE as usize, 0), WindowAction::CopyRecentImage(0));
    assert_eq!(window_action(WM_COMMAND, (MENU_IMAGE_BASE + 9) as usize, 0), WindowAction::CopyRecentImage(9));
    assert_eq!(window_action(WM_COMMAND, (MENU_IMAGE_BASE + 10) as usize, 0), WindowAction::Handled);
    assert_eq!(window_action(WM_COMMAND, 999, 0), WindowAction::Handled);
}

#[test]
fn destroy_and_other_messages() {
    assert_eq!(window_action(WM_DESTROY, 0, 0), WindowAction::RemoveTrayIconAndQuit);
    assert_eq!(window_action(0x000F, 0, 0), WindowAction::Default);
    assert_eq!(WM_TRAYICON, 0x8001);
}

#[test]
fn capture_mode_follows_setting() {
    assert_eq!(capture_flow(false), CaptureMode::Area);
    assert_eq!(capture_flow(true), CaptureMode::Fullscreen);
}

#[test]
fn area_capture_polling() {
    assert!(!area_capture_abandoned(3, 3, false));
    assert!(area_capture_abandoned(3, 4, false));
    assert!(area_capture_abandoned(3, 3, true));
    assert!(area_capture_ready(10, 11, true));
    assert!(!area_capture_ready(10, 10, true));
    assert!(!area_capture_ready(10, 11, false));
}

#[test]
fn startup_changes() {
    assert_eq!(register_startup(true), StartupChange::Keep);
    assert_eq!(register_startup(false), StartupChange::Write);
    assert_eq!(set_startup(true), StartupChange::Write);
    assert_eq!(set_startup(false), StartupChange::Delete);
}

#[test]
fn recent_submenu_lists_at_most_max_newest_first() {
    let listing: Vec<String> = (0..15).map(|i| format!("2025-01-01_0000{:02}_000.png", i)).collect();
    let m = tray_menu(true, false, &listing);
    assert_eq!(m.recent.len(), MAX_RECENT_IMAGES as usize);
    assert_eq!(m.recent[0], "2025-01-01_000014_000.png");
    let MenuEntry::Submenu { items, .. } = &m.entries[4] else { panic!("no submenu") };
    for (i, item) in items.iter().enumerate() {
        assert_eq!(item.label, m.recent[i]);
        // choosing the item copies the screenshot it names
        let WindowAction::CopyRecentImage(k) = window_action(WM_COMMAND, item.id as usize, 0) else {
            panic!("item {} is not a recent screenshot", i)
        };
        assert_eq!(copy_recent_image_path(&m.recent, k), Some(item.label.clone()));
    }
    assert_eq!(copy_recent_image_path(&m.recent, 10), None);
}
