use akagi::overlay;
use akagi::overlay::{OverlayAction, OverlayConfig};
use akagi::window::{
    find_riichi_city_window, is_shown, matches_executable, matches_title, WindowInfo,
};

/// The overlay is fixed at 300×300 logical px: never user-resizable, and a
/// saved size must not sneak back in through the window-state restore.
#[test]
fn the_overlay_window_is_fixed_at_300x300() {
    assert_eq!(f64::from(overlay::FIXED_WIDTH), 300.0);
    assert_eq!(f64::from(overlay::FIXED_HEIGHT), 300.0);
    assert!(!overlay::restore_flags().size);
    assert!(overlay::restore_flags().position);
}

#[test]
fn reconcile_follows_the_configuration() {
    let on = OverlayConfig { enabled: true, always_on_top: true };
    let off = OverlayConfig { enabled: false, always_on_top: true };
    let OverlayAction::Create(window) = overlay::reconcile(&on, false) else {
        panic!("expected a new window");
    };
    assert_eq!((window.width, window.height), (300, 300));
    assert!(window.always_on_top && window.transparent && window.skip_taskbar);
    assert!(!window.resizable && !window.decorations && !window.shadow && !window.focused);
    assert_eq!(overlay::reconcile(&on, true), OverlayAction::Update { always_on_top: true });
    assert_eq!(overlay::reconcile(&off, true), OverlayAction::Close);
    assert_eq!(overlay::reconcile(&off, false), OverlayAction::Leave);
}

#[test]
fn the_configuration_is_broadcast_only_on_success() {
    assert_eq!(overlay::broadcast_after(true), Some("overlay-config"));
    assert_eq!(overlay::broadcast_after(false), None);
    assert_eq!(overlay::LABEL, "overlay");
}

fn window(title: &str, app_name: &str) -> WindowInfo {
    WindowInfo {
        title: Some(title.to_string()),
        app_name: Some(app_name.to_string()),
        minimized: Some(false),
        width: Some(1280),
        height: Some(720),
    }
}

#[test]
fn the_client_is_found_by_executable_or_title() {
    assert_eq!(find_riichi_city_window(&[window("x", "Mahjong-JP.exe")]), Some(0));
    assert_eq!(find_riichi_city_window(&[window("RIICHI City", "unity")]), Some(0));
    assert_eq!(find_riichi_city_window(&[window("麻雀一番街", "unity")]), Some(0));
    assert_eq!(find_riichi_city_window(&[window("Notes", "editor")]), None);
    assert_eq!(find_riichi_city_window(&[]), None);
}

#[test]
fn the_frontmost_shown_client_window_is_taken() {
    let mut hidden = window("Riichi City", "Mahjong-JP");
    hidden.minimized = Some(true);
    let mut unread = window("Riichi City", "Mahjong-JP");
    unread.minimized = None;
    let mut small = window("Riichi City", "Mahjong-JP");
    small.width = Some(399);
    let mut low = window("Riichi City", "Mahjong-JP");
    low.height = None;
    let mut untitled = window("Riichi City", "editor");
    untitled.title = None;
    let windows = [
        window("Notes", "editor"),
        hidden,
        unread,
        small,
        low,
        untitled,
        window("Riichi City", "Mahjong-JP"),
        window("Riichi City", "Mahjong-JP"),
    ];
    assert_eq!(find_riichi_city_window(&windows), Some(6));
    let mut least = window("Riichi City", "");
    least.width = Some(400);
    least.height = Some(300);
    least.app_name = None;
    assert!(is_shown(&least));
    assert_eq!(find_riichi_city_window(&[least]), Some(0));
}

/// The executable name is enough where the title cannot be read.
#[test]
fn the_executable_is_enough_without_a_title() {
    let mut client = window("", "Mahjong-JP.exe");
    client.title = None;
    assert_eq!(find_riichi_city_window(&[window("Notes", "editor"), client.clone()]), Some(1));
    client.app_name = None;
    assert_eq!(find_riichi_city_window(&[client]), None);
}

#[test]
fn names_are_matched_by_their_parts() {
    assert!(matches_executable("c:\\mahjong-jp.exe"));
    assert!(!matches_executable("Mahjong-JP"));
    assert!(matches_title("play riichi city now", ""));
    assert!(matches_title("", "麻雀一番街 - 1"));
    assert!(!matches_title("Riichi City", "Riichi City"));
}
