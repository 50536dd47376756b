use omnyssh::tray::{
    find_hosts, hides_on_close, hides_on_resize, linux_support, menu_action, other_support,
    plan_apply, settle, Behavior, IconAction, MenuAction, QUIT_ID, SHOW_ID, TrayHosts,
};

/// The window hides only into an icon that is up: an unavailable or failed tray
/// must leave close and minimize as they were.
#[test]
fn the_window_hides_only_into_a_live_icon() {
    let on = Behavior {
        minimize: true,
        close: true,
        live: true,
    };
    assert!(on.closes_to_tray() && on.minimizes_to_tray());

    let no_icon = Behavior { live: false, ..on };
    assert!(!no_icon.closes_to_tray() && !no_icon.minimizes_to_tray());

    let close_only = Behavior {
        minimize: false,
        ..on
    };
    assert!(close_only.closes_to_tray() && !close_only.minimizes_to_tray());

    assert!(!Behavior::off().closes_to_tray() && !Behavior::off().minimizes_to_tray());
}

#[test]
fn a_desktop_without_a_tray_supports_nothing() {
    let none = find_hosts(false, false);
    assert_eq!(none, TrayHosts::default());
    let s = linux_support(none, true, false);
    assert!(!s.available && !s.minimize);
    // A tray library with no tray running is still no tray.
    let s = linux_support(find_hosts(false, true), true, true);
    assert!(!s.available, "Wayland cannot use an XEmbed tray");
    let s = linux_support(find_hosts(true, false), true, true);
    assert!(s.available && !s.minimize, "Wayland never says it was minimized");
    let s = linux_support(find_hosts(true, true), false, false);
    assert!(!s.available, "no library, no icon");
    let s = linux_support(find_hosts(false, true), true, false);
    assert!(s.available && s.minimize);
    assert!(!other_support(true).minimize && other_support(false).minimize);
}

#[test]
fn applying_shows_the_icon_only_when_something_hides_in_it() {
    let full = linux_support(find_hosts(true, false), true, false);
    let (b, action) = plan_apply(true, false, full);
    assert_eq!(action, IconAction::Show);
    assert!(!b.live);
    let b = settle(b, action, true);
    assert!(b.minimizes_to_tray() && !b.closes_to_tray());
    let failed = settle(b, action, false);
    assert!(!failed.minimizes_to_tray());

    let (b, action) = plan_apply(false, false, full);
    assert_eq!(action, IconAction::Hide);
    assert!(!settle(b, action, true).live);

    let bare = linux_support(find_hosts(false, false), true, false);
    let (b, action) = plan_apply(true, true, bare);
    assert_eq!(action, IconAction::Leave);
    assert!(!settle(b, action, true).closes_to_tray());
}

#[test]
fn only_the_way_down_hides_a_minimizing_window() {
    let on = Behavior {
        minimize: true,
        close: false,
        live: true,
    };
    assert!(hides_on_resize(on, true, false));
    assert!(!hides_on_resize(on, true, true), "already minimized");
    assert!(!hides_on_resize(on, false, true));
    assert!(!hides_on_close(on));
}

#[test]
fn the_menu_shows_or_quits() {
    assert_eq!(menu_action(SHOW_ID), MenuAction::Reveal);
    assert_eq!(menu_action(QUIT_ID), MenuAction::Quit);
    assert_eq!(menu_action("tray-other"), MenuAction::Nothing);
    assert_eq!(SHOW_ID, "tray-show");
}
