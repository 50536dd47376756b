//! The system tray: an opt-in place to keep the app — every terminal, file
//! browser and tunnel in it — running with no window on screen. Off until the
//! user turns it on, and the window only ever hides into an icon that exists:
//! on a desktop without a tray it would have nowhere to come back from.

use vstd::prelude::*;

verus! {

/// What closing and minimizing the window do, and whether the icon is up.
#[derive(Debug, Clone, Copy, PartialEq, Eq, Structural)]
pub struct Behavior {
    pub minimize: bool,
    pub close: bool,
    /// The icon exists and is shown.
    pub live: bool,
}

impl Behavior {
    /// The tray unused: the window closes and minimizes as usual.
    pub fn off() -> (b: Behavior)
        ensures
            !b.minimize && !b.close && !b.live,
    {
        Behavior { minimize: false, close: false, live: false }
    }

    /// Whether closing the window hides it in the tray. Only into an icon that
    /// is up.
    pub fn closes_to_tray(self) -> (b: bool)
        ensures
            b == (self.live && self.close),
            b ==> self.live,
    {
        self.live && self.close
    }

    /// Whether minimizing the window hides it in the tray. Only into an icon
    /// that is up.
    pub fn minimizes_to_tray(self) -> (b: bool)
        ensures
            b == (self.live && self.minimize),
            b ==> self.live,
    {
        self.live && self.minimize
    }
}

/// The trays a Linux desktop runs.
#[derive(Debug, Clone, Copy, Default, PartialEq, Eq, Structural)]
pub struct TrayHosts {
    /// A StatusNotifier watcher (KDE, GNOME's AppIndicator extension, waybar).
    pub status_notifier: bool,
    /// An XEmbed system tray on the X server (i3bar, stalonetray, older panels).
    pub xembed: bool,
}

/// The trays found: whether a StatusNotifier watcher owns its bus name, and
/// whether an XEmbed tray owns its selection on the X server. Both answers come
/// from other processes, which the caller asks.
pub fn find_hosts(status_notifier: bool, xembed: bool) -> (h: TrayHosts)
    ensures
        h.status_notifier == status_notifier,
        h.xembed == xembed,
{
    TrayHosts { status_notifier, xembed }
}

/// How far this desktop supports the tray.
#[derive(Debug, Clone, Copy, PartialEq, Eq, Structural)]
pub struct TraySupport {
    /// There is a tray to hide into.
    pub available: bool,
    /// Minimizing can go to the tray too.
    pub minimize: bool,
}

/// On Linux an icon shows only in a tray something is running, and only with
/// the tray library installed: stock GNOME has no tray, and there the window
/// would hide into nothing. A native Wayland window is never told it was
/// minimized, and cannot use an XEmbed tray.
pub fn linux_support(hosts: TrayHosts, library_present: bool, wayland: bool) -> (s: TraySupport)
    ensures
        s.available == (library_present && (hosts.status_notifier || (hosts.xembed && !wayland))),
        s.minimize == (s.available && !wayland),
{
    let available = library_present && (hosts.status_notifier || (hosts.xembed && !wayland));
    TraySupport { available, minimize: available && !wayland }
}

/// Elsewhere there is always a tray; macOS has no minimize event to act on and
/// keeps minimized windows in the Dock.
pub fn other_support(macos: bool) -> (s: TraySupport)
    ensures
        s.available,
        s.minimize == !macos,
{
    TraySupport { available: true, minimize: !macos }
}

/// What applying the user's choice does to the icon.
#[derive(Debug, Clone, Copy, PartialEq, Eq, Structural)]
pub enum IconAction {
    /// Nothing: there is no tray.
    Leave,
    Show,
    Hide,
}

/// The behavior to keep while the icon is dealt with: minimizing goes to the
/// tray only where supported, and nothing hides yet.
pub open spec fn planned_behavior(minimize: bool, close: bool, support: TraySupport) -> Behavior {
    Behavior { minimize: minimize && support.minimize, close, live: false }
}

/// What to do with the icon: show it when anything is to hide in it, hide it
/// otherwise, and leave it alone without a tray.
pub open spec fn icon_action(minimize: bool, close: bool, support: TraySupport) -> IconAction {
    if !support.available {
        IconAction::Leave
    } else if (minimize && support.minimize) || close {
        IconAction::Show
    } else {
        IconAction::Hide
    }
}

/// The behavior once the icon was dealt with: it is live only if it was to be
/// shown and showing it worked.
pub open spec fn settled(planned: Behavior, action: IconAction, shown: bool) -> Behavior {
    Behavior { live: action == IconAction::Show && shown, ..planned }
}

/// Applying the choice to minimize and close to the tray, as far as `support`
/// allows: the behavior to keep until the icon is dealt with, and what to do
/// with the icon.
pub fn plan_apply(minimize: bool, close: bool, support: TraySupport) -> (r: (Behavior, IconAction))
    ensures
        r.0 == planned_behavior(minimize, close, support),
        r.1 == icon_action(minimize, close, support),
{
    let minimize = minimize && support.minimize;
    let behavior = Behavior { minimize, close, live: false };
    let action = if !support.available {
        IconAction::Leave
    } else if minimize || close {
        IconAction::Show
    } else {
        IconAction::Hide
    };
    (behavior, action)
}

/// The behavior once the icon was dealt with, `shown` saying whether showing
/// it worked.
pub fn settle(planned: Behavior, action: IconAction, shown: bool) -> (b: Behavior)
    ensures
        b == settled(planned, action, shown),
{
    Behavior { live: action == IconAction::Show && shown, ..planned }
}

/// Whether a close request hides the window instead.
pub fn hides_on_close(behavior: Behavior) -> (b: bool)
    ensures
        b == (behavior.live && behavior.close),
{
    behavior.closes_to_tray()
}

/// Whether a resize hides the window: only on the way down into a minimized
/// state, so a restore the window manager still calls minimized does not send
/// it straight back.
pub fn hides_on_resize(behavior: Behavior, minimized: bool, was_minimized: bool) -> (b: bool)
    ensures
        b == (minimized && !was_minimized && behavior.live && behavior.minimize),
{
    minimized && !was_minimized && behavior.minimizes_to_tray()
}

/// The window hides only into a live icon: whatever the choice and the
/// desktop, close and minimize hide the window only where there is a tray, the
/// icon was shown, and — for minimize — the desktop supports it.
pub proof fn law_hides_only_into_a_live_icon(
    minimize: bool,
    close: bool,
    support: TraySupport,
    shown: bool,
)
    ensures
        ({
            let b = settled(
                planned_behavior(minimize, close, support),
                icon_action(minimize, close, support),
                shown,
            );
            &&& b.live && b.close ==> support.available && shown && close
            &&& b.live && b.minimize ==> support.available && support.minimize && shown && minimize
            &&& !shown ==> !b.live
        }),
{
}

/// The id of the tray menu's "show" item.
pub const SHOW_ID: &'static str = "tray-show";

/// The id of the tray menu's "quit" item.
pub const QUIT_ID: &'static str = "tray-quit";

/// What a tray menu item does.
#[derive(Debug, Clone, Copy, PartialEq, Eq, Structural)]
pub enum MenuAction {
    /// Bring the window back.
    Reveal,
    /// Quit the app.
    Quit,
    Nothing,
}

/// What the tray menu item `id` does.
pub fn menu_action(id: &str) -> (a: MenuAction)
    ensures
        a == if id@ == SHOW_ID@ {
            MenuAction::Reveal
        } else if id@ == QUIT_ID@ {
            MenuAction::Quit
        } else {
            MenuAction::Nothing
        },
{
    let v = crate::text::chars_of(id);
    if crate::text::same_chars(v.as_slice(), SHOW_ID) {
        MenuAction::Reveal
    } else if crate::text::same_chars(v.as_slice(), QUIT_ID) {
        MenuAction::Quit
    } else {
        MenuAction::Nothing
    }
}

} // verus!
