//! The always-on-top suggestion overlay: what its window looks like, and what
//! brings the live window in line with the configuration.
//!
//! This module decides; the caller owns the window. On every start and on every
//! change of the configuration it performs what [`reconcile`] says, and then
//! what [`broadcast_after`] says.
use vstd::prelude::*;

verus! {

/// Window label.
pub const LABEL: &'static str = "overlay";

/// Event carrying a fresh configuration to every window.
pub const CONFIG_EVENT: &'static str = "overlay-config";

/// The overlay is deliberately fixed-size: its rows compress to fit.
pub const FIXED_WIDTH: u32 = 300;

pub const FIXED_HEIGHT: u32 = 300;

/// The part of the overlay's configuration that its window depends on.
#[derive(Debug, Clone, Copy, PartialEq, Eq, Structural)]
pub struct OverlayConfig {
    pub enabled: bool,
    pub always_on_top: bool,
}

/// Which part of a saved window state is restored.
#[derive(Debug, Clone, Copy, PartialEq, Eq, Structural)]
pub struct RestoreFlags {
    pub size: bool,
    pub position: bool,
    pub maximized: bool,
    pub visible: bool,
    pub decorations: bool,
    pub fullscreen: bool,
}

/// How a new overlay window is built.
#[derive(Debug, Clone, Copy, PartialEq, Eq, Structural)]
pub struct OverlayWindow {
    pub width: u32,
    pub height: u32,
    pub resizable: bool,
    pub decorations: bool,
    pub transparent: bool,
    pub always_on_top: bool,
    pub skip_taskbar: bool,
    pub maximizable: bool,
    pub minimizable: bool,
    pub shadow: bool,
    pub focused: bool,
    pub restore: RestoreFlags,
}

/// What the caller does to the window.
#[derive(Debug, Clone, Copy, PartialEq, Eq, Structural)]
pub enum OverlayAction {
    /// Build the window, then restore its saved state. A restore that fails is
    /// only reported.
    Create(OverlayWindow),
    /// Apply the setting to the open window and show it.
    Update { always_on_top: bool },
    Close,
    Leave,
}

/// Position is the only state worth restoring: decorations would put a title
/// bar back onto a frameless window, and a saved size would override the fixed
/// one.
pub open spec fn position_only() -> RestoreFlags {
    RestoreFlags {
        size: false,
        position: true,
        maximized: false,
        visible: false,
        decorations: false,
        fullscreen: false,
    }
}

/// The overlay's window: frameless, transparent, fixed in size, out of the
/// task bar, and never taking the focus from the game.
pub open spec fn fixed_window(always_on_top: bool) -> OverlayWindow {
    OverlayWindow {
        width: FIXED_WIDTH,
        height: FIXED_HEIGHT,
        resizable: false,
        decorations: false,
        transparent: true,
        always_on_top,
        skip_taskbar: true,
        maximizable: false,
        minimizable: false,
        shadow: false,
        focused: false,
        restore: position_only(),
    }
}

/// An open window is updated or closed, a missing one is built or left.
pub open spec fn action_for(cfg: OverlayConfig, is_open: bool) -> OverlayAction {
    if cfg.enabled {
        if is_open {
            OverlayAction::Update { always_on_top: cfg.always_on_top }
        } else {
            OverlayAction::Create(fixed_window(cfg.always_on_top))
        }
    } else if is_open {
        OverlayAction::Close
    } else {
        OverlayAction::Leave
    }
}

/// The live window after an action: `Some` with its setting while it is open.
pub open spec fn window_after(window: Option<bool>, action: OverlayAction) -> Option<bool> {
    match action {
        OverlayAction::Create(w) => Some(w.always_on_top),
        OverlayAction::Update { always_on_top } => Some(always_on_top),
        OverlayAction::Close => None,
        OverlayAction::Leave => window,
    }
}

pub fn restore_flags() -> (flags: RestoreFlags)
    ensures
        flags == position_only(),
{
    RestoreFlags {
        size: false,
        position: true,
        maximized: false,
        visible: false,
        decorations: false,
        fullscreen: false,
    }
}

/// Open the overlay, or re-apply the live settings to the one already open.
pub fn open(cfg: &OverlayConfig, is_open: bool) -> (action: OverlayAction)
    ensures
        action == action_for((OverlayConfig { enabled: true, ..*cfg }), is_open),
{
    if is_open {
        OverlayAction::Update { always_on_top: cfg.always_on_top }
    } else {
        OverlayAction::Create(
            OverlayWindow {
                width: FIXED_WIDTH,
                height: FIXED_HEIGHT,
                resizable: false,
                decorations: false,
                transparent: true,
                always_on_top: cfg.always_on_top,
                skip_taskbar: true,
                maximizable: false,
                minimizable: false,
                shadow: false,
                focused: false,
                restore: restore_flags(),
            },
        )
    }
}

pub fn close(is_open: bool) -> (action: OverlayAction)
    ensures
        action == (if is_open {
            OverlayAction::Close
        } else {
            OverlayAction::Leave
        }),
{
    if is_open {
        OverlayAction::Close
    } else {
        OverlayAction::Leave
    }
}

/// Bring the live window in line with the configuration: open it, close it, or
/// leave it alone. Safe to perform on every change of the configuration.
pub fn reconcile(cfg: &OverlayConfig, is_open: bool) -> (action: OverlayAction)
    ensures
        action == action_for(*cfg, is_open),
{
    if cfg.enabled {
        open(cfg, is_open)
    } else {
        close(is_open)
    }
}

/// The event that carries the new configuration to every window, once the
/// action was performed; none where it failed.
pub fn broadcast_after(succeeded: bool) -> (event: Option<&'static str>)
    ensures
        match event {
            Some(name) => succeeded && name@ == CONFIG_EVENT@,
            None => !succeeded,
        },
{
    if succeeded {
        Some(CONFIG_EVENT)
    } else {
        None
    }
}

/// The window is open after a reconcile exactly where the configuration says
/// so, with its setting.
pub proof fn law_reconcile_brings_the_window_in_line(cfg: OverlayConfig, window: Option<bool>)
    ensures
        window_after(window, action_for(cfg, window is Some)) == (if cfg.enabled {
            Some(cfg.always_on_top)
        } else {
            None
        }),
{
}

/// A second reconcile changes nothing and builds nothing.
pub proof fn law_reconcile_is_idempotent(cfg: OverlayConfig, window: Option<bool>)
    ensures
        ({
            let once = window_after(window, action_for(cfg, window is Some));
            let again = action_for(cfg, once is Some);
            window_after(once, again) == once && !(again is Create) && !(again is Close)
        }),
{
}

/// The overlay is fixed in size: every window that a reconcile builds has that
/// size, cannot be resized, and does not get a saved size back.
pub proof fn law_the_window_is_fixed_in_size(cfg: OverlayConfig, is_open: bool)
    ensures
        action_for(cfg, is_open) matches OverlayAction::Create(w) ==> w.width == FIXED_WIDTH
            && w.height == FIXED_HEIGHT && !w.resizable && !w.maximizable && !w.restore.size
            && !w.restore.decorations && w.restore.position,
{
}

/// What is done to the window: an enabled overlay is built where it is missing
/// and gets its setting where it is open, a disabled one is closed where it is
/// open, and else nothing is done.
pub proof fn law_what_is_done_to_the_window(cfg: OverlayConfig, is_open: bool)
    ensures
        match action_for(cfg, is_open) {
            OverlayAction::Create(w) => cfg.enabled && !is_open && w.always_on_top
                == cfg.always_on_top,
            OverlayAction::Update { always_on_top } => cfg.enabled && is_open && always_on_top
                == cfg.always_on_top,
            OverlayAction::Close => !cfg.enabled && is_open,
            OverlayAction::Leave => !cfg.enabled && !is_open,
        },
{
}

/// What the overlay looks like: 300 by 300, frameless, see-through, without a
/// shadow, not in the task bar, neither resizable nor to be minimized or
/// maximized, and opened without taking the focus. Of a saved state its
/// position comes back and nothing else.
pub proof fn law_what_the_overlay_looks_like(always_on_top: bool)
    ensures
        ({
            let w = fixed_window(always_on_top);
            &&& w.width == 300 && w.height == 300
            &&& !w.resizable && !w.maximizable && !w.minimizable
            &&& !w.decorations && w.transparent && !w.shadow
            &&& w.skip_taskbar && !w.focused
            &&& w.always_on_top == always_on_top
            &&& w.restore.position
            &&& !w.restore.size && !w.restore.maximized && !w.restore.visible
            &&& !w.restore.decorations && !w.restore.fullscreen
        }),
{
}

/// The names by which the window and the broadcast of a configuration are
/// known.
pub proof fn law_the_names_of_the_overlay()
    ensures
        LABEL@ == "overlay"@,
        CONFIG_EVENT@ == "overlay-config"@,
{
}

} // verus!
