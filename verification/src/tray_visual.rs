//! The compact layout badge of the tray icon: its mode and colors. The
//! badge's pixels are drawn by the platform adapter.

use vstd::prelude::*;

verus! {

/// Width and height of the badge in pixels.
pub const SIZE: usize = 32;

/// Opaque ARGB background while automatic conversion is on.
pub const ACTIVE_BACKGROUND: u32 = 0xFF25_63EB;

/// Opaque ARGB background while it is off or paused.
pub const DISABLED_BACKGROUND: u32 = 0xFF6B_7280;

/// Opaque white, the color of the layout label.
pub const LABEL_COLOR: u32 = 0xFFFF_FFFF;

/// The mode the badge shows.
#[derive(Debug, Clone, Copy, PartialEq, Eq)]
pub enum TrayVisual {
    Active,
    Disabled,
    SafetyPaused,
}

/// The badge background of a mode: a safety pause looks like a manual
/// disable.
pub fn background(state: TrayVisual) -> (r: u32)
    ensures
        r == (if state is Active {
            ACTIVE_BACKGROUND
        } else {
            DISABLED_BACKGROUND
        }),
{
    match state {
        TrayVisual::Active => ACTIVE_BACKGROUND,
        _ => DISABLED_BACKGROUND,
    }
}

} // verus!
