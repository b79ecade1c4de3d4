use vstd::prelude::*;

verus! {

/// The window size remembered between runs.
#[derive(Clone, Copy, Debug, PartialEq, Eq, Structural)]
pub struct WindowConfig {
    pub width: u32,
    pub height: u32,
}

/// The size to open the window with: the remembered one, else the fallback.
pub fn initial_window_size(saved: Option<WindowConfig>, fallback: (u32, u32)) -> (r: (u32, u32))
    ensures
        r == (match saved {
            Some(c) => (c.width, c.height),
            None => fallback,
        }),
{
    match saved {
        Some(c) => (c.width, c.height),
        None => fallback,
    }
}

/// Integer halving that rounds toward zero, as Rust's `/` does.
pub open spec fn half_toward_zero(d: int) -> int {
    if d >= 0 {
        d / 2
    } else {
        -((-d) / 2)
    }
}

/// The offset that centres a window of `size` on a monitor of `monitor_size`
/// starting at `monitor_pos`; both sizes are taken as `i32`, as the window system does.
pub open spec fn centered(monitor_pos: i32, monitor_size: u32, size: u32) -> int {
    monitor_pos + half_toward_zero(monitor_size as i32 - size as i32)
}

/// The position that centres a `width` x `height` window on the monitor whose
/// top-left corner is at (`monitor_x`, `monitor_y`).
pub fn centered_position(
    monitor_x: i32,
    monitor_y: i32,
    monitor_width: u32,
    monitor_height: u32,
    width: u32,
    height: u32,
) -> (r: (i32, i32))
    requires
        i32::MIN <= monitor_width as i32 - width as i32 <= i32::MAX,
        i32::MIN <= monitor_height as i32 - height as i32 <= i32::MAX,
        i32::MIN <= centered(monitor_x, monitor_width, width) <= i32::MAX,
        i32::MIN <= centered(monitor_y, monitor_height, height) <= i32::MAX,
    ensures
        r.0 == centered(monitor_x, monitor_width, width),
        r.1 == centered(monitor_y, monitor_height, height),
{
    let dx: i32 = monitor_width as i32 - width as i32;
    let dy: i32 = monitor_height as i32 - height as i32;
    (monitor_x + dx / 2, monitor_y + dy / 2)
}

} // verus!
