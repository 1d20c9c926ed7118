//! Small helpers: centring a rectangle and the event log.

use vstd::prelude::*;

verus! {

/// A rectangle of the terminal, in cells.
#[derive(Debug, Clone, Copy, PartialEq, Eq, Structural)]
pub struct Rect {
    pub x: u16,
    pub y: u16,
    pub width: u16,
    pub height: u16,
}

/// A `width` by `height` rectangle centred in `r`, each side cut to fit.
pub fn centered_rect(width: u16, height: u16, r: Rect) -> (out: Rect)
    requires
        r.x + (r.width - (if width < r.width { width } else { r.width })) / 2 <= u16::MAX,
        r.y + (r.height - (if height < r.height { height } else { r.height })) / 2 <= u16::MAX,
    ensures
        out.width == (if width < r.width { width } else { r.width }),
        out.height == (if height < r.height { height } else { r.height }),
        out.x == r.x + (r.width - out.width) / 2,
        out.y == r.y + (r.height - out.height) / 2,
{
    let popup_width = if width < r.width { width } else { r.width };
    let popup_height = if height < r.height { height } else { r.height };
    let x_margin = (r.width - popup_width) / 2;
    let y_margin = (r.height - popup_height) / 2;
    Rect { x: r.x + x_margin, y: r.y + y_margin, width: popup_width, height: popup_height }
}

/// Records an event; the log is switched off, so nothing is written.
pub fn log_event(msg: &str) {
}

} // verus!
