//! Decisions of the taskbar speed overlay: where it sits next to the
//! notification area, when a foreground window counts as fullscreen, and
//! how the overlay reacts to its timer, to window events and to updates.
//!
//! The Win32 queries and calls are made by the caller, which hands the
//! answers in and carries out the returned action.

use vstd::prelude::*;
use crate::matcher::occurs_at;
use crate::process::{contains_chars, contains_seq};
use crate::settings::str_is;
use crate::text::chars_of;

verus! {

/// A window rectangle in screen coordinates.
#[derive(Debug, Clone, Copy)]
pub struct Rect {
    pub left: i32,
    pub top: i32,
    pub right: i32,
    pub bottom: i32,
}

/// Whether a child of the taskbar belongs to the notification area.
pub open spec fn is_notify_class(class_name: Seq<char>) -> bool {
    class_name == "TrayNotifyWnd"@ || contains_seq(class_name, "InputSite"@)
}

/// Left edge of the notification area after looking at one more taskbar
/// child: a notification-area child that starts right of the screen edge and
/// is wider than 30 pixels moves the edge left (or sets it, when none was
/// found yet, 0).
pub open spec fn notify_left_after(current: i32, class_name: Seq<char>, r: Rect) -> i32 {
    if is_notify_class(class_name) && r.left > 0 && r.right - r.left > 30 && (current == 0
        || r.left < current) {
        r.left
    } else {
        current
    }
}

pub fn track_notify_left(current: i32, class_name: &str, r: Rect) -> (left: i32)
    ensures
        left == notify_left_after(current, class_name@, r),
{
    let name = chars_of(class_name);
    let notify = str_is(class_name, "TrayNotifyWnd") || contains_chars(&name, &chars_of("InputSite"));
    let width: i64 = r.right as i64 - r.left as i64;
    if notify && r.left > 0 && width > 30 && (current == 0 || r.left < current) {
        r.left
    } else {
        current
    }
}

/// Placement of an overlay `widget_width` wide on the taskbar `tray`: left
/// of the notification area when that leaves room, else at a fixed offset
/// from the taskbar's right end; as tall as the taskbar, at least 20.
pub open spec fn overlay_x(tray: Rect, notify_left: i32, widget_width: i32) -> int {
    if notify_left > widget_width + 100 {
        notify_left - widget_width - 8
    } else {
        tray.right - 420 - widget_width
    }
}

pub open spec fn overlay_height(tray: Rect) -> int {
    if tray.bottom - tray.top < 20 {
        20
    } else {
        tray.bottom - tray.top
    }
}

pub fn taskbar_widget_geometry(tray: Rect, notify_left: i32, widget_width: i32) -> (g: (i32, i32, u32, u32))
    requires
        0 <= widget_width <= i32::MAX - 100,
        i32::MIN <= overlay_x(tray, notify_left, widget_width) <= i32::MAX,
        i32::MIN <= tray.bottom - tray.top <= i32::MAX,
    ensures
        g.0 == overlay_x(tray, notify_left, widget_width),
        g.1 == tray.top,
        g.2 == widget_width,
        g.3 == overlay_height(tray),
{
    let h: i32 = tray.bottom - tray.top;
    let height: u32 = if h < 20 { 20 } else { h as u32 };
    let x = if notify_left > widget_width + 100 {
        notify_left - widget_width - 8
    } else {
        tray.right - 420 - widget_width
    };
    (x, tray.top, widget_width as u32, height)
}

/// What the shell learned about a foreground window.
#[derive(Debug)]
pub struct WindowFacts {
    /// The window handle is null.
    pub is_null: bool,
    /// It is the overlay itself.
    pub is_overlay: bool,
    /// It is the desktop window or the taskbar.
    pub is_desktop_or_taskbar: bool,
    /// The taskbar exists and is hidden.
    pub taskbar_hidden: bool,
    /// Its window class, when it could be read.
    pub class_name: Option<String>,
    /// Its rectangle, when it could be read.
    pub window_rect: Option<Rect>,
    /// The rectangle of its monitor, when it could be read.
    pub monitor_rect: Option<Rect>,
    /// Its window style bits.
    pub style: u32,
}

pub open spec fn shell_class(c: Seq<char>) -> bool {
    c == "Progman"@ || c == "WorkerW"@ || c == "Shell_TrayWnd"@ || c == "Shell_SecondaryTrayWnd"@
}

pub open spec fn covers(w: Rect, m: Rect) -> bool {
    w.left <= m.left && w.top <= m.top && w.right >= m.right && w.bottom >= m.bottom
}

/// A window with a caption that is not a popup is an ordinary window.
pub open spec fn captioned(style: u32) -> bool {
    (style & 0x00C0_0000u32) == 0x00C0_0000u32 && (style & 0x8000_0000u32) == 0
}

/// Whether the foreground window is fullscreen: never the overlay, the
/// desktop, the taskbar or a shell window; always when the taskbar is
/// hidden; otherwise an uncaptioned (or popup) window covering its whole
/// monitor.
pub open spec fn fullscreen(f: WindowFacts) -> bool {
    if f.is_null || f.is_overlay || f.is_desktop_or_taskbar {
        false
    } else if f.taskbar_hidden {
        true
    } else if f.class_name matches Some(c) && shell_class(c@) {
        false
    } else {
        match (f.window_rect, f.monitor_rect) {
            (Some(w), Some(m)) => !captioned(f.style) && covers(w, m),
            _ => false,
        }
    }
}

pub fn check_window_is_fullscreen(f: &WindowFacts) -> (r: bool)
    ensures
        r == fullscreen(*f),
{
    if f.is_null || f.is_overlay || f.is_desktop_or_taskbar {
        return false;
    }
    if f.taskbar_hidden {
        return true;
    }
    match &f.class_name {
        Some(c) => {
            if str_is(c.as_str(), "Progman") || str_is(c.as_str(), "WorkerW") || str_is(
                c.as_str(),
                "Shell_TrayWnd",
            ) || str_is(c.as_str(), "Shell_SecondaryTrayWnd") {
                return false;
            }
        },
        None => {},
    }
    match (f.window_rect, f.monitor_rect) {
        (Some(w), Some(m)) => {
            if (f.style & 0x00C0_0000u32) == 0x00C0_0000u32 && (f.style & 0x8000_0000u32) == 0 {
                return false;
            }
            w.left <= m.left && w.top <= m.top && w.right >= m.right && w.bottom >= m.bottom
        },
        _ => false,
    }
}

/// What the overlay window is to do.
#[derive(Debug)]
pub enum OverlayAction {
    Nothing,
    Hide,
    /// Post itself an update message.
    RequestUpdate,
    /// Move to `(x, y)` with this size, on top, and show.
    Place(i32, i32, u32, u32),
}

/// The overlay's memory of whether a fullscreen window is in front.
pub struct OverlayState {
    pub fullscreen: bool,
}

impl OverlayState {
    pub fn new(fullscreen: bool) -> (s: Self)
        ensures
            s.fullscreen == fullscreen,
    {
        OverlayState { fullscreen }
    }

    /// The periodic fallback check: remember the new fullscreen state; hide
    /// when the display is off or a fullscreen window is in front, else
    /// refresh when the state just changed.
    pub fn on_timer(&mut self, foreground_fullscreen: bool, enabled: bool) -> (a: OverlayAction)
        ensures
            final(self).fullscreen == foreground_fullscreen,
            a == if !enabled || foreground_fullscreen {
                OverlayAction::Hide
            } else if old(self).fullscreen != foreground_fullscreen {
                OverlayAction::RequestUpdate
            } else {
                OverlayAction::Nothing
            },
    {
        let prev = self.fullscreen;
        self.fullscreen = foreground_fullscreen;
        if !enabled || foreground_fullscreen {
            OverlayAction::Hide
        } else if prev != foreground_fullscreen {
            OverlayAction::RequestUpdate
        } else {
            OverlayAction::Nothing
        }
    }

    /// A foreground or location change of another window: remember whether
    /// the foreground window is fullscreen, and react when that changed
    /// (only once the overlay window exists).
    pub fn on_window_event(&mut self, foreground_fullscreen: bool, overlay_exists: bool) -> (a: OverlayAction)
        ensures
            final(self).fullscreen == foreground_fullscreen,
            a == if old(self).fullscreen != foreground_fullscreen && overlay_exists {
                if foreground_fullscreen {
                    OverlayAction::Hide
                } else {
                    OverlayAction::RequestUpdate
                }
            } else {
                OverlayAction::Nothing
            },
    {
        let prev = self.fullscreen;
        self.fullscreen = foreground_fullscreen;
        if prev != foreground_fullscreen && overlay_exists {
            if foreground_fullscreen {
                OverlayAction::Hide
            } else {
                OverlayAction::RequestUpdate
            }
        } else {
            OverlayAction::Nothing
        }
    }

    /// An update request: hidden while the display is off or a fullscreen
    /// window is in front, or when the taskbar cannot be found; placed on
    /// the taskbar otherwise.
    pub fn on_update(&self, enabled: bool, geometry: Option<(i32, i32, u32, u32)>) -> (a: OverlayAction)
        ensures
            a == if !enabled || self.fullscreen {
                OverlayAction::Hide
            } else {
                match geometry {
                    Some(g) => OverlayAction::Place(g.0, g.1, g.2, g.3),
                    None => OverlayAction::Hide,
                }
            },
    {
        if !enabled || self.fullscreen {
            return OverlayAction::Hide;
        }
        match geometry {
            Some(g) => OverlayAction::Place(g.0, g.1, g.2, g.3),
            None => OverlayAction::Hide,
        }
    }
}

/// Overlay surface size.
pub const OVERLAY_WIDTH: i32 = 160;
pub const OVERLAY_HEIGHT: i32 = 40;

/// Where the upload and download texts are drawn on the overlay: the left
/// and right halves, 2 pixels in from each side, one 18-pixel line centred
/// vertically.
pub fn overlay_text_rects() -> (r: (Rect, Rect))
    ensures
        r.0 == (Rect { left: 2, top: 11, right: 78, bottom: 29 }),
        r.1 == (Rect { left: 82, top: 11, right: 158, bottom: 29 }),
{
    let half_w: i32 = OVERLAY_WIDTH / 2;
    let line_h: i32 = 18;
    let pad_y: i32 = (OVERLAY_HEIGHT - line_h) / 2;
    (
        Rect { left: 2, top: pad_y, right: half_w - 2, bottom: pad_y + line_h },
        Rect { left: half_w + 2, top: pad_y, right: OVERLAY_WIDTH - 2, bottom: pad_y + line_h },
    )
}

} // verus!
