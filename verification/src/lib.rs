pub mod renderer;
pub mod vg;
pub mod vk;
pub mod world;

use vstd::prelude::*;

verus! {

use crate::renderer::WindowSizeProvider;

/// A native window handed over as plain numbers: the kind of window system
/// (0 Xlib, 1 Wayland, 2 XCB, 3 Win32) and the raw window and display handles.
#[derive(Clone, Copy, Debug, PartialEq, Eq, Structural)]
pub struct PlatformWindow {
    pub win_type: i32,
    pub win_handle: usize,
    pub display_handle: usize,
}

/// The window handle a `PlatformWindow` stands for.
#[derive(Clone, Copy, Debug, PartialEq, Eq, Structural)]
pub enum WindowHandleKind {
    /// An X11 window id.
    Xlib(u64),
    /// A non-null `wl_surface` pointer.
    Wayland(usize),
    /// A non-zero XCB window id.
    Xcb(u32),
    /// A non-zero `HWND`.
    Win32(isize),
}

/// The display handle a `PlatformWindow` stands for.
#[derive(Clone, Copy, Debug, PartialEq, Eq, Structural)]
pub enum DisplayHandleKind {
    /// An X11 `Display` pointer, or none (0) for the default display.
    Xlib(Option<usize>),
    /// An `xcb_connection_t` pointer, or none (0); screen 0.
    Xcb(Option<usize>),
    /// A non-null `wl_display` pointer.
    Wayland(usize),
    Windows,
}

/// The handles do not describe a window this library can draw into.
#[derive(Clone, Copy, Debug, PartialEq, Eq, Structural)]
pub struct HandleUnavailable;

pub open spec fn window_handle_of(w: PlatformWindow) -> Result<WindowHandleKind, HandleUnavailable> {
    if w.win_type == 0 {
        Ok(WindowHandleKind::Xlib(w.win_handle as u64))
    } else if w.win_type == 1 {
        if w.win_handle != 0 {
            Ok(WindowHandleKind::Wayland(w.win_handle))
        } else {
            Err(HandleUnavailable)
        }
    } else if w.win_type == 2 {
        if w.win_handle as u32 != 0 {
            Ok(WindowHandleKind::Xcb(w.win_handle as u32))
        } else {
            Err(HandleUnavailable)
        }
    } else if w.win_type == 3 {
        if w.win_handle as isize != 0 {
            Ok(WindowHandleKind::Win32(w.win_handle as isize))
        } else {
            Err(HandleUnavailable)
        }
    } else {
        Err(HandleUnavailable)
    }
}

pub open spec fn display_handle_of(w: PlatformWindow) -> Result<DisplayHandleKind, HandleUnavailable> {
    let display = if w.display_handle != 0 {
        Some(w.display_handle)
    } else {
        None
    };
    if w.win_type == 0 {
        Ok(DisplayHandleKind::Xlib(display))
    } else if w.win_type == 2 {
        Ok(DisplayHandleKind::Xcb(display))
    } else if w.win_type == 1 {
        if w.display_handle != 0 {
            Ok(DisplayHandleKind::Wayland(w.display_handle))
        } else {
            Err(HandleUnavailable)
        }
    } else if w.win_type == 3 {
        Ok(DisplayHandleKind::Windows)
    } else {
        Err(HandleUnavailable)
    }
}

/// The window handle carries the window number that was handed over (cut to
/// the handle's width), in the kind `win_type` names; a null Wayland, XCB or
/// Win32 window, or an unknown kind, has none.
pub proof fn lemma_window_handle_is_the_one_passed(w: PlatformWindow)
    ensures
        w.win_type == 0 ==> window_handle_of(w) == Ok::<WindowHandleKind, HandleUnavailable>(
            WindowHandleKind::Xlib(w.win_handle as u64),
        ),
        window_handle_of(w) matches Ok(WindowHandleKind::Wayland(h)) ==> w.win_type == 1 && h == w.win_handle
            && h != 0,
        window_handle_of(w) matches Ok(WindowHandleKind::Xcb(h)) ==> w.win_type == 2 && h == w.win_handle
            as u32 && h != 0,
        window_handle_of(w) matches Ok(WindowHandleKind::Win32(h)) ==> w.win_type == 3 && h
            == w.win_handle as isize && h != 0,
        w.win_type == 1 ==> (window_handle_of(w) is Ok <==> w.win_handle != 0),
        w.win_type == 2 ==> (window_handle_of(w) is Ok <==> w.win_handle as u32 != 0),
        w.win_type == 3 ==> (window_handle_of(w) is Ok <==> w.win_handle as isize != 0),
        (w.win_type < 0 || w.win_type > 3) ==> window_handle_of(w) is Err,
{
}

/// The display handle is the display number that was handed over, never the
/// window's: an Xlib display or XCB connection is `Some` of it exactly when it is
/// not 0, a Wayland window needs a non-null display and gets it, a Win32 window has
/// no display of its own, and an unknown kind has none.
pub proof fn lemma_display_handle_is_the_one_passed(w: PlatformWindow)
    ensures
        w.win_type == 0 ==> display_handle_of(w) matches Ok(DisplayHandleKind::Xlib(_)),
        w.win_type == 2 ==> display_handle_of(w) matches Ok(DisplayHandleKind::Xcb(_)),
        w.win_type == 3 ==> display_handle_of(w) == Ok::<DisplayHandleKind, HandleUnavailable>(
            DisplayHandleKind::Windows,
        ),
        w.win_type == 1 ==> (display_handle_of(w) is Ok <==> w.display_handle != 0),
        w.win_type == 1 && w.display_handle != 0 ==> display_handle_of(w) matches Ok(
            DisplayHandleKind::Wayland(_),
        ),
        (w.win_type < 0 || w.win_type > 3) ==> display_handle_of(w) is Err,
        display_handle_of(w) matches Ok(DisplayHandleKind::Xlib(Some(d))) ==> d == w.display_handle && d
            != 0,
        display_handle_of(w) matches Ok(DisplayHandleKind::Xlib(None)) ==> w.display_handle == 0,
        display_handle_of(w) matches Ok(DisplayHandleKind::Xcb(Some(d))) ==> d == w.display_handle && d
            != 0,
        display_handle_of(w) matches Ok(DisplayHandleKind::Xcb(None)) ==> w.display_handle == 0,
        display_handle_of(w) matches Ok(DisplayHandleKind::Wayland(d)) ==> d == w.display_handle && d
            != 0,
{
}

impl PlatformWindow {
    /// The window handle: its kind from `win_type`; Wayland, XCB and Win32
    /// handles must not be null (XCB ids are 32 bits, the rest is cut off).
    pub fn window_handle_kind(&self) -> (r: Result<WindowHandleKind, HandleUnavailable>)
        ensures
            r == window_handle_of(*self),
    {
        match self.win_type {
            0 => Ok(WindowHandleKind::Xlib(self.win_handle as u64)),
            1 => if self.win_handle != 0 {
                Ok(WindowHandleKind::Wayland(self.win_handle))
            } else {
                Err(HandleUnavailable)
            },
            2 => {
                let id = self.win_handle as u32;
                if id != 0 {
                    Ok(WindowHandleKind::Xcb(id))
                } else {
                    Err(HandleUnavailable)
                }
            },
            3 => {
                let hwnd = self.win_handle as isize;
                if hwnd != 0 {
                    Ok(WindowHandleKind::Win32(hwnd))
                } else {
                    Err(HandleUnavailable)
                }
            },
            _ => Err(HandleUnavailable),
        }
    }

    /// The display handle: an X11 display for Xlib windows, the XCB connection
    /// for XCB windows; Wayland needs a non-null display; Win32 has none of its own.
    pub fn display_handle_kind(&self) -> (r: Result<DisplayHandleKind, HandleUnavailable>)
        ensures
            r == display_handle_of(*self),
    {
        match self.win_type {
            0 => Ok(
                DisplayHandleKind::Xlib(
                    if self.display_handle != 0 {
                        Some(self.display_handle)
                    } else {
                        None
                    },
                ),
            ),
            2 => Ok(
                DisplayHandleKind::Xcb(
                    if self.display_handle != 0 {
                        Some(self.display_handle)
                    } else {
                        None
                    },
                ),
            ),
            1 => if self.display_handle != 0 {
                Ok(DisplayHandleKind::Wayland(self.display_handle))
            } else {
                Err(HandleUnavailable)
            },
            3 => Ok(DisplayHandleKind::Windows),
            _ => Err(HandleUnavailable),
        }
    }
}

impl WindowSizeProvider for PlatformWindow {
    /// A window handed over by handle does not report its size.
    fn size(&self) -> (s: Option<(u32, u32)>)
        ensures
            s is None,
    {
        None
    }
}

} // verus!
