//! What the desktop session supports, as reported to the front end.
use vstd::prelude::*;
use crate::text::{eq_ignore_ascii_case, eq_ignore_case, str_eq};

verus! {

/// The operating system the application was built for.
#[derive(Clone, Copy, PartialEq, Eq, Structural, Debug)]
pub enum TargetOs {
    Linux,
    Macos,
    Windows,
    Other,
}

/// The kind of graphical session on Linux.
#[derive(Clone, Copy, PartialEq, Eq, Structural, Debug)]
pub enum Session {
    Wayland,
    X11,
    Unknown,
}

/// The session named by `XDG_SESSION_TYPE` (any case), or else guessed from
/// which display variable is set and not empty, Wayland's first.
pub open spec fn session_of(
    session_type: Option<Seq<char>>,
    wayland_display: Option<Seq<char>>,
    display: Option<Seq<char>>,
) -> Session {
    if session_type matches Some(t) && eq_ignore_case(t, "wayland"@) {
        Session::Wayland
    } else if session_type matches Some(t) && eq_ignore_case(t, "x11"@) {
        Session::X11
    } else if wayland_display matches Some(w) && w.len() > 0 {
        Session::Wayland
    } else if display matches Some(d) && d.len() > 0 {
        Session::X11
    } else {
        Session::Unknown
    }
}

pub open spec fn opt_text(s: Option<String>) -> Option<Seq<char>> {
    match s {
        Some(t) => Some(t@),
        None => None,
    }
}

/// Classifies the Linux session from the values of `XDG_SESSION_TYPE`,
/// `WAYLAND_DISPLAY` and `DISPLAY` (each absent when unset or not Unicode).
pub fn linux_session(
    session_type: Option<String>,
    wayland_display: Option<String>,
    display: Option<String>,
) -> (s: Session)
    ensures
        s == session_of(opt_text(session_type), opt_text(wayland_display), opt_text(display)),
{
    if let Some(t) = &session_type {
        if eq_ignore_ascii_case(t.as_str(), "wayland") {
            return Session::Wayland;
        }
        if eq_ignore_ascii_case(t.as_str(), "x11") {
            return Session::X11;
        }
    }
    if let Some(w) = &wayland_display {
        if w.as_str().unicode_len() > 0 {
            return Session::Wayland;
        }
    }
    if let Some(d) = &display {
        if d.as_str().unicode_len() > 0 {
            return Session::X11;
        }
    }
    Session::Unknown
}

/// The name of a session as the front end knows it.
pub fn session_name(s: Session) -> (name: &'static str)
    ensures
        name@ == match s {
            Session::Wayland => "wayland"@,
            Session::X11 => "x11"@,
            Session::Unknown => "unknown"@,
        },
{
    match s {
        Session::Wayland => "wayland",
        Session::X11 => "x11",
        Session::Unknown => "unknown",
    }
}

/// A native Wayland session on Linux; never elsewhere.
pub fn is_wayland(os: TargetOs, session: Session) -> (r: bool)
    ensures
        r == (os == TargetOs::Linux && session == Session::Wayland),
{
    os == TargetOs::Linux && session == Session::Wayland
}

/// Global shortcuts need key grabs, which a Wayland session does not grant.
pub fn supports_global_shortcuts(os: TargetOs, session: Session) -> (r: bool)
    ensures
        r == !(os == TargetOs::Linux && session == Session::Wayland),
{
    !is_wayland(os, session)
}

/// Wayland does not let a client place its own windows.
pub fn supports_window_positioning(os: TargetOs, session: Session) -> (r: bool)
    ensures
        r == !(os == TargetOs::Linux && session == Session::Wayland),
{
    !is_wayland(os, session)
}

/// Whether the window manager remembers the popup's position: on Linux when
/// KWin was set up to do so, never elsewhere.
pub fn remembers_popup_position(os: TargetOs, kwin_remembers_position: bool) -> (r: bool)
    ensures
        r == (os == TargetOs::Linux && kwin_remembers_position),
{
    os == TargetOs::Linux && kwin_remembers_position
}

/// Wayland does not let a client keep itself above other windows.
pub fn supports_always_on_top(os: TargetOs, session: Session) -> (r: bool)
    ensures
        r == !(os == TargetOs::Linux && session == Session::Wayland),
{
    !is_wayland(os, session)
}

/// What the desktop supports, as reported to the front end.
pub struct PlatformInfo {
    pub os: &'static str,
    pub session: &'static str,
    pub tray_backend: &'static str,
    pub supports_tray_click_actions: bool,
    pub supports_native_popup_corners: bool,
    pub supports_global_shortcuts: bool,
    pub supports_window_positioning: bool,
    pub supports_always_on_top: bool,
}

/// The platform description for `os`. On Linux it depends on the session and on
/// the tray backend in use (click actions only with the legacy GTK icon).
pub fn get_platform_info(os: TargetOs, session: Session, tray_backend: &'static str) -> (info:
    PlatformInfo)
    ensures
        match os {
            TargetOs::Linux => {
                &&& info.os@ == "linux"@
                &&& info.session@ == match session {
                    Session::Wayland => "wayland"@,
                    Session::X11 => "x11"@,
                    Session::Unknown => "unknown"@,
                }
                &&& info.tray_backend@ == tray_backend@
                &&& info.supports_tray_click_actions == (tray_backend@ == "legacy-gtk"@)
                &&& !info.supports_native_popup_corners
                &&& info.supports_global_shortcuts == (session != Session::Wayland)
                &&& info.supports_window_positioning == (session != Session::Wayland)
                &&& info.supports_always_on_top == (session != Session::Wayland)
            },
            TargetOs::Macos => {
                &&& info.os@ == "macos"@
                &&& info.session@ == "native"@
                &&& info.tray_backend@ == "native"@
                &&& info.supports_tray_click_actions
                &&& info.supports_native_popup_corners
                &&& info.supports_global_shortcuts
                &&& info.supports_window_positioning
                &&& info.supports_always_on_top
            },
            TargetOs::Windows => {
                &&& info.os@ == "windows"@
                &&& info.session@ == "native"@
                &&& info.tray_backend@ == "native"@
                &&& info.supports_tray_click_actions
                &&& !info.supports_native_popup_corners
                &&& info.supports_global_shortcuts
                &&& info.supports_window_positioning
                &&& info.supports_always_on_top
            },
            TargetOs::Other => {
                &&& info.os@ == "unknown"@
                &&& info.session@ == "unknown"@
                &&& info.tray_backend@ == "native"@
                &&& !info.supports_tray_click_actions
                &&& !info.supports_native_popup_corners
                &&& !info.supports_global_shortcuts
                &&& !info.supports_window_positioning
                &&& !info.supports_always_on_top
            },
        },
{
    match os {
        TargetOs::Linux => PlatformInfo {
            os: "linux",
            session: session_name(session),
            tray_backend,
            supports_tray_click_actions: str_eq(tray_backend, "legacy-gtk"),
            supports_native_popup_corners: false,
            supports_global_shortcuts: supports_global_shortcuts(os, session),
            supports_window_positioning: supports_window_positioning(os, session),
            supports_always_on_top: supports_always_on_top(os, session),
        },
        TargetOs::Macos => PlatformInfo {
            os: "macos",
            session: "native",
            tray_backend: "native",
            supports_tray_click_actions: true,
            supports_native_popup_corners: true,
            supports_global_shortcuts: true,
            supports_window_positioning: true,
            supports_always_on_top: true,
        },
        TargetOs::Windows => PlatformInfo {
            os: "windows",
            session: "native",
            tray_backend: "native",
            supports_tray_click_actions: true,
            supports_native_popup_corners: false,
            supports_global_shortcuts: true,
            supports_window_positioning: true,
            supports_always_on_top: true,
        },
        TargetOs::Other => PlatformInfo {
            os: "unknown",
            session: "unknown",
            tray_backend: "native",
            supports_tray_click_actions: false,
            supports_native_popup_corners: false,
            supports_global_shortcuts: false,
            supports_window_positioning: false,
            supports_always_on_top: false,
        },
    }
}

} // verus!
