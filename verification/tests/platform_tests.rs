use kimaitray::kconfig_lock::{lines, lock_holder, lock_marker, lock_removable};
use kimaitray::platform::{
    get_platform_info, is_wayland, linux_session, remembers_popup_position, session_name,
    supports_always_on_top, supports_global_shortcuts, supports_window_positioning, Session,
    TargetOs,
};
use kimaitray::json::{Json, JsonNumber};
use kimaitray::startup::{
    scrub_key, should_copy_legacy_settings, surfaces_popup, window_reaction, WindowEvent,
    WindowReaction,
};

#[test]
fn sessions_are_read_from_the_environment() {
    assert_eq!(linux_session(Some("Wayland".into()), None, None), Session::Wayland);
    assert_eq!(linux_session(Some("x11".into()), Some("wayland-0".into()), None), Session::X11);
    assert_eq!(linux_session(Some("tty".into()), Some("wayland-0".into()), None), Session::Wayland);
    assert_eq!(linux_session(None, Some(String::new()), Some(":0".into())), Session::X11);
    assert_eq!(linux_session(None, None, None), Session::Unknown);
    assert_eq!(session_name(Session::Unknown), "unknown");
}

#[test]
fn wayland_limits_window_control() {
    assert!(is_wayland(TargetOs::Linux, Session::Wayland));
    assert!(!is_wayland(TargetOs::Macos, Session::Wayland));
    assert!(!supports_global_shortcuts(TargetOs::Linux, Session::Wayland));
    assert!(supports_global_shortcuts(TargetOs::Linux, Session::X11));
    assert!(!supports_window_positioning(TargetOs::Linux, Session::Wayland));
    assert!(supports_always_on_top(TargetOs::Windows, Session::Unknown));
    assert!(remembers_popup_position(TargetOs::Linux, true));
    assert!(!remembers_popup_position(TargetOs::Linux, false));
}

#[test]
fn platform_info_describes_each_system() {
    let linux = get_platform_info(TargetOs::Linux, Session::X11, "legacy-gtk");
    assert_eq!(linux.os, "linux");
    assert_eq!(linux.session, "x11");
    assert!(linux.supports_tray_click_actions);
    assert!(linux.supports_window_positioning);
    let wayland = get_platform_info(TargetOs::Linux, Session::Wayland, "tauri");
    assert!(!wayland.supports_tray_click_actions);
    assert!(!wayland.supports_always_on_top);
    let mac = get_platform_info(TargetOs::Macos, Session::Unknown, "tauri");
    assert_eq!(mac.session, "native");
    assert!(mac.supports_native_popup_corners);
}

#[test]
fn lock_markers_name_their_holder() {
    let marker = lock_marker(4242, "kimaitray", "host", "machine", "boot");
    assert_eq!(marker, "4242\nkimaitray\nhost\nmachine\nboot\n");
    assert_eq!(lock_holder(&marker), Some(4242));
    assert!(!lock_removable(&marker, "host", "boot", true, false, true));
    assert!(lock_removable(&marker, "host", "boot", false, false, true));
    assert!(lock_removable(&marker, "host", "another-boot", true, false, true));
    assert!(!lock_removable(&marker, "other-host", "boot", false, false, true));
    assert!(lock_removable(&marker, "other-host", "boot", true, true, true));
    assert!(!lock_removable(&marker, "host", "boot", false, false, false));
}

#[test]
fn a_lock_left_by_a_dead_process_is_removable() {
    let marker = "4294967295\nkimaitray\nhost\n\n\n";
    assert_eq!(lock_holder(marker), Some(4294967295));
    assert!(lock_removable(marker, "host", "boot", false, false, true));
    assert!(!lock_removable("0\nx\nhost\n", "host", "boot", false, false, true));
    assert!(!lock_removable("not-a-pid\nx\nhost\n", "host", "boot", false, false, true));
    assert_eq!(lines("a\r\nb\n\nc"), vec!["a", "b", "", "c"]);
    assert_eq!(lines("a\n"), vec!["a"]);
    assert!(lines("").is_empty());
}

#[test]
fn legacy_settings_are_copied_only_once() {
    assert!(should_copy_legacy_settings(false, true, false, true));
    assert!(!should_copy_legacy_settings(true, true, false, true));
    assert!(!should_copy_legacy_settings(false, false, false, true));
    assert!(!should_copy_legacy_settings(false, true, true, true));
    assert!(!should_copy_legacy_settings(false, true, false, false));
}

#[test]
fn scrubs_only_the_requested_legacy_credential() {
    let settings = Json::Object(vec![("theme".to_string(), Json::Text("dark".to_string()))]);
    let root = Json::Object(vec![
        ("api-token:legacy".to_string(), Json::Text("secret".to_string())),
        ("settings".to_string(), settings),
    ]);
    let scrubbed = scrub_key(root, "api-token:legacy").unwrap().unwrap();
    match scrubbed {
        Json::Object(m) => {
            assert_eq!(m.len(), 1);
            assert_eq!(m[0].0, "settings");
        }
        other => panic!("unexpected {other:?}"),
    }
    let untouched = Json::Object(vec![("settings".to_string(), Json::Null)]);
    assert!(scrub_key(untouched, "api-token:legacy").unwrap().is_none());
    assert_eq!(
        scrub_key(Json::Number(JsonNumber::PosInt(1)), "k").err(),
        Some("Legacy settings root is not an object".to_string())
    );
}

#[test]
fn windows_react_to_their_events() {
    assert_eq!(window_reaction("tray-popup", WindowEvent::Focused(false)), WindowReaction::PopupFocus(false));
    assert_eq!(window_reaction("tray-popup", WindowEvent::Resized), WindowReaction::PopupResized);
    assert_eq!(window_reaction("settings", WindowEvent::CloseRequested), WindowReaction::HideInsteadOfClose);
    assert_eq!(window_reaction("changelog", WindowEvent::CloseRequested), WindowReaction::HideInsteadOfClose);
    assert_eq!(window_reaction("timer-reminder", WindowEvent::CloseRequested), WindowReaction::Nothing);
    assert!(surfaces_popup(&vec!["https".to_string(), "kimaitray".to_string()]));
    assert!(!surfaces_popup(&vec!["https".to_string()]));
}
