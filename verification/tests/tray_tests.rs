use kimaitray::json::{Json, JsonNumber};
use kimaitray::tray::{
    desktop_needs_appindicator, kimai_url, linux_click_toggles, recheck_popup_blur,
    starts_blur_watch, tray_click, true_tray_enabled, BlurCheck, PopupInteraction, TrayButton,
    TrayClick,
};
use kimaitray::tray::{
    desktop_name_needs_appindicator, format_elapsed, kimai_url_allowed, list_monitors,
    parse_hex_color, popup_blur_action, popup_recently_hidden, position_legacy_popup,
    position_on_monitor, position_popup, show_popup_window, start_tray_ticker, tick_texts,
    toggle_popup_window, tray_label_title, tray_tooltip, unpack_color, validate_menu_labels,
    validate_text, MonitorArea, PopupBlurAction, PopupShow, PopupToggle, TrayConfig,
};

#[test]
fn popup_survives_transient_focus_loss_during_pointer_and_resize_grabs() {
    assert_eq!(popup_blur_action(true, false, false, 1_000), PopupBlurAction::KeepOpen);
    assert_eq!(popup_blur_action(false, true, false, 1_000), PopupBlurAction::Wait);
    assert_eq!(popup_blur_action(false, false, false, 0), PopupBlurAction::Wait);
    assert_eq!(popup_blur_action(false, false, false, 249), PopupBlurAction::Wait);
    assert_eq!(popup_blur_action(false, false, false, 250), PopupBlurAction::Hide);
}

#[test]
fn keyboard_resize_waits_even_without_mouse_buttons_or_recent_resize_events() {
    assert_eq!(popup_blur_action(false, false, true, 30_000), PopupBlurAction::Wait);
    assert_eq!(popup_blur_action(false, false, false, 10), PopupBlurAction::Wait);
    assert_eq!(popup_blur_action(true, false, false, 300), PopupBlurAction::KeepOpen);
}

#[test]
fn real_focus_loss_dismisses_after_the_pointer_is_released() {
    assert_eq!(popup_blur_action(false, true, false, 30_000), PopupBlurAction::Wait);
    assert_eq!(popup_blur_action(false, false, false, 30_000), PopupBlurAction::Hide);
}

#[test]
fn selects_tray_backend_for_common_linux_desktops() {
    assert!(desktop_name_needs_appindicator("ubuntu:gnome"));
    assert!(desktop_name_needs_appindicator("gnome"));
    assert!(desktop_name_needs_appindicator("budgie:gnome"));
    assert!(!desktop_name_needs_appindicator("x-cinnamon"));
    assert!(!desktop_name_needs_appindicator("xfce"));
    assert!(!desktop_name_needs_appindicator("mate"));
}

#[test]
fn tray_label_title_supports_every_configured_style() {
    assert_eq!(tray_label_title("timer", "Project", "Activity", 3_661, true), "01:01:01");
    assert_eq!(tray_label_title("timer", "Project", "Activity", 3_661, false), "01:01");
    assert_eq!(tray_label_title("project", "Project", "Activity", 3_661, true), "Project");
    assert_eq!(tray_label_title("activity", "Project", "Activity", 3_661, true), "Activity");
    assert_eq!(tray_label_title("hidden", "Project", "Activity", 3_661, true), "");
}

#[test]
fn native_text_and_color_inputs_are_bounded() {
    assert!(validate_text("Kimai", 5, "label").is_ok());
    assert!(validate_text("KimaiTray", 5, "label").is_err());
    assert_eq!(parse_hex_color("#10b981"), Some(0x10_b9_81));
    assert_eq!(parse_hex_color("not-a-color"), None);
}

#[test]
fn elapsed_time_is_formatted_with_two_digit_fields() {
    assert_eq!(format_elapsed(0, true), "00:00:00");
    assert_eq!(format_elapsed(59, false), "00:00");
    assert_eq!(format_elapsed(360_000, true), "100:00:00");
    assert_eq!(validate_text("KimaiTray", 5, "label"), Err("label exceeds 5 characters".to_string()));
}

#[test]
fn colors_parse_with_or_without_hash_and_unpack() {
    assert_eq!(parse_hex_color("ABCDEF"), Some(0xab_cd_ef));
    assert_eq!(parse_hex_color("#12345"), None);
    assert_eq!(parse_hex_color("#12345g"), None);
    assert_eq!(unpack_color(0x10_b9_81), (0x10, 0xb9, 0x81));
}

#[test]
fn tray_configuration_applies_commands() {
    let config = TrayConfig::new();
    assert_eq!(config.state_color(1), 0x10_b9_81);
    let (render, next) = config.set_tray_icon("running").unwrap();
    assert_eq!(next.icon_state, 1);
    assert_eq!(render.color, 0x10_b9_81);
    let (_, next) = next.set_tray_icon_size("xlarge").unwrap();
    assert_eq!(next.icon_size, 3);
    let (_, next) = next.set_tray_colors("#000000", "#ffffff", "#111111", "#222222").unwrap();
    assert_eq!(next.running_color, 0xff_ff_ff);
    assert!(next.set_tray_colors("nope", "#ffffff", "#111111", "#222222").is_err());
    let detached = next.set_display_mode("detached");
    assert!(detached.is_detached());
    assert_eq!(show_popup_window(&detached, false), PopupShow::ShowDetached);
    assert_eq!(show_popup_window(&detached, true), PopupShow::Focus);
}

#[test]
fn popup_toggles_and_ignores_the_hiding_click() {
    assert_eq!(toggle_popup_window(true, false), PopupToggle::Hide);
    assert_eq!(toggle_popup_window(true, true), PopupToggle::Focus);
    assert_eq!(toggle_popup_window(false, true), PopupToggle::Show);
    assert!(popup_recently_hidden(1_299, 1_000));
    assert!(!popup_recently_hidden(1_300, 1_000));
    assert!(popup_recently_hidden(900, 1_000));
}

fn monitor(x: i32, y: i32, width: u32, height: u32, name: &str) -> MonitorArea {
    MonitorArea {
        x,
        y,
        width,
        height,
        name: Some(name.to_string()),
    }
}

#[test]
fn popup_is_placed_in_monitor_corners() {
    let monitors = vec![monitor(0, 0, 1920, 1080, "A"), monitor(1920, 0, 1280, 1024, "B")];
    let primary = Some(Some("A".to_string()));
    assert_eq!(position_on_monitor(true, &monitors, &primary, 400, 600, 0, 0), Some((1512, 472)));
    assert_eq!(position_on_monitor(true, &monitors, &primary, 400, 600, 1, 3), Some((1928, 8)));
    assert_eq!(position_on_monitor(true, &monitors, &primary, 400, 600, 1, 4), Some((2360, 212)));
    assert_eq!(position_on_monitor(true, &monitors, &primary, 400, 600, 7, 0), Some((1512, 472)));
    assert_eq!(position_on_monitor(false, &monitors, &primary, 400, 600, 0, 0), None);
    assert_eq!(position_popup(true, 1800, 1040, 24, 400, 600), Some((1612, 440)));
}

#[test]
fn legacy_popup_stays_beside_the_icon_on_its_monitor() {
    let monitors = vec![monitor(0, 0, 1920, 1080, "A")];
    let primary = Some(Some("A".to_string()));
    assert_eq!(
        position_legacy_popup(true, Some((1900, 0, 20, 20)), &monitors, &primary, 400, 600),
        Some((1520, 20))
    );
    assert_eq!(
        position_legacy_popup(true, Some((10, 1060, 20, 20)), &monitors, &primary, 400, 600),
        Some((0, 460))
    );
    assert_eq!(
        position_legacy_popup(true, Some((5000, 0, 20, 20)), &monitors, &primary, 400, 600),
        Some((1520, 20))
    );
    assert_eq!(position_legacy_popup(true, None, &monitors, &primary, 400, 600), Some((1512, 472)));
    assert_eq!(position_legacy_popup(false, None, &monitors, &primary, 400, 600), None);
}

#[test]
fn monitors_are_listed_with_names_and_primary() {
    let names = vec![Some("DP-1".to_string()), None];
    let listed = list_monitors(&names, &Some("DP-1".to_string()));
    assert_eq!(listed[0].name, "DP-1");
    assert!(listed[0].primary);
    assert_eq!(listed[1].name, "Monitor 2");
    assert!(!listed[1].primary);
}

#[test]
fn running_timer_texts_follow_the_clock() {
    let running = start_tray_ticker(1_000, "Project".into(), "Task".into(), "timer".into(), false).unwrap();
    let (tooltip, title) = tick_texts(&running, 4_661);
    assert_eq!(title, "01:01");
    assert_eq!(tooltip, tray_tooltip("Project", "Task", 3_661));
    let (_, early) = tick_texts(&running, 10);
    assert_eq!(early, "00:00");
    assert_eq!(
        start_tray_ticker(0, "p".into(), "a".into(), "loud".into(), true).err(),
        Some("Invalid tray label style".to_string())
    );
}

#[test]
fn menu_labels_and_urls_are_checked() {
    assert!(validate_menu_labels("Show", "Settings", "Open Kimai", "Refresh", "Quit").is_ok());
    assert_eq!(
        validate_menu_labels("Show", &"s".repeat(129), "Open", "Refresh", "Quit"),
        Err("Settings label exceeds 128 characters".to_string())
    );
    assert!(kimai_url_allowed("https", "", false));
    assert!(!kimai_url_allowed("file", "", false));
    assert!(!kimai_url_allowed("https", "user", false));
}

#[test]
fn tray_backend_follows_the_override_or_the_desktop() {
    assert!(desktop_needs_appindicator(Some("AppIndicator".into()), Some("xfce".into()), None));
    assert!(!desktop_needs_appindicator(Some("legacy".into()), Some("GNOME".into()), None));
    assert!(desktop_needs_appindicator(None, Some("ubuntu:GNOME".into()), None));
    assert!(desktop_needs_appindicator(None, None, Some("KDE".into())) == desktop_name_needs_appindicator("kde"));
    assert!(!desktop_needs_appindicator(None, None, None));
    let config = TrayConfig::new();
    assert_eq!(config.platform_tray_backend(), "legacy-gtk");
    let indicator = TrayConfig { appindicator: true, ..config };
    assert_eq!(indicator.platform_tray_backend(), "appindicator");
}

#[test]
fn click_actions_and_monitor_choice_are_validated() {
    let config = TrayConfig::new();
    let next = config.set_tray_click_actions("nothing", "popup").unwrap();
    assert_eq!((next.left_action, next.right_action), (1, 1));
    assert_eq!(
        config.set_tray_click_actions("menu", "popup"),
        Err("Invalid left-click action".to_string())
    );
    assert_eq!(
        config.set_tray_click_actions("popup", "nothing"),
        Err("Invalid right-click action".to_string())
    );
    let (render, shaped) = config.set_tray_icon_shape("clock").unwrap();
    assert_eq!((render.shape, shaped.icon_shape), (3, 3));
    assert_eq!(config.set_tray_icon_shape("star").err(), Some("Invalid tray icon shape".to_string()));
    let placed = config.set_popup_monitor("specific", 2, "top-left");
    assert_eq!((placed.monitor_mode, placed.monitor_index, placed.monitor_position), (1, 2, 3));
    assert_eq!(show_popup_window(&placed, false), PopupShow::ShowOnMonitor { index: 2, position: 3 });
    assert_eq!(show_popup_window(&config, false), PopupShow::ShowAtTray);
}

#[test]
fn clicks_toggle_the_popup_as_configured() {
    let config = TrayConfig::new();
    assert_eq!(tray_click(&config, TrayButton::Left, false, 10_000, 0), TrayClick::ShowAtClick);
    assert_eq!(tray_click(&config, TrayButton::Left, true, 10_000, 0), TrayClick::Hide);
    assert_eq!(tray_click(&config, TrayButton::Right, false, 10_000, 0), TrayClick::Ignore);
    assert_eq!(tray_click(&config, TrayButton::Left, false, 10_100, 10_000), TrayClick::Ignore);
    let detached = config.set_display_mode("detached");
    assert_eq!(tray_click(&detached, TrayButton::Left, true, 10_000, 0), TrayClick::Focus);
    assert_eq!(tray_click(&detached, TrayButton::Left, false, 10_000, 0), TrayClick::ShowDetached);
    assert!(linux_click_toggles(&config, TrayButton::Left, 10_000, 0));
    assert!(!linux_click_toggles(&config, TrayButton::Left, 10_000, 9_900));
    assert!(!linux_click_toggles(&config, TrayButton::Other, 10_000, 0));
}

#[test]
fn focus_loss_is_watched_until_the_popup_hides() {
    assert!(starts_blur_watch(false, false));
    assert!(!starts_blur_watch(false, true));
    assert!(!starts_blur_watch(true, false));
    let idle = PopupInteraction { focused: false, pointer_down: false, resizing: false };
    let pressing = PopupInteraction { pointer_down: true, ..idle };
    assert_eq!(recheck_popup_blur(3, 3, false, true, Some(idle), 1_000), BlurCheck::Hide);
    assert_eq!(recheck_popup_blur(3, 3, false, true, Some(pressing), 1_000), BlurCheck::Watch);
    assert_eq!(recheck_popup_blur(4, 3, false, true, Some(idle), 1_000), BlurCheck::Stop);
    assert_eq!(recheck_popup_blur(3, 3, true, true, Some(idle), 1_000), BlurCheck::Stop);
    assert_eq!(recheck_popup_blur(3, 3, false, true, None, 1_000), BlurCheck::Stop);
}

#[test]
fn persisted_settings_configure_the_tray() {
    let text = |s: &str| Json::Text(s.to_string());
    let colors = Json::Object(vec![
        ("idle".to_string(), text("#000001")),
        ("running".to_string(), text("bad")),
    ]);
    let settings = Json::Object(vec![
        ("displayMode".to_string(), text("detached")),
        ("kimaiUrl".to_string(), text("https://kimai.test")),
        ("popupMonitorIndex".to_string(), Json::Number(JsonNumber::PosInt(258))),
        ("trayColors".to_string(), colors),
        ("trayIconShape".to_string(), text("ring")),
        ("trayLeftClickAction".to_string(), text("nothing")),
        ("trueTrayMode".to_string(), Json::Bool(true)),
    ]);
    let config = TrayConfig::new().apply_settings(&settings);
    assert!(config.is_detached());
    assert_eq!(config.left_action, 1);
    assert_eq!(config.right_action, 0);
    assert_eq!(config.monitor_index, 2);
    assert_eq!(config.icon_shape, 1);
    assert_eq!(config.idle_color, 1);
    assert_eq!(config.running_color, TrayConfig::new().running_color);
    assert_eq!(kimai_url(&settings), Some("https://kimai.test".to_string()));
    assert!(true_tray_enabled(&settings));
    assert!(!true_tray_enabled(&Json::Null));
    assert_eq!(TrayConfig::new().apply_settings(&Json::Null), TrayConfig::new());
}

#[test]
fn colors_need_exactly_six_hex_digits_after_the_hash() {
    assert_eq!(parse_hex_color("+abcde"), None);
    assert_eq!(parse_hex_color("#+abcde"), None);
    assert_eq!(parse_hex_color("-abcde"), None);
    assert_eq!(parse_hex_color("##abcdef"), None);
    assert_eq!(parse_hex_color("#ffffff"), Some(0xff_ff_ff));
    assert_eq!(parse_hex_color("000000"), Some(0));
    assert_eq!(parse_hex_color("#abcdef0"), None);
}
