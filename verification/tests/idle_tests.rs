use kimaitray::idle::{
    first_idle_probe, gnome_wayland_idle_seconds, idle_probe_command, idle_seconds,
    kde_wayland_idle_seconds, parse_milliseconds, x11_idle_seconds, IdleProbe, IdleStep,
};
use kimaitray::idle_stats::{idle_stats_access, preferences, prune, Collector, IdlePeriod, DAY};
use kimaitray::json::{Json, JsonNumber};

#[test]
fn parses_x11_and_dbus_idle_milliseconds() {
    assert_eq!(parse_milliseconds("12500\n"), Some(12));
    assert_eq!(parse_milliseconds("(uint64 90500,)"), Some(90));
    assert_eq!(parse_milliseconds("invalid"), None);
}

#[test]
fn records_once_updates_and_closes_at_last_input() {
    let mut c = Collector::default();
    let mut periods = vec![];
    c.sample(&mut periods, 1000, Some(0), 60);
    c.sample(&mut periods, 1060, Some(60), 60);
    c.sample(&mut periods, 1070, Some(70), 60);
    c.sample(&mut periods, 1080, Some(4), 60);
    assert_eq!(
        periods,
        vec![IdlePeriod {
            started_at: 1000,
            ended_at: 1076
        }]
    );
    c.sample(&mut periods, 1140, Some(64), 60);
    assert_eq!(periods.len(), 2);
}

#[test]
fn disabled_and_restart_never_bridge_unobserved_time() {
    let mut c = Collector::default();
    let mut periods = vec![];
    c.sample(&mut periods, 1000, Some(100), 60);
    c.sample(&mut periods, 1010, Some(110), 60);
    c.sample(&mut periods, 1020, None, 60);
    c.sample(&mut periods, 2000, Some(1100), 60);
    assert_eq!(
        periods[0],
        IdlePeriod {
            started_at: 1000,
            ended_at: 1010
        }
    );
    assert_eq!(periods[1].started_at, 2000);
}

#[test]
fn continues_and_closes_a_period_clipped_by_retention() {
    let mut c = Collector::default();
    let mut periods = vec![];
    c.sample(&mut periods, DAY, Some(0), 60);
    c.sample(&mut periods, DAY * 3, Some(DAY * 2), 60);
    prune(&mut periods, DAY * 3, 1);
    c.sample(&mut periods, DAY * 3 + 10, Some(2), 60);
    assert_eq!(periods.len(), 1);
    assert_eq!(periods[0].started_at, DAY * 2);
    assert_eq!(periods[0].ended_at, DAY * 3 + 8);
}

#[test]
fn raising_threshold_does_not_duplicate_an_ongoing_period() {
    let mut c = Collector::default();
    let mut periods = vec![];
    c.sample(&mut periods, 1000, Some(0), 60);
    c.sample(&mut periods, 1060, Some(60), 60);
    c.sample(&mut periods, 1070, Some(70), 120);
    c.sample(&mut periods, 1120, Some(120), 120);
    assert_eq!(
        periods,
        vec![IdlePeriod {
            started_at: 1000,
            ended_at: 1120
        }]
    );
}

#[test]
fn detects_activity_between_idle_samples() {
    let mut c = Collector::default();
    let mut periods = vec![];
    c.sample(&mut periods, 1000, Some(0), 60);
    c.sample(&mut periods, 1060, Some(60), 60);
    c.sample(&mut periods, 1200, Some(80), 60);
    assert_eq!(periods.len(), 2);
    assert_eq!(periods[0].ended_at, 1120);
    assert_eq!(periods[1].started_at, 1120);
}

#[test]
fn retention_removes_old_and_clips_overlapping_periods() {
    let mut periods = vec![
        IdlePeriod {
            started_at: 1,
            ended_at: DAY,
        },
        IdlePeriod {
            started_at: DAY,
            ended_at: DAY * 3,
        },
    ];
    prune(&mut periods, DAY * 4, 2);
    assert_eq!(
        periods,
        vec![IdlePeriod {
            started_at: DAY * 2,
            ended_at: DAY * 3
        }]
    );
}

#[test]
fn a_sample_below_the_threshold_records_nothing() {
    let mut c = Collector::default();
    let mut periods = vec![];
    c.sample(&mut periods, 1000, Some(59), 60);
    assert!(periods.is_empty());
    assert_eq!(c.observing_since, Some(1000));
    assert_eq!(c.last_input, Some(941));
}

#[test]
fn an_unobserved_gap_resets_the_collector() {
    let mut c = Collector::default();
    let mut periods = vec![];
    c.sample(&mut periods, 1000, Some(100), 60);
    c.sample(&mut periods, 1010, None, 60);
    assert_eq!(c, Collector::default());
    assert_eq!(periods.len(), 1);
}

#[test]
fn pruning_is_idempotent() {
    let mut periods = vec![
        IdlePeriod {
            started_at: 10,
            ended_at: 20,
        },
        IdlePeriod {
            started_at: DAY * 5,
            ended_at: DAY * 6,
        },
    ];
    prune(&mut periods, DAY * 7, 3);
    let once = periods.clone();
    prune(&mut periods, DAY * 7, 3);
    assert_eq!(periods, once);
    assert_eq!(
        once,
        vec![IdlePeriod {
            started_at: DAY * 5,
            ended_at: DAY * 6
        }]
    );
}

#[test]
fn retention_days_are_clamped_to_a_year() {
    let mut periods = vec![
        IdlePeriod {
            started_at: 0,
            ended_at: DAY * 500,
        },
        IdlePeriod {
            started_at: DAY * 600,
            ended_at: DAY * 700,
        },
    ];
    prune(&mut periods, DAY * 1000, 10_000);
    assert_eq!(
        periods,
        vec![IdlePeriod {
            started_at: DAY * 635,
            ended_at: DAY * 700
        }]
    );
}

#[test]
fn probes_are_tried_in_order_until_one_answers() {
    assert_eq!(first_idle_probe(), IdleProbe::Xprintidle);
    let failed: Result<String, String> = Err("missing".to_string());
    match idle_seconds(IdleProbe::Xprintidle, &failed) {
        IdleStep::Probe(p) => assert_eq!(p, IdleProbe::GnomeMutter),
        other => panic!("unexpected {other:?}"),
    }
    match idle_seconds(IdleProbe::GnomeMutter, &failed) {
        IdleStep::Probe(p) => assert_eq!(p, IdleProbe::KdeQdbus6),
        other => panic!("unexpected {other:?}"),
    }
    match idle_seconds(IdleProbe::KdeQdbus6, &failed) {
        IdleStep::Probe(p) => assert_eq!(p, IdleProbe::KdeQdbus),
        other => panic!("unexpected {other:?}"),
    }
    match idle_seconds(IdleProbe::KdeQdbus, &failed) {
        IdleStep::Unavailable(m) => assert_eq!(
            m,
            "Idle detection unavailable — install xprintidle or a supported GNOME/KDE D-Bus client"
        ),
        other => panic!("unexpected {other:?}"),
    }
    match idle_seconds(IdleProbe::GnomeMutter, &Ok("(uint64 90500,)".to_string())) {
        IdleStep::Seconds(s) => assert_eq!(s, 90),
        other => panic!("unexpected {other:?}"),
    }
}

#[test]
fn probe_outputs_are_read_as_milliseconds() {
    assert_eq!(x11_idle_seconds(&Ok("12500\n".to_string())), Some(12));
    assert_eq!(x11_idle_seconds(&Err("no".to_string())), None);
    assert_eq!(gnome_wayland_idle_seconds(&Ok("(uint64 999,)".to_string())), Some(0));
    assert_eq!(kde_wayland_idle_seconds(&Ok("61000".to_string())), Some(61));
    assert_eq!(kde_wayland_idle_seconds(&Ok("".to_string())), None);
}

#[test]
fn probe_commands_name_their_programs() {
    assert_eq!(idle_probe_command(IdleProbe::Xprintidle), vec!["xprintidle".to_string()]);
    assert_eq!(idle_probe_command(IdleProbe::GnomeMutter)[0], "gdbus");
    assert_eq!(idle_probe_command(IdleProbe::KdeQdbus6)[0], "qdbus6");
    assert_eq!(idle_probe_command(IdleProbe::KdeQdbus)[0], "qdbus");
}

#[test]
fn windows_idle_time_survives_the_tick_counter_wrapping() {
    assert_eq!(kimaitray::idle::windows::idle_seconds(Some(1_000), 61_500), Ok(60));
    assert_eq!(
        kimaitray::idle::windows::idle_seconds(Some(u32::MAX - 999), 1_000),
        Ok(2)
    );
    assert_eq!(
        kimaitray::idle::windows::idle_seconds(None, 5),
        Err("GetLastInputInfo failed".to_string())
    );
    assert_eq!(
        kimaitray::idle::unsupported::idle_seconds(),
        Err("Idle detection not supported on this platform".to_string())
    );
}

fn object(members: Vec<(&str, Json)>) -> Json {
    let mut m: Vec<(String, Json)> = members.into_iter().map(|(k, v)| (k.to_string(), v)).collect();
    m.sort_by(|a, b| a.0.cmp(&b.0));
    Json::Object(m)
}

#[test]
fn idle_preferences_default_and_clamp() {
    assert_eq!(preferences(&object(vec![])), (false, 300, 30));
    let settings = object(vec![
        ("enableIdleDetection", Json::Bool(true)),
        ("idleThresholdMinutes", Json::Number(JsonNumber::PosInt(90))),
        ("idleStatsRetentionDays", Json::Number(JsonNumber::PosInt(0))),
    ]);
    assert_eq!(preferences(&settings), (true, 3600, 1));
    let wrong_types = object(vec![
        ("enableIdleDetection", Json::Text("yes".to_string())),
        ("idleThresholdMinutes", Json::Number(JsonNumber::NegInt(-3))),
    ]);
    assert_eq!(preferences(&wrong_types), (false, 300, 30));
}

#[test]
fn idle_statistics_are_for_the_settings_window_only() {
    assert!(idle_stats_access("settings").is_ok());
    assert_eq!(
        idle_stats_access("tray-popup"),
        Err("Idle statistics are only available in settings".to_string())
    );
}
