use kimaitray::kde::{
    ensure_rule, existing_policy, is_plasma, is_plasma_session, remembers_position, rule_ids,
    KdeSetup, KeyFileData, KeyFileGroup, KeyWrite, RuleAction, RuleStage,
};

const RULE_ID: &str = "kimaitray-popup-position";
const RULE: &[(&str, &str)] = &[
    ("Description", "KimaiTray - remember main window position"),
    ("wmclass", "(?i)^kimaitray$"),
    ("wmclassmatch", "3"),
    ("wmclasscomplete", "false"),
    ("title", "KimaiTray"),
    ("titlematch", "1"),
    ("positionrule", "4"),
];

fn empty() -> KeyFileData {
    KeyFileData { groups: Vec::new() }
}

/// Sets one value the way a key-file writer does: in place when the key
/// exists, otherwise at the end of its group, the group at the end of the file.
fn write_fixture(config: &mut KeyFileData, group: &str, key: &str, value: &str) -> Result<(), String> {
    let g = match config.groups.iter().position(|g| g.name == group) {
        Some(i) => i,
        None => {
            config.groups.push(KeyFileGroup {
                name: group.to_string(),
                entries: Vec::new(),
            });
            config.groups.len() - 1
        }
    };
    let entries = &mut config.groups[g].entries;
    match entries.iter().position(|(k, _)| k == key) {
        Some(i) => entries[i].1 = value.to_string(),
        None => entries.push((key.to_string(), value.to_string())),
    }
    Ok(())
}

/// Runs the installation steps against an in-memory configuration, handing
/// every write to `write`.
fn ensure_with(
    config: &mut KeyFileData,
    mut write: impl FnMut(&mut KeyFileData, &KeyWrite) -> Result<(), String>,
) -> Result<bool, String> {
    let mut stage = RuleStage::Inspect;
    loop {
        match ensure_rule(&stage, config) {
            RuleAction::Done(result) => return result,
            RuleAction::Write(writes, next) => {
                for w in &writes {
                    write(config, w)?;
                }
                stage = next;
            }
        }
    }
}

fn install(config: &mut KeyFileData) -> Result<bool, String> {
    ensure_with(config, |c, w| write_fixture(c, &w.group, &w.key, &w.value))
}

fn refuse_writes(config: &mut KeyFileData, why: &str) -> Result<bool, String> {
    ensure_with(config, |_, _| panic!("{why}"))
}

#[test]
fn only_plasma_sessions_enable_setup() {
    for desktop in ["KDE", "kde", "Plasma", "plasmawayland", "KDE:Plasma"] {
        assert!(is_plasma(desktop), "{desktop}");
    }
    for desktop in ["", "GNOME", "ubuntu:GNOME", "XFCE", "not-kde"] {
        assert!(!is_plasma(desktop), "{desktop}");
    }
}

#[test]
fn installs_once_without_seeding_position_or_size() {
    let mut config = empty();
    assert!(install(&mut config).unwrap());
    assert_eq!(rule_ids(&config).unwrap(), [RULE_ID]);
    assert!(!config.has_key(RULE_ID, "position"));
    assert!(!config.has_key(RULE_ID, "size"));
    write_fixture(&mut config, RULE_ID, "position", "3395,393").unwrap();
    let before = format!("{config:?}");
    assert!(refuse_writes(&mut config, "existing rule must not be rewritten").unwrap());
    assert_eq!(format!("{config:?}"), before);
}

#[test]
fn preserves_manual_rule_under_another_identifier() {
    let mut config = empty();
    for &(key, value) in RULE {
        write_fixture(&mut config, "user-rule", key, value).unwrap();
    }
    write_fixture(&mut config, "General", "rules", "user-rule").unwrap();
    write_fixture(&mut config, "user-rule", "position", "-500,120").unwrap();
    assert!(refuse_writes(&mut config, "manual rule must be preserved").unwrap());
}

#[test]
fn preserves_customised_disabled_and_unregistered_rules() {
    for (key, value) in [
        ("positionrule", "2"),
        ("enabled", "false"),
        ("wmclass", "custom"),
        ("windowrolematch", "1"),
        ("types", "2"),
        ("General", ""),
    ] {
        let mut config = empty();
        install(&mut config).unwrap();
        if key == "General" {
            write_fixture(&mut config, "General", "rules", "other").unwrap();
        } else {
            write_fixture(&mut config, RULE_ID, key, value).unwrap();
        }
        assert!(!refuse_writes(&mut config, "customisation must be preserved").unwrap());
    }
}

#[test]
fn preserves_legacy_order_and_concurrent_additions() {
    let mut config = empty();
    write_fixture(&mut config, "General", "count", "2").unwrap();
    write_fixture(&mut config, "1", "Description", "First").unwrap();
    write_fixture(&mut config, "2", "Description", "Second").unwrap();
    assert!(ensure_with(&mut config, |c, w| {
        write_fixture(c, &w.group, &w.key, &w.value)?;
        if w.key == "positionrule" {
            write_fixture(c, "General", "rules", "1,2,new-user-rule")?;
        }
        Ok(())
    })
    .unwrap());
    assert_eq!(rule_ids(&config).unwrap(), ["1", "2", "new-user-rule", RULE_ID]);
    assert_eq!(config.value("1", "Description"), "First");
}

#[test]
fn refuses_unrecognised_rule_lists_before_writing() {
    for (key, value) in [("rules", "escaped\\,identifier"), ("order", "one,two")] {
        let mut config = empty();
        write_fixture(&mut config, "General", key, value).unwrap();
        assert!(refuse_writes(&mut config, "unsafe config must not be changed").is_err());
    }
}

#[test]
fn does_not_register_incomplete_or_failed_writes() {
    let mut config = empty();
    assert!(ensure_with(&mut config, |_, _| Err("read only".into())).is_err());
    assert!(ensure_with(&mut config, |_, _| Ok(())).is_err());
    assert!(rule_ids(&config).unwrap().is_empty());
}

#[test]
fn registration_is_checked_after_writing() {
    let mut config = empty();
    let result = ensure_with(&mut config, |c, w| {
        if w.group == "General" && w.key == "count" {
            write_fixture(c, "General", "rules", "someone-else")?;
        }
        write_fixture(c, &w.group, &w.key, &w.value)
    });
    assert_eq!(
        result,
        Err("KWin rule registration could not be verified".to_string())
    );
}

#[test]
fn rule_count_lists_numbered_rules() {
    let mut config = empty();
    write_fixture(&mut config, "General", "count", "3").unwrap();
    assert_eq!(rule_ids(&config).unwrap(), ["1", "2", "3"]);
    write_fixture(&mut config, "General", "count", "10001").unwrap();
    assert_eq!(rule_ids(&config), Err("Invalid KWin rule count".to_string()));
    write_fixture(&mut config, "General", "count", "x").unwrap();
    assert_eq!(
        rule_ids(&config),
        Err("invalid digit found in string".to_string())
    );
    write_fixture(&mut config, "General", "rules", "a,,b").unwrap();
    assert_eq!(
        rule_ids(&config),
        Err("Unrecognised KWin rule identifiers; leaving them unchanged".to_string())
    );
}

#[test]
fn only_a_rule_that_remembers_in_every_session_counts() {
    let mut config = empty();
    for &(key, value) in RULE {
        write_fixture(&mut config, "mine", key, value).unwrap();
    }
    let ids = vec!["mine".to_string()];
    assert_eq!(existing_policy(&config, &ids), Some(true));
    write_fixture(&mut config, "mine", "types", "1").unwrap();
    assert_eq!(existing_policy(&config, &ids), Some(true));
    write_fixture(&mut config, "mine", "wmclasscomplete", "true").unwrap();
    assert_eq!(existing_policy(&config, &ids), Some(false));
    write_fixture(&mut config, "mine", "positionrule", "0").unwrap();
    assert_eq!(existing_policy(&config, &ids), None);
    assert_eq!(existing_policy(&config, &Vec::new()), None);
}

#[test]
fn the_session_desktop_decides_plasma() {
    assert!(is_plasma_session(Some("KDE"), Some("gnome")));
    assert!(!is_plasma_session(Some("GNOME"), Some("plasma")));
    assert!(is_plasma_session(None, Some("plasma")));
    assert!(!is_plasma_session(None, None));
}

#[test]
fn position_is_remembered_only_after_kwin_reloads_written_rules() {
    let mut setup = KdeSetup::new();
    assert!(!remembers_position(&setup));
    setup.record_write();
    assert!(setup.rule_settled(true));
    assert!(!remembers_position(&setup));
    setup.reloaded();
    assert!(remembers_position(&setup));

    let mut unchanged = KdeSetup::new();
    assert!(!unchanged.rule_settled(true));
    assert!(remembers_position(&unchanged));

    let mut disabled = KdeSetup::new();
    disabled.record_write();
    assert!(!disabled.rule_settled(false));
    assert!(!remembers_position(&disabled));
}

#[test]
fn position_memory_needs_an_enabled_rule_and_never_reverts() {
    let mut setup = KdeSetup::new();
    setup.record_write();
    assert!(!setup.rule_settled(false));
    setup.reloaded();
    assert!(!remembers_position(&setup));

    assert!(!setup.rule_settled(true));
    assert!(remembers_position(&setup));
    setup.record_write();
    assert!(remembers_position(&setup));
    assert!(!setup.rule_settled(false));
    assert!(remembers_position(&setup));
    setup.reloaded();
    assert!(remembers_position(&setup));
}
