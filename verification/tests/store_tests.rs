use kimaitray::json::{Json, JsonNumber};
use kimaitray::store::{
    apply_array_mutation, apply_mutation, apply_settings_patch, claim_legacy_favorites,
    claim_legacy_favorites_store, migrate_legacy_store, migrate_legacy_store_backend,
    move_favorites, move_favorites_store, mutate_array_store, mutate_scoped_store,
    patch_settings, persist_value_with_rollback, plan_migration, sort_by_field, string_items,
    validate_request, validate_scoped_store_window, validate_settings_patch_request,
    validate_settings_patch_window, ArrayStoreMutation, ArrayStoreRequest, FavoriteScopeRequest,
    LegacyStoreMigration, LegacyStoreMigrationRequest, MoveFavoritesRequest, ScopedStoreMutation,
    ScopedStoreRequest, SettingsPatchRequest, Store, MAX_VALUE_BYTES,
};
use serde_json::Value;
use std::cell::RefCell;

fn to_json(v: &Value) -> Json {
    match v {
        Value::Null => Json::Null,
        Value::Bool(b) => Json::Bool(*b),
        Value::Number(n) => {
            if let Some(u) = n.as_u64() {
                Json::Number(JsonNumber::PosInt(u))
            } else if let Some(i) = n.as_i64() {
                Json::Number(JsonNumber::NegInt(i))
            } else {
                let f = n.as_f64().unwrap_or(0.0);
                let f = if f == 0.0 { 0.0 } else { f };
                Json::Number(JsonNumber::Float(f.to_bits()))
            }
        }
        Value::String(s) => Json::Text(s.clone()),
        Value::Array(a) => Json::Array(a.iter().map(to_json).collect()),
        Value::Object(m) => Json::Object(m.iter().map(|(k, v)| (k.clone(), to_json(v))).collect()),
    }
}

fn to_value(j: &Json) -> Value {
    match j {
        Json::Null => Value::Null,
        Json::Bool(b) => Value::Bool(*b),
        Json::Number(JsonNumber::PosInt(u)) => Value::from(*u),
        Json::Number(JsonNumber::NegInt(i)) => Value::from(*i),
        Json::Number(JsonNumber::Float(bits)) => Value::from(f64::from_bits(*bits)),
        Json::Text(s) => Value::String(s.clone()),
        Json::Array(a) => Value::Array(a.iter().map(to_value).collect()),
        Json::Object(m) => Value::Object(m.iter().map(|(k, v)| (k.clone(), to_value(v))).collect()),
    }
}

/// A document written as JSON text.
fn j(text: &str) -> Json {
    to_json(&serde_json::from_str::<Value>(text).unwrap())
}

fn v(text: &str) -> Value {
    serde_json::from_str::<Value>(text).unwrap()
}

/// The members of an object written as JSON text.
fn members(text: &str) -> Vec<(String, Json)> {
    match j(text) {
        Json::Object(m) => m,
        _ => panic!("not an object"),
    }
}

fn items(text: &str) -> Vec<Json> {
    match j(text) {
        Json::Array(a) => a,
        _ => panic!("not an array"),
    }
}

fn store_of(entries: &[(&str, &str)]) -> Store {
    let mut s = Store::new();
    for (k, text) in entries {
        s.set_value(k.to_string(), j(text));
    }
    s
}

fn get(store: &Store, key: &str) -> Option<Value> {
    store.get_value(key).map(to_value)
}

fn get_member(m: &[(String, Json)], key: &str) -> Option<Value> {
    m.iter().find(|(k, _)| k == key).map(|(_, v)| to_value(v))
}

/// A save that fails with the given results in turn, then succeeds.
struct Saves(RefCell<Vec<Result<(), String>>>);

impl Saves {
    fn new(results: Vec<Result<(), String>>) -> Self {
        Saves(RefCell::new(results))
    }

    fn next(&self) -> Result<(), String> {
        let mut r = self.0.borrow_mut();
        if r.is_empty() {
            Ok(())
        } else {
            r.remove(0)
        }
    }
}

fn ok_save(_: &Store) -> Result<(), String> {
    Ok(())
}

#[test]
fn persistence_failure_restores_existing_in_memory_value() {
    let mut store = store_of(&[("settings", r#"{"old": true}"#)]);
    let saves = Saves::new(vec![Err("disk unavailable".into()), Ok(())]);
    assert!(persist_value_with_rollback(
        &mut store,
        "settings",
        Some(j(r#"{"new": true}"#)),
        &|_: &Store| saves.next()
    )
    .is_err());
    assert_eq!(get(&store, "settings"), Some(v(r#"{"old": true}"#)));
}

#[test]
fn persistence_failure_removes_new_in_memory_value() {
    let mut store = Store::new();
    let saves = Saves::new(vec![Err("disk unavailable".into()), Ok(())]);
    assert!(persist_value_with_rollback(&mut store, "new-key", Some(j("[1, 2, 3]")), &|_: &Store| {
        saves.next()
    })
    .is_err());
    assert_eq!(get(&store, "new-key"), None);
}

#[test]
fn persistence_failure_restores_deleted_in_memory_value() {
    let mut store = store_of(&[("credential", r#""secret""#)]);
    let saves = Saves::new(vec![Err("disk unavailable".into()), Ok(())]);
    assert!(persist_value_with_rollback(&mut store, "credential", None, &|_: &Store| saves.next()).is_err());
    assert_eq!(get(&store, "credential"), Some(v(r#""secret""#)));
}

#[test]
fn the_save_sees_the_changed_store() {
    let mut store = store_of(&[("settings", r#"{"old": true}"#)]);
    let seen = RefCell::new(None);
    let result = persist_value_with_rollback(&mut store, "settings", Some(j(r#"{"new": 1}"#)), &|s: &Store| {
        *seen.borrow_mut() = get(s, "settings");
        Err("disk unavailable".to_string())
    });
    assert_eq!(result, Err("disk unavailable".to_string()));
    assert_eq!(seen.into_inner(), Some(v(r#"{"new": 1}"#)));
    assert_eq!(get(&store, "settings"), Some(v(r#"{"old": true}"#)));
}

#[test]
fn legacy_map_migration_moves_and_removes_keys_atomically() {
    let mut store = store_of(&[("csConfig", r#"{"connection-a": {"categories": []}}"#)]);
    let value = migrate_legacy_store_backend(&mut store, LegacyStoreMigration::CategoryConfig, &ok_save).unwrap();
    assert_eq!(to_value(&value), v(r#"{"connection-a": {"categories": []}}"#));
    assert_eq!(get(&store, "categoryConfig"), Some(to_value(&value)));
    assert_eq!(get(&store, "csConfig"), None);
}

#[test]
fn hidden_task_migration_preserves_existing_connection_scope() {
    let mut store = store_of(&[
        ("hiddenRecentTasksByConnection", r#"{"connection-a": ["current"]}"#),
        ("hiddenRecentTasks", r#"["legacy"]"#),
    ]);
    let value = migrate_legacy_store_backend(
        &mut store,
        LegacyStoreMigration::HiddenTasks {
            connection_id: "connection-a".into(),
        },
        &ok_save,
    )
    .unwrap();
    assert_eq!(to_value(&value), v(r#"["current"]"#));
    assert_eq!(get(&store, "hiddenRecentTasks"), None);
}

#[test]
fn multi_key_migration_failure_restores_every_original_value() {
    let legacy = r#"{"connection-a": {"leaf": true}}"#;
    let mut store = store_of(&[("csLastActivity", legacy)]);
    let saves = Saves::new(vec![Err("disk unavailable".into()), Ok(())]);
    assert!(migrate_legacy_store_backend(
        &mut store,
        LegacyStoreMigration::CategoryLastActivity,
        &|_: &Store| saves.next()
    )
    .is_err());
    assert_eq!(get(&store, "categoryLastActivity"), None);
    assert_eq!(get(&store, "csLastActivity"), Some(v(legacy)));
}

#[test]
fn legacy_connection_claim_is_idempotent_across_windows() {
    let mut store = store_of(&[(
        "settings",
        r#"{"kimaiUrl": "https://kimai.example.test", "connections": []}"#,
    )]);
    migrate_legacy_store_backend(
        &mut store,
        LegacyStoreMigration::SettingsConnection {
            generated_id: "window-a".into(),
            name: "kimai.example.test".into(),
        },
        &ok_save,
    )
    .unwrap();
    let second = to_value(
        &migrate_legacy_store_backend(
            &mut store,
            LegacyStoreMigration::SettingsConnection {
                generated_id: "window-b".into(),
                name: "other".into(),
            },
            &ok_save,
        )
        .unwrap(),
    );
    assert_eq!(second["activeConnectionId"], v(r#""window-a""#));
    assert_eq!(second["connections"][0]["id"], v(r#""window-a""#));
}

#[test]
fn scoped_mutations_preserve_other_connections() {
    let mut map = members(r#"{"other": ["kept"]}"#);
    assert_eq!(
        to_value(
            &apply_mutation(
                &mut map,
                "active",
                ScopedStoreMutation::AddString {
                    value: "one".into()
                },
            )
            .unwrap()
        ),
        v(r#"["one"]"#)
    );
    assert_eq!(get_member(&map, "other"), Some(v(r#"["kept"]"#)));
    assert_eq!(
        to_value(
            &apply_mutation(
                &mut map,
                "active",
                ScopedStoreMutation::AddString {
                    value: "one".into()
                },
            )
            .unwrap()
        ),
        v(r#"["one"]"#)
    );
}

#[test]
fn windows_can_only_mutate_owned_scoped_state() {
    let previous = j(r#"{"sourceUrl": "https://config.test/categories.json", "categories": []}"#);
    let synced = j(r#"{"sourceUrl": "https://config.test/categories.json", "categories": [{"id": "support"}]}"#);
    let changed_source = j(r#"{"sourceUrl": "https://attacker.test/categories.json", "categories": []}"#);

    assert!(validate_scoped_store_window("tray-popup", "categoryConfig", Some(&previous), &synced).is_ok());
    assert!(validate_scoped_store_window("tray-popup", "categoryConfig", Some(&previous), &changed_source).is_err());
    assert!(validate_scoped_store_window("settings", "categoryConfig", Some(&previous), &changed_source).is_ok());
    assert!(validate_scoped_store_window("settings", "categoryLastActivity", None, &j("{}")).is_err());
}

#[test]
fn tray_settings_patches_only_select_configured_connections() {
    let settings = members(r#"{"connections": [{"id": "connection-a", "url": "https://kimai.test"}]}"#);
    let valid = members(r#"{"activeConnectionId": "connection-a", "kimaiUrl": "https://kimai.test"}"#);
    let arbitrary_url = members(r#"{"activeConnectionId": "connection-a", "kimaiUrl": "https://attacker.test"}"#);

    assert!(validate_settings_patch_window("tray-popup", &settings, &valid).is_ok());
    assert!(validate_settings_patch_window("tray-popup", &settings, &arbitrary_url).is_err());
    assert!(validate_settings_patch_window("tray-popup", &settings, &members(r#"{"theme": "dark"}"#)).is_err());
    assert!(validate_settings_patch_window("tray-popup", &settings, &members(r#"{"popupHeight": 800}"#)).is_ok());
    assert!(validate_settings_patch_window("tray-popup", &settings, &members(r#"{"popupHeight": 1201}"#)).is_err());
    assert!(validate_settings_patch_window("settings", &settings, &arbitrary_url).is_ok());
}

#[test]
fn tray_can_persist_bounded_dimensions_without_changing_other_settings() {
    let settings = Vec::new();
    for dimensions in [
        r#"{"popupWidth": 300}"#,
        r#"{"popupWidth": 1000, "popupHeight": 1200}"#,
        r#"{"popupWidth": 600, "popupHeight": 700}"#,
    ] {
        assert!(validate_settings_patch_window("tray-popup", &settings, &members(dimensions)).is_ok());
    }
    for invalid in [
        r#"{"popupWidth": 299}"#,
        r#"{"popupWidth": 1001}"#,
        r#"{"popupWidth": 600.5}"#,
        r#"{"popupWidth": "600"}"#,
        r#"{"popupWidth": 600, "popupHeight": 1201}"#,
        r#"{"popupWidth": 600, "theme": "dark"}"#,
    ] {
        assert!(validate_settings_patch_window("tray-popup", &settings, &members(invalid)).is_err());
    }
}

/// The settings keys of the interface contract that these tests use.
fn settings_keys() -> Vec<String> {
    ["theme", "language", "popupWidth", "popupHeight", "activeConnectionId", "kimaiUrl"]
        .iter()
        .map(|k| k.to_string())
        .collect()
}

fn encoded_len(m: &[(String, Json)]) -> usize {
    let object: serde_json::Map<String, Value> = m.iter().map(|(k, v)| (k.clone(), to_value(v))).collect();
    serde_json::to_vec(&Value::Object(object)).unwrap().len()
}

fn check_patch(values: &str, expected: Option<&str>) -> Result<(), String> {
    let values = members(values);
    let expected = expected.map(members);
    let values_bytes = encoded_len(&values);
    let expected_bytes = expected.as_ref().map(|e| encoded_len(e));
    validate_settings_patch_request(
        &SettingsPatchRequest { values, expected },
        values_bytes,
        expected_bytes,
        &settings_keys(),
    )
}

#[test]
fn settings_patches_only_accept_bounded_schema_keys() {
    assert!(check_patch(r#"{"theme": "dark"}"#, None).is_ok());
    assert!(check_patch(r#"{"arbitrary": true}"#, None).is_err());
    assert!(check_patch(r#"{"theme": "dark"}"#, Some(r#"{"language": "en"}"#)).is_err());
    let huge = format!(r#"{{"theme": "{}"}}"#, "x".repeat(MAX_VALUE_BYTES));
    assert!(check_patch(r#"{"theme": "dark"}"#, Some(&huge)).is_err());
}

#[test]
fn array_mutations_preserve_concurrent_unique_items() {
    let mut list = items(r#"[{"id": "existing", "pausedAt": "2026-01-01"}]"#);
    apply_array_mutation(
        &mut list,
        ArrayStoreMutation::AppendUnique {
            value: j(r#"{"id": "new", "pausedAt": "2026-01-02"}"#),
            identity: members(r#"{"id": "new"}"#),
            limit: Some(10),
            sort_field: Some("pausedAt".into()),
        },
    )
    .unwrap();
    assert_eq!(list.len(), 2);
    apply_array_mutation(
        &mut list,
        ArrayStoreMutation::RemoveMatching {
            identity: members(r#"{"id": "existing"}"#),
        },
    )
    .unwrap();
    assert_eq!(
        list.iter().map(to_value).collect::<Vec<_>>(),
        vec![v(r#"{"id": "new", "pausedAt": "2026-01-02"}"#)]
    );
}

#[test]
fn settings_patches_merge_independent_fields() {
    let mut settings = members(r#"{"theme": "light"}"#);
    apply_settings_patch(&mut settings, members(r#"{"language": "sk"}"#), None).unwrap();
    assert_eq!(get_member(&settings, "theme"), Some(v(r#""light""#)));
    assert_eq!(get_member(&settings, "language"), Some(v(r#""sk""#)));

    let expected = members(r#"{"theme": "dark"}"#);
    assert!(apply_settings_patch(&mut settings, members(r#"{"language": "en"}"#), Some(&expected)).is_err());
    assert_eq!(get_member(&settings, "language"), Some(v(r#""sk""#)));
}

#[test]
fn favorite_scope_moves_are_atomic_and_deduplicated() {
    let mut list = items(
        r#"[
            {"key": "duplicate", "baseUrl": "https://old"},
            {"key": "moved", "baseUrl": "https://old"},
            {"key": "duplicate", "connectionId": "new"}
        ]"#,
    );
    claim_legacy_favorites(&mut list, "old", "https://old");
    let count = move_favorites(
        &mut list,
        &MoveFavoritesRequest {
            from_connection_id: "old".into(),
            to_connection_id: "new".into(),
            from_base_url: Some("https://old".into()),
            to_base_url: Some("https://new".into()),
        },
    );
    assert_eq!(count, 2);
    assert_eq!(list.len(), 2);
    assert!(list.iter().map(to_value).any(|item| {
        item["key"] == "moved" && item["connectionId"] == "new" && item["baseUrl"] == "https://new"
    }));
}

#[test]
fn scoped_requests_are_checked_before_the_store_is_read() {
    let request = |key: &str, entry_key: &str| ScopedStoreRequest {
        key: key.into(),
        entry_key: entry_key.into(),
        mutation: ScopedStoreMutation::ClearStrings,
    };
    assert_eq!(
        validate_request(&request("settings", "a"), 10),
        Err("Scoped store key is not allowed".to_string())
    );
    assert_eq!(
        validate_request(&request("categoryConfig", ""), 10),
        Err("Invalid scoped store entry key".to_string())
    );
    assert_eq!(
        validate_request(&request("categoryConfig", &"é".repeat(129)), 10),
        Err("Invalid scoped store entry key".to_string())
    );
    assert!(validate_request(&request("categoryConfig", &"é".repeat(128)), 10).is_ok());
    assert_eq!(
        validate_request(&request("hiddenRecentTasksByConnection", "a"), MAX_VALUE_BYTES + 1),
        Err("Scoped store value is too large".to_string())
    );
}

#[test]
fn string_items_accept_only_short_strings() {
    assert_eq!(string_items(None), Ok(vec![]));
    assert_eq!(string_items(Some(&j(r#"["a", "b"]"#))), Ok(vec!["a".to_string(), "b".to_string()]));
    let error = Err("Scoped store entry is not a string array".to_string());
    assert_eq!(string_items(Some(&j(r#"["a", 1]"#))), error);
    assert_eq!(string_items(Some(&j(r#"{"a": "b"}"#))), error);
    let long = Json::Array(vec![Json::Text("x".repeat(4097))]);
    assert_eq!(string_items(Some(&long)), error);
}

#[test]
fn string_mutations_add_remove_and_clear() {
    let mut map = members(r#"{"c": ["a", "b", "a"]}"#);
    let removed = apply_mutation(&mut map, "c", ScopedStoreMutation::RemoveString { value: "a".into() }).unwrap();
    assert_eq!(to_value(&removed), v(r#"["b"]"#));
    let cleared = apply_mutation(&mut map, "c", ScopedStoreMutation::ClearStrings).unwrap();
    assert_eq!(to_value(&cleared), v("[]"));
    let too_long = apply_mutation(&mut map, "c", ScopedStoreMutation::AddString { value: "x".repeat(4097) });
    assert_eq!(too_long.err(), Some("Scoped store string is too long".to_string()));
    let mut bad = members(r#"{"c": 3}"#);
    assert_eq!(
        apply_mutation(&mut bad, "c", ScopedStoreMutation::AddString { value: "a".into() }).err(),
        Some("Scoped store entry is not a string array".to_string())
    );
    assert_eq!(get_member(&bad, "c"), Some(v("3")));
}

#[test]
fn appending_over_the_limit_keeps_the_latest_by_sort_field() {
    let mut list = items(
        r#"[
            {"id": "c", "pausedAt": "2026-01-03"},
            {"id": "a", "pausedAt": "2026-01-01"},
            {"id": "b", "pausedAt": "2026-01-02"}
        ]"#,
    );
    apply_array_mutation(
        &mut list,
        ArrayStoreMutation::AppendUnique {
            value: j(r#"{"id": "d", "pausedAt": "2026-01-00"}"#),
            identity: members(r#"{"id": "d"}"#),
            limit: Some(2),
            sort_field: Some("pausedAt".into()),
        },
    )
    .unwrap();
    assert_eq!(
        list.iter().map(to_value).collect::<Vec<_>>(),
        vec![
            v(r#"{"id": "b", "pausedAt": "2026-01-02"}"#),
            v(r#"{"id": "c", "pausedAt": "2026-01-03"}"#)
        ]
    );
    let mut list = items(r#"[{"id": 1}, {"id": 2}]"#);
    apply_array_mutation(
        &mut list,
        ArrayStoreMutation::AppendUnique {
            value: j(r#"{"id": 3}"#),
            identity: members(r#"{"id": 3}"#),
            limit: Some(2),
            sort_field: None,
        },
    )
    .unwrap();
    assert_eq!(list.iter().map(to_value).collect::<Vec<_>>(), vec![v(r#"{"id": 2}"#), v(r#"{"id": 3}"#)]);
}

#[test]
fn array_mutations_refuse_bad_requests() {
    let mut list = items("[]");
    let err = apply_array_mutation(
        &mut list,
        ArrayStoreMutation::AppendUnique {
            value: j("1"),
            identity: members(r#"{"id": 1}"#),
            limit: None,
            sort_field: None,
        },
    );
    assert_eq!(err, Err("Invalid array store object mutation".to_string()));
    let err = apply_array_mutation(
        &mut list,
        ArrayStoreMutation::AppendUnique {
            value: j(r#"{"id": 1}"#),
            identity: members(r#"{"id": 1}"#),
            limit: Some(0),
            sort_field: None,
        },
    );
    assert_eq!(err, Err("Invalid array store limit".to_string()));
    let err = apply_array_mutation(&mut list, ArrayStoreMutation::RemoveMatching { identity: vec![] });
    assert_eq!(err, Err("Array store identity is required".to_string()));
    apply_array_mutation(&mut list, ArrayStoreMutation::Clear).unwrap();
    assert!(list.is_empty());
}

#[test]
fn sorting_is_stable_for_equal_keys() {
    let list = items(r#"[{"t": "b", "n": 1}, {"n": 2}, {"t": "a", "n": 3}, {"t": "b", "n": 4}, {"t": 5, "n": 5}]"#);
    let sorted = sort_by_field(&list, "t");
    let order: Vec<Value> = sorted.iter().map(|i| to_value(i)["n"].clone()).collect();
    assert_eq!(order, vec![v("2"), v("5"), v("3"), v("1"), v("4")]);
}

#[test]
fn store_commands_write_and_answer() {
    let mut store = Store::new();
    let response = mutate_scoped_store(
        &mut store,
        "tray-popup",
        ScopedStoreRequest {
            key: "hiddenRecentTasksByConnection".into(),
            entry_key: "conn".into(),
            mutation: ScopedStoreMutation::AddString { value: "task".into() },
        },
        40,
        &ok_save,
    )
    .unwrap();
    assert_eq!(to_value(&response.value), v(r#"["task"]"#));
    assert_eq!(get(&store, "hiddenRecentTasksByConnection"), Some(v(r#"{"conn": ["task"]}"#)));

    let refused = mutate_scoped_store(
        &mut store,
        "tray-popup",
        ScopedStoreRequest {
            key: "categoryConfig".into(),
            entry_key: "conn".into(),
            mutation: ScopedStoreMutation::Replace { value: j(r#"{"sourceUrl": "x"}"#) },
        },
        40,
        &ok_save,
    );
    assert_eq!(refused.err(), Some("Tray window cannot change the category source URL".to_string()));
    assert_eq!(get(&store, "categoryConfig"), None);

    let array = mutate_array_store(
        &mut store,
        ArrayStoreRequest {
            key: "pausedTimers".into(),
            mutation: ArrayStoreMutation::AppendUnique {
                value: j(r#"{"id": "a"}"#),
                identity: members(r#"{"id": "a"}"#),
                limit: None,
                sort_field: None,
            },
        },
        60,
        &ok_save,
    )
    .unwrap();
    assert_eq!(to_value(&array.value), v(r#"[{"id": "a"}]"#));
    assert_eq!(
        mutate_array_store(
            &mut store,
            ArrayStoreRequest { key: "other".into(), mutation: ArrayStoreMutation::Clear },
            10,
            &ok_save
        )
        .err(),
        Some("Array store key is not allowed".to_string())
    );
}

#[test]
fn patch_commands_keep_the_store_on_failure() {
    let mut store = store_of(&[("settings", r#"{"theme": "light"}"#)]);
    let values = members(r#"{"theme": "dark"}"#);
    let bytes = encoded_len(&values);
    let failed = patch_settings(
        &mut store,
        "settings",
        SettingsPatchRequest { values, expected: None },
        bytes,
        None,
        &settings_keys(),
        &|_: &Store| Err("disk unavailable".to_string()),
    );
    assert_eq!(failed.err(), Some("disk unavailable".to_string()));
    assert_eq!(get(&store, "settings"), Some(v(r#"{"theme": "light"}"#)));
    let values = members(r#"{"theme": "dark"}"#);
    let ok = patch_settings(
        &mut store,
        "settings",
        SettingsPatchRequest { values, expected: None },
        bytes,
        None,
        &settings_keys(),
        &ok_save,
    )
    .unwrap();
    assert_eq!(to_value(&ok.value), v(r#"{"theme": "dark"}"#));
}

#[test]
fn favorite_commands_check_their_connections() {
    let mut store = store_of(&[("favoriteTasks", r#"[{"key": "k", "baseUrl": "https://a"}]"#)]);
    assert_eq!(
        claim_legacy_favorites_store(
            &mut store,
            FavoriteScopeRequest { connection_id: "c".into(), base_url: None },
            &ok_save
        )
        .err(),
        Some("Favorite legacy base URL is required".to_string())
    );
    let claimed = claim_legacy_favorites_store(
        &mut store,
        FavoriteScopeRequest { connection_id: "c".into(), base_url: Some("https://a".into()) },
        &ok_save,
    )
    .unwrap();
    assert_eq!(
        to_value(&claimed.value),
        v(r#"[{"key": "k", "baseUrl": "https://a", "connectionId": "c"}]"#)
    );
    let same = MoveFavoritesRequest {
        from_connection_id: "c".into(),
        to_connection_id: "c".into(),
        from_base_url: None,
        to_base_url: None,
    };
    assert_eq!(
        move_favorites_store(&mut store, same, &ok_save).err(),
        Some("Invalid favorite connection move".to_string())
    );
    let moved = move_favorites_store(
        &mut store,
        MoveFavoritesRequest {
            from_connection_id: "c".into(),
            to_connection_id: "d".into(),
            from_base_url: None,
            to_base_url: None,
        },
        &ok_save,
    )
    .unwrap();
    assert_eq!(moved.count, 1);
    assert_eq!(get(&store, "favoriteTasks"), Some(v(r#"[{"key": "k", "connectionId": "d"}]"#)));
}

#[test]
fn paused_timer_migration_names_the_legacy_timer() {
    let mut store = store_of(&[("pausedTimer", r#"{"project": 3}"#)]);
    let response = migrate_legacy_store(
        &mut store,
        LegacyStoreMigrationRequest {
            migration: LegacyStoreMigration::PausedTimer { generated_id: "gen".into() },
        },
        &ok_save,
    )
    .unwrap();
    assert_eq!(to_value(&response.value), v(r#"[{"id": "gen", "project": 3}]"#));
    assert_eq!(get(&store, "pausedTimers"), Some(v(r#"[{"id": "gen", "project": 3}]"#)));
    assert_eq!(get(&store, "pausedTimer"), None);
    let (value, changes) = plan_migration(
        &store,
        &LegacyStoreMigration::PausedTimer { generated_id: "other".into() },
    )
    .unwrap();
    assert_eq!(to_value(&value), v(r#"[{"id": "gen", "project": 3}]"#));
    assert!(changes.is_empty());
    assert_eq!(
        plan_migration(&store, &LegacyStoreMigration::PausedTimer { generated_id: String::new() }).err(),
        Some("Invalid paused timer id".to_string())
    );
}

#[test]
fn hidden_task_migration_takes_the_legacy_list() {
    let mut store = store_of(&[("hiddenRecentTasks", r#"["a", "b"]"#)]);
    let value = migrate_legacy_store_backend(
        &mut store,
        LegacyStoreMigration::HiddenTasks { connection_id: "conn".into() },
        &ok_save,
    )
    .unwrap();
    assert_eq!(to_value(&value), v(r#"["a", "b"]"#));
    assert_eq!(get(&store, "hiddenRecentTasksByConnection"), Some(v(r#"{"conn": ["a", "b"]}"#)));
    assert_eq!(get(&store, "hiddenRecentTasks"), None);
}

#[test]
fn migrations_refuse_values_of_the_wrong_shape() {
    let mut store = store_of(&[("categoryConfig", "[]"), ("settings", "3")]);
    assert_eq!(
        migrate_legacy_store_backend(&mut store, LegacyStoreMigration::CategoryConfig, &ok_save).err(),
        Some("Migrated store value is not an object".to_string())
    );
    assert_eq!(
        migrate_legacy_store_backend(
            &mut store,
            LegacyStoreMigration::SettingsConnection { generated_id: "a".into(), name: "b".into() },
            &ok_save
        )
        .err(),
        Some("Settings value is not an object".to_string())
    );
    assert_eq!(
        migrate_legacy_store_backend(
            &mut store,
            LegacyStoreMigration::SettingsConnection { generated_id: "a".into(), name: String::new() },
            &ok_save
        )
        .err(),
        Some("Invalid migrated connection identity".to_string())
    );
}
