use reina_core::dto::{BgmAuth, UpdateSettingsData};
use reina_core::migration::{add_column_sql, add_columns_sql, column_listed, drop_column_sql, table_info_sql, webdav_config_columns};
use reina_core::settings::UserSettings;

fn s(v: &str) -> String {
    v.to_string()
}

#[test]
fn first_settings_record_is_empty() {
    let st = UserSettings::initial();
    assert_eq!(st.id, 1);
    assert!(st.vndb_token.is_none());
    assert!(!st.webdav_enabled_value());
}

#[test]
fn settings_update_writes_given_fields_and_reads_back() {
    let mut st = UserSettings::initial();
    st.le_path = Some(s("C:/le"));
    st.webdav_sync_categories = Some(s("[1,2]"));
    let data = UpdateSettingsData {
        bgm_auth: Some(Some(BgmAuth { access_token: s(" token ") })),
        vndb_token: Some(Some(s("  "))),
        webdav_url: Some(Some(s("https://dav"))),
        webdav_enabled: Some(Some(true)),
        le_path: None,
        ..Default::default()
    };
    let st = st.apply_update(data);
    assert_eq!(st.bgm_auth.as_ref().unwrap().access_token, "token");
    assert_eq!(st.vndb_token, None);
    assert_eq!(st.webdav_url, Some(s("https://dav")));
    assert_eq!(st.le_path, Some(s("C:/le")));
    assert_eq!(st.webdav_sync_categories, Some(s("[1,2]")));
    assert!(st.webdav_enabled_value());

    let st = st.apply_update(UpdateSettingsData { bgm_auth: Some(None), webdav_enabled: Some(None), ..Default::default() });
    assert!(st.bgm_auth.is_none());
    assert!(!st.webdav_enabled_value());
    assert_eq!(st.webdav_url, Some(s("https://dav")));
}

#[test]
fn columns_are_added_and_dropped_once() {
    let names = vec![s("id"), s("webdav_url")];
    assert!(column_listed(&names, "webdav_url"));
    assert!(!column_listed(&names, "webdav_root"));
    assert_eq!(add_column_sql(&names, "user", "webdav_url", "Text"), None);
    assert_eq!(
        add_column_sql(&names, "user", "webdav_enabled", "Integer DEFAULT 0"),
        Some(s("ALTER TABLE user ADD COLUMN webdav_enabled Integer DEFAULT 0"))
    );
    let mut after = names.clone();
    after.push(s("webdav_enabled"));
    assert_eq!(add_column_sql(&after, "user", "webdav_enabled", "Integer DEFAULT 0"), None);
    assert_eq!(drop_column_sql(&after, "user", "webdav_enabled"), Some(s("ALTER TABLE user DROP COLUMN webdav_enabled")));
    assert_eq!(drop_column_sql(&names, "user", "webdav_enabled"), None);
    assert_eq!(table_info_sql("games"), "PRAGMA table_info(games)");
}

#[test]
fn webdav_columns_are_listed_with_types() {
    let cols = webdav_config_columns();
    assert_eq!(cols.len(), 6);
    assert_eq!(cols[0], ("webdav_url", "Text"));
    assert_eq!(cols[5], ("webdav_enabled", "Integer DEFAULT 0"));
}

#[test]
fn webdav_migration_adds_missing_columns_once() {
    let cols = webdav_config_columns();
    let names = vec![s("id"), s("webdav_url"), s("webdav_root")];
    let stmts = add_columns_sql(&names, "user", &cols);
    assert_eq!(
        stmts,
        vec![
            s("ALTER TABLE user ADD COLUMN webdav_username Text"),
            s("ALTER TABLE user ADD COLUMN webdav_password Text"),
            s("ALTER TABLE user ADD COLUMN webdav_sync_categories Text"),
            s("ALTER TABLE user ADD COLUMN webdav_enabled Integer DEFAULT 0"),
        ]
    );
    let mut after = names.clone();
    for (column, _) in &cols {
        if !after.iter().any(|n| n == column) {
            after.push(s(column));
        }
    }
    assert!(add_columns_sql(&after, "user", &cols).is_empty());
    let repeated = vec![("extra", "Text"), ("extra", "Integer")];
    assert_eq!(add_columns_sql(&names, "t", &repeated), vec![s("ALTER TABLE t ADD COLUMN extra Text")]);
}
