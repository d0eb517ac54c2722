use reina_core::backup::{
    generate_auto_backup_filename, generate_backup_filename, get_game_display_name,
    is_db_file_name, make_backup_file_name, plan_savedata_upload, sanitize_folder_name,
    vacuum_into_sql, webdav_credentials, with_forward_slashes, WebdavCredentials,
};
use reina_core::dto::{CustomData, FullGameData, GameSourceData};
use reina_core::json::JsonValue;
use reina_core::settings::UserSettings;

fn s(v: &str) -> String {
    v.to_string()
}

fn obj(members: Vec<(&str, JsonValue)>) -> JsonValue {
    JsonValue::Object(members.into_iter().map(|(k, v)| (k.to_string(), v)).collect())
}

fn game(id: i32, custom_name: Option<&str>, sources: Vec<GameSourceData>) -> FullGameData {
    FullGameData {
        id,
        id_type: s("mixed"),
        date: None,
        localpath: None,
        executable: None,
        savepath: None,
        autosave: None,
        maxbackups: None,
        clear: None,
        le_launch: None,
        magpie: None,
        webdav_sync: None,
        custom_data: custom_name.map(|n| CustomData { name: Some(s(n)), user_rating: None, other: vec![] }),
        sources,
        created_at: None,
        updated_at: None,
    }
}

fn source(name_cn: Option<&str>, name: Option<&str>) -> GameSourceData {
    let mut members = Vec::new();
    if let Some(n) = name_cn {
        members.push(("name_cn", JsonValue::String(s(n))));
    }
    if let Some(n) = name {
        members.push(("name", JsonValue::String(s(n))));
    }
    GameSourceData { source: s("bgm"), external_id: None, data: Some(obj(members)) }
}

fn enabled_settings() -> UserSettings {
    let mut st = UserSettings::initial();
    st.webdav_enabled = Some(true);
    st.webdav_url = Some(s("https://dav.example.com/"));
    st.webdav_username = Some(s("me"));
    st.webdav_password = Some(s("SECRET-REDACTED"));
    st.webdav_root = Some(s("backups/"));
    st
}

#[test]
fn backup_file_names_carry_the_timestamp() {
    assert_eq!(make_backup_file_name("20240102_030405", false), "reina_manager_20240102_030405.db");
    assert_eq!(make_backup_file_name("20240102_030405", true), "reina_manager_auto_20240102_030405.db");
}

#[test]
fn generated_backup_names_have_the_timestamp_shape() {
    let manual = generate_backup_filename();
    assert!(manual.starts_with("reina_manager_"));
    assert!(manual.ends_with(".db"));
    let stamp = &manual["reina_manager_".len()..manual.len() - 3];
    assert_eq!(stamp.len(), 15);
    assert_eq!(&stamp[8..9], "_");
    assert!(stamp.chars().enumerate().all(|(i, c)| i == 8 || c.is_ascii_digit()));
    let auto = generate_auto_backup_filename();
    assert!(auto.starts_with("reina_manager_auto_"));
    assert!(auto.ends_with(".db"));
}

#[test]
fn hot_backup_statement_escapes_quotes() {
    assert_eq!(vacuum_into_sql("C:/b/it's.db"), "VACUUM INTO 'C:/b/it''s.db'");
    assert_eq!(vacuum_into_sql(""), "VACUUM INTO ''");
    assert_eq!(with_forward_slashes(r"C:\Users\a\b.db"), "C:/Users/a/b.db");
}

#[test]
fn folder_names_lose_forbidden_characters() {
    assert_eq!(sanitize_folder_name(r#" a\b/c:d*e?f"g<h>i|j "#), "abcdefghij");
    assert_eq!(sanitize_folder_name("  Fate/stay night  "), "Fatestay night");
    assert_eq!(sanitize_folder_name(" :: "), "");
}

#[test]
fn display_name_prefers_custom_then_sources_then_id() {
    assert_eq!(get_game_display_name(&game(7, Some("  我的 "), vec![source(Some("中"), None)])), "我的");
    assert_eq!(get_game_display_name(&game(7, Some("  "), vec![source(Some("中"), Some("en"))])), "中");
    assert_eq!(get_game_display_name(&game(7, None, vec![source(Some(""), Some("en"))])), "en");
    assert_eq!(
        get_game_display_name(&game(7, None, vec![source(None, None), source(None, Some("second"))])),
        "second"
    );
    assert_eq!(get_game_display_name(&game(42, None, vec![])), "Game_42");
    assert_eq!(
        get_game_display_name(&game(7, None, vec![source(None, Some("Beta")), source(Some("乙"), None)])),
        "乙"
    );
    assert_eq!(get_game_display_name(&game(-3, None, vec![source(None, Some(""))])), "Game_-3");
}

#[test]
fn webdav_settings_are_required_in_order() {
    let ok = webdav_credentials(&enabled_settings(), "off").unwrap();
    assert_eq!(ok.url, "https://dav.example.com/");
    assert_eq!(ok.username, "me");
    assert_eq!(ok.root, Some(s("backups/")));

    let mut off = enabled_settings();
    off.webdav_enabled = None;
    assert_eq!(webdav_credentials(&off, "WebDAV 未启用").unwrap_err(), "WebDAV 未启用");

    let mut no_url = enabled_settings();
    no_url.webdav_url = None;
    no_url.webdav_username = None;
    assert_eq!(webdav_credentials(&no_url, "off").unwrap_err(), "WebDAV URL 未配置");

    let mut no_user = enabled_settings();
    no_user.webdav_username = None;
    assert_eq!(webdav_credentials(&no_user, "off").unwrap_err(), "WebDAV 用户名未配置");

    let mut no_password = enabled_settings();
    no_password.webdav_password = None;
    assert_eq!(webdav_credentials(&no_password, "off").unwrap_err(), "WebDAV 密码未配置");
}

#[test]
fn savedata_upload_goes_to_the_game_folder() {
    let creds = WebdavCredentials {
        url: s("https://dav.example.com/"),
        username: s("me"),
        password: s("pw"),
        root: Some(s("backups/")),
    };
    let plan = plan_savedata_upload(&creds, &game(1, Some("Fate/Zero"), vec![]), "/tmp/saves/save_1.zip").unwrap();
    assert_eq!(plan.game_name, "FateZero");
    assert_eq!(plan.remote_subdir, "backups/FateZero");
    assert_eq!(plan.remote_file, "FateZero/save_1.zip");
    assert_eq!(plan.remote_url, "https://dav.example.com/backups/FateZero/save_1.zip");

    let no_root = WebdavCredentials { root: None, ..creds };
    let plan = plan_savedata_upload(&no_root, &game(2, None, vec![]), "save.zip").unwrap();
    assert_eq!(plan.remote_subdir, "Game_2");
    assert_eq!(plan.remote_url, "https://dav.example.com/Game_2/save.zip");

    assert_eq!(
        plan_savedata_upload(&no_root, &game(3, Some("???"), vec![]), "save.zip").unwrap_err(),
        "游戏名称为空，无法创建远程目录"
    );
    assert_eq!(
        plan_savedata_upload(&no_root, &game(3, Some("ok"), vec![]), "/saves/..").unwrap_err(),
        "无法获取备份文件名"
    );
}

#[test]
fn database_files_end_with_db() {
    assert!(is_db_file_name("reina_manager_1.db"));
    assert!(!is_db_file_name("reina_manager_1.db.bak"));
    assert!(!is_db_file_name("db"));
}

#[test]
fn sanitizing_twice_changes_nothing() {
    let once = sanitize_folder_name("  <Fate>: stay/night?  ");
    assert_eq!(once, "Fate staynight");
    assert_eq!(sanitize_folder_name(&once), once);
}

#[test]
fn generated_backups_are_listed_back() {
    let manual = generate_backup_filename();
    let auto = generate_auto_backup_filename();
    let xml = format!(
        "<d:multistatus xmlns:d=\"DAV:\"><d:response><d:href>/dav/backups/{}</d:href></d:response><d:response><d:href>/dav/backups/{}</d:href></d:response></d:multistatus>",
        manual, auto
    );
    let listed = reina_core::webdav::parse_propfind_response(&xml);
    assert_eq!(listed.len(), 2);
    assert_eq!(listed[0].name, manual);
    assert_eq!(listed[1].name, auto);
}

#[test]
fn savedata_file_name_follows_the_platform_on_windows_paths() {
    let creds = WebdavCredentials {
        url: s("https://dav.example.com"),
        username: s("u"),
        password: s("pw"),
        root: None,
    };
    let windows = std::path::MAIN_SEPARATOR == '\\';
    let plan = plan_savedata_upload(&creds, &game(1, Some("Aster"), vec![]), "saves\\slot1.zip").unwrap();
    let plan_drive = plan_savedata_upload(&creds, &game(1, Some("Aster"), vec![]), r"E:\saves\slot1.zip").unwrap();
    if windows {
        assert_eq!(plan.file_name, "slot1.zip");
        assert_eq!(plan_drive.file_name, "slot1.zip");
    } else {
        assert_eq!(plan.file_name, "saves\\slot1.zip");
        assert_eq!(plan_drive.file_name, r"E:\saves\slot1.zip");
    }
    assert_eq!(plan.remote_file, format!("Aster/{}", plan.file_name));
}
