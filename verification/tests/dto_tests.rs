use reina_core::dto::{
    clean_bgm_auth, clean_double_option_executable, clean_double_option_local_path,
    clean_double_option_string, clean_executable, clean_option_executable,
    clean_option_local_path, clean_option_string, BgmAuth, CustomData, InsertCollectionData,
    InsertGameData, UpdateCollectionData, UpdateGameData, UpdateSettingsData,
    UpsertGameSourceData,
};
use reina_core::json::{clean_json_value, JsonValue};
use reina_core::path::clean_local_path;
use std::path::{PathBuf, MAIN_SEPARATOR};

fn s(v: &str) -> String {
    v.to_string()
}

fn jstr(v: &str) -> JsonValue {
    JsonValue::String(v.to_string())
}

fn jnum(v: &str) -> JsonValue {
    JsonValue::Number(v.to_string())
}

fn obj(members: Vec<(&str, JsonValue)>) -> JsonValue {
    JsonValue::Object(members.into_iter().map(|(k, v)| (k.to_string(), v)).collect())
}

#[test]
fn clean_json_value_removes_empty_values_recursively() {
    let cleaned = clean_json_value(obj(vec![
        ("null", JsonValue::Null),
        ("empty_string", jstr("")),
        ("blank_string", jstr("   ")),
        ("empty_array", JsonValue::Array(vec![])),
        ("empty_object", obj(vec![])),
        ("nested", obj(vec![("empty", JsonValue::Null), ("name", jstr("有效值"))])),
        (
            "items",
            JsonValue::Array(vec![
                JsonValue::Null,
                jstr(""),
                JsonValue::Array(vec![]),
                obj(vec![]),
                jstr("标签"),
                jnum("0"),
                JsonValue::Bool(false),
            ]),
        ),
        ("zero", jnum("0")),
        ("false", JsonValue::Bool(false)),
    ]));

    assert_eq!(
        cleaned,
        Some(obj(vec![
            ("nested", obj(vec![("name", jstr("有效值"))])),
            ("items", JsonValue::Array(vec![jstr("标签"), jnum("0"), JsonValue::Bool(false)])),
            ("zero", jnum("0")),
            ("false", JsonValue::Bool(false)),
        ]))
    );
}

#[test]
fn source_cleaner_removes_data_without_effective_fields() {
    let source = UpsertGameSourceData {
        source: " vndb ".to_string(),
        external_id: Some("v1".to_string()),
        data: Some(obj(vec![
            ("tags", JsonValue::Array(vec![])),
            ("aliases", JsonValue::Null),
            ("developer", jstr("")),
        ])),
    }
    .cleaned();

    assert_eq!(source.source, "vndb");
    assert_eq!(source.external_id.as_deref(), Some("v1"));
    assert_eq!(source.data, None);
}

#[test]
fn clean_local_path_removes_trailing_separator() {
    let path = PathBuf::from("game-root").join("Aster");
    let input = format!("{}{}", path.display(), MAIN_SEPARATOR);

    assert_eq!(clean_local_path(input), Some(path.to_string_lossy().to_string()));
}

#[test]
fn clean_local_path_preserves_root_and_explicit_null() {
    let root = if MAIN_SEPARATOR == '\\' { r"E:\" } else { "/" };

    assert_eq!(clean_local_path(root.to_string()), Some(root.to_string()));
    assert_eq!(clean_double_option_local_path(Some(None)), Some(None));
}

#[test]
fn clean_json_value_is_idempotent_on_a_sample() {
    let value = obj(vec![
        ("a", JsonValue::Array(vec![JsonValue::Null, obj(vec![("b", jstr(" "))]), jstr("x")])),
        ("c", obj(vec![("d", JsonValue::Array(vec![]))])),
    ]);
    let once = clean_json_value(value).unwrap();
    assert_eq!(once, obj(vec![("a", JsonValue::Array(vec![jstr("x")]))]));
    let twice = clean_json_value(obj(vec![("a", JsonValue::Array(vec![jstr("x")]))]));
    assert_eq!(twice, Some(once));
}

#[test]
fn clean_json_value_keeps_scalars_and_drops_empty_roots() {
    assert_eq!(clean_json_value(jnum("12")), Some(jnum("12")));
    assert_eq!(clean_json_value(JsonValue::Bool(true)), Some(JsonValue::Bool(true)));
    assert_eq!(clean_json_value(jstr(" a ")), Some(jstr(" a ")));
    assert_eq!(clean_json_value(JsonValue::Null), None);
    assert_eq!(clean_json_value(jstr("\t\n")), None);
    assert_eq!(clean_json_value(obj(vec![("k", JsonValue::Null)])), None);
}

#[test]
fn blank_option_strings_become_none_and_others_stay() {
    assert_eq!(clean_option_string(Some(s("  hi "))), Some(s("  hi ")));
    assert_eq!(clean_option_string(Some(s("   "))), None);
    assert_eq!(clean_option_string(None), None);
    assert_eq!(clean_double_option_string(Some(Some(s(" x ")))), Some(Some(s(" x "))));
    assert_eq!(clean_double_option_string(Some(Some(s(" ")))), Some(None));
    assert_eq!(clean_double_option_string(Some(None)), Some(None));
    assert_eq!(clean_double_option_string(None), None);
}

#[test]
fn local_paths_are_normalized() {
    assert_eq!(clean_local_path(s("  a//b/./c/  ")), Some(s("a/b/c")));
    assert_eq!(clean_local_path(s("./a/")), Some(s("./a")));
    assert_eq!(clean_local_path(s("a/../b")), Some(s("a/../b")));
    assert_eq!(clean_local_path(s("//x///")), Some(s("/x")));
    assert_eq!(clean_local_path(s("   ")), None);
    assert_eq!(clean_option_local_path(Some(s("dir/"))), Some(s("dir")));
    assert_eq!(clean_option_local_path(Some(s(" "))), None);
    assert_eq!(clean_double_option_local_path(Some(Some(s("p/")))), Some(Some(s("p"))));
    assert_eq!(clean_double_option_local_path(Some(Some(s(" ")))), Some(None));
    assert_eq!(clean_double_option_local_path(None), None);
}

#[test]
fn executables_are_trimmed() {
    assert_eq!(clean_executable(s(" game.exe ")), Some(s("game.exe")));
    assert_eq!(clean_executable(s("  ")), None);
    assert_eq!(clean_option_executable(Some(s("a.exe"))), Some(s("a.exe")));
    assert_eq!(clean_option_executable(None), None);
    assert_eq!(clean_double_option_executable(Some(Some(s(" ")))), Some(None));
    assert_eq!(clean_double_option_executable(Some(Some(s(" b.exe")))), Some(Some(s("b.exe"))));
}

#[test]
fn bgm_auth_with_blank_token_is_dropped() {
    let kept = clean_bgm_auth(BgmAuth { access_token: s(" tok ") }).unwrap();
    assert_eq!(kept.access_token, "tok");
    assert!(clean_bgm_auth(BgmAuth { access_token: s(" ") }).is_none());
}

#[test]
fn collection_data_is_cleaned() {
    let c = InsertCollectionData { name: s("  收藏 "), parent_id: Some(3), sort_order: 2, icon: Some(s(" ")) }
        .cleaned();
    let kept = InsertCollectionData { name: s("a"), parent_id: None, sort_order: 0, icon: Some(s(" i ")) }
        .cleaned();
    assert_eq!(kept.icon, Some(s(" i ")));
    assert_eq!(c.name, "收藏");
    assert_eq!(c.parent_id, Some(3));
    assert_eq!(c.sort_order, 2);
    assert_eq!(c.icon, None);

    let u = UpdateCollectionData {
        name: Some(s(" n ")),
        parent_id: Some(None),
        sort_order: None,
        icon: Some(Some(s("  "))),
    }
    .cleaned();
    assert_eq!(u.name, Some(s("n")));
    assert_eq!(u.parent_id, Some(None));
    assert_eq!(u.sort_order, None);
    assert_eq!(u.icon, Some(None));

    let blank = UpdateCollectionData { name: Some(s("   ")), parent_id: None, sort_order: None, icon: None }.cleaned();
    assert_eq!(blank.name, None);
}

#[test]
fn settings_update_is_cleaned() {
    let data = UpdateSettingsData {
        bgm_auth: Some(Some(BgmAuth { access_token: s("  ") })),
        vndb_token: Some(Some(s(" v "))),
        save_root_path: Some(Some(s("saves/"))),
        webdav_url: Some(Some(s(" "))),
        webdav_enabled: Some(Some(true)),
        ..Default::default()
    }
    .cleaned();
    assert!(matches!(data.bgm_auth, Some(None)));
    assert_eq!(data.vndb_token, Some(Some(s(" v "))));
    assert_eq!(data.save_root_path, Some(Some(s("saves/"))));
    assert_eq!(data.webdav_url, Some(None));
    assert_eq!(data.webdav_enabled, Some(Some(true)));
    assert_eq!(data.le_path, None);
}

#[test]
fn insert_game_data_is_cleaned() {
    let game = InsertGameData {
        id_type: s(" vndb "),
        date: Some(s(" ")),
        localpath: Some(s("games/a/")),
        executable: Some(s(" a.exe ")),
        savepath: Some(s("  ")),
        autosave: None,
        maxbackups: None,
        clear: None,
        le_launch: None,
        magpie: None,
        custom_data: Some(CustomData { name: Some(s(" 名 ")), user_rating: None, other: vec![] }),
        sources: vec![UpsertGameSourceData {
            source: s(" bgm "),
            external_id: Some(s(" ")),
            data: Some(obj(vec![("name", jstr("A")), ("x", JsonValue::Null)])),
        }],
    }
    .cleaned();
    assert_eq!(game.id_type, " vndb ");
    assert_eq!(game.date, None);
    assert_eq!(game.localpath, Some(s("games/a")));
    assert_eq!(game.executable, Some(s("a.exe")));
    assert_eq!(game.savepath, None);
    assert_eq!(game.custom_data.as_ref().unwrap().name, Some(s(" 名 ")));
    assert_eq!(game.sources.len(), 1);
    assert_eq!(game.sources[0].source, "bgm");
    assert_eq!(game.sources[0].external_id, None);
    assert_eq!(game.sources[0].data, Some(obj(vec![("name", jstr("A"))])));
}

#[test]
fn update_game_data_is_cleaned() {
    let u = UpdateGameData {
        id_type: Some(s(" mixed ")),
        localpath: Some(Some(s(" "))),
        executable: Some(Some(s(" run.exe"))),
        remove_sources: Some(vec![s(" vndb "), s("bgm")]),
        upsert_sources: Some(vec![UpsertGameSourceData {
            source: s("ymgal "),
            external_id: None,
            data: Some(obj(vec![])),
        }]),
        ..Default::default()
    }
    .cleaned();
    assert_eq!(u.id_type, Some(s(" mixed ")));
    assert_eq!(u.localpath, Some(None));
    assert_eq!(u.executable, Some(Some(s("run.exe"))));
    assert_eq!(u.remove_sources, Some(vec![s("vndb"), s("bgm")]));
    let ups = u.upsert_sources.unwrap();
    assert_eq!(ups[0].source, "ymgal");
    assert_eq!(ups[0].data, None);
}

#[test]
fn clean_json_value_keeps_every_value_in_order() {
    let value = JsonValue::Array(vec![
        jnum("1"),
        JsonValue::Null,
        JsonValue::Bool(false),
        obj(vec![("e", JsonValue::Array(vec![])), ("n", jnum("0"))]),
        jstr("x"),
        JsonValue::Array(vec![jstr(" "), JsonValue::Null]),
        jnum("2"),
    ]);
    assert_eq!(
        clean_json_value(value),
        Some(JsonValue::Array(vec![
            jnum("1"),
            JsonValue::Bool(false),
            obj(vec![("n", jnum("0"))]),
            jstr("x"),
            jnum("2"),
        ]))
    );
}
