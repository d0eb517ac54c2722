use reina_core::json::JsonValue;
use reina_core::json_access::get_str_member_of;
use reina_core::path::{clean_local_path, file_name_of, has_db_extension, is_bare_file_name_str};
use reina_core::text::{str_is_blank, trim_string};

fn s(v: &str) -> String {
    v.to_string()
}

#[test]
fn trimming_uses_unicode_white_space() {
    assert_eq!(trim_string("\u{3000} 名前 \n"), "名前");
    assert_eq!(trim_string(trim_string("  a  ").as_str()), "a");
    assert!(str_is_blank(" \t\u{00A0}"));
    assert!(!str_is_blank(" x "));
}

#[test]
fn file_names_follow_path_components() {
    assert_eq!(file_name_of("/a/b/save.zip"), Some(s("save.zip")));
    assert_eq!(file_name_of("save.zip/"), Some(s("save.zip")));
    assert_eq!(file_name_of("/a/.."), None);
    assert_eq!(file_name_of("/"), None);
    assert!(is_bare_file_name_str("game.exe"));
    assert!(!is_bare_file_name_str("."));
    assert!(!is_bare_file_name_str(".."));
    assert!(!is_bare_file_name_str("bin/game.exe"));
    assert!(!is_bare_file_name_str(r"bin\game.exe"));
    assert!(!is_bare_file_name_str(""));
}

#[test]
fn database_extension_is_read_from_the_file_name() {
    assert!(has_db_extension("/backups/x.db"));
    assert!(!has_db_extension("/backups/.db"));
    assert!(!has_db_extension("/backups/x.db/.."));
    assert!(!has_db_extension("x.sqlite"));
}

#[test]
fn cleaned_path_is_stable_on_usual_paths() {
    let once = clean_local_path(s(" ./games//a/ ")).unwrap();
    assert_eq!(once, "./games/a");
    assert_eq!(clean_local_path(once.clone()), Some(once));
}

#[test]
fn string_members_are_read() {
    let v = JsonValue::Object(vec![(s("name"), JsonValue::String(s("x"))), (s("n"), JsonValue::Number(s("1")))]);
    assert_eq!(get_str_member_of(&v, "name"), Some(s("x")));
    assert_eq!(get_str_member_of(&v, "n"), None);
    assert_eq!(get_str_member_of(&v, "missing"), None);
    assert_eq!(get_str_member_of(&JsonValue::Null, "name"), None);
}

#[test]
fn cleaned_path_ending_in_white_space_is_not_stable() {
    let once = clean_local_path(s("a /")).unwrap();
    assert_eq!(once, "a ");
    assert_eq!(clean_local_path(once), Some(s("a")));
    let root = clean_local_path(s("/x/./y//")).unwrap();
    assert_eq!(clean_local_path(root.clone()), Some(root));
}

#[test]
fn backslashes_and_drive_prefixes_follow_the_platform() {
    let windows = std::path::MAIN_SEPARATOR == '\\';
    let cleaned = clean_local_path(s("game-root\\Aster\\"));
    if windows {
        assert_eq!(cleaned, Some(s("game-root\\Aster")));
    } else {
        assert_eq!(cleaned, Some(s("game-root\\Aster\\")));
    }
    assert_eq!(is_bare_file_name_str("C:"), !windows);
    assert_eq!(is_bare_file_name_str("a:b"), !windows);
    let name = file_name_of("saves\\slot1.db");
    if windows {
        assert_eq!(name, Some(s("slot1.db")));
    } else {
        assert_eq!(name, Some(s("saves\\slot1.db")));
    }
    assert!(has_db_extension("saves\\slot1.db"));
}

#[test]
fn clean_local_path_joins_components_with_the_platform_separator() {
    let sep = std::path::MAIN_SEPARATOR;
    assert_eq!(clean_local_path(s(" a//b/./c/ ")), Some(format!("a{}b{}c", sep, sep)));
    assert_eq!(clean_local_path(s("./x/../y")), Some(format!(".{}x{}..{}y", sep, sep, sep)));
    assert_eq!(clean_local_path(s(" . ")), Some(s(".")));
    assert_eq!(clean_local_path(s("")), None);
}

#[test]
fn drive_paths_follow_the_platform() {
    let windows = std::path::MAIN_SEPARATOR == '\\';
    let cleaned = clean_local_path(s(r" E:\Games\\Aster\ "));
    let forward = clean_local_path(s("E:/Games/./Aster/"));
    let relative = clean_local_path(s("E:Games/Aster"));
    if windows {
        assert_eq!(cleaned, Some(s(r"E:\Games\Aster")));
        assert_eq!(forward, Some(s(r"E:\Games\Aster")));
        assert_eq!(relative, Some(s(r"E:Games\Aster")));
        assert_eq!(file_name_of(r"E:\Games\x.db"), Some(s("x.db")));
    } else {
        assert_eq!(cleaned, Some(s(r"E:\Games\\Aster\")));
        assert_eq!(forward, Some(s("E:/Games/Aster")));
        assert_eq!(relative, Some(s("E:Games/Aster")));
        assert_eq!(file_name_of(r"E:\Games\x.db"), Some(s(r"E:\Games\x.db")));
    }
    assert!(has_db_extension(r"E:\Games\x.db"));
    assert!(!has_db_extension(r"E:\Games\x.zip"));
}
