use reina_core::dto::{CustomData, FullGameData, InsertGameData, UpdateGameData, UpsertGameSourceData};
use reina_core::games::{
    clock_seconds_to_row_time, now_timestamp, BatchProgress, GamesRepository, OrderKey, OrderTerm, RepoError, SortOption,
    SortOrder, DEFAULT_PLAY_STATUS,
};
use reina_core::json::JsonValue;

fn s(v: &str) -> String {
    v.to_string()
}

fn obj(members: Vec<(&str, JsonValue)>) -> JsonValue {
    JsonValue::Object(members.into_iter().map(|(k, v)| (k.to_string(), v)).collect())
}

fn jstr(v: &str) -> JsonValue {
    JsonValue::String(v.to_string())
}

fn insert_data(id_type: &str, custom_data: Option<CustomData>, sources: Vec<UpsertGameSourceData>) -> InsertGameData {
    InsertGameData {
        id_type: id_type.to_string(),
        date: None,
        localpath: None,
        executable: None,
        savepath: None,
        autosave: None,
        maxbackups: None,
        clear: None,
        le_launch: None,
        magpie: None,
        custom_data,
        sources,
    }
}

fn source(source: &str, id: &str, data: JsonValue) -> UpsertGameSourceData {
    UpsertGameSourceData { source: source.to_string(), external_id: Some(id.to_string()), data: Some(data) }
}

fn full_game(id: i32, tag: &str) -> FullGameData {
    FullGameData {
        id,
        id_type: s(tag),
        date: None,
        localpath: None,
        executable: None,
        savepath: None,
        autosave: None,
        maxbackups: None,
        clear: None,
        le_launch: None,
        magpie: None,
        webdav_sync: None,
        custom_data: None,
        sources: vec![],
        created_at: None,
        updated_at: None,
    }
}

fn message(r: Result<(), RepoError>) -> String {
    r.unwrap_err().message()
}

#[test]
fn sources_need_a_name_and_an_id_or_data() {
    let empty = UpsertGameSourceData { source: s(""), external_id: Some(s("1")), data: None };
    assert_eq!(message(GamesRepository::validate_source(&empty)), "source 不能为空");
    let bare = UpsertGameSourceData { source: s("bgm"), external_id: None, data: None };
    assert_eq!(message(GamesRepository::validate_source(&bare)), "bgm source 的 external_id 和 data 不能同时为空");
    let ok = UpsertGameSourceData { source: s("bgm"), external_id: None, data: Some(obj(vec![])) };
    assert!(GamesRepository::validate_source(&ok).is_ok());
}

#[test]
fn source_changes_are_checked_for_repeats_and_conflicts() {
    let a = source("bgm", "1", obj(vec![]));
    let b = source("vndb", "v1", obj(vec![]));
    assert!(GamesRepository::validate_source_changes(&vec![a.clone_for_test(), b.clone_for_test()], &vec![s("ymgal")]).is_ok());
    assert_eq!(
        message(GamesRepository::validate_source_changes(&vec![a.clone_for_test(), a.clone_for_test()], &vec![])),
        "bgm source 被重复提交"
    );
    assert_eq!(
        message(GamesRepository::validate_source_changes(&vec![], &vec![s("kun"), s("kun")])),
        "kun source 被重复删除"
    );
    assert_eq!(
        message(GamesRepository::validate_source_changes(&vec![b.clone_for_test()], &vec![s("vndb")])),
        "vndb source 不能同时更新和删除"
    );
    let bare = UpsertGameSourceData { source: s("kun"), external_id: None, data: None };
    assert_eq!(
        message(GamesRepository::validate_source_changes(&vec![bare], &vec![s("x"), s("x")])),
        "kun source 的 external_id 和 data 不能同时为空"
    );
}

trait CloneForTest {
    fn clone_for_test(&self) -> Self;
}

impl CloneForTest for UpsertGameSourceData {
    fn clone_for_test(&self) -> Self {
        UpsertGameSourceData { source: self.source.clone(), external_id: self.external_id.clone(), data: None }
    }
}

#[test]
fn rejects_orphan_and_non_basename_executables() {
    let mut orphan = insert_data("custom", None, Vec::new());
    orphan.executable = Some(s("game.exe"));
    let err = GamesRepository::prepare_insert(orphan, 0).unwrap_err().message();
    assert!(err.contains("localpath"));

    for invalid in [".", "..", "bin/game.exe", r"bin\game.exe"] {
        let mut game = insert_data("custom", None, Vec::new());
        game.localpath = Some(s("games"));
        game.executable = Some(invalid.to_string());
        let err = GamesRepository::prepare_insert(game, 0).unwrap_err().message();
        assert!(err.contains("单个文件名"), "{invalid}");
    }
}

#[test]
fn directory_only_game_is_local_and_empty_executable_becomes_null() {
    let mut local = insert_data("custom", None, Vec::new());
    local.localpath = Some(s("games"));
    local.executable = Some(s("   "));
    let (row, sources) = GamesRepository::prepare_insert(local, 9).unwrap();
    assert_eq!(row.localpath, Some(s("games")));
    assert_eq!(row.executable, None);
    assert!(sources.is_empty());
}

#[test]
fn insert_takes_date_from_first_source_and_default_status() {
    let game = insert_data(
        "mixed",
        None,
        vec![
            source("vndb", "v1", obj(vec![("name", jstr("Title"))])),
            source("bgm", "1", obj(vec![("name", jstr("标题")), ("date", jstr(" 2024-01-02 "))])),
        ],
    );
    let (row, sources) = GamesRepository::prepare_insert(game, 1700000000).unwrap();
    assert_eq!(row.date, Some(s("2024-01-02")));
    assert_eq!(row.clear, Some(DEFAULT_PLAY_STATUS));
    assert_eq!(row.created_at, Some(1700000000));
    assert_eq!(row.updated_at, Some(1700000000));
    assert_eq!(sources.len(), 2);

    let mut dated = insert_data("bgm", None, vec![]);
    dated.date = Some(s("2020-05-05"));
    dated.clear = Some(3);
    let (row, _) = GamesRepository::prepare_insert(dated, 0).unwrap();
    assert_eq!(row.date, Some(s("2020-05-05")));
    assert_eq!(row.clear, Some(3));
}

#[test]
fn cleans_empty_source_metadata_before_insert() {
    let game = insert_data(
        "vndb",
        None,
        vec![source(
            "vndb",
            "v1",
            obj(vec![
                ("name", jstr("标题")),
                ("tags", JsonValue::Array(vec![])),
                ("aliases", JsonValue::Null),
                ("developer", jstr("")),
                ("nested", obj(vec![("empty", JsonValue::Array(vec![]))])),
                ("score", JsonValue::Number(s("0"))),
                ("nsfw", JsonValue::Bool(false)),
            ]),
        )],
    );
    let (_, sources) = GamesRepository::prepare_insert(game, 0).unwrap();
    assert_eq!(
        sources[0].data,
        Some(obj(vec![
            ("name", jstr("标题")),
            ("score", JsonValue::Number(s("0"))),
            ("nsfw", JsonValue::Bool(false)),
        ]))
    );
}

#[test]
fn source_date_is_read_trimmed() {
    assert_eq!(GamesRepository::extract_source_date(&Some(obj(vec![("date", jstr(" 2001 "))]))), Some(s("2001")));
    assert_eq!(GamesRepository::extract_source_date(&Some(obj(vec![("date", jstr("  "))]))), None);
    assert_eq!(GamesRepository::extract_source_date(&Some(obj(vec![("date", JsonValue::Number(s("1")))]))), None);
    assert_eq!(GamesRepository::extract_source_date(&None), None);
}

#[test]
fn source_date_follows_the_priority_then_the_name() {
    let es = vec![(s("zeta"), Some(s("z"))), (s("alpha"), Some(s("a"))), (s("vndb"), None)];
    assert_eq!(GamesRepository::resolve_source_date(&es), Some(s("a")));
    let es = vec![(s("alpha"), Some(s("a"))), (s("kun"), Some(s("k"))), (s("vndb"), Some(s("v")))];
    assert_eq!(GamesRepository::resolve_source_date(&es), Some(s("v")));
    let es = vec![(s("bgm"), Some(s("old"))), (s("bgm"), None), (s("ymgal"), Some(s("y")))];
    assert_eq!(GamesRepository::resolve_source_date(&es), Some(s("y")));
    assert_eq!(GamesRepository::resolve_source_date(&vec![(s("vndb"), None)]), None);
}

#[test]
fn writes_and_updates_game_aggregate_dates() {
    let current = vec![
        (s("bgm"), Some(obj(vec![("name", jstr("标题")), ("date", jstr("2024-01-02"))]))),
        (s("vndb"), Some(obj(vec![("name", jstr("Title"))]))),
    ];
    let update = UpdateGameData {
        upsert_sources: Some(vec![source("bgm", "1", obj(vec![("name", jstr("新标题")), ("date", jstr("2025-01-01"))]))]),
        ..Default::default()
    };
    assert!(GamesRepository::date_needs_resolution(&update));
    let updated = GamesRepository::normalize_update_date(&current, update);
    assert_eq!(updated.date, Some(Some(s("2025-01-01"))));

    let after_upsert = vec![
        (s("bgm"), Some(obj(vec![("name", jstr("新标题")), ("date", jstr("2025-01-01"))]))),
        (s("vndb"), Some(obj(vec![("name", jstr("Title"))]))),
    ];
    let cleared = UpdateGameData { date: Some(None), ..Default::default() };
    let normalized = GamesRepository::normalize_update_date(&after_upsert, cleared);
    assert_eq!(normalized.date, Some(Some(s("2025-01-01"))));

    let switched = UpdateGameData { id_type: Some(s("vndb")), ..Default::default() };
    assert!(!GamesRepository::date_needs_resolution(&switched));
    let switched = GamesRepository::normalize_update_date(&after_upsert, switched);
    assert_eq!(switched.date, None);
    assert_eq!(switched.id_type, Some(s("vndb")));

    let removed = UpdateGameData { remove_sources: Some(vec![s("bgm")]), ..Default::default() };
    let removed = GamesRepository::normalize_update_date(&after_upsert, removed);
    assert_eq!(removed.date, Some(None));

    let given = UpdateGameData {
        date: Some(Some(s("1999"))),
        remove_sources: Some(vec![s("bgm")]),
        ..Default::default()
    };
    assert_eq!(GamesRepository::normalize_update_date(&after_upsert, given).date, Some(Some(s("1999"))));
}

#[test]
fn merged_sources_drop_removed_and_append_written() {
    let current = vec![(s("bgm"), Some(obj(vec![("date", jstr("1"))]))), (s("vndb"), None)];
    let merged = GamesRepository::merged_source_dates(
        &current,
        &vec![s("vndb")],
        &vec![source("kun", "k", obj(vec![("date", jstr("2"))]))],
    );
    assert_eq!(merged, vec![(s("bgm"), Some(s("1"))), (s("kun"), Some(s("2")))]);
}

#[test]
fn preserves_split_path_fields_and_cascades_directory_clear() {
    let moved = UpdateGameData { localpath: Some(Some(s("games/second"))), ..Default::default() };
    assert!(GamesRepository::path_state_needs_current(&moved));
    let moved = GamesRepository::normalize_update_path_state(&Some(s("games/first")), &Some(s("game.exe")), moved)
        .unwrap();
    assert_eq!(moved.localpath, Some(Some(s("games/second"))));
    assert_eq!(moved.executable, None);

    let cleared = UpdateGameData {
        localpath: Some(None),
        executable: Some(Some(s("ignored.exe"))),
        ..Default::default()
    };
    let cleared =
        GamesRepository::normalize_update_path_state(&Some(s("games/second")), &Some(s("game.exe")), cleared).unwrap();
    assert_eq!(cleared.localpath, Some(None));
    assert_eq!(cleared.executable, Some(None));

    let orphan = UpdateGameData { executable: Some(Some(s("a.exe"))), ..Default::default() };
    let err = GamesRepository::normalize_update_path_state(&None, &None, orphan).unwrap_err();
    assert_eq!(err.message(), "executable 不能在 localpath 为空时单独存在");

    let untouched = UpdateGameData { savepath: Some(None), ..Default::default() };
    assert!(!GamesRepository::path_state_needs_current(&untouched));
    assert!(GamesRepository::normalize_update_path_state(&None, &Some(s("bad/x")), untouched).is_ok());
}

#[test]
fn update_row_writes_given_columns_only() {
    let update = UpdateGameData {
        id_type: Some(s("vndb")),
        date: Some(Some(s("2025"))),
        clear: Some(None),
        upsert_sources: Some(vec![source("vndb", "v1", obj(vec![]))]),
        remove_sources: Some(vec![s("bgm")]),
        ..Default::default()
    };
    let (row, upserts, removes) = GamesRepository::build_update_row(update, 77);
    assert_eq!(row.id_type, Some(s("vndb")));
    assert_eq!(row.date, Some(Some(s("2025"))));
    assert_eq!(row.clear, Some(None));
    assert_eq!(row.localpath, None);
    assert_eq!(row.updated_at, 77);
    assert_eq!(upserts.len(), 1);
    assert_eq!(removes, vec![s("bgm")]);
}

#[test]
fn batch_counts_successes_and_failures() {
    let mut progress = BatchProgress::new(3);
    progress.record_success(full_game(10, "a"));
    progress.record_failure(1, s("boom"));
    progress.record_success(full_game(12, "c"));
    let result = progress.finish();
    assert_eq!(result.total, 3);
    assert_eq!(result.success, 2);
    assert_eq!(result.failed, 1);
    assert_eq!(result.ids, vec![10, 12]);
    assert_eq!(result.errors[0].index, 1);
    assert_eq!(result.errors[0].message, "boom");

    let failed = GamesRepository::build_batch_failure_result(2, s("db down"));
    assert_eq!(failed.success, 0);
    assert_eq!(failed.failed, 2);
    assert_eq!(failed.errors[1].index, 1);
    assert_eq!(failed.errors[1].message, "db down");
    assert!(failed.ids.is_empty());
}

#[test]
fn listing_orders_by_the_chosen_value_then_id() {
    let term = |key, descending, missing_last| OrderTerm { key, descending, missing_last };
    assert_eq!(
        GamesRepository::id_order_plan(SortOption::Addtime, SortOrder::Desc),
        Some(vec![term(OrderKey::Id, true, false)])
    );
    assert_eq!(
        GamesRepository::id_order_plan(SortOption::LastPlayed, SortOrder::Asc),
        Some(vec![term(OrderKey::LastPlayed, false, true), term(OrderKey::Id, false, false)])
    );
    assert_eq!(
        GamesRepository::id_order_plan(SortOption::UserRatingRank, SortOrder::Asc),
        Some(vec![term(OrderKey::UserRating, true, true), term(OrderKey::Id, false, false)])
    );
    assert_eq!(
        GamesRepository::id_order_plan(SortOption::BGMRank, SortOrder::Asc),
        Some(vec![
            term(OrderKey::BgmScore, true, true),
            term(OrderKey::BgmRank, false, true),
            term(OrderKey::Id, false, false),
        ])
    );
    assert_eq!(GamesRepository::id_order_plan(SortOption::Namesort, SortOrder::Asc), None);
}

#[test]
fn games_read_are_put_in_the_asked_order() {
    let games = vec![full_game(3, "x"), full_game(1, "old"), full_game(2, "y"), full_game(1, "new")];
    let ordered = GamesRepository::order_games_by_ids(&vec![1, 5, 3, 1, 2], games);
    let ids: Vec<i32> = ordered.iter().map(|g| g.id).collect();
    assert_eq!(ids, vec![1, 3, 2]);
    assert_eq!(ordered[0].id_type, "new");
    assert!(GamesRepository::order_games_by_ids(&vec![], vec![full_game(1, "a")]).is_empty());
}

#[test]
fn clock_gives_a_time_stamp() {
    let a = now_timestamp();
    let b = now_timestamp();
    assert!(b >= a || a - b < 5);
}

#[test]
fn direction_flips_values_but_keeps_missing_last_and_id_ties() {
    for option in [SortOption::Datetime, SortOption::LastPlayed, SortOption::BGMRank, SortOption::VNDBRank, SortOption::UserRatingRank] {
        let asc = GamesRepository::id_order_plan(option, SortOrder::Asc).unwrap();
        let desc = GamesRepository::id_order_plan(option, SortOrder::Desc).unwrap();
        assert_eq!(asc.len(), desc.len());
        for (a, d) in asc.iter().zip(desc.iter()) {
            assert_eq!(a.key, d.key);
            assert_eq!(a.missing_last, d.missing_last);
            if a.key != OrderKey::Id {
                assert!(a.missing_last);
                assert_ne!(a.descending, d.descending);
            }
        }
        assert_eq!(*asc.last().unwrap(), OrderTerm { key: OrderKey::Id, descending: false, missing_last: false });
        assert_eq!(*desc.last().unwrap(), OrderTerm { key: OrderKey::Id, descending: false, missing_last: false });
    }
}

#[test]
fn clock_seconds_are_truncated_to_the_row_width() {
    assert_eq!(clock_seconds_to_row_time(1_700_000_000), 1_700_000_000);
    assert_eq!(clock_seconds_to_row_time(4_294_967_301), 5);
    assert_eq!(clock_seconds_to_row_time(2_147_483_648), -2_147_483_648);
    assert_eq!(clock_seconds_to_row_time(-1), -1);
}
