use reina_core::games::SortOrder;
use reina_core::name_sort::{
    chosen_name_of, group_name_rows, name_sort_key, name_sorted_ids, sort_name_keys, to_sort_key, NameKey,
    NameSortRow,
};

fn s(v: &str) -> String {
    v.to_string()
}

fn row(id: i32, id_type: &str, custom: Option<&str>, source: Option<(&str, Option<&str>, Option<&str>)>) -> NameSortRow {
    NameSortRow {
        id,
        id_type: s(id_type),
        custom_name: custom.map(s),
        source: source.map(|(src, _, _)| s(src)),
        source_name: source.and_then(|(_, n, _)| n.map(s)),
        source_name_cn: source.and_then(|(_, _, cn)| cn.map(s)),
    }
}

#[test]
fn sort_keys_are_lower_case_or_pinyin() {
    assert_eq!(to_sort_key("Beta GAME", false), "beta game");
    assert_eq!(to_sort_key("甲", true), "jia");
    assert_eq!(to_sort_key("乙", true), "yi");
    assert_eq!(to_sort_key("A甲b", true), "ajiab");
    assert_eq!(to_sort_key("", true), "");
}

#[test]
fn sorts_names_with_custom_override_and_stable_id_tie_breaker() {
    let rows = vec![
        row(1, "bgm", None, Some(("bgm", Some("Beta"), Some("乙")))),
        row(2, "bgm", Some("Alpha"), Some(("bgm", Some("Zulu"), Some("甲")))),
    ];
    let ids = name_sorted_ids(&rows, SortOrder::Asc, &Some(s("en-US")));
    assert_eq!(ids, vec![2, 1]);
}

#[test]
fn chinese_listing_sorts_by_pinyin() {
    let rows = vec![
        row(1, "bgm", None, Some(("bgm", Some("Alpha"), Some("乙")))),
        row(2, "bgm", None, Some(("bgm", Some("Zulu"), Some("甲")))),
    ];
    assert_eq!(name_sorted_ids(&rows, SortOrder::Asc, &Some(s("zh-CN"))), vec![2, 1]);
    assert_eq!(name_sorted_ids(&rows, SortOrder::Asc, &None), vec![1, 2]);
}

#[test]
fn unnamed_games_come_last_in_both_directions_and_ties_go_by_id() {
    let rows = vec![
        row(5, "custom", None, None),
        row(4, "custom", Some("same"), None),
        row(3, "custom", Some("Same"), None),
        row(2, "custom", Some("b"), None),
        row(1, "custom", Some("  "), None),
    ];
    assert_eq!(name_sorted_ids(&rows, SortOrder::Asc, &None), vec![2, 3, 4, 1, 5]);
    assert_eq!(name_sorted_ids(&rows, SortOrder::Desc, &None), vec![3, 4, 2, 1, 5]);
}

#[test]
fn name_comes_from_the_kind_then_the_priority_sources() {
    let rows = vec![
        row(1, "vndb", None, Some(("bgm", Some("FromBgm"), None))),
        row(1, "vndb", None, Some(("vndb", Some("FromVndb"), None))),
        row(2, "mixed", None, Some(("kun", Some("FromKun"), None))),
        row(2, "mixed", None, Some(("ymgal", Some("  "), Some("云")))),
        row(3, "ymgal", None, Some(("ymgal", None, None))),
        row(3, "ymgal", None, Some(("bgm", Some("Ignored"), None))),
    ];
    let entries = group_name_rows(&rows);
    assert_eq!(entries.len(), 3);
    assert_eq!(entries[0].sources.len(), 2);
    assert_eq!(chosen_name_of(&entries[0], false), Some(s("FromVndb")));
    assert_eq!(chosen_name_of(&entries[1], false), Some(s("FromKun")));
    assert_eq!(chosen_name_of(&entries[1], true), Some(s("云")));
    assert_eq!(chosen_name_of(&entries[2], false), None);
    assert_eq!(name_sort_key(&entries[0], false), Some(s("fromvndb")));
    assert_eq!(name_sort_key(&entries[2], true), None);
}

#[test]
fn key_sort_orders_and_keeps_every_key() {
    let key = |k: Option<&str>, id: i32| NameKey { key: k.map(|v| v.chars().collect()), id };
    let sorted = sort_name_keys(vec![key(None, 1), key(Some("b"), 2), key(Some("a"), 4), key(Some("a"), 3)], false);
    let ids: Vec<i32> = sorted.iter().map(|k| k.id).collect();
    assert_eq!(ids, vec![3, 4, 2, 1]);
}

#[test]
fn rows_in_id_order_list_each_game_once() {
    let rows = vec![
        row(1, "mixed", None, Some(("bgm", Some("Kappa"), None))),
        row(1, "mixed", None, Some(("vndb", Some("Alpha"), None))),
        row(2, "custom", None, None),
        row(5, "bgm", None, Some(("bgm", Some("Beta"), None))),
        row(5, "bgm", None, Some(("vndb", Some("Zeta"), None))),
    ];
    let mut ids = name_sorted_ids(&rows, SortOrder::Desc, &None);
    assert_eq!(ids.len(), 3);
    ids.sort();
    assert_eq!(ids, vec![1, 2, 5]);
}
