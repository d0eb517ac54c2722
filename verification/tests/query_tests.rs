use reina_core::games::{GameType, GamesRepository, SortOption, SortOrder};

#[test]
fn plain_listing_orders_by_id() {
    assert_eq!(
        GamesRepository::id_query_sql(GameType::All, SortOption::Addtime, SortOrder::Desc),
        Some("SELECT games.id FROM games ORDER BY games.id DESC".to_string())
    );
}

#[test]
fn last_played_listing_joins_statistics_and_puts_unplayed_last() {
    assert_eq!(
        GamesRepository::id_query_sql(GameType::Local, SortOption::LastPlayed, SortOrder::Asc),
        Some(
            "SELECT games.id FROM games LEFT JOIN game_statistics ON game_statistics.game_id = games.id WHERE games.localpath IS NOT NULL ORDER BY game_statistics.last_played IS NULL ASC, game_statistics.last_played ASC, games.id ASC"
                .to_string()
        )
    );
}

#[test]
fn user_rating_listing_puts_unrated_last_and_best_first() {
    assert_eq!(
        GamesRepository::id_query_sql(GameType::IsCustom, SortOption::UserRatingRank, SortOrder::Asc),
        Some(
            "SELECT games.id FROM games WHERE games.id_type IN ('custom', 'Whitecloud') ORDER BY (games.user_rating IS NULL OR games.user_rating <= 0) ASC, games.user_rating DESC, games.id ASC"
                .to_string()
        )
    );
}

#[test]
fn bangumi_listing_orders_by_score_then_rank() {
    let sql = GamesRepository::id_query_sql(GameType::Online, SortOption::BGMRank, SortOrder::Desc).unwrap();
    assert_eq!(
        sql,
        "SELECT games.id FROM games WHERE games.localpath IS NULL ORDER BY (SELECT NULLIF(score, 0) FROM game_sources WHERE game_id = games.id AND source = 'bgm') IS NULL ASC, (SELECT NULLIF(score, 0) FROM game_sources WHERE game_id = games.id AND source = 'bgm') ASC, (SELECT NULLIF(rank, 0) FROM game_sources WHERE game_id = games.id AND source = 'bgm') IS NULL ASC, (SELECT NULLIF(rank, 0) FROM game_sources WHERE game_id = games.id AND source = 'bgm') DESC, games.id ASC"
    );
    assert_eq!(GamesRepository::id_query_sql(GameType::All, SortOption::Namesort, SortOrder::Asc), None);
}

#[test]
fn name_query_filters_by_kind() {
    let sql = GamesRepository::name_query_sql(GameType::Online);
    assert!(sql.starts_with("SELECT g.id, g.id_type, json_extract(g.custom_data, '$.name') AS custom_name"));
    assert!(sql.ends_with(" WHERE g.localpath IS NULL ORDER BY g.id, s.source"));
    assert!(GamesRepository::name_query_sql(GameType::All).ends_with("s.game_id = g.id ORDER BY g.id, s.source"));
}

#[test]
fn full_games_query_lists_the_ids() {
    assert_eq!(GamesRepository::full_games_query_sql(&vec![]), None);
    let sql = GamesRepository::full_games_query_sql(&vec![3, -1, 20]).unwrap();
    assert!(sql.starts_with("SELECT g.id, g.id_type, g.date,"));
    assert!(sql.ends_with(" FROM games AS g WHERE g.id IN (3,-1,20)"));
}
