//! The SQL text of the listing queries: which games a listing takes, in what
//! order, and the query that reads full games by id.

use vstd::prelude::*;
use crate::games::{order_plan, GameType, GamesRepository, OrderKey, OrderTerm, SortOption, SortOrder};
use crate::text::{int_decimal, push_str, i64_decimal};

verus! {

/// The SQL value that a key stands for.
pub open spec fn key_expression(k: OrderKey) -> Seq<char> {
    match k {
        OrderKey::Id => "games.id"@,
        OrderKey::Date => "games.date"@,
        OrderKey::LastPlayed => "game_statistics.last_played"@,
        OrderKey::BgmScore => "(SELECT NULLIF(score, 0) FROM game_sources WHERE game_id = games.id AND source = 'bgm')"@,
        OrderKey::BgmRank => "(SELECT NULLIF(rank, 0) FROM game_sources WHERE game_id = games.id AND source = 'bgm')"@,
        OrderKey::VndbScore => "(SELECT NULLIF(score, 0) FROM game_sources WHERE game_id = games.id AND source = 'vndb')"@,
        OrderKey::UserRating => "games.user_rating"@,
    }
}

/// The SQL test that a key's value is missing.
pub open spec fn missing_test(k: OrderKey) -> Seq<char> {
    match k {
        OrderKey::UserRating => "(games.user_rating IS NULL OR games.user_rating <= 0)"@,
        _ => key_expression(k) + " IS NULL"@,
    }
}

/// One term of the ORDER BY: games missing the value first sorted last, then
/// the value in its direction.
pub open spec fn term_sql(t: OrderTerm) -> Seq<char> {
    let dir = if t.descending {
        " DESC"@
    } else {
        " ASC"@
    };
    if t.missing_last {
        missing_test(t.key) + " ASC, "@ + key_expression(t.key) + dir
    } else {
        key_expression(t.key) + dir
    }
}

/// The terms, separated by commas.
pub open spec fn terms_sql(ts: Seq<OrderTerm>) -> Seq<char>
    decreases ts.len(),
{
    if ts.len() == 0 {
        Seq::empty()
    } else if ts.len() == 1 {
        term_sql(ts[0])
    } else {
        terms_sql(ts.drop_last()) + ", "@ + term_sql(ts.last())
    }
}

/// The order needs the play statistics.
pub open spec fn joins_statistics(ts: Seq<OrderTerm>) -> bool {
    exists|i: int| 0 <= i < ts.len() && (#[trigger] ts[i]).key == OrderKey::LastPlayed
}

/// The filter of a listing on `games`.
pub open spec fn type_filter(g: GameType) -> Seq<char> {
    match g {
        GameType::All => ""@,
        GameType::Local => " WHERE games.localpath IS NOT NULL"@,
        GameType::Online => " WHERE games.localpath IS NULL"@,
        GameType::IsCustom => " WHERE games.id_type IN ('custom', 'Whitecloud')"@,
    }
}

/// The query that lists the ids of the games of kind `g` in the order `ts`.
pub open spec fn id_query(g: GameType, ts: Seq<OrderTerm>) -> Seq<char> {
    "SELECT games.id FROM games"@ + (if joins_statistics(ts) {
        " LEFT JOIN game_statistics ON game_statistics.game_id = games.id"@
    } else {
        Seq::empty()
    }) + type_filter(g) + " ORDER BY "@ + terms_sql(ts)
}

/// The filter of the name query, whose games table is `g`.
pub open spec fn name_filter(g: GameType) -> Seq<char> {
    match g {
        GameType::All => ""@,
        GameType::Local => " WHERE g.localpath IS NOT NULL"@,
        GameType::Online => " WHERE g.localpath IS NULL"@,
        GameType::IsCustom => " WHERE g.id_type IN ('custom', 'Whitecloud')"@,
    }
}

/// The query that reads, for the name order, each game with each of its
/// sources, rows of one game together and its sources by name.
pub open spec fn name_query(g: GameType) -> Seq<char> {
    "SELECT g.id, g.id_type, json_extract(g.custom_data, '$.name') AS custom_name, s.source, json_extract(s.data, '$.name') AS source_name, json_extract(s.data, '$.name_cn') AS source_name_cn FROM games AS g LEFT JOIN game_sources AS s ON s.game_id = g.id"@
        + name_filter(g) + " ORDER BY g.id, s.source"@
}

/// The ids in decimal, separated by commas.
pub open spec fn id_list(ids: Seq<i32>) -> Seq<char>
    decreases ids.len(),
{
    if ids.len() == 0 {
        Seq::empty()
    } else if ids.len() == 1 {
        int_decimal(ids[0] as int)
    } else {
        id_list(ids.drop_last()) + ","@ + int_decimal(ids.last() as int)
    }
}

/// The select of full games: the columns of `games` and the game's sources,
/// by name, as one JSON array.
pub open spec fn full_game_select() -> Seq<char> {
    "SELECT g.id, g.id_type, g.date, g.localpath, g.executable, g.savepath, g.autosave, g.maxbackups, g.clear, g.le_launch, g.magpie, g.webdav_sync, g.custom_data, g.created_at, g.updated_at, (SELECT json_group_array(json_object('source', source_rows.source, 'external_id', source_rows.external_id, 'data', json(source_rows.data))) FROM (SELECT source, external_id, data FROM game_sources WHERE game_id = g.id ORDER BY source) AS source_rows) AS sources_json FROM games AS g"@
}

/// The query that reads the full games with the given ids.
pub open spec fn full_games_query(ids: Seq<i32>) -> Seq<char> {
    full_game_select() + " WHERE g.id IN ("@ + id_list(ids) + ")"@
}

fn key_expression_str(k: OrderKey) -> (r: &'static str)
    ensures
        r@ == key_expression(k),
{
    match k {
        OrderKey::Id => "games.id",
        OrderKey::Date => "games.date",
        OrderKey::LastPlayed => "game_statistics.last_played",
        OrderKey::BgmScore => "(SELECT NULLIF(score, 0) FROM game_sources WHERE game_id = games.id AND source = 'bgm')",
        OrderKey::BgmRank => "(SELECT NULLIF(rank, 0) FROM game_sources WHERE game_id = games.id AND source = 'bgm')",
        OrderKey::VndbScore => "(SELECT NULLIF(score, 0) FROM game_sources WHERE game_id = games.id AND source = 'vndb')",
        OrderKey::UserRating => "games.user_rating",
    }
}

fn push_term(out: &mut String, t: OrderTerm)
    ensures
        final(out)@ == old(out)@ + term_sql(t),
{
    let ghost start = out@;
    if t.missing_last {
        match t.key {
            OrderKey::UserRating => push_str(out, "(games.user_rating IS NULL OR games.user_rating <= 0)"),
            _ => {
                push_str(out, key_expression_str(t.key));
                push_str(out, " IS NULL");
            },
        }
        push_str(out, " ASC, ");
    }
    push_str(out, key_expression_str(t.key));
    if t.descending {
        push_str(out, " DESC");
    } else {
        push_str(out, " ASC");
    }
    proof {
        if t.missing_last {
            match t.key {
                OrderKey::UserRating => {},
                _ => {
                    assert(missing_test(t.key) == key_expression(t.key) + " IS NULL"@);
                },
            }
        }
        assert(out@ =~= start + term_sql(t));
    }
}

/// The ORDER BY terms, separated by commas.
pub fn order_terms_sql(ts: &Vec<OrderTerm>) -> (r: String)
    ensures
        r@ == terms_sql(ts@),
{
    let mut out = String::new();
    let mut i: usize = 0;
    while i < ts.len()
        invariant
            i <= ts.len(),
            out@ == terms_sql(ts@.subrange(0, i as int)),
        decreases ts.len() - i,
    {
        let ghost before = out@;
        assert(ts@.subrange(0, i + 1).drop_last() =~= ts@.subrange(0, i as int));
        assert(ts@.subrange(0, i + 1).last() == ts@[i as int]);
        if i > 0 {
            push_str(&mut out, ", ");
        }
        push_term(&mut out, ts[i]);
        proof {
            if i == 0 {
                assert(out@ =~= term_sql(ts@[0]));
            } else {
                assert(out@ =~= before + ", "@ + term_sql(ts@[i as int]));
            }
        }
        i += 1;
    }
    assert(ts@.subrange(0, ts@.len() as int) =~= ts@);
    out
}

fn uses_last_played(ts: &Vec<OrderTerm>) -> (r: bool)
    ensures
        r == joins_statistics(ts@),
{
    let mut i: usize = 0;
    while i < ts.len()
        invariant
            i <= ts.len(),
            forall|j: int| 0 <= j < i ==> (#[trigger] ts@[j]).key != OrderKey::LastPlayed,
        decreases ts.len() - i,
    {
        if ts[i].key == OrderKey::LastPlayed {
            return true;
        }
        i += 1;
    }
    false
}

fn type_filter_str(g: GameType) -> (r: &'static str)
    ensures
        r@ == type_filter(g),
{
    match g {
        GameType::All => "",
        GameType::Local => " WHERE games.localpath IS NOT NULL",
        GameType::Online => " WHERE games.localpath IS NULL",
        GameType::IsCustom => " WHERE games.id_type IN ('custom', 'Whitecloud')",
    }
}

fn name_filter_str(g: GameType) -> (r: &'static str)
    ensures
        r@ == name_filter(g),
{
    match g {
        GameType::All => "",
        GameType::Local => " WHERE g.localpath IS NOT NULL",
        GameType::Online => " WHERE g.localpath IS NULL",
        GameType::IsCustom => " WHERE g.id_type IN ('custom', 'Whitecloud')",
    }
}

impl GamesRepository {
    /// The query that lists the ids of the games of kind `game_type` in the
    /// order asked; `None` for the order by name, which the application makes.
    pub fn id_query_sql(game_type: GameType, sort_option: SortOption, sort_order: SortOrder) -> (r: Option<
        String,
    >)
        ensures
            match order_plan(sort_option, sort_order) {
                Some(ts) => r is Some && r->0@ == id_query(game_type, ts),
                None => r is None,
            },
    {
        let terms = match Self::id_order_plan(sort_option, sort_order) {
            Some(ts) => ts,
            None => return None,
        };
        let mut sql = String::from_str("SELECT games.id FROM games");
        let ghost start = sql@;
        let joins = uses_last_played(&terms);
        if joins {
            push_str(&mut sql, " LEFT JOIN game_statistics ON game_statistics.game_id = games.id");
        }
        let ghost joined = sql@;
        push_str(&mut sql, type_filter_str(game_type));
        push_str(&mut sql, " ORDER BY ");
        let order = order_terms_sql(&terms);
        push_str(&mut sql, order.as_str());
        proof {
            let join_part = if joins_statistics(terms@) {
                " LEFT JOIN game_statistics ON game_statistics.game_id = games.id"@
            } else {
                Seq::<char>::empty()
            };
            assert(joined =~= start + join_part);
            assert(sql@ =~= id_query(game_type, terms@));
        }
        Some(sql)
    }

    /// The query that reads, for the name order, the games of kind
    /// `game_type` with each of their sources.
    pub fn name_query_sql(game_type: GameType) -> (r: String)
        ensures
            r@ == name_query(game_type),
    {
        let mut sql = String::from_str(
            "SELECT g.id, g.id_type, json_extract(g.custom_data, '$.name') AS custom_name, s.source, json_extract(s.data, '$.name') AS source_name, json_extract(s.data, '$.name_cn') AS source_name_cn FROM games AS g LEFT JOIN game_sources AS s ON s.game_id = g.id",
        );
        push_str(&mut sql, name_filter_str(game_type));
        push_str(&mut sql, " ORDER BY g.id, s.source");
        sql
    }

    /// The query that reads the full games with the given ids; `None` when no
    /// id is given, as then nothing is read.
    pub fn full_games_query_sql(ids: &Vec<i32>) -> (r: Option<String>)
        ensures
            ids@.len() == 0 ==> r is None,
            ids@.len() > 0 ==> r is Some && r->0@ == full_games_query(ids@),
    {
        if ids.len() == 0 {
            return None;
        }
        let mut list = String::new();
        let mut i: usize = 0;
        while i < ids.len()
            invariant
                i <= ids.len(),
                list@ == id_list(ids@.subrange(0, i as int)),
            decreases ids.len() - i,
        {
            let ghost before = list@;
            assert(ids@.subrange(0, i + 1).drop_last() =~= ids@.subrange(0, i as int));
            assert(ids@.subrange(0, i + 1).last() == ids@[i as int]);
            if i > 0 {
                push_str(&mut list, ",");
            }
            let digits = i64_decimal(ids[i] as i64);
            push_str(&mut list, digits.as_str());
            proof {
                if i == 0 {
                    assert(list@ =~= int_decimal(ids@[0] as int));
                } else {
                    assert(list@ =~= before + ","@ + int_decimal(ids@[i as int] as int));
                }
            }
            i += 1;
        }
        assert(ids@.subrange(0, ids@.len() as int) =~= ids@);
        let mut sql = String::from_str(
            "SELECT g.id, g.id_type, g.date, g.localpath, g.executable, g.savepath, g.autosave, g.maxbackups, g.clear, g.le_launch, g.magpie, g.webdav_sync, g.custom_data, g.created_at, g.updated_at, (SELECT json_group_array(json_object('source', source_rows.source, 'external_id', source_rows.external_id, 'data', json(source_rows.data))) FROM (SELECT source, external_id, data FROM game_sources WHERE game_id = g.id ORDER BY source) AS source_rows) AS sources_json FROM games AS g",
        );
        push_str(&mut sql, " WHERE g.id IN (");
        push_str(&mut sql, list.as_str());
        push_str(&mut sql, ")");
        Some(sql)
    }
}

} // verus!
