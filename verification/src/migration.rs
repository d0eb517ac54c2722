//! Schema steps that add or drop a column only where it is needed, so that
//! running a step twice changes the schema once.

use vstd::prelude::*;
use crate::dto::{opt_view, string_views};
use crate::order::chars_equal;
use crate::text::{chars_of, push_str};

verus! {

/// Whether `column` is among the column names that a table lists.
pub open spec fn listed(names: Seq<Seq<char>>, column: Seq<char>) -> bool {
    exists|i: int| 0 <= i < names.len() && names[i] == column
}

/// `PRAGMA table_info(<table>)`: the query that lists a table's columns.
pub open spec fn table_info_statement(table: Seq<char>) -> Seq<char> {
    "PRAGMA table_info("@ + table + ")"@
}

/// `ALTER TABLE <table> ADD COLUMN <column> <type>`.
pub open spec fn add_column_statement(table: Seq<char>, column: Seq<char>, col_type: Seq<char>) -> Seq<char> {
    "ALTER TABLE "@ + table + " ADD COLUMN "@ + column + " "@ + col_type
}

/// `ALTER TABLE <table> DROP COLUMN <column>`.
pub open spec fn drop_column_statement(table: Seq<char>, column: Seq<char>) -> Seq<char> {
    "ALTER TABLE "@ + table + " DROP COLUMN "@ + column
}

/// The statement that adds `column`, unless the table already lists it.
pub open spec fn add_column_plan(
    names: Seq<Seq<char>>,
    table: Seq<char>,
    column: Seq<char>,
    col_type: Seq<char>,
) -> Option<Seq<char>> {
    if listed(names, column) {
        None
    } else {
        Some(add_column_statement(table, column, col_type))
    }
}

/// The statement that drops `column`, when the table lists it.
pub open spec fn drop_column_plan(names: Seq<Seq<char>>, table: Seq<char>, column: Seq<char>) -> Option<
    Seq<char>,
> {
    if listed(names, column) {
        Some(drop_column_statement(table, column))
    } else {
        None
    }
}

/// The query that lists the columns of `table`.
pub fn table_info_sql(table: &str) -> (sql: String)
    ensures
        sql@ == table_info_statement(table@),
{
    let mut sql = String::from_str("PRAGMA table_info(");
    push_str(&mut sql, table);
    push_str(&mut sql, ")");
    sql
}

/// Whether `column` is among `names`, the names that `PRAGMA table_info` listed.
pub fn column_listed(names: &Vec<String>, column: &str) -> (r: bool)
    ensures
        r == listed(string_views(names@), column@),
{
    let wanted = chars_of(column);
    let mut i: usize = 0;
    while i < names.len()
        invariant
            i <= names.len(),
            wanted@ == column@,
            forall|k: int| 0 <= k < i ==> (#[trigger] names@[k])@ != column@,
        decreases names.len() - i,
    {
        let name = chars_of(names[i].as_str());
        if chars_equal(&name, &wanted) {
            assert(string_views(names@)[i as int] == column@);
            return true;
        }
        i += 1;
    }
    assert forall|k: int| 0 <= k < names@.len() implies string_views(names@)[k] != column@ by {
        assert(string_views(names@)[k] == names@[k]@);
    }
    false
}

/// The statement that adds `column` to `table`, or `None` when `names`
/// already holds it.
pub fn add_column_sql(names: &Vec<String>, table: &str, column: &str, col_type: &str) -> (r: Option<
    String,
>)
    ensures
        opt_view(r) == add_column_plan(string_views(names@), table@, column@, col_type@),
{
    if column_listed(names, column) {
        return None;
    }
    let mut sql = String::from_str("ALTER TABLE ");
    push_str(&mut sql, table);
    push_str(&mut sql, " ADD COLUMN ");
    push_str(&mut sql, column);
    push_str(&mut sql, " ");
    push_str(&mut sql, col_type);
    Some(sql)
}

/// The statement that drops `column` from `table`, or `None` when `names`
/// does not hold it.
pub fn drop_column_sql(names: &Vec<String>, table: &str, column: &str) -> (r: Option<String>)
    ensures
        opt_view(r) == drop_column_plan(string_views(names@), table@, column@),
{
    if !column_listed(names, column) {
        return None;
    }
    let mut sql = String::from_str("ALTER TABLE ");
    push_str(&mut sql, table);
    push_str(&mut sql, " DROP COLUMN ");
    push_str(&mut sql, column);
    Some(sql)
}

/// The columns that hold the WebDAV settings of a user, each with its type.
pub fn webdav_config_columns() -> (cols: Vec<(&'static str, &'static str)>)
    ensures
        cols@.len() == 6,
        cols@[0].0@ == "webdav_url"@ && cols@[0].1@ == "Text"@,
        cols@[1].0@ == "webdav_username"@ && cols@[1].1@ == "Text"@,
        cols@[2].0@ == "webdav_password"@ && cols@[2].1@ == "Text"@,
        cols@[3].0@ == "webdav_root"@ && cols@[3].1@ == "Text"@,
        cols@[4].0@ == "webdav_sync_categories"@ && cols@[4].1@ == "Text"@,
        cols@[5].0@ == "webdav_enabled"@ && cols@[5].1@ == "Integer DEFAULT 0"@,
{
    let mut cols: Vec<(&'static str, &'static str)> = Vec::new();
    cols.push(("webdav_url", "Text"));
    cols.push(("webdav_username", "Text"));
    cols.push(("webdav_password", "Text"));
    cols.push(("webdav_root", "Text"));
    cols.push(("webdav_sync_categories", "Text"));
    cols.push(("webdav_enabled", "Integer DEFAULT 0"));
    cols
}

/// The column names and the statements after adding each column of `cols`
/// in turn, each step reading the names that the steps before it left.
pub open spec fn add_columns_plan(
    names: Seq<Seq<char>>,
    table: Seq<char>,
    cols: Seq<(Seq<char>, Seq<char>)>,
) -> (Seq<Seq<char>>, Seq<Seq<char>>)
    decreases cols.len(),
{
    if cols.len() == 0 {
        (names, Seq::empty())
    } else {
        let prev = add_columns_plan(names, table, cols.drop_last());
        match add_column_plan(prev.0, table, cols.last().0, cols.last().1) {
            Some(st) => (prev.0.push(cols.last().0), prev.1.push(st)),
            None => prev,
        }
    }
}

/// The column names and types of `cols`, as text.
pub open spec fn column_views(cols: Seq<(&str, &str)>) -> Seq<(Seq<char>, Seq<char>)> {
    Seq::new(cols.len(), |i: int| (cols[i].0@, cols[i].1@))
}

/// The statements that add each column of `cols` to `table` in turn, given
/// the names that the table listed before the first step: a column that
/// the table lists, or that an earlier step added, makes no statement.
pub fn add_columns_sql(names: &Vec<String>, table: &str, cols: &Vec<(&str, &str)>) -> (stmts: Vec<String>)
    ensures
        string_views(stmts@) == add_columns_plan(string_views(names@), table@, column_views(cols@)).1,
{
    let mut known: Vec<String> = Vec::new();
    let mut j: usize = 0;
    while j < names.len()
        invariant
            j <= names.len(),
            string_views(known@) == string_views(names@).take(j as int),
        decreases names.len() - j,
    {
        let ghost prev = known@;
        assert(string_views(prev).len() == j);
        let name = names[j].clone();
        known.push(name);
        proof {
            assert(known@ == prev.push(names@[j as int]));
            assert forall|k: int| 0 <= k < j + 1 implies string_views(known@)[k] == string_views(names@).take(
                j + 1,
            )[k] by {
                if k < j {
                    assert(known@[k] == prev[k]);
                    assert(string_views(prev)[k] == string_views(names@).take(j as int)[k]);
                }
            }
            assert(string_views(known@) =~= string_views(names@).take(j + 1));
        }
        j += 1;
    }
    assert(string_views(known@) =~= string_views(names@));
    let mut stmts: Vec<String> = Vec::new();
    let mut i: usize = 0;
    while i < cols.len()
        invariant
            i <= cols.len(),
            (string_views(known@), string_views(stmts@)) == add_columns_plan(
                string_views(names@),
                table@,
                column_views(cols@).take(i as int),
            ),
        decreases cols.len() - i,
    {
        let (column, col_type) = cols[i];
        let ghost before = column_views(cols@).take(i as int);
        let ghost after = column_views(cols@).take(i + 1);
        proof {
            assert(after.drop_last() =~= before);
            assert(after.last() == (column@, col_type@));
        }
        match add_column_sql(&known, table, column, col_type) {
            Some(sql) => {
                stmts.push(sql);
                known.push(String::from_str(column));
                proof {
                    assert(string_views(stmts@) =~= add_columns_plan(string_views(names@), table@, before).1.push(
                        add_column_statement(table@, column@, col_type@),
                    ));
                    assert(string_views(known@) =~= add_columns_plan(string_views(names@), table@, before).0.push(
                        column@,
                    ));
                }
            },
            None => {},
        }
        i += 1;
    }
    assert(column_views(cols@).take(cols@.len() as int) =~= column_views(cols@));
    stmts
}

proof fn lemma_add_columns_lists(names: Seq<Seq<char>>, table: Seq<char>, cols: Seq<(Seq<char>, Seq<char>)>)
    ensures
        forall|x: Seq<char>| listed(names, x) ==> #[trigger] listed(add_columns_plan(names, table, cols).0, x),
        forall|i: int| 0 <= i < cols.len() ==> listed(add_columns_plan(names, table, cols).0, (#[trigger] cols[i]).0),
    decreases cols.len(),
{
    if cols.len() > 0 {
        let init = cols.drop_last();
        lemma_add_columns_lists(names, table, init);
        let prev = add_columns_plan(names, table, init);
        let c = cols.last().0;
        match add_column_plan(prev.0, table, c, cols.last().1) {
            Some(st) => {
                let after = prev.0.push(c);
                assert forall|x: Seq<char>| listed(prev.0, x) implies #[trigger] listed(after, x) by {
                    let k = choose|k: int| 0 <= k < prev.0.len() && prev.0[k] == x;
                    assert(after[k] == x);
                }
                assert(after[prev.0.len() as int] == c);
                assert forall|i: int| 0 <= i < cols.len() implies listed(after, (#[trigger] cols[i]).0) by {
                    if i < init.len() {
                        assert(init[i] == cols[i]);
                        assert(listed(prev.0, init[i].0));
                    }
                }
            },
            None => {
                assert forall|i: int| 0 <= i < cols.len() implies listed(prev.0, (#[trigger] cols[i]).0) by {
                    if i < init.len() {
                        assert(init[i] == cols[i]);
                        assert(listed(prev.0, init[i].0));
                    }
                }
            },
        }
    }
}

proof fn lemma_add_columns_noop(names: Seq<Seq<char>>, table: Seq<char>, cols: Seq<(Seq<char>, Seq<char>)>)
    requires
        forall|i: int| 0 <= i < cols.len() ==> listed(names, (#[trigger] cols[i]).0),
    ensures
        add_columns_plan(names, table, cols) == (names, Seq::<Seq<char>>::empty()),
    decreases cols.len(),
{
    if cols.len() > 0 {
        let init = cols.drop_last();
        assert forall|i: int| 0 <= i < init.len() implies listed(names, (#[trigger] init[i]).0) by {
            assert(init[i] == cols[i]);
        }
        lemma_add_columns_noop(names, table, init);
        assert(listed(names, cols[cols.len() - 1].0));
    }
}

/// A migration that adds several columns is idempotent: afterwards the
/// table lists every column, and running it again makes no statement and
/// leaves the columns as they are.
pub proof fn lemma_add_columns_idempotent(names: Seq<Seq<char>>, table: Seq<char>, cols: Seq<(Seq<char>, Seq<char>)>)
    ensures
        forall|i: int| 0 <= i < cols.len() ==> listed(add_columns_plan(names, table, cols).0, (#[trigger] cols[i]).0),
        add_columns_plan(add_columns_plan(names, table, cols).0, table, cols) == (
            add_columns_plan(names, table, cols).0,
            Seq::<Seq<char>>::empty(),
        ),
{
    lemma_add_columns_lists(names, table, cols);
    lemma_add_columns_noop(add_columns_plan(names, table, cols).0, table, cols);
}

/// Adding a column is idempotent: once the table lists the column that a
/// step added, the same step makes no statement.
pub proof fn lemma_add_column_idempotent(
    names: Seq<Seq<char>>,
    table: Seq<char>,
    column: Seq<char>,
    col_type: Seq<char>,
)
    ensures
        add_column_plan(names.push(column), table, column, col_type) is None,
{
    assert(names.push(column)[names.len() as int] == column);
}

/// Dropping a column is idempotent: once the column is gone from the list,
/// the same step makes no statement.
pub proof fn lemma_drop_column_idempotent(names: Seq<Seq<char>>, table: Seq<char>, column: Seq<char>)
    ensures
        drop_column_plan(names.filter(|n: Seq<char>| n != column), table, column) is None,
{
    let keep = |n: Seq<char>| n != column;
    let kept = names.filter(keep);
    if listed(kept, column) {
        let i = choose|i: int| 0 <= i < kept.len() && kept[i] == column;
        names.lemma_filter_pred(keep, i);
    }
}

/// A column that a step added is one that the reverse step drops again.
pub proof fn lemma_added_column_is_dropped(
    names: Seq<Seq<char>>,
    table: Seq<char>,
    column: Seq<char>,
    col_type: Seq<char>,
)
    requires
        add_column_plan(names, table, column, col_type) is Some,
    ensures
        drop_column_plan(names.push(column), table, column) == Some(drop_column_statement(table, column)),
        drop_column_plan(names, table, column) is None,
{
    assert(names.push(column)[names.len() as int] == column);
}

} // verus!
