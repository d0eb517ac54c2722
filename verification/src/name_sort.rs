//! Listing games by name: each game's name is chosen as the front end shows
//! it, turned into a sort key (pinyin for Chinese, lower case otherwise), and
//! the games are ordered by key, games without a name last, ties by id.

use vstd::prelude::*;
use pinyin::ToPinyin;
use crate::dto::opt_view;
use crate::games::{priority_sources, SortOrder};
use crate::order::{lex_lt, chars_less, chars_equal, lemma_lex_asymmetric, lemma_lex_total, lemma_lex_transitive, lemma_lex_irreflexive};
use crate::text::{is_blank, trim, chars_of, str_is_blank, trim_string, push_str};

verus! {

broadcast use {vstd::seq_lib::group_to_multiset_ensures, vstd::multiset::group_multiset_axioms};

/// One row of the name query: a game, and one of its sources if it has any.
#[derive(Debug)]
pub struct NameSortRow {
    pub id: i32,
    pub id_type: String,
    pub custom_name: Option<String>,
    pub source: Option<String>,
    pub source_name: Option<String>,
    pub source_name_cn: Option<String>,
}

/// The names one source gives a game.
#[derive(Debug)]
pub struct SourceNames {
    pub source: String,
    pub name: Option<String>,
    pub name_cn: Option<String>,
}

/// A game with the names its sources give.
#[derive(Debug)]
pub struct NameSortEntry {
    pub id: i32,
    pub id_type: String,
    pub custom_name: Option<String>,
    pub sources: Vec<SourceNames>,
}

pub type SourceNamesModel = (Seq<char>, Option<Seq<char>>, Option<Seq<char>>);

pub struct EntryModel {
    pub id: i32,
    pub id_type: Seq<char>,
    pub custom_name: Option<Seq<char>>,
    pub sources: Seq<SourceNamesModel>,
}

pub open spec fn source_names_model(s: SourceNames) -> SourceNamesModel {
    (s.source@, opt_view(s.name), opt_view(s.name_cn))
}

pub open spec fn entry_model(e: NameSortEntry) -> EntryModel {
    EntryModel {
        id: e.id,
        id_type: e.id_type@,
        custom_name: opt_view(e.custom_name),
        sources: Seq::new(e.sources@.len(), |i: int| source_names_model(e.sources@[i])),
    }
}

pub open spec fn entry_models(es: Seq<NameSortEntry>) -> Seq<EntryModel> {
    Seq::new(es.len(), |i: int| entry_model(es[i]))
}

/// One row added: a row of the game last added adds its source to it, any
/// other row starts a new game.
pub open spec fn add_row(es: Seq<EntryModel>, r: NameSortRow) -> Seq<EntryModel> {
    let es2 = if es.len() > 0 && es.last().id == r.id {
        es
    } else {
        es.push(EntryModel { id: r.id, id_type: r.id_type@, custom_name: opt_view(r.custom_name), sources: Seq::empty() })
    };
    match r.source {
        Some(s) => es2.update(
            es2.len() - 1,
            EntryModel {
                sources: es2.last().sources.push((s@, opt_view(r.source_name), opt_view(r.source_name_cn))),
                ..es2.last()
            },
        ),
        None => es2,
    }
}

/// The games of the rows, rows of one game being consecutive.
pub open spec fn group_rows(rows: Seq<NameSortRow>) -> Seq<EntryModel>
    decreases rows.len(),
{
    if rows.len() == 0 {
        Seq::empty()
    } else {
        add_row(group_rows(rows.drop_last()), rows.last())
    }
}

/// A text trimmed, unless it is blank.
pub open spec fn non_empty(v: Option<Seq<char>>) -> Option<Seq<char>> {
    match v {
        Some(s) => if is_blank(s) {
            None
        } else {
            Some(trim(s))
        },
        None => None,
    }
}

/// The names a source gives; a later source of the same name replaces an earlier one.
pub open spec fn lookup_source(sources: Seq<SourceNamesModel>, key: Seq<char>) -> Option<SourceNamesModel>
    decreases sources.len(),
{
    if sources.len() == 0 {
        None
    } else if sources.last().0 == key {
        Some(sources.last())
    } else {
        lookup_source(sources.drop_last(), key)
    }
}

/// The name a source gives: in Chinese its `name_cn` before its `name`.
pub open spec fn source_name(e: EntryModel, key: Seq<char>, use_cn: bool) -> Option<Seq<char>> {
    match lookup_source(e.sources, key) {
        Some(s) => if use_cn {
            match non_empty(s.2) {
                Some(n) => Some(n),
                None => non_empty(s.1),
            }
        } else {
            non_empty(s.1)
        },
        None => None,
    }
}

/// The name of the first priority source, from the `k`-th on, that gives one.
pub open spec fn priority_name(e: EntryModel, use_cn: bool, k: int) -> Option<Seq<char>>
    decreases 4 - k,
{
    if k < 0 || k >= 4 {
        None
    } else {
        match source_name(e, priority_sources()[k], use_cn) {
            Some(n) => Some(n),
            None => priority_name(e, use_cn, k + 1),
        }
    }
}

/// Kinds of games whose name comes from several sources.
pub open spec fn is_mixed_kind(id_type: Seq<char>) -> bool {
    id_type == "mixed"@ || id_type == "custom"@ || id_type == "Whitecloud"@
}

/// The name a game is sorted by, before it becomes a key: the user's name,
/// else the name of the source of the game's kind, else the first priority
/// source's name.
pub open spec fn chosen_name(e: EntryModel, use_cn: bool) -> Option<Seq<char>> {
    match non_empty(e.custom_name) {
        Some(c) => Some(c),
        None => if lookup_source(e.sources, e.id_type) is Some && !is_mixed_kind(e.id_type) {
            source_name(e, e.id_type, use_cn)
        } else {
            priority_name(e, use_cn, 0)
        },
    }
}

/// The name a game is sorted by: the user's own name when it is not blank;
/// else, for a game of a single-source kind that has that source, the name
/// that source gives; else the name of the first of `bgm`, `vndb`, `ymgal`,
/// `kun` that gives one, whatever the later ones give; else none.
pub proof fn lemma_chosen_name_priority(e: EntryModel, use_cn: bool)
    ensures
        non_empty(e.custom_name) matches Some(c) ==> chosen_name(e, use_cn) == Some(c),
        ({
            let kind = e.id_type;
            let single = !(kind == "mixed"@ || kind == "custom"@ || kind == "Whitecloud"@);
            &&& (non_empty(e.custom_name) is None && single && lookup_source(e.sources, kind) is Some) ==> chosen_name(
                e,
                use_cn,
            ) == source_name(e, kind, use_cn)
        }),
        ({
            let kind = e.id_type;
            let single = !(kind == "mixed"@ || kind == "custom"@ || kind == "Whitecloud"@);
            let fallback = non_empty(e.custom_name) is None && !(single && lookup_source(e.sources, kind) is Some);
            let bgm = source_name(e, "bgm"@, use_cn);
            let vndb = source_name(e, "vndb"@, use_cn);
            let ymgal = source_name(e, "ymgal"@, use_cn);
            let kun = source_name(e, "kun"@, use_cn);
            &&& (fallback && bgm is Some) ==> chosen_name(e, use_cn) == bgm
            &&& (fallback && bgm is None && vndb is Some) ==> chosen_name(e, use_cn) == vndb
            &&& (fallback && bgm is None && vndb is None && ymgal is Some) ==> chosen_name(e, use_cn) == ymgal
            &&& (fallback && bgm is None && vndb is None && ymgal is None) ==> chosen_name(e, use_cn) == kun
        }),
{
    assert(priority_sources()[0] == "bgm"@);
    assert(priority_sources()[1] == "vndb"@);
    assert(priority_sources()[2] == "ymgal"@);
    assert(priority_sources()[3] == "kun"@);
    reveal_with_fuel(priority_name, 5);
}

/// What `str::to_lowercase` gives.
pub uninterp spec fn str_lowercase(s: Seq<char>) -> Seq<char>;

/// What `char::to_lowercase` gives.
pub uninterp spec fn char_lowercase(c: char) -> Seq<char>;

/// The plain pinyin (no tone) the `pinyin` crate gives for a character, if any.
pub uninterp spec fn pinyin_plain(c: char) -> Option<Seq<char>>;

/// Each character replaced by its pinyin, or lower-cased when it has none.
pub open spec fn pinyin_key(s: Seq<char>) -> Seq<char>
    decreases s.len(),
{
    if s.len() == 0 {
        Seq::empty()
    } else {
        pinyin_key(s.drop_last()) + match pinyin_plain(s.last()) {
            Some(p) => p,
            None => char_lowercase(s.last()),
        }
    }
}

/// The sort key of a name.
pub open spec fn sort_key(value: Seq<char>, use_cn: bool) -> Seq<char> {
    if use_cn {
        pinyin_key(value)
    } else {
        str_lowercase(value)
    }
}

/// The sort key of a game, if it has a name.
pub open spec fn entry_sort_key(e: EntryModel, use_cn: bool) -> Option<Seq<char>> {
    match chosen_name(e, use_cn) {
        Some(n) => Some(sort_key(n, use_cn)),
        None => None,
    }
}

/// `str::to_lowercase`.
#[verifier::external_body]
fn str_to_lowercase(s: &str) -> (r: String)
    ensures
        r@ == str_lowercase(s@),
{
    s.to_lowercase()
}

/// `char::to_lowercase`, collected.
#[verifier::external_body]
fn char_to_lowercase(c: char) -> (r: String)
    ensures
        r@ == char_lowercase(c),
{
    c.to_lowercase().collect()
}

/// `pinyin::ToPinyin::to_pinyin` for one character, in the plain style.
#[verifier::external_body]
fn char_pinyin(c: char) -> (r: Option<String>)
    ensures
        opt_view(r) == pinyin_plain(c),
{
    match c.to_pinyin() {
        Some(p) => Some(p.plain().to_string()),
        None => None,
    }
}

/// The sort key of a name: in Chinese each character becomes its pinyin
/// (lower-cased when it has none), otherwise the name is lower-cased.
pub fn to_sort_key(value: &str, use_cn: bool) -> (r: String)
    ensures
        r@ == sort_key(value@, use_cn),
{
    if !use_cn {
        return str_to_lowercase(value);
    }
    let v = chars_of(value);
    let mut out = String::new();
    let mut i: usize = 0;
    while i < v.len()
        invariant
            i <= v.len(),
            out@ == pinyin_key(v@.subrange(0, i as int)),
        decreases v.len() - i,
    {
        assert(v@.subrange(0, i + 1).drop_last() =~= v@.subrange(0, i as int));
        let c = v[i];
        match char_pinyin(c) {
            Some(p) => push_str(&mut out, p.as_str()),
            None => {
                let l = char_to_lowercase(c);
                push_str(&mut out, l.as_str());
            },
        }
        i += 1;
    }
    assert(v@.subrange(0, v@.len() as int) =~= v@);
    out
}

fn copy_opt(o: &Option<String>) -> (r: Option<String>)
    ensures
        r == *o,
{
    match o {
        Some(s) => Some(s.clone()),
        None => None,
    }
}

/// The games of the rows, in the order of the rows; the rows of one game
/// come one after the other.
pub fn group_name_rows(rows: &Vec<NameSortRow>) -> (es: Vec<NameSortEntry>)
    ensures
        entry_models(es@) == group_rows(rows@),
{
    let mut es: Vec<NameSortEntry> = Vec::new();
    let mut i: usize = 0;
    while i < rows.len()
        invariant
            i <= rows.len(),
            entry_models(es@) == group_rows(rows@.subrange(0, i as int)),
        decreases rows.len() - i,
    {
        assert(rows@.subrange(0, i + 1).drop_last() =~= rows@.subrange(0, i as int));
        let r = &rows[i];
        let ghost before = entry_models(es@);
        let same = es.len() > 0 && es[es.len() - 1].id == r.id;
        if !same {
            let e = NameSortEntry {
                id: r.id,
                id_type: r.id_type.clone(),
                custom_name: copy_opt(&r.custom_name),
                sources: Vec::new(),
            };
            let ghost prev = es@;
            es.push(e);
            assert(entry_model(e).sources =~= Seq::<SourceNamesModel>::empty());
            assert(entry_models(es@) =~= entry_models(prev).push(entry_model(e)));
        }
        let ghost es2 = entry_models(es@);
        match &r.source {
            Some(s) => {
                let mut last = es.pop().unwrap();
                let ghost last_before = entry_model(last);
                let ghost popped = es@;
                let names = SourceNames {
                    source: s.clone(),
                    name: copy_opt(&r.source_name),
                    name_cn: copy_opt(&r.source_name_cn),
                };
                let ghost old_sources = last.sources@;
                last.sources.push(names);
                assert(entry_model(last).sources =~= last_before.sources.push(source_names_model(names)));
                es.push(last);
                assert(entry_models(es@) =~= es2.update(
                    es2.len() - 1,
                    EntryModel { sources: es2.last().sources.push(source_names_model(names)), ..es2.last() },
                ));
            },
            None => {},
        }
        i += 1;
    }
    assert(rows@.subrange(0, rows@.len() as int) =~= rows@);
    es
}

fn non_empty_of(o: &Option<String>) -> (r: Option<String>)
    ensures
        opt_view(r) == non_empty(opt_view(*o)),
{
    match o {
        Some(s) => {
            if str_is_blank(s.as_str()) {
                None
            } else {
                Some(trim_string(s.as_str()))
            }
        },
        None => None,
    }
}

fn lookup_source_of(e: &NameSortEntry, key: &String) -> (r: Option<usize>)
    ensures
        match r {
            Some(i) => i < e.sources@.len() && lookup_source(entry_model(*e).sources, key@) == Some(
                source_names_model(e.sources@[i as int]),
            ),
            None => lookup_source(entry_model(*e).sources, key@) is None,
        },
{
    let ghost m = entry_model(*e).sources;
    let mut j: usize = e.sources.len();
    assert(m.subrange(0, j as int) =~= m);
    while j > 0
        invariant
            j <= e.sources.len(),
            m == entry_model(*e).sources,
            lookup_source(m, key@) == lookup_source(m.subrange(0, j as int), key@),
        decreases j,
    {
        assert(m.subrange(0, j as int).drop_last() =~= m.subrange(0, j - 1));
        if e.sources[j - 1].source == *key {
            return Some(j - 1);
        }
        j -= 1;
    }
    None
}

fn source_name_of(e: &NameSortEntry, key: &String, use_cn: bool) -> (r: Option<String>)
    ensures
        opt_view(r) == source_name(entry_model(*e), key@, use_cn),
{
    match lookup_source_of(e, key) {
        Some(i) => {
            let s = &e.sources[i];
            if use_cn {
                match non_empty_of(&s.name_cn) {
                    Some(n) => Some(n),
                    None => non_empty_of(&s.name),
                }
            } else {
                non_empty_of(&s.name)
            }
        },
        None => None,
    }
}

fn priority_source_name(k: usize) -> (s: String)
    requires
        k < 4,
    ensures
        s@ == priority_sources()[k as int],
{
    if k == 0 {
        String::from_str("bgm")
    } else if k == 1 {
        String::from_str("vndb")
    } else if k == 2 {
        String::from_str("ymgal")
    } else {
        String::from_str("kun")
    }
}

/// The name a game is sorted by, before it becomes a key.
pub fn chosen_name_of(e: &NameSortEntry, use_cn: bool) -> (r: Option<String>)
    ensures
        opt_view(r) == chosen_name(entry_model(*e), use_cn),
{
    match non_empty_of(&e.custom_name) {
        Some(c) => {
            return Some(c);
        },
        None => {},
    }
    let mixed = e.id_type == String::from_str("mixed") || e.id_type == String::from_str("custom")
        || e.id_type == String::from_str("Whitecloud");
    if lookup_source_of(e, &e.id_type).is_some() && !mixed {
        return source_name_of(e, &e.id_type, use_cn);
    }
    let mut k: usize = 0;
    while k < 4
        invariant
            k <= 4,
            non_empty(entry_model(*e).custom_name) is None,
            !(lookup_source(entry_model(*e).sources, e.id_type@) is Some && !is_mixed_kind(e.id_type@)),
            priority_name(entry_model(*e), use_cn, 0) == priority_name(entry_model(*e), use_cn, k as int),
        decreases 4 - k,
    {
        let p = priority_source_name(k);
        match source_name_of(e, &p, use_cn) {
            Some(n) => {
                return Some(n);
            },
            None => {},
        }
        k += 1;
    }
    None
}

/// The sort key of a game, if it has a name.
pub fn name_sort_key(e: &NameSortEntry, use_cn: bool) -> (r: Option<String>)
    ensures
        opt_view(r) == entry_sort_key(entry_model(*e), use_cn),
{
    match chosen_name_of(e, use_cn) {
        Some(n) => Some(to_sort_key(n.as_str(), use_cn)),
        None => None,
    }
}

// ==================== ordering ====================

/// A game's sort key and id.
#[derive(Debug)]
pub struct NameKey {
    pub key: Option<Vec<char>>,
    pub id: i32,
}

pub type NameKeyModel = (Option<Seq<char>>, i32);

pub open spec fn name_key_model(k: NameKey) -> NameKeyModel {
    (
        match k.key {
            Some(v) => Some(v@),
            None => None,
        },
        k.id,
    )
}

pub open spec fn name_key_models(s: Seq<NameKey>) -> Seq<NameKeyModel> {
    Seq::new(s.len(), |i: int| name_key_model(s[i]))
}

/// Keys in the listing's direction.
pub open spec fn key_lt(x: Seq<char>, y: Seq<char>, descending: bool) -> bool {
    if descending {
        lex_lt(y, x)
    } else {
        lex_lt(x, y)
    }
}

/// `a` is listed before `b`: a game with a key before one without; two keys
/// in the listing's direction; equal keys, or none, by ascending id.
pub open spec fn name_before(a: NameKeyModel, b: NameKeyModel, descending: bool) -> bool {
    match (a.0, b.0) {
        (None, None) => a.1 < b.1,
        (None, Some(_)) => false,
        (Some(_), None) => true,
        (Some(x), Some(y)) => if x == y {
            a.1 < b.1
        } else {
            key_lt(x, y, descending)
        },
    }
}

/// No game is listed after one it comes before.
pub open spec fn sorted_by_name(s: Seq<NameKeyModel>, descending: bool) -> bool {
    forall|i: int, j: int| 0 <= i < j < s.len() ==> !name_before(#[trigger] s[j], #[trigger] s[i], descending)
}

/// What a listing in name order means for any two games in it: a game with
/// a key comes before every game without one; ascending, a key that comes
/// first in character order comes first; descending, it comes last; games
/// with equal keys, or with none, come by ascending id.
pub proof fn lemma_name_order_meaning(s: Seq<NameKeyModel>, descending: bool, i: int, j: int)
    requires
        sorted_by_name(s, descending),
        0 <= i < s.len(),
        0 <= j < s.len(),
        i != j,
    ensures
        (s[i].0 is Some && s[j].0 is None) ==> i < j,
        (s[i].0 matches Some(x) && s[j].0 matches Some(y) && !descending && lex_lt(x, y)) ==> i < j,
        (s[i].0 matches Some(x) && s[j].0 matches Some(y) && descending && lex_lt(x, y)) ==> j < i,
        (s[i].0 == s[j].0 && s[i].1 < s[j].1) ==> i < j,
{
    lemma_lex_asymmetric(
        match s[i].0 { Some(x) => x, None => Seq::empty() },
        match s[j].0 { Some(y) => y, None => Seq::empty() },
    );
    lemma_lex_irreflexive(match s[i].0 { Some(x) => x, None => Seq::empty() });
    if i < j {
        assert(!name_before(s[j], s[i], descending));
    } else {
        assert(!name_before(s[i], s[j], descending));
    }
}

proof fn lemma_key_lt_facts(x: Seq<char>, y: Seq<char>, z: Seq<char>, d: bool)
    ensures
        !(key_lt(x, y, d) && key_lt(y, x, d)),
        x == y || key_lt(x, y, d) || key_lt(y, x, d),
        key_lt(x, y, d) && key_lt(y, z, d) ==> key_lt(x, z, d),
        !key_lt(x, x, d),
{
    lemma_lex_asymmetric(x, y);
    lemma_lex_total(x, y);
    lemma_lex_irreflexive(x);
    if d {
        if lex_lt(y, x) && lex_lt(z, y) {
            lemma_lex_transitive(z, y, x);
        }
    } else {
        if lex_lt(x, y) && lex_lt(y, z) {
            lemma_lex_transitive(x, y, z);
        }
    }
}

/// Listing before is asymmetric.
pub proof fn lemma_name_before_asymmetric(a: NameKeyModel, b: NameKeyModel, d: bool)
    ensures
        !(name_before(a, b, d) && name_before(b, a, d)),
{
    if a.0 is Some && b.0 is Some {
        lemma_key_lt_facts(a.0->0, b.0->0, a.0->0, d);
    }
}

/// Whatever `b` is, a game listed before `c` is also before `b` or `b` is before `c`.
pub proof fn lemma_name_before_split(a: NameKeyModel, b: NameKeyModel, c: NameKeyModel, d: bool)
    requires
        name_before(a, c, d),
    ensures
        name_before(a, b, d) || name_before(b, c, d),
{
    if a.0 is Some && b.0 is Some && c.0 is Some {
        let (x, y, z) = (a.0->0, b.0->0, c.0->0);
        lemma_key_lt_facts(x, y, z, d);
        lemma_key_lt_facts(y, x, z, d);
        lemma_key_lt_facts(y, z, x, d);
        lemma_key_lt_facts(x, z, y, d);
    }
}

proof fn lemma_insert_keeps_sorted(s: Seq<NameKeyModel>, p: int, x: NameKeyModel, d: bool)
    requires
        sorted_by_name(s, d),
        0 <= p <= s.len(),
        forall|q: int| p <= q < s.len() ==> name_before(x, #[trigger] s[q], d),
        p > 0 ==> !name_before(x, s[p - 1], d),
    ensures
        sorted_by_name(s.insert(p, x), d),
{
    let t = s.insert(p, x);
    assert forall|i: int, j: int| 0 <= i < j < t.len() implies !name_before(#[trigger] t[j], #[trigger] t[i], d) by {
        if i == p {
            assert(name_before(x, s[j - 1], d));
            lemma_name_before_asymmetric(x, s[j - 1], d);
        } else if j == p {
            if i < p - 1 {
                assert(!name_before(s[p - 1], s[i], d));
                if name_before(x, s[i], d) {
                    lemma_name_before_split(x, s[p - 1], s[i], d);
                }
            }
        } else if j < p {
            assert(t[i] == s[i] && t[j] == s[j]);
        } else if i > p {
            assert(t[i] == s[i - 1] && t[j] == s[j - 1]);
        } else {
            assert(t[i] == s[i] && t[j] == s[j - 1]);
        }
    }
}

fn name_before_exec(a: &NameKey, b: &NameKey, descending: bool) -> (r: bool)
    ensures
        r == name_before(name_key_model(*a), name_key_model(*b), descending),
{
    match (&a.key, &b.key) {
        (None, None) => a.id < b.id,
        (None, Some(_)) => false,
        (Some(_), None) => true,
        (Some(x), Some(y)) => {
            if chars_equal(x, y) {
                a.id < b.id
            } else if descending {
                chars_less(y, x)
            } else {
                chars_less(x, y)
            }
        },
    }
}

/// The keys in listing order: the same keys, each game after every game it
/// does not come before.
pub fn sort_name_keys(keys: Vec<NameKey>, descending: bool) -> (r: Vec<NameKey>)
    ensures
        name_key_models(r@).to_multiset() == name_key_models(keys@).to_multiset(),
        sorted_by_name(name_key_models(r@), descending),
{
    let ghost all = name_key_models(keys@);
    let mut rest = keys;
    let mut out: Vec<NameKey> = Vec::new();
    assert(name_key_models(out@) =~= Seq::<NameKeyModel>::empty());
    assert(name_key_models(rest@) =~= all);
    while rest.len() > 0
        invariant
            name_key_models(out@).to_multiset().add(name_key_models(rest@).to_multiset()) == all.to_multiset(),
            sorted_by_name(name_key_models(out@), descending),
        decreases rest.len(),
    {
        let ghost rest_before = name_key_models(rest@);
        let x = rest.pop().unwrap();
        assert(rest_before =~= name_key_models(rest@).push(name_key_model(x)));
        let mut p: usize = out.len();
        while p > 0 && name_before_exec(&x, &out[p - 1], descending)
            invariant
                p <= out.len(),
                forall|q: int| p <= q < out@.len() ==> name_before(
                    name_key_model(x),
                    #[trigger] name_key_models(out@)[q],
                    descending,
                ),
            decreases p,
        {
            p -= 1;
        }
        let ghost out_before = name_key_models(out@);
        proof {
            lemma_insert_keeps_sorted(out_before, p as int, name_key_model(x), descending);
        }
        out.insert(p, x);
        assert(name_key_models(out@) =~= out_before.insert(p as int, name_key_model(x)));
        assert(name_key_models(out@).to_multiset().add(name_key_models(rest@).to_multiset()) =~= all.to_multiset());
    }
    assert(name_key_models(rest@) =~= Seq::<NameKeyModel>::empty());
    assert(name_key_models(out@).to_multiset() =~= all.to_multiset());
    out
}

/// In a listing by name, the games without a name come after all games with one.
pub proof fn lemma_unnamed_games_last(s: Seq<NameKeyModel>, d: bool)
    requires
        sorted_by_name(s, d),
    ensures
        forall|i: int, j: int| 0 <= i < j < s.len() && (#[trigger] s[i]).0 is None ==> (#[trigger] s[j]).0 is None,
{
    assert forall|i: int, j: int| 0 <= i < j < s.len() && (#[trigger] s[i]).0 is None implies (
    #[trigger] s[j]).0 is None by {
        assert(!name_before(s[j], s[i], d));
    }
}

/// In a listing by name, games with the same key (or both without one) come by ascending id.
pub proof fn lemma_equal_keys_by_id(s: Seq<NameKeyModel>, d: bool)
    requires
        sorted_by_name(s, d),
    ensures
        forall|i: int, j: int| 0 <= i < j < s.len() && (#[trigger] s[i]).0 == (#[trigger] s[j]).0 ==> s[i].1 <= s[j].1,
{
    assert forall|i: int, j: int| 0 <= i < j < s.len() && (#[trigger] s[i]).0 == (#[trigger] s[j]).0 implies s[i].1
        <= s[j].1 by {
        assert(!name_before(s[j], s[i], d));
    }
}

/// In a listing by name, of two games with different keys the one whose key
/// comes first in the listing's direction comes first.
pub proof fn lemma_keys_in_direction(s: Seq<NameKeyModel>, d: bool)
    requires
        sorted_by_name(s, d),
    ensures
        forall|i: int, j: int|
            0 <= i < j < s.len() && (#[trigger] s[i]).0 is Some && (#[trigger] s[j]).0 is Some && s[i].0 != s[j].0
                ==> key_lt(s[i].0->0, s[j].0->0, d),
{
    assert forall|i: int, j: int|
        0 <= i < j < s.len() && (#[trigger] s[i]).0 is Some && (#[trigger] s[j]).0 is Some && s[i].0 != s[j].0 implies key_lt(
        s[i].0->0,
        s[j].0->0,
        d,
    ) by {
        assert(!name_before(s[j], s[i], d));
        lemma_key_lt_facts(s[i].0->0, s[j].0->0, s[i].0->0, d);
    }
}

proof fn lemma_name_before_total(a: NameKeyModel, b: NameKeyModel, d: bool)
    ensures
        a != b ==> name_before(a, b, d) || name_before(b, a, d),
{
    if a.0 is Some && b.0 is Some {
        lemma_key_lt_facts(a.0->0, b.0->0, a.0->0, d);
    }
}

/// A listing by name leaves no choice: two listings of the same games by
/// name are the same listing.
pub proof fn lemma_name_listing_unique(s: Seq<NameKeyModel>, t: Seq<NameKeyModel>, d: bool)
    requires
        sorted_by_name(s, d),
        sorted_by_name(t, d),
        s.to_multiset() == t.to_multiset(),
    ensures
        s == t,
    decreases s.len(),
{
    s.to_multiset_ensures();
    t.to_multiset_ensures();
    if s.len() == 0 {
        assert(t.len() == 0);
        assert(s =~= t);
    } else {
        assert(t.len() == s.len());
        assert(s.contains(s[0]));
        assert(s.to_multiset().count(s[0]) > 0);
        assert(t.to_multiset().count(s[0]) > 0);
        assert(t.contains(s[0]));
        let j = choose|j: int| 0 <= j < t.len() && t[j] == s[0];
        assert(t.contains(t[0]));
        assert(t.to_multiset().count(t[0]) > 0);
        assert(s.to_multiset().count(t[0]) > 0);
        assert(s.contains(t[0]));
        let i = choose|i: int| 0 <= i < s.len() && s[i] == t[0];
        if s[0] != t[0] {
            lemma_name_before_total(s[0], t[0], d);
            if name_before(s[0], t[0], d) {
                assert(j > 0);
                assert(!name_before(t[j], t[0], d));
            } else {
                assert(i > 0);
                assert(!name_before(s[i], s[0], d));
            }
        }
        let s1 = s.drop_first();
        let t1 = t.drop_first();
        assert(s.remove(0) =~= s1);
        assert(t.remove(0) =~= t1);
        assert(s1.to_multiset() == t1.to_multiset());
        assert forall|a: int, b: int| 0 <= a < b < s1.len() implies !name_before(#[trigger] s1[b], #[trigger] s1[a], d) by {
            assert(s1[a] == s[a + 1] && s1[b] == s[b + 1]);
        }
        assert forall|a: int, b: int| 0 <= a < b < t1.len() implies !name_before(#[trigger] t1[b], #[trigger] t1[a], d) by {
            assert(t1[a] == t[a + 1] && t1[b] == t[b + 1]);
        }
        lemma_name_listing_unique(s1, t1, d);
        assert(s =~= t) by {
            assert forall|k: int| 0 <= k < s.len() implies s[k] == t[k] by {
                if k > 0 {
                    assert(s[k] == s1[k - 1] && t[k] == t1[k - 1]);
                }
            }
        }
    }
}

/// The names are shown in Chinese.
pub open spec fn is_chinese(language: Option<String>) -> bool {
    match language {
        Some(l) => l@ == "zh-CN"@,
        None => false,
    }
}

/// Each game's sort key and id.
pub open spec fn entry_keys(es: Seq<EntryModel>, use_cn: bool) -> Seq<NameKeyModel> {
    Seq::new(es.len(), |i: int| (entry_sort_key(es[i], use_cn), es[i].id))
}

/// The ids of the games of the name query's rows, listed by name: games with
/// a name by their sort key in the given direction, then the games without
/// one; equal keys by ascending id.
pub fn name_sorted_ids(rows: &Vec<NameSortRow>, sort_order: SortOrder, language: &Option<String>) -> (r:
    Vec<i32>)
    ensures
        exists|ks: Seq<NameKeyModel>|
            {
                &&& #[trigger] ks.to_multiset() == entry_keys(group_rows(rows@), is_chinese(*language)).to_multiset()
                &&& sorted_by_name(ks, sort_order == SortOrder::Desc)
                &&& r@ == Seq::new(ks.len(), |i: int| ks[i].1)
            },
{
    let use_cn = match language {
        Some(l) => *l == String::from_str("zh-CN"),
        None => false,
    };
    let descending = match sort_order {
        SortOrder::Asc => false,
        SortOrder::Desc => true,
    };
    let entries = group_name_rows(rows);
    let ghost groups = group_rows(rows@);
    let mut keys: Vec<NameKey> = Vec::new();
    let mut i: usize = 0;
    while i < entries.len()
        invariant
            i <= entries.len(),
            groups == entry_models(entries@),
            name_key_models(keys@) == entry_keys(groups, use_cn).subrange(0, i as int),
        decreases entries.len() - i,
    {
        let key = match name_sort_key(&entries[i], use_cn) {
            Some(k) => Some(chars_of(k.as_str())),
            None => None,
        };
        let nk = NameKey { key, id: entries[i].id };
        assert(groups[i as int] == entry_model(entries@[i as int]));
        assert(name_key_model(nk) == entry_keys(groups, use_cn)[i as int]);
        let ghost before = keys@;
        keys.push(nk);
        assert(name_key_models(keys@) =~= name_key_models(before).push(name_key_model(nk)));
        assert(name_key_models(keys@) =~= entry_keys(groups, use_cn).subrange(0, i + 1));
        i += 1;
    }
    assert(entry_keys(groups, use_cn).subrange(0, entries@.len() as int) =~= entry_keys(groups, use_cn));
    let sorted = sort_name_keys(keys, descending);
    let mut ids: Vec<i32> = Vec::new();
    let mut j: usize = 0;
    let ghost ks = name_key_models(sorted@);
    while j < sorted.len()
        invariant
            j <= sorted.len(),
            ks == name_key_models(sorted@),
            ids@ == Seq::new(j as nat, |k: int| ks[k].1),
        decreases sorted.len() - j,
    {
        ids.push(sorted[j].id);
        j += 1;
        assert(ids@ =~= Seq::new(j as nat, |k: int| ks[k].1));
    }
    assert(ks.to_multiset() == entry_keys(group_rows(rows@), is_chinese(*language)).to_multiset());
    ids
}

/// The rows come in ascending game id, as the name query orders them.
pub open spec fn rows_by_id(rows: Seq<NameSortRow>) -> bool {
    forall|i: int, j: int| 0 <= i < j < rows.len() ==> rows[i].id <= rows[j].id
}

/// Adding a row keeps the ids of the games before it, and the last game is
/// the row's.
proof fn lemma_add_row_ids(es: Seq<EntryModel>, r: NameSortRow)
    ensures
        add_row(es, r).len() == if es.len() > 0 && es.last().id == r.id {
            es.len()
        } else {
            es.len() + 1
        },
        forall|i: int| 0 <= i < es.len() ==> #[trigger] add_row(es, r)[i].id == es[i].id,
        add_row(es, r).len() > 0,
        add_row(es, r)[add_row(es, r).len() - 1].id == r.id,
{
}

/// The ids of the games, in order.
pub open spec fn game_ids(g: Seq<EntryModel>) -> Seq<i32> {
    Seq::new(g.len(), |i: int| g[i].id)
}

/// Rows in ascending id make one game per id: the games come in strictly
/// ascending id, each row's id is a game's, and each game's id a row's.
#[verifier::rlimit(30)]
proof fn lemma_group_rows_by_id(rows: Seq<NameSortRow>)
    requires
        rows_by_id(rows),
    ensures
        forall|i: int, j: int|
            0 <= i < j < game_ids(group_rows(rows)).len() ==> #[trigger] game_ids(group_rows(rows))[i] < #[trigger] game_ids(group_rows(rows))[j],
        forall|k: int| 0 <= k < rows.len() ==> game_ids(group_rows(rows)).contains(#[trigger] rows[k].id),
        forall|i: int| 0 <= i < game_ids(group_rows(rows)).len() ==> exists|k: int| 0 <= k < rows.len() && #[trigger] rows[k].id == #[trigger] game_ids(group_rows(rows))[i],
        rows.len() > 0 ==> game_ids(group_rows(rows)).len() > 0 && game_ids(group_rows(rows)).last() == rows.last().id,
    decreases rows.len(),
{
    if rows.len() > 0 {
        let init = rows.drop_last();
        let r = rows.last();
        assert forall|i: int, j: int| 0 <= i < j < init.len() implies init[i].id <= init[j].id by {
            assert(init[i] == rows[i] && init[j] == rows[j]);
        }
        lemma_group_rows_by_id(init);
        let g0 = group_rows(init);
        lemma_add_row_ids(g0, r);
        let a = game_ids(g0);
        let b = game_ids(group_rows(rows));
        assert(group_rows(rows) == add_row(g0, r));
        assert forall|i: int| 0 <= i < a.len() implies b[i] == a[i] by {
            assert(add_row(g0, r)[i].id == g0[i].id);
        }
        assert(b.last() == r.id);
        if a.len() > 0 {
            assert(init[init.len() - 1] == rows[rows.len() - 2]);
            assert(a.last() <= r.id);
        }
        assert forall|i: int, j: int| 0 <= i < j < b.len() implies #[trigger] b[i] < #[trigger] b[j] by {
            if j < a.len() {
                assert(a[i] < a[j]);
            } else if i < a.len() - 1 {
                assert(a[i] < a[a.len() - 1]);
            }
        }
        assert forall|k: int| 0 <= k < rows.len() implies b.contains(#[trigger] rows[k].id) by {
            if k < init.len() {
                assert(rows[k] == init[k]);
                assert(a.contains(init[k].id));
                let i = choose|i: int| 0 <= i < a.len() && a[i] == init[k].id;
                assert(b[i] == rows[k].id);
            } else {
                assert(b[b.len() - 1] == rows[k].id);
            }
        }
        assert forall|i: int| 0 <= i < b.len() implies exists|k: int| 0 <= k < rows.len() && #[trigger] rows[k].id == #[trigger] b[i] by {
            if i < a.len() {
                let k = choose|k: int| 0 <= k < init.len() && #[trigger] init[k].id == #[trigger] a[i];
                assert(rows[k] == init[k]);
            } else {
                assert(rows[rows.len() - 1].id == b[i]);
            }
        }
    }
}

/// The name listing holds each game of the rows once: when the rows come in
/// ascending id, as the name query orders them, any listing of their keys
/// in name order (the keys of all games, each once) gives every game id of
/// the rows, and no id twice.
#[verifier::rlimit(30)]
pub proof fn lemma_name_listing_ids_once(rows: Seq<NameSortRow>, use_cn: bool, ks: Seq<NameKeyModel>)
    requires
        rows_by_id(rows),
        ks.to_multiset() == entry_keys(group_rows(rows), use_cn).to_multiset(),
    ensures
        Seq::new(ks.len(), |i: int| ks[i].1).no_duplicates(),
        forall|k: int| 0 <= k < rows.len() ==> Seq::new(ks.len(), |i: int| ks[i].1).contains(#[trigger] rows[k].id),
        forall|i: int|
            0 <= i < ks.len() ==> exists|k: int| 0 <= k < rows.len() && #[trigger] rows[k].id == #[trigger] ks[i].1,
{
    lemma_group_rows_by_id(rows);
    let g = group_rows(rows);
    let t = entry_keys(g, use_cn);
    let ids = Seq::new(ks.len(), |i: int| ks[i].1);
    let gi = game_ids(g);
    assert(t.no_duplicates()) by {
        assert forall|i: int, j: int| 0 <= i < t.len() && 0 <= j < t.len() && i != j implies t[i] != t[j] by {
            assert(t[i].1 == gi[i] && t[j].1 == gi[j]);
            if i < j {
                assert(gi[i] < gi[j]);
            } else {
                assert(gi[j] < gi[i]);
            }
        }
    }
    t.lemma_multiset_has_no_duplicates();
    ks.lemma_multiset_has_no_duplicates_conv();
    assert forall|i: int| 0 <= i < ks.len() implies exists|m: int| 0 <= m < t.len() && #[trigger] t[m] == #[trigger] ks[i] by {
        assert(ks.contains(ks[i]));
        assert(ks.to_multiset().count(ks[i]) > 0);
        assert(t.to_multiset().count(ks[i]) > 0);
        assert(t.contains(ks[i]));
    }
    assert forall|i: int, j: int| 0 <= i < ids.len() && 0 <= j < ids.len() && i != j implies ids[i] != ids[j] by {
        let mi = choose|m: int| 0 <= m < t.len() && t[m] == ks[i];
        let mj = choose|m: int| 0 <= m < t.len() && t[m] == ks[j];
        if ids[i] == ids[j] {
            assert(t[mi].1 == gi[mi] && t[mj].1 == gi[mj]);
            if mi < mj {
                assert(gi[mi] < gi[mj]);
            } else if mj < mi {
                assert(gi[mj] < gi[mi]);
            }
            assert(ks[i] == ks[j]);
        }
    }
    assert forall|k: int| 0 <= k < rows.len() implies ids.contains(#[trigger] rows[k].id) by {
        assert(gi.contains(rows[k].id));
        let m = choose|m: int| 0 <= m < gi.len() && gi[m] == rows[k].id;
        assert(t[m].1 == rows[k].id);
        assert(t.contains(t[m]));
        assert(t.to_multiset().count(t[m]) > 0);
        assert(ks.to_multiset().count(t[m]) > 0);
        assert(ks.contains(t[m]));
        let i = choose|i: int| 0 <= i < ks.len() && ks[i] == t[m];
        assert(ids[i] == rows[k].id);
    }
    assert forall|i: int| 0 <= i < ks.len() implies exists|k: int| 0 <= k < rows.len() && #[trigger] rows[k].id == #[trigger] ks[i].1 by {
        let m = choose|m: int| 0 <= m < t.len() && t[m] == ks[i];
        assert(t[m].1 == gi[m]);
        let k = choose|k: int| 0 <= k < rows.len() && #[trigger] rows[k].id == #[trigger] gi[m];
        assert(rows[k].id == ks[i].1);
    }
}

} // verus!
