//! The rules of the game aggregate: which sources and paths are accepted,
//! which release date a game gets, the row written for an insert or an
//! update, the outcome of a batch, and the order in which ids are listed.

use vstd::prelude::*;
use std::collections::HashMap;
use crate::dto::{
    CustomData, FullGameData, InsertGameData, UpdateGameData, UpsertGameSourceData,
    BatchOperationError, BatchOperationResult, opt_view, spec_clean_option_string,
};
use crate::json::{JsonValue, JsonModel, opt_model};
use crate::json_access::{get_str_member, get_str_member_of};
use crate::order::{lex_lt, chars_less, chars_equal, lemma_lex_asymmetric, lemma_lex_total, lemma_lex_transitive};
use crate::path::{is_bare_file_name, is_bare_file_name_str};
use crate::text::{is_blank, trim, chars_of, string_of, trim_string, str_is_blank, push_str};

verus! {

/// An error of the game repository.
#[derive(Debug)]
pub enum RepoError {
    /// A rule of the aggregate is broken.
    Custom(String),
    /// The game does not exist.
    RecordNotFound(String),
}

impl RepoError {
    /// The error's text.
    pub fn message(&self) -> (m: String)
        ensures
            m@ == match self {
                RepoError::Custom(s) => s@,
                RepoError::RecordNotFound(s) => s@,
            },
    {
        match self {
            RepoError::Custom(s) => s.clone(),
            RepoError::RecordNotFound(s) => s.clone(),
        }
    }
}

/// The game repository: the rules that every write goes through.
pub struct GamesRepository;

/// The play status of a new game when none is given: "wish".
pub const DEFAULT_PLAY_STATUS: i32 = 1;

// ==================== sources ====================

/// Why a source cannot be written: it has no name, or neither an id nor data.
pub open spec fn source_error(s: UpsertGameSourceData) -> Option<Seq<char>> {
    if s.source@.len() == 0 {
        Some("source 不能为空"@)
    } else if s.external_id is None && s.data is None {
        Some(s.source@ + " source 的 external_id 和 data 不能同时为空"@)
    } else {
        None
    }
}

/// Why the `i`-th written source is refused: it is invalid, or an earlier one has its name.
pub open spec fn upsert_error(ups: Seq<UpsertGameSourceData>, i: int) -> Option<Seq<char>> {
    match source_error(ups[i]) {
        Some(m) => Some(m),
        None => if exists|j: int| 0 <= j < i && (#[trigger] ups[j]).source@ == ups[i].source@ {
            Some(ups[i].source@ + " source 被重复提交"@)
        } else {
            None
        },
    }
}

/// The first refusal among the first `n` written sources.
pub open spec fn first_upsert_error(ups: Seq<UpsertGameSourceData>, n: int) -> Option<Seq<char>>
    decreases n,
{
    if n <= 0 {
        None
    } else {
        match first_upsert_error(ups, n - 1) {
            Some(m) => Some(m),
            None => upsert_error(ups, n - 1),
        }
    }
}

/// Why the `i`-th removed source is refused: an earlier removal names it, or
/// it is also written.
pub open spec fn remove_error(ups: Seq<UpsertGameSourceData>, rms: Seq<String>, i: int) -> Option<Seq<char>> {
    if exists|j: int| 0 <= j < i && (#[trigger] rms[j])@ == rms[i]@ {
        Some(rms[i]@ + " source 被重复删除"@)
    } else if exists|k: int| 0 <= k < ups.len() && (#[trigger] ups[k]).source@ == rms[i]@ {
        Some(rms[i]@ + " source 不能同时更新和删除"@)
    } else {
        None
    }
}

/// The first refusal among the first `n` removed sources.
pub open spec fn first_remove_error(ups: Seq<UpsertGameSourceData>, rms: Seq<String>, n: int) -> Option<Seq<char>>
    decreases n,
{
    if n <= 0 {
        None
    } else {
        match first_remove_error(ups, rms, n - 1) {
            Some(m) => Some(m),
            None => remove_error(ups, rms, n - 1),
        }
    }
}

/// Why a set of source changes is refused, the written sources checked first.
pub open spec fn source_changes_error(ups: Seq<UpsertGameSourceData>, rms: Seq<String>) -> Option<Seq<char>> {
    match first_upsert_error(ups, ups.len() as int) {
        Some(m) => Some(m),
        None => first_remove_error(ups, rms, rms.len() as int),
    }
}

/// The outcome of a check: `Ok` when nothing is wrong, else the reason as a rule error.
pub open spec fn check_result(error: Option<Seq<char>>, r: Result<(), RepoError>) -> bool {
    match r {
        Ok(()) => error is None,
        Err(RepoError::Custom(m)) => error == Some(m@),
        Err(RepoError::RecordNotFound(_)) => false,
    }
}

fn custom_error(a: &str, b: &str) -> (e: RepoError)
    ensures
        e matches RepoError::Custom(m) && m@ == a@ + b@,
{
    let mut m = String::from_str(a);
    push_str(&mut m, b);
    RepoError::Custom(m)
}

/// A start file that holds `:` but no separator: the `/`-separated rules
/// read it as one name, while a platform with drive prefixes reads a leading
/// `X:` as a prefix.
pub open spec fn drive_dependent(x: Seq<char>) -> bool {
    x.contains(':') && !x.contains('/') && !x.contains('\\')
}

/// What the path check may answer: exactly what `error` says, except that a
/// start file whose reading depends on the platform's drive prefixes may also
/// be refused as not one file name.
pub open spec fn path_check_allows(
    error: Option<Seq<char>>,
    executable: Option<Seq<char>>,
    r: Result<(), RepoError>,
) -> bool {
    ||| check_result(error, r)
    ||| {
        &&& error is None
        &&& executable is Some
        &&& drive_dependent(executable->0)
        &&& r is Err
        &&& r->Err_0 is Custom
        &&& r->Err_0->Custom_0@ == "executable 必须是单个文件名，不能包含路径"@
    }
}

/// The path rules: a start file needs a game folder, and is one bare file name.
pub open spec fn path_state_error(localpath: Option<Seq<char>>, executable: Option<Seq<char>>) -> Option<Seq<char>> {
    if localpath is None && executable is Some {
        Some("executable 不能在 localpath 为空时单独存在"@)
    } else if executable is Some && !is_bare_file_name(executable->0) {
        Some("executable 必须是单个文件名，不能包含路径"@)
    } else {
        None
    }
}

// ==================== dates ====================

/// The release date that source data gives: its `date` member, trimmed, when not blank.
pub open spec fn data_date(data: Option<JsonModel>) -> Option<Seq<char>> {
    match data {
        Some(d) => match get_str_member(d, "date"@) {
            Some(s) => if is_blank(s) {
                None
            } else {
                Some(trim(s))
            },
            None => None,
        },
        None => None,
    }
}

/// The date of the first source, in order, that gives one.
pub open spec fn first_source_date(sources: Seq<UpsertGameSourceData>) -> Option<Seq<char>>
    decreases sources.len(),
{
    if sources.len() == 0 {
        None
    } else {
        match data_date(opt_model(sources[0].data)) {
            Some(d) => Some(d),
            None => first_source_date(sources.drop_first()),
        }
    }
}

/// The sources whose names decide a game's name and date, most trusted first.
pub open spec fn priority_sources() -> Seq<Seq<char>> {
    seq!["bgm"@, "vndb"@, "ymgal"@, "kun"@]
}

/// A source's name and the date its data gives.
pub type SourceDate = (Seq<char>, Option<Seq<char>>);

/// The entry for `key`; a later entry for the same key replaces an earlier one.
pub open spec fn lookup_last(es: Seq<SourceDate>, key: Seq<char>) -> Option<Option<Seq<char>>>
    decreases es.len(),
{
    if es.len() == 0 {
        None
    } else if es.last().0 == key {
        Some(es.last().1)
    } else {
        lookup_last(es.drop_last(), key)
    }
}

/// The date of the first priority source, from the `k`-th on, that gives one.
pub open spec fn priority_date(es: Seq<SourceDate>, k: int) -> Option<Seq<char>>
    decreases 4 - k,
{
    if k >= 4 || k < 0 {
        None
    } else {
        match lookup_last(es, priority_sources()[k]) {
            Some(Some(d)) => Some(d),
            _ => priority_date(es, k + 1),
        }
    }
}

/// A source gives a date: its last entry holds one.
pub open spec fn dated(es: Seq<SourceDate>, key: Seq<char>) -> bool {
    lookup_last(es, key) matches Some(Some(_))
}

/// The date a source gives, when it gives one.
pub open spec fn date_of(es: Seq<SourceDate>, key: Seq<char>) -> Seq<char> {
    lookup_last(es, key)->0->0
}

/// The date of a game's sources goes by the fixed order `bgm`, `vndb`,
/// `ymgal`, `kun`: the first of them that gives a date gives the game's date,
/// whatever the others give; when none of them and no other source gives
/// one, there is none.
pub proof fn lemma_resolved_date_priority(es: Seq<SourceDate>)
    ensures
        dated(es, "bgm"@) ==> resolved_date(es) == Some(date_of(es, "bgm"@)),
        !dated(es, "bgm"@) && dated(es, "vndb"@) ==> resolved_date(es) == Some(date_of(es, "vndb"@)),
        !dated(es, "bgm"@) && !dated(es, "vndb"@) && dated(es, "ymgal"@) ==> resolved_date(es) == Some(
            date_of(es, "ymgal"@),
        ),
        !dated(es, "bgm"@) && !dated(es, "vndb"@) && !dated(es, "ymgal"@) && dated(es, "kun"@) ==> resolved_date(es)
            == Some(date_of(es, "kun"@)),
        !dated(es, "bgm"@) && !dated(es, "vndb"@) && !dated(es, "ymgal"@) && !dated(es, "kun"@) && (forall|i: int|
            !is_other_dated(es, i)) ==> resolved_date(es) is None,
{
    assert(priority_sources()[0] == "bgm"@);
    assert(priority_sources()[1] == "vndb"@);
    assert(priority_sources()[2] == "ymgal"@);
    assert(priority_sources()[3] == "kun"@);
    reveal_with_fuel(priority_date, 5);
}

/// The `i`-th entry is the final one for a source outside the priority list
/// whose data gives a date.
pub open spec fn is_other_dated(es: Seq<SourceDate>, i: int) -> bool {
    &&& 0 <= i < es.len()
    &&& !priority_sources().contains(es[i].0)
    &&& forall|j: int| i < j < es.len() ==> (#[trigger] es[j]).0 != es[i].0
    &&& es[i].1 is Some
}

/// The date a game gets from its sources: that of the first priority source
/// that gives one, else that of the other source with the smallest name.
pub open spec fn resolved_date(es: Seq<SourceDate>) -> Option<Seq<char>> {
    match priority_date(es, 0) {
        Some(d) => Some(d),
        None => if exists|i: int| is_other_dated(es, i) {
            let i = choose|i: int|
                is_other_dated(es, i) && forall|j: int| is_other_dated(es, j) ==> !lex_lt(es[j].0, es[i].0);
            es[i].1
        } else {
            None
        },
    }
}

/// The names and dates of stored sources.
pub open spec fn stored_dates(current: Seq<(String, Option<JsonValue>)>) -> Seq<SourceDate> {
    Seq::new(current.len(), |i: int| (current[i].0@, data_date(opt_model(current[i].1))))
}

/// The stored sources that are not removed, in order.
pub open spec fn kept_dates(current: Seq<SourceDate>, rms: Seq<String>) -> Seq<SourceDate>
    decreases current.len(),
{
    if current.len() == 0 {
        Seq::empty()
    } else if exists|j: int| 0 <= j < rms.len() && (#[trigger] rms[j])@ == current.last().0 {
        kept_dates(current.drop_last(), rms)
    } else {
        kept_dates(current.drop_last(), rms).push(current.last())
    }
}

/// The names and dates of written sources.
pub open spec fn written_dates(ups: Seq<UpsertGameSourceData>) -> Seq<SourceDate> {
    Seq::new(ups.len(), |i: int| (ups[i].source@, data_date(opt_model(ups[i].data))))
}

/// A game's sources after an update: the stored ones without the removed,
/// then the written ones, which replace stored ones of the same name.
pub open spec fn merged_dates(
    current: Seq<(String, Option<JsonValue>)>,
    rms: Seq<String>,
    ups: Seq<UpsertGameSourceData>,
) -> Seq<SourceDate> {
    kept_dates(stored_dates(current), rms) + written_dates(ups)
}

/// An update asks for its date to be taken from the sources: it clears the
/// date, or gives none while it changes sources.
pub open spec fn date_needs_resolution(u: UpdateGameData) -> bool {
    let changes = (u.upsert_sources is Some && u.upsert_sources->0@.len() > 0) || (
    u.remove_sources is Some && u.remove_sources->0@.len() > 0);
    u.date == Some(None::<String>) || (u.date is None && changes)
}

pub open spec fn same_but_date(a: UpdateGameData, b: UpdateGameData) -> bool {
    &&& a.id_type == b.id_type
    &&& a.localpath == b.localpath
    &&& a.executable == b.executable
    &&& a.savepath == b.savepath
    &&& a.autosave == b.autosave
    &&& a.maxbackups == b.maxbackups
    &&& a.clear == b.clear
    &&& a.le_launch == b.le_launch
    &&& a.magpie == b.magpie
    &&& a.webdav_sync == b.webdav_sync
    &&& a.custom_data == b.custom_data
    &&& a.upsert_sources == b.upsert_sources
    &&& a.remove_sources == b.remove_sources
}

impl GamesRepository {
    /// Checks one source to write.
    pub fn validate_source(source: &UpsertGameSourceData) -> (r: Result<(), RepoError>)
        ensures
            check_result(source_error(*source), r),
    {
        if source.source.as_str().is_empty() {
            return Err(RepoError::Custom(String::from_str("source 不能为空")));
        }
        if source.external_id.is_none() && source.data.is_none() {
            return Err(custom_error(source.source.as_str(), " source 的 external_id 和 data 不能同时为空"));
        }
        Ok(())
    }

    /// Checks the sources to write and to remove: each written source is valid
    /// and named once, each removed one is named once and not also written.
    pub fn validate_source_changes(upserts: &Vec<UpsertGameSourceData>, removes: &Vec<String>) -> (r:
        Result<(), RepoError>)
        ensures
            check_result(source_changes_error(upserts@, removes@), r),
    {
        let mut i: usize = 0;
        while i < upserts.len()
            invariant
                i <= upserts.len(),
                first_upsert_error(upserts@, i as int) is None,
            decreases upserts.len() - i,
        {
            match Self::validate_source(&upserts[i]) {
                Ok(()) => {},
                Err(e) => {
                    proof {
                        assert(first_upsert_error(upserts@, i + 1) == upsert_error(upserts@, i as int));
                        lemma_first_error_stays_upsert(upserts@, i + 1, upserts@.len() as int);
                    }
                    return Err(e);
                },
            }
            let mut j: usize = 0;
            while j < i
                invariant
                    i < upserts.len(),
                    j <= i,
                    first_upsert_error(upserts@, i as int) is None,
                    source_error(upserts@[i as int]) is None,
                    forall|k: int| 0 <= k < j ==> (#[trigger] upserts@[k]).source@ != upserts@[i as int].source@,
                decreases i - j,
            {
                if upserts[j].source == upserts[i].source {
                    proof {
                        assert(upserts@[j as int].source@ == upserts@[i as int].source@);
                        assert(first_upsert_error(upserts@, i + 1) == upsert_error(upserts@, i as int));
                        lemma_first_error_stays_upsert(upserts@, i + 1, upserts@.len() as int);
                    }
                    return Err(custom_error(upserts[i].source.as_str(), " source 被重复提交"));
                }
                j += 1;
            }
            assert(upsert_error(upserts@, i as int) is None);
            i += 1;
        }
        let mut i: usize = 0;
        while i < removes.len()
            invariant
                i <= removes.len(),
                first_upsert_error(upserts@, upserts@.len() as int) is None,
                first_remove_error(upserts@, removes@, i as int) is None,
            decreases removes.len() - i,
        {
            let mut j: usize = 0;
            while j < i
                invariant
                    i < removes.len(),
                    j <= i,
                    first_upsert_error(upserts@, upserts@.len() as int) is None,
                    first_remove_error(upserts@, removes@, i as int) is None,
                    forall|k: int| 0 <= k < j ==> (#[trigger] removes@[k])@ != removes@[i as int]@,
                decreases i - j,
            {
                if removes[j] == removes[i] {
                    proof {
                        assert(removes@[j as int]@ == removes@[i as int]@);
                        assert(first_remove_error(upserts@, removes@, i + 1) == remove_error(upserts@, removes@, i as int));
                        lemma_first_error_stays_remove(upserts@, removes@, i + 1, removes@.len() as int);
                    }
                    return Err(custom_error(removes[i].as_str(), " source 被重复删除"));
                }
                j += 1;
            }
            let mut k: usize = 0;
            while k < upserts.len()
                invariant
                    i < removes.len(),
                    k <= upserts.len(),
                    first_upsert_error(upserts@, upserts@.len() as int) is None,
                    first_remove_error(upserts@, removes@, i as int) is None,
                    forall|m: int| 0 <= m < i ==> (#[trigger] removes@[m])@ != removes@[i as int]@,
                    forall|m: int| 0 <= m < k ==> (#[trigger] upserts@[m]).source@ != removes@[i as int]@,
                decreases upserts.len() - k,
            {
                if upserts[k].source == removes[i] {
                    proof {
                        assert(upserts@[k as int].source@ == removes@[i as int]@);
                        assert(first_remove_error(upserts@, removes@, i + 1) == remove_error(upserts@, removes@, i as int));
                        lemma_first_error_stays_remove(upserts@, removes@, i + 1, removes@.len() as int);
                    }
                    return Err(custom_error(removes[i].as_str(), " source 不能同时更新和删除"));
                }
                k += 1;
            }
            assert(remove_error(upserts@, removes@, i as int) is None);
            i += 1;
        }
        Ok(())
    }

    /// Checks the game folder and start file together.
    pub fn validate_path_state(localpath: &Option<String>, executable: &Option<String>) -> (r: Result<
        (),
        RepoError,
    >)
        ensures
            path_check_allows(path_state_error(opt_view(*localpath), opt_view(*executable)), opt_view(*executable), r),
    {
        if localpath.is_none() && executable.is_some() {
            return Err(RepoError::Custom(String::from_str("executable 不能在 localpath 为空时单独存在")));
        }
        match executable {
            Some(e) => {
                if !is_bare_file_name_str(e.as_str()) {
                    return Err(RepoError::Custom(String::from_str("executable 必须是单个文件名，不能包含路径")));
                }
            },
            None => {},
        }
        Ok(())
    }

    /// The release date that source data gives.
    pub fn extract_source_date(data: &Option<JsonValue>) -> (r: Option<String>)
        ensures
            opt_view(r) == data_date(opt_model(*data)),
    {
        match data {
            Some(d) => match get_str_member_of(d, "date") {
                Some(s) => {
                    if str_is_blank(s.as_str()) {
                        None
                    } else {
                        Some(trim_string(s.as_str()))
                    }
                },
                None => None,
            },
            None => None,
        }
    }

    /// A game inserted without a date takes that of its first source that gives one.
    pub fn normalize_insert_date(game: InsertGameData) -> (r: InsertGameData)
        ensures
            r.id_type == game.id_type,
            r.localpath == game.localpath,
            r.executable == game.executable,
            r.savepath == game.savepath,
            r.autosave == game.autosave,
            r.maxbackups == game.maxbackups,
            r.clear == game.clear,
            r.le_launch == game.le_launch,
            r.magpie == game.magpie,
            r.custom_data == game.custom_data,
            r.sources == game.sources,
            game.date is Some ==> r.date == game.date,
            game.date is None ==> opt_view(r.date) == first_source_date(game.sources@),
    {
        if game.date.is_some() {
            return game;
        }
        let mut date: Option<String> = None;
        let n = game.sources.len();
        let mut i: usize = 0;
        assert(game.sources@.subrange(0, n as int) =~= game.sources@);
        while i < n
            invariant_except_break
                date is None,
            invariant
                n == game.sources.len(),
                i <= n,
                first_source_date(game.sources@) == first_source_date(
                    game.sources@.subrange(i as int, n as int),
                ),
            ensures
                opt_view(date) == first_source_date(game.sources@),
            decreases n - i,
        {
            let ghost rest = game.sources@.subrange(i as int, n as int);
            assert(rest[0] == game.sources@[i as int]);
            let d = Self::extract_source_date(&game.sources[i].data);
            if d.is_some() {
                date = d;
                break;
            }
            assert(rest.drop_first() =~= game.sources@.subrange(i + 1, n as int));
            i += 1;
        }
        let mut game = game;
        game.date = date;
        game
    }
}

/// The names and dates of entries.
pub open spec fn source_dates_view(es: Seq<(String, Option<String>)>) -> Seq<SourceDate> {
    Seq::new(es.len(), |i: int| (es[i].0@, opt_view(es[i].1)))
}

/// The sources an update removes.
pub open spec fn removed_of(u: UpdateGameData) -> Seq<String> {
    match u.remove_sources {
        Some(v) => v@,
        None => Seq::empty(),
    }
}

/// The sources an update writes.
pub open spec fn written_of(u: UpdateGameData) -> Seq<UpsertGameSourceData> {
    match u.upsert_sources {
        Some(v) => v@,
        None => Seq::empty(),
    }
}

/// An update touches the game folder or start file, so the stored ones are needed.
pub open spec fn path_state_needs_current(u: UpdateGameData) -> bool {
    u.localpath is Some || u.executable is Some
}

/// The start file an update writes: clearing the folder clears the start file too.
pub open spec fn cascaded_executable(u: UpdateGameData) -> Option<Option<String>> {
    if u.localpath == Some(None::<String>) {
        Some(None)
    } else {
        u.executable
    }
}

pub open spec fn opt_opt_view_or(given: Option<Option<String>>, current: Option<String>) -> Option<Seq<char>> {
    match given {
        Some(v) => opt_view(v),
        None => opt_view(current),
    }
}

fn priority_name(k: usize) -> (s: String)
    requires
        k < 4,
    ensures
        s@ == priority_sources()[k as int],
{
    if k == 0 {
        String::from_str("bgm")
    } else if k == 1 {
        String::from_str("vndb")
    } else if k == 2 {
        String::from_str("ymgal")
    } else {
        String::from_str("kun")
    }
}

/// Whether a source is one of the priority sources.
fn is_priority_source(name: &String) -> (r: bool)
    ensures
        r == priority_sources().contains(name@),
{
    let mut k: usize = 0;
    while k < 4
        invariant
            k <= 4,
            forall|j: int| 0 <= j < k ==> priority_sources()[j] != name@,
        decreases 4 - k,
    {
        let p = priority_name(k);
        if *name == p {
            assert(priority_sources()[k as int] == name@);
            return true;
        }
        k += 1;
    }
    assert(priority_sources().len() == 4);
    false
}

/// The index of the last entry for `key`.
fn last_index_of(es: &Vec<(String, Option<String>)>, key: &String) -> (r: Option<usize>)
    ensures
        match r {
            Some(i) => i < es@.len() && lookup_last(source_dates_view(es@), key@) == Some(
                opt_view(es@[i as int].1),
            ),
            None => lookup_last(source_dates_view(es@), key@) is None,
        },
{
    let ghost v = source_dates_view(es@);
    let mut j: usize = es.len();
    assert(v.subrange(0, j as int) =~= v);
    while j > 0
        invariant
            j <= es.len(),
            v == source_dates_view(es@),
            lookup_last(v, key@) == lookup_last(v.subrange(0, j as int), key@),
        decreases j,
    {
        assert(v.subrange(0, j as int).drop_last() =~= v.subrange(0, j - 1));
        if es[j - 1].0 == *key {
            return Some(j - 1);
        }
        j -= 1;
    }
    None
}

proof fn lemma_minimal_dated_unique(es: Seq<SourceDate>, a: int, b: int)
    requires
        is_other_dated(es, a),
        is_other_dated(es, b),
        !lex_lt(es[a].0, es[b].0),
        !lex_lt(es[b].0, es[a].0),
    ensures
        a == b,
{
    lemma_lex_total(es[a].0, es[b].0);
    if a < b {
        assert(es[b].0 != es[a].0);
    }
    if b < a {
        assert(es[a].0 != es[b].0);
    }
}

impl GamesRepository {
    /// The date a game gets from its sources, given each source's name and date:
    /// that of the first of `bgm`, `vndb`, `ymgal`, `kun` that gives one, else
    /// that of the other source with the smallest name that gives one.
    pub fn resolve_source_date(es: &Vec<(String, Option<String>)>) -> (r: Option<String>)
        ensures
            opt_view(r) == resolved_date(source_dates_view(es@)),
    {
        let ghost v = source_dates_view(es@);
        let mut k: usize = 0;
        while k < 4
            invariant
                k <= 4,
                v == source_dates_view(es@),
                priority_date(v, 0) == priority_date(v, k as int),
            decreases 4 - k,
        {
            let p = priority_name(k);
            match last_index_of(es, &p) {
                Some(i) => {
                    match &es[i].1 {
                        Some(d) => {
                            return Some(d.clone());
                        },
                        None => {},
                    }
                },
                None => {},
            }
            k += 1;
        }
        assert(priority_date(v, 0) is None);
        let n = es.len();
        let mut best: Option<usize> = None;
        let mut best_key: Vec<char> = Vec::new();
        let mut i: usize = 0;
        while i < n
            invariant
                n == es.len(),
                i <= n,
                v == source_dates_view(es@),
                match best {
                    Some(b) => {
                        &&& b < i
                        &&& is_other_dated(v, b as int)
                        &&& best_key@ == v[b as int].0
                        &&& forall|j: int| 0 <= j < i && is_other_dated(v, j) ==> !lex_lt(v[j].0, v[b as int].0)
                    },
                    None => forall|j: int| 0 <= j < i ==> !is_other_dated(v, j),
                },
            decreases n - i,
        {
            let mut last = true;
            let mut j: usize = i + 1;
            while j < n
                invariant
                    n == es.len(),
                    i < n,
                    i < j <= n,
                    v == source_dates_view(es@),
                    last == forall|m: int| i < m < j ==> (#[trigger] v[m]).0 != v[i as int].0,
                decreases n - j,
            {
                let same = es[j].0 == es[i].0;
                assert(v[j as int].0 == es@[j as int].0@ && v[i as int].0 == es@[i as int].0@);
                if same {
                    last = false;
                }
                j += 1;
            }
            let candidate = last && !is_priority_source(&es[i].0) && es[i].1.is_some();
            assert(candidate == is_other_dated(v, i as int));
            if candidate {
                let key = chars_of(es[i].0.as_str());
                let better = match best {
                    Some(_) => chars_less(&key, &best_key),
                    None => true,
                };
                if better {
                    proof {
                        if let Some(b) = best {
                            assert forall|j: int| 0 <= j < i + 1 && is_other_dated(v, j) implies !lex_lt(
                                v[j].0,
                                v[i as int].0,
                            ) by {
                                if j == i {
                                    crate::order::lemma_lex_irreflexive(v[j].0);
                                } else if lex_lt(v[j].0, v[i as int].0) {
                                    lemma_lex_transitive(v[j].0, v[i as int].0, v[b as int].0);
                                }
                            }
                        } else {
                            crate::order::lemma_lex_irreflexive(v[i as int].0);
                        }
                    }
                    best = Some(i);
                    best_key = key;
                } else {
                    proof {
                        let b = best->0;
                        assert(!lex_lt(v[i as int].0, v[b as int].0));
                    }
                }
            }
            i += 1;
        }
        match best {
            Some(b) => {
                proof {
                    let c = choose|c: int|
                        is_other_dated(v, c) && forall|j: int| is_other_dated(v, j) ==> !lex_lt(v[j].0, v[c].0);
                    assert(is_other_dated(v, b as int));
                    assert(is_other_dated(v, c) && forall|j: int| is_other_dated(v, j) ==> !lex_lt(v[j].0, v[c].0));
                    assert(!lex_lt(v[c].0, v[b as int].0));
                    assert(!lex_lt(v[b as int].0, v[c].0));
                    lemma_minimal_dated_unique(v, b as int, c);
                }
                match &es[b].1 {
                    Some(d) => Some(d.clone()),
                    None => None,
                }
            },
            None => None,
        }
    }

    /// The names and dates of a game's sources after an update.
    pub fn merged_source_dates(
        current: &Vec<(String, Option<JsonValue>)>,
        removes: &Vec<String>,
        upserts: &Vec<UpsertGameSourceData>,
    ) -> (r: Vec<(String, Option<String>)>)
        ensures
            source_dates_view(r@) == merged_dates(current@, removes@, upserts@),
    {
        let ghost stored = stored_dates(current@);
        let mut out: Vec<(String, Option<String>)> = Vec::new();
        let mut i: usize = 0;
        while i < current.len()
            invariant
                i <= current.len(),
                stored == stored_dates(current@),
                source_dates_view(out@) == kept_dates(stored.subrange(0, i as int), removes@),
            decreases current.len() - i,
        {
            assert(stored.subrange(0, i + 1).drop_last() =~= stored.subrange(0, i as int));
            assert(stored.subrange(0, i + 1).last() == stored[i as int]);
            let mut removed = false;
            let mut j: usize = 0;
            while j < removes.len()
                invariant
                    i < current.len(),
                    j <= removes.len(),
                    removed == exists|m: int| 0 <= m < j && (#[trigger] removes@[m])@ == current@[i as int].0@,
                decreases removes.len() - j,
            {
                if removes[j] == current[i].0 {
                    assert(removes@[j as int]@ == current@[i as int].0@);
                    removed = true;
                }
                j += 1;
            }
            if !removed {
                let ghost before = out@;
                let entry = (current[i].0.clone(), Self::extract_source_date(&current[i].1));
                out.push(entry);
                assert(source_dates_view(out@) =~= source_dates_view(before).push(stored[i as int]));
            }
            i += 1;
        }
        assert(stored.subrange(0, current@.len() as int) =~= stored);
        let ghost kept = out@;
        let mut k: usize = 0;
        while k < upserts.len()
            invariant
                k <= upserts.len(),
                out@.len() == kept.len() + k,
                source_dates_view(out@) == source_dates_view(kept) + written_dates(upserts@).subrange(0, k as int),
            decreases upserts.len() - k,
        {
            let ghost before = out@;
            let entry = (upserts[k].source.clone(), Self::extract_source_date(&upserts[k].data));
            out.push(entry);
            assert(source_dates_view(out@) =~= source_dates_view(before).push(written_dates(upserts@)[k as int]));
            assert(written_dates(upserts@).subrange(0, k + 1) =~= written_dates(upserts@).subrange(0, k as int).push(
                written_dates(upserts@)[k as int],
            ));
            assert(source_dates_view(out@) =~= source_dates_view(kept) + written_dates(upserts@).subrange(0, k + 1));
            k += 1;
        }
        assert(written_dates(upserts@).subrange(0, upserts@.len() as int) =~= written_dates(upserts@));
        out
    }

    /// Whether an update asks for its date to be taken from the sources.
    pub fn date_needs_resolution(updates: &UpdateGameData) -> (r: bool)
        ensures
            r == date_needs_resolution(*updates),
    {
        let changes = match &updates.upsert_sources {
            Some(v) => v.len() > 0,
            None => false,
        } || match &updates.remove_sources {
            Some(v) => v.len() > 0,
            None => false,
        };
        match &updates.date {
            Some(None) => true,
            Some(Some(_)) => false,
            None => changes,
        }
    }

    /// An update that clears the date, or changes sources without giving a
    /// date, gets the date its sources give after the update; `current` are
    /// the stored sources with their data. Any other update is left as it is.
    pub fn normalize_update_date(current: &Vec<(String, Option<JsonValue>)>, updates: UpdateGameData) -> (r:
        UpdateGameData)
        ensures
            same_but_date(r, updates),
            date_needs_resolution(updates) ==> r.date is Some && opt_view(r.date->0) == resolved_date(
                merged_dates(current@, removed_of(updates), written_of(updates)),
            ),
            !date_needs_resolution(updates) ==> r.date == updates.date,
    {
        if !Self::date_needs_resolution(&updates) {
            return updates;
        }
        let empty_removes: Vec<String> = Vec::new();
        let empty_upserts: Vec<UpsertGameSourceData> = Vec::new();
        let merged = {
            let removes = match &updates.remove_sources {
                Some(v) => v,
                None => &empty_removes,
            };
            let upserts = match &updates.upsert_sources {
                Some(v) => v,
                None => &empty_upserts,
            };
            assert(removes@ == removed_of(updates));
            assert(upserts@ == written_of(updates));
            Self::merged_source_dates(current, removes, upserts)
        };
        let date = Self::resolve_source_date(&merged);
        let mut updates = updates;
        updates.date = Some(date);
        updates
    }

    /// Whether an update touches the game folder or start file.
    pub fn path_state_needs_current(updates: &UpdateGameData) -> (r: bool)
        ensures
            r == path_state_needs_current(*updates),
    {
        updates.localpath.is_some() || updates.executable.is_some()
    }

    /// Checks an update's folder and start file against the stored ones:
    /// clearing the folder clears the start file too, and the folder and start
    /// file that result must satisfy the path rules.
    pub fn normalize_update_path_state(
        current_localpath: &Option<String>,
        current_executable: &Option<String>,
        updates: UpdateGameData,
    ) -> (r: Result<UpdateGameData, RepoError>)
        ensures
            !path_state_needs_current(updates) ==> r == Ok::<UpdateGameData, RepoError>(updates),
            path_state_needs_current(updates) ==> {
                let error = path_state_error(
                    opt_opt_view_or(updates.localpath, *current_localpath),
                    opt_opt_view_or(cascaded_executable(updates), *current_executable),
                );
                match r {
                    Ok(u) => error is None && u.executable == cascaded_executable(updates) && u.id_type
                        == updates.id_type && u.date == updates.date && u.localpath == updates.localpath
                        && u.savepath == updates.savepath && u.autosave == updates.autosave
                        && u.maxbackups == updates.maxbackups && u.clear == updates.clear
                        && u.le_launch == updates.le_launch && u.magpie == updates.magpie
                        && u.webdav_sync == updates.webdav_sync && u.custom_data == updates.custom_data
                        && u.upsert_sources == updates.upsert_sources && u.remove_sources
                        == updates.remove_sources,
                    Err(RepoError::Custom(m)) => path_check_allows(
                        error,
                        opt_opt_view_or(cascaded_executable(updates), *current_executable),
                        Err(RepoError::Custom(m)),
                    ),
                    Err(RepoError::RecordNotFound(_)) => false,
                }
            },
    {
        if !Self::path_state_needs_current(&updates) {
            return Ok(updates);
        }
        let mut updates = updates;
        let clears_folder = match &updates.localpath {
            Some(None) => true,
            _ => false,
        };
        if clears_folder {
            updates.executable = Some(None);
        }
        let final_localpath: Option<String> = match &updates.localpath {
            Some(v) => v.clone(),
            None => current_localpath.clone(),
        };
        let final_executable: Option<String> = match &updates.executable {
            Some(v) => v.clone(),
            None => current_executable.clone(),
        };
        match Self::validate_path_state(&final_localpath, &final_executable) {
            Ok(()) => Ok(updates),
            Err(e) => Err(e),
        }
    }
}

// ==================== rows ====================

/// The games row written for a new game.
#[derive(Debug)]
pub struct NewGameRow {
    pub id_type: String,
    pub date: Option<String>,
    pub localpath: Option<String>,
    pub executable: Option<String>,
    pub savepath: Option<String>,
    pub autosave: Option<i32>,
    pub maxbackups: Option<i32>,
    pub clear: Option<i32>,
    pub le_launch: Option<i32>,
    pub magpie: Option<i32>,
    pub custom_data: Option<CustomData>,
    pub created_at: Option<i32>,
    pub updated_at: Option<i32>,
}

/// The columns an update writes; `None` leaves a column as it is.
#[derive(Debug)]
pub struct GameRowUpdate {
    pub id_type: Option<String>,
    pub date: Option<Option<String>>,
    pub localpath: Option<Option<String>>,
    pub executable: Option<Option<String>>,
    pub savepath: Option<Option<String>>,
    pub autosave: Option<Option<i32>>,
    pub maxbackups: Option<Option<i32>>,
    pub clear: Option<Option<i32>>,
    pub le_launch: Option<Option<i32>>,
    pub magpie: Option<Option<i32>>,
    pub webdav_sync: Option<Option<i32>>,
    pub custom_data: Option<Option<CustomData>>,
    pub updated_at: i32,
}

/// The columns of a stored games row that updates act on.
#[derive(Debug)]
pub struct GameRow {
    pub id_type: String,
    pub date: Option<String>,
    pub localpath: Option<String>,
    pub executable: Option<String>,
    pub savepath: Option<String>,
    pub autosave: Option<i32>,
    pub maxbackups: Option<i32>,
    pub clear: Option<i32>,
    pub le_launch: Option<i32>,
    pub magpie: Option<i32>,
    pub webdav_sync: Option<i32>,
    pub custom_data: Option<CustomData>,
    pub created_at: Option<i32>,
    pub updated_at: Option<i32>,
}

/// A stored row after an update: each written column takes the written value,
/// every other column keeps its value, and the update time is set.
pub open spec fn row_after_update(row: GameRow, u: GameRowUpdate) -> GameRow {
    GameRow {
        id_type: match u.id_type {
            Some(v) => v,
            None => row.id_type,
        },
        date: crate::settings::updated(row.date, u.date),
        localpath: crate::settings::updated(row.localpath, u.localpath),
        executable: crate::settings::updated(row.executable, u.executable),
        savepath: crate::settings::updated(row.savepath, u.savepath),
        autosave: crate::settings::updated(row.autosave, u.autosave),
        maxbackups: crate::settings::updated(row.maxbackups, u.maxbackups),
        clear: crate::settings::updated(row.clear, u.clear),
        le_launch: crate::settings::updated(row.le_launch, u.le_launch),
        magpie: crate::settings::updated(row.magpie, u.magpie),
        webdav_sync: crate::settings::updated(row.webdav_sync, u.webdav_sync),
        custom_data: crate::settings::updated(row.custom_data, u.custom_data),
        created_at: row.created_at,
        updated_at: Some(u.updated_at),
    }
}

/// What the checks of an insert may answer for the cleaned sources, game
/// folder and start file: the sources' error first, then the path check.
pub open spec fn insert_check_allows(
    sources: Seq<UpsertGameSourceData>,
    localpath: Option<Seq<char>>,
    executable: Option<Seq<char>>,
    r: Result<(), RepoError>,
) -> bool {
    match source_changes_error(sources, Seq::empty()) {
        Some(m) => check_result(Some(m), r),
        None => path_check_allows(path_state_error(localpath, executable), executable, r),
    }
}

/// An insert of `game` is refused with `m`: for its cleaned sources `c` and
/// cleaned game folder `localpath`, the checks answer `m`.
pub open spec fn insert_refused(
    game: InsertGameData,
    c: Seq<UpsertGameSourceData>,
    localpath: Option<String>,
    m: Seq<char>,
) -> bool {
    &&& crate::dto::sources_cleaned(game.sources@, c)
    &&& crate::dto::opt_path_cleaned(game.localpath, localpath)
    &&& exists|msg: String|
        msg@ == m && insert_check_allows(
            c,
            opt_view(localpath),
            match game.executable {
                Some(v) => crate::dto::spec_clean_executable(v@),
                None => None,
            },
            Err(RepoError::Custom(msg)),
        )
}

/// `chrono::Utc::now().timestamp()`: the seconds since the Unix epoch that the
/// clock reads; nothing is stated of the value.
#[verifier::external_body]
fn utc_now_seconds() -> (t: i64) {
    chrono::Utc::now().timestamp()
}

/// A clock reading in seconds as the 32-bit time stamp that rows hold: the
/// low 32 bits, as `as i32` keeps them.
pub fn clock_seconds_to_row_time(s: i64) -> (t: i32)
    ensures
        t == s as i32,
{
    #[verifier::truncate] (s as i32)
}

/// The time stamp that rows are written with: the clock's seconds, cut to
/// the 32 bits that the columns hold. Which time it is, nothing here states.
pub fn now_timestamp() -> i32 {
    clock_seconds_to_row_time(utc_now_seconds())
}

impl GamesRepository {
    /// The row of a new game: the play status defaults to "wish", and both
    /// times are `now`. The sources come back to be written after the row.
    pub fn build_insert_row(game: InsertGameData, now: i32) -> (r: (NewGameRow, Vec<UpsertGameSourceData>))
        ensures
            r.0.id_type == game.id_type,
            r.0.date == game.date,
            r.0.localpath == game.localpath,
            r.0.executable == game.executable,
            r.0.savepath == game.savepath,
            r.0.autosave == game.autosave,
            r.0.maxbackups == game.maxbackups,
            r.0.clear == Some(
                match game.clear {
                    Some(c) => c,
                    None => DEFAULT_PLAY_STATUS,
                },
            ),
            r.0.le_launch == game.le_launch,
            r.0.magpie == game.magpie,
            r.0.custom_data == game.custom_data,
            r.0.created_at == Some(now),
            r.0.updated_at == Some(now),
            r.1 == game.sources,
    {
        let InsertGameData {
            id_type,
            date,
            localpath,
            executable,
            savepath,
            autosave,
            maxbackups,
            clear,
            le_launch,
            magpie,
            custom_data,
            sources,
        } = game;
        let clear = match clear {
            Some(c) => c,
            None => DEFAULT_PLAY_STATUS,
        };
        (
            NewGameRow {
                id_type,
                date,
                localpath,
                executable,
                savepath,
                autosave,
                maxbackups,
                clear: Some(clear),
                le_launch,
                magpie,
                custom_data,
                created_at: Some(now),
                updated_at: Some(now),
            },
            sources,
        )
    }

    /// Prepares an insert: the data cleaned, the sources and paths checked, the
    /// date taken from the sources when none is given, and the row built.
    pub fn prepare_insert(game: InsertGameData, now: i32) -> (r: Result<
        (NewGameRow, Vec<UpsertGameSourceData>),
        RepoError,
    >)
        ensures
            match r {
                Ok((row, sources)) => {
                    &&& crate::dto::sources_cleaned(game.sources@, sources@)
                    &&& insert_check_allows(sources@, opt_view(row.localpath), opt_view(row.executable), Ok(()))
                    &&& row.id_type == game.id_type
                    &&& crate::dto::opt_path_cleaned(game.localpath, row.localpath)
                    &&& opt_view(row.executable) == match game.executable {
                        Some(v) => crate::dto::spec_clean_executable(v@),
                        None => None,
                    }
                    &&& row.savepath == spec_clean_option_string(game.savepath)
                    &&& spec_clean_option_string(game.date) is Some ==> row.date == spec_clean_option_string(
                        game.date,
                    )
                    &&& spec_clean_option_string(game.date) is None ==> opt_view(row.date)
                        == first_source_date(sources@)
                    &&& row.autosave == game.autosave
                    &&& row.maxbackups == game.maxbackups
                    &&& row.clear == Some(
                        match game.clear {
                            Some(c) => c,
                            None => DEFAULT_PLAY_STATUS,
                        },
                    )
                    &&& row.le_launch == game.le_launch
                    &&& row.magpie == game.magpie
                    &&& row.custom_data == game.custom_data
                    &&& row.created_at == Some(now)
                    &&& row.updated_at == Some(now)
                },
                Err(RepoError::Custom(m)) => exists|c: Seq<UpsertGameSourceData>, l: Option<String>|
                    #[trigger] insert_refused(game, c, l, m@),
                Err(RepoError::RecordNotFound(_)) => false,
            },
    {
        let ghost orig = game;
        let game = game.cleaned();
        let no_removes: Vec<String> = Vec::new();
        assert(no_removes@ =~= Seq::<String>::empty());
        match Self::validate_source_changes(&game.sources, &no_removes) {
            Ok(()) => {},
            Err(e) => {
                assert(crate::dto::sources_cleaned(orig.sources@, game.sources@));
                match &e {
                    RepoError::Custom(m) => {
                        assert(insert_refused(orig, game.sources@, game.localpath, m@));
                    },
                    _ => {},
                }
                return Err(e);
            },
        }
        match Self::validate_path_state(&game.localpath, &game.executable) {
            Ok(()) => {},
            Err(e) => {
                assert(crate::dto::sources_cleaned(orig.sources@, game.sources@));
                match &e {
                    RepoError::Custom(m) => {
                        assert(insert_refused(orig, game.sources@, game.localpath, m@));
                    },
                    _ => {},
                }
                return Err(e);
            },
        }
        let game = Self::normalize_insert_date(game);
        Ok(Self::build_insert_row(game, now))
    }

    /// The columns an update writes, with the update time `now`, and the
    /// sources it writes and removes.
    pub fn build_update_row(updates: UpdateGameData, now: i32) -> (r: (
        GameRowUpdate,
        Vec<UpsertGameSourceData>,
        Vec<String>,
    ))
        ensures
            r.0.id_type == updates.id_type,
            r.0.date == updates.date,
            r.0.localpath == updates.localpath,
            r.0.executable == updates.executable,
            r.0.savepath == updates.savepath,
            r.0.autosave == updates.autosave,
            r.0.maxbackups == updates.maxbackups,
            r.0.clear == updates.clear,
            r.0.le_launch == updates.le_launch,
            r.0.magpie == updates.magpie,
            r.0.webdav_sync == updates.webdav_sync,
            r.0.custom_data == updates.custom_data,
            r.0.updated_at == now,
            r.1@ == written_of(updates),
            r.2@ == removed_of(updates),
    {
        let UpdateGameData {
            id_type,
            date,
            localpath,
            executable,
            savepath,
            autosave,
            maxbackups,
            clear,
            le_launch,
            magpie,
            webdav_sync,
            custom_data,
            upsert_sources,
            remove_sources,
        } = updates;
        let upserts = match upsert_sources {
            Some(v) => v,
            None => Vec::new(),
        };
        let removes = match remove_sources {
            Some(v) => v,
            None => Vec::new(),
        };
        (
            GameRowUpdate {
                id_type,
                date,
                localpath,
                executable,
                savepath,
                autosave,
                maxbackups,
                clear,
                le_launch,
                magpie,
                webdav_sync,
                custom_data,
                updated_at: now,
            },
            upserts,
            removes,
        )
    }
}

// ==================== batches ====================

/// The progress of a batch insert.
#[derive(Debug)]
pub struct BatchProgress {
    pub total: usize,
    pub ids: Vec<i32>,
    pub games: Vec<FullGameData>,
    pub errors: Vec<BatchOperationError>,
}

impl BatchProgress {
    /// Items recorded so far.
    pub open spec fn processed(&self) -> int {
        self.ids.len() + self.errors.len()
    }

    /// Each recorded game carries its id; failures are recorded in the order
    /// of the items, each at the position it was recorded at or before.
    pub open spec fn wf(&self) -> bool {
        &&& self.games.len() == self.ids.len()
        &&& self.processed() <= self.total
        &&& forall|k: int| 0 <= k < self.ids.len() ==> self.ids@[k] == (#[trigger] self.games@[k]).id
        &&& forall|i: int, j: int| 0 <= i < j < self.errors.len() ==> (#[trigger] self.errors@[i]).index
            < (#[trigger] self.errors@[j]).index
        &&& forall|i: int| 0 <= i < self.errors.len() ==> (#[trigger] self.errors@[i]).index < self.processed()
    }

    pub fn new(total: usize) -> (r: Self)
        ensures
            r.wf(),
            r.total == total,
            r.processed() == 0,
    {
        BatchProgress { total, ids: Vec::new(), games: Vec::new(), errors: Vec::new() }
    }

    /// How many items are recorded.
    pub fn recorded(&self) -> (n: usize)
        requires
            self.wf(),
        ensures
            n == self.processed(),
    {
        self.ids.len() + self.errors.len()
    }

    /// Records an inserted game, the next item.
    pub fn record_success(&mut self, game: FullGameData)
        requires
            old(self).wf(),
            old(self).processed() < old(self).total,
        ensures
            final(self).wf(),
            final(self).total == old(self).total,
            final(self).ids@ == old(self).ids@.push(game.id),
            final(self).games@ == old(self).games@.push(game),
            final(self).errors@ == old(self).errors@,
            final(self).processed() == old(self).processed() + 1,
    {
        self.ids.push(game.id);
        self.games.push(game);
    }

    /// Records the failure of the next item, which is at `index`.
    pub fn record_failure(&mut self, index: usize, message: String)
        requires
            old(self).wf(),
            old(self).processed() < old(self).total,
            index == old(self).processed(),
        ensures
            final(self).wf(),
            final(self).total == old(self).total,
            final(self).ids@ == old(self).ids@,
            final(self).games@ == old(self).games@,
            final(self).errors@ == old(self).errors@.push(BatchOperationError { index, message }),
            final(self).processed() == old(self).processed() + 1,
    {
        self.errors.push(BatchOperationError { index, message });
    }

    /// The outcome once every item is recorded: successes and failures add up
    /// to the total, each inserted game with its id, the failures in the order
    /// of the items.
    pub fn finish(self) -> (r: BatchOperationResult)
        requires
            self.wf(),
            self.processed() == self.total,
        ensures
            r.total == self.total,
            r.success == self.ids.len(),
            r.failed == self.errors.len(),
            r.success + r.failed == r.total,
            r.ids == self.ids,
            r.games == self.games,
            r.errors == self.errors,
            r.ids@.len() == r.games@.len(),
            forall|k: int| 0 <= k < r.ids@.len() ==> r.ids@[k] == (#[trigger] r.games@[k]).id,
            forall|i: int, j: int| 0 <= i < j < r.errors@.len() ==> (#[trigger] r.errors@[i]).index
                < (#[trigger] r.errors@[j]).index,
            forall|i: int| 0 <= i < r.errors@.len() ==> (#[trigger] r.errors@[i]).index < r.total,
    {
        let success = self.ids.len();
        let failed = self.errors.len();
        BatchOperationResult {
            total: self.total,
            success,
            failed,
            ids: self.ids,
            games: self.games,
            errors: self.errors,
        }
    }
}

impl GamesRepository {
    /// The outcome of a batch that failed as a whole: every item failed with `message`.
    pub fn build_batch_failure_result(total: usize, message: String) -> (r: BatchOperationResult)
        ensures
            r.total == total,
            r.success == 0,
            r.failed == total,
            r.ids@.len() == 0,
            r.games@.len() == 0,
            r.errors@.len() == total,
            forall|i: int| 0 <= i < total ==> (#[trigger] r.errors@[i]).index == i && r.errors@[i].message@
                == message@,
    {
        let mut errors: Vec<BatchOperationError> = Vec::new();
        let mut i: usize = 0;
        while i < total
            invariant
                i <= total,
                errors@.len() == i,
                forall|j: int| 0 <= j < i ==> (#[trigger] errors@[j]).index == j && errors@[j].message@
                    == message@,
            decreases total - i,
        {
            errors.push(BatchOperationError { index: i, message: message.clone() });
            i += 1;
        }
        BatchOperationResult { total, success: 0, failed: total, ids: Vec::new(), games: Vec::new(), errors }
    }
}

// ==================== listing order ====================

/// The ways games can be listed.
#[derive(Debug, Clone, Copy, PartialEq, Eq, Structural)]
pub enum SortOption {
    Addtime,
    Datetime,
    LastPlayed,
    BGMRank,
    VNDBRank,
    UserRatingRank,
    Namesort,
}

/// The direction of a listing.
#[derive(Debug, Clone, Copy, PartialEq, Eq, Structural)]
pub enum SortOrder {
    Asc,
    Desc,
}

/// Which games are listed.
#[derive(Debug, Clone, Copy, PartialEq, Eq, Structural)]
pub enum GameType {
    /// Every game.
    All,
    /// Games with a game folder.
    Local,
    /// Games without a game folder.
    Online,
    /// Games of the `custom` and `Whitecloud` kinds.
    IsCustom,
}

/// A value that games are ordered by.
#[derive(Debug, Clone, Copy, PartialEq, Eq, Structural)]
pub enum OrderKey {
    /// The id, which grows with the time of adding.
    Id,
    /// The release date; missing when not set.
    Date,
    /// The last play time; missing when never played.
    LastPlayed,
    /// The Bangumi score; missing when absent or zero.
    BgmScore,
    /// The Bangumi rank; missing when absent or zero.
    BgmRank,
    /// The VNDB score; missing when absent or zero.
    VndbScore,
    /// The user's rating; missing when absent, zero or negative.
    UserRating,
}

/// One term of an ORDER BY: games with the value missing go last when
/// `missing_last`, the others follow the value in the given direction.
#[derive(Debug, Clone, Copy, PartialEq, Eq, Structural)]
pub struct OrderTerm {
    pub key: OrderKey,
    pub descending: bool,
    pub missing_last: bool,
}

pub open spec fn term(key: OrderKey, descending: bool, missing_last: bool) -> OrderTerm {
    OrderTerm { key, descending, missing_last }
}

/// How ids are ordered for a listing. Ranks and ratings put the best first
/// when ascending; every listing but the plain one ends by id; by name the
/// order is made in the application, not the query.
pub open spec fn order_plan(option: SortOption, order: SortOrder) -> Option<Seq<OrderTerm>> {
    let desc = order == SortOrder::Desc;
    match option {
        SortOption::Addtime => Some(seq![term(OrderKey::Id, desc, false)]),
        SortOption::Datetime => Some(seq![term(OrderKey::Date, desc, true), term(OrderKey::Id, false, false)]),
        SortOption::LastPlayed => Some(
            seq![term(OrderKey::LastPlayed, desc, true), term(OrderKey::Id, false, false)],
        ),
        SortOption::BGMRank => Some(
            seq![
                term(OrderKey::BgmScore, !desc, true),
                term(OrderKey::BgmRank, desc, true),
                term(OrderKey::Id, false, false),
            ],
        ),
        SortOption::VNDBRank => Some(seq![term(OrderKey::VndbScore, !desc, true), term(OrderKey::Id, false, false)]),
        SortOption::UserRatingRank => Some(
            seq![term(OrderKey::UserRating, !desc, true), term(OrderKey::Id, false, false)],
        ),
        SortOption::Namesort => None,
    }
}

/// The direction of a listing changes only the order of the games that have
/// the value: games missing it stay last, and ties stay by ascending id.
pub proof fn lemma_direction_keeps_missing_last(option: SortOption)
    requires
        option != SortOption::Namesort,
    ensures
        ({
            let a = order_plan(option, SortOrder::Asc)->0;
            let d = order_plan(option, SortOrder::Desc)->0;
            &&& order_plan(option, SortOrder::Asc) is Some
            &&& order_plan(option, SortOrder::Desc) is Some
            &&& a.len() == d.len()
            &&& forall|i: int| 0 <= i < a.len() ==> (#[trigger] a[i]).key == d[i].key && a[i].missing_last
                == d[i].missing_last
            &&& forall|i: int| 0 <= i < a.len() && (#[trigger] a[i]).key != OrderKey::Id ==> a[i].missing_last
                && a[i].descending != d[i].descending
            &&& option != SortOption::Addtime ==> a.last() == term(OrderKey::Id, false, false) && d.last()
                == term(OrderKey::Id, false, false)
        }),
{
}

/// Which way each listing runs. Ascending lists the earliest add time, the
/// oldest release date and the longest-unplayed game first, and the best
/// Bangumi score, VNDB score and user rating first; descending lists the
/// reverse. Games missing the value come last either way, and the listings
/// other than by add time end with ascending id.
pub proof fn lemma_listing_directions(option: SortOption, order: SortOrder)
    requires
        option != SortOption::Namesort,
    ensures
        ({
            let p = order_plan(option, order)->0;
            let asc = order == SortOrder::Asc;
            &&& order_plan(option, order) is Some
            &&& option == SortOption::Addtime ==> p == seq![
                OrderTerm { key: OrderKey::Id, descending: !asc, missing_last: false },
            ]
            &&& option == SortOption::Datetime ==> p.len() == 2 && p[0] == OrderTerm {
                key: OrderKey::Date,
                descending: !asc,
                missing_last: true,
            }
            &&& option == SortOption::LastPlayed ==> p.len() == 2 && p[0] == OrderTerm {
                key: OrderKey::LastPlayed,
                descending: !asc,
                missing_last: true,
            }
            &&& option == SortOption::BGMRank ==> p.len() == 3 && p[0] == OrderTerm {
                key: OrderKey::BgmScore,
                descending: asc,
                missing_last: true,
            } && p[1] == OrderTerm { key: OrderKey::BgmRank, descending: !asc, missing_last: true }
            &&& option == SortOption::VNDBRank ==> p.len() == 2 && p[0] == OrderTerm {
                key: OrderKey::VndbScore,
                descending: asc,
                missing_last: true,
            }
            &&& option == SortOption::UserRatingRank ==> p.len() == 2 && p[0] == OrderTerm {
                key: OrderKey::UserRating,
                descending: asc,
                missing_last: true,
            }
            &&& option != SortOption::Addtime ==> p.last() == OrderTerm {
                key: OrderKey::Id,
                descending: false,
                missing_last: false,
            }
        }),
{
}

impl GamesRepository {
    /// How ids are ordered for a listing; `None` for the order by name.
    pub fn id_order_plan(option: SortOption, order: SortOrder) -> (r: Option<Vec<OrderTerm>>)
        ensures
            match r {
                Some(v) => order_plan(option, order) == Some(v@),
                None => order_plan(option, order) is None,
            },
    {
        let desc = match order {
            SortOrder::Asc => false,
            SortOrder::Desc => true,
        };
        let by_id = OrderTerm { key: OrderKey::Id, descending: false, missing_last: false };
        let mut v: Vec<OrderTerm> = Vec::new();
        match option {
            SortOption::Addtime => {
                v.push(OrderTerm { key: OrderKey::Id, descending: desc, missing_last: false });
            },
            SortOption::Datetime => {
                v.push(OrderTerm { key: OrderKey::Date, descending: desc, missing_last: true });
                v.push(by_id);
            },
            SortOption::LastPlayed => {
                v.push(OrderTerm { key: OrderKey::LastPlayed, descending: desc, missing_last: true });
                v.push(by_id);
            },
            SortOption::BGMRank => {
                v.push(OrderTerm { key: OrderKey::BgmScore, descending: !desc, missing_last: true });
                v.push(OrderTerm { key: OrderKey::BgmRank, descending: desc, missing_last: true });
                v.push(by_id);
            },
            SortOption::VNDBRank => {
                v.push(OrderTerm { key: OrderKey::VndbScore, descending: !desc, missing_last: true });
                v.push(by_id);
            },
            SortOption::UserRatingRank => {
                v.push(OrderTerm { key: OrderKey::UserRating, descending: !desc, missing_last: true });
                v.push(by_id);
            },
            SortOption::Namesort => {
                return None;
            },
        }
        proof {
            assert(v@ =~= order_plan(option, order)->0);
        }
        Some(v)
    }
}

// ==================== reading in order ====================

/// The games keyed by id; a game read later replaces one read earlier with
/// the same id.
pub open spec fn games_by_id(games: Seq<FullGameData>) -> Map<i32, FullGameData>
    decreases games.len(),
{
    if games.len() == 0 {
        Map::empty()
    } else {
        games_by_id(games.drop_last()).insert(games.last().id, games.last())
    }
}

/// The games of `by_id` in the order of `ids`: an id that the map holds gives
/// its game once, and is then taken out; other ids give nothing.
pub open spec fn take_in_order(ids: Seq<i32>, by_id: Map<i32, FullGameData>) -> Seq<FullGameData>
    decreases ids.len(),
{
    if ids.len() == 0 {
        Seq::empty()
    } else if by_id.contains_key(ids[0]) {
        seq![by_id[ids[0]]] + take_in_order(ids.drop_first(), by_id.remove(ids[0]))
    } else {
        take_in_order(ids.drop_first(), by_id)
    }
}

impl GamesRepository {
    /// The games read, put in the order of `ids`: each asked id that was read
    /// gives the game last read with it, once; ids not read are skipped.
    pub fn order_games_by_ids(ids: &Vec<i32>, games: Vec<FullGameData>) -> (r: Vec<FullGameData>)
        ensures
            r@ == take_in_order(ids@, games_by_id(games@)),
    {
        broadcast use vstd::std_specs::hash::group_hash_axioms;
        let ghost g = games@;
        let total: usize = games.len();
        let mut by_id: HashMap<i32, FullGameData> = HashMap::new();
        let mut rest = games;
        let mut rev: Vec<FullGameData> = Vec::new();
        while rest.len() > 0
            invariant
                rest@.len() + rev@.len() == g.len(),
                forall|j: int| 0 <= j < rest@.len() ==> (#[trigger] rest@[j]) == g[j],
                forall|j: int| 0 <= j < rev@.len() ==> (#[trigger] rev@[j]) == g[g.len() - 1 - j],
            decreases rest.len(),
        {
            let x = rest.pop().unwrap();
            rev.push(x);
        }
        let mut n: usize = 0;
        while rev.len() > 0
            invariant
                rev@.len() + n == total,
                total == g.len(),
                forall|j: int| 0 <= j < rev@.len() ==> (#[trigger] rev@[j]) == g[g.len() - 1 - j],
                by_id@ == games_by_id(g.take(n as int)),
            decreases rev.len(),
        {
            let x = rev.pop().unwrap();
            assert(x == g[n as int]);
            assert(g.take(n + 1).drop_last() =~= g.take(n as int));
            let _ = by_id.insert(x.id, x);
            n += 1;
        }
        assert(g.take(g.len() as int) =~= g);
        let ghost full = by_id@;
        let mut out: Vec<FullGameData> = Vec::new();
        let mut i: usize = 0;
        assert(ids@.subrange(0, ids@.len() as int) =~= ids@);
        while i < ids.len()
            invariant
                i <= ids.len(),
                out@ + take_in_order(ids@.subrange(i as int, ids@.len() as int), by_id@)
                    == take_in_order(ids@, full),
            decreases ids.len() - i,
        {
            let id = ids[i];
            let ghost sub = ids@.subrange(i as int, ids@.len() as int);
            let ghost before = by_id@;
            assert(sub[0] == id);
            assert(sub.drop_first() =~= ids@.subrange(i + 1, ids@.len() as int));
            match by_id.remove(&id) {
                Some(game) => {
                    assert(by_id@ == before.remove(id));
                    assert(out@.push(game) + take_in_order(sub.drop_first(), by_id@)
                        =~= out@ + take_in_order(sub, before));
                    out.push(game);
                },
                None => {
                    assert(by_id@ == before.remove(id));
                    assert(by_id@ =~= before);
                },
            }
            i += 1;
        }
        assert(ids@.subrange(ids@.len() as int, ids@.len() as int) =~= Seq::<i32>::empty());
        assert(out@ =~= take_in_order(ids@, full));
        out
    }
}

proof fn lemma_games_by_id_keys(games: Seq<FullGameData>)
    ensures
        forall|k: i32| #[trigger] games_by_id(games).contains_key(k) ==> games_by_id(games)[k].id == k,
    decreases games.len(),
{
    if games.len() > 0 {
        lemma_games_by_id_keys(games.drop_last());
    }
}

proof fn lemma_take_in_order_from(ids: Seq<i32>, m: Map<i32, FullGameData>)
    requires
        forall|k: i32| #[trigger] m.contains_key(k) ==> m[k].id == k,
    ensures
        forall|i: int| 0 <= i < take_in_order(ids, m).len() ==> {
            let g = #[trigger] take_in_order(ids, m)[i];
            m.contains_key(g.id) && m[g.id] == g
        },
        forall|i: int, j: int| 0 <= i < j < take_in_order(ids, m).len() ==>
            (#[trigger] take_in_order(ids, m)[i]).id != (#[trigger] take_in_order(ids, m)[j]).id,
    decreases ids.len(),
{
    if ids.len() > 0 {
        let id = ids[0];
        if m.contains_key(id) {
            let rest_map = m.remove(id);
            assert forall|k: i32| #[trigger] rest_map.contains_key(k) implies rest_map[k].id == k by {
                assert(m.contains_key(k));
            }
            lemma_take_in_order_from(ids.drop_first(), rest_map);
            let rest = take_in_order(ids.drop_first(), rest_map);
            let r = take_in_order(ids, m);
            assert(r == seq![m[id]] + rest);
            assert forall|i: int| 0 <= i < r.len() implies {
                let g = #[trigger] r[i];
                m.contains_key(g.id) && m[g.id] == g
            } by {
                if i > 0 {
                    assert(r[i] == rest[i - 1]);
                }
            }
            assert forall|i: int, j: int| 0 <= i < j < r.len() implies (#[trigger] r[i]).id != (#[trigger] r[j]).id by {
                assert(r[j] == rest[j - 1]);
                assert(rest_map.contains_key(rest[j - 1].id));
                if i > 0 {
                    assert(r[i] == rest[i - 1]);
                }
            }
        } else {
            lemma_take_in_order_from(ids.drop_first(), m);
        }
    }
}

/// Reading games in the order of ids lists each game once, and the game
/// listed for an id is the one last read with that id.
pub proof fn lemma_ordered_games_once(ids: Seq<i32>, games: Seq<FullGameData>)
    ensures
        forall|i: int| 0 <= i < take_in_order(ids, games_by_id(games)).len() ==> {
            let g = #[trigger] take_in_order(ids, games_by_id(games))[i];
            games_by_id(games).contains_key(g.id) && games_by_id(games)[g.id] == g
        },
        forall|i: int, j: int| 0 <= i < j < take_in_order(ids, games_by_id(games)).len() ==>
            (#[trigger] take_in_order(ids, games_by_id(games))[i]).id
                != (#[trigger] take_in_order(ids, games_by_id(games))[j]).id,
{
    lemma_games_by_id_keys(games);
    lemma_take_in_order_from(ids, games_by_id(games));
}

proof fn lemma_no_upsert_error_before(ups: Seq<UpsertGameSourceData>, n: int, i: int)
    requires
        0 <= i < n,
        first_upsert_error(ups, n) is None,
    ensures
        upsert_error(ups, i) is None,
    decreases n,
{
    if i < n - 1 {
        lemma_no_upsert_error_before(ups, n - 1, i);
    }
}

proof fn lemma_no_remove_error_before(ups: Seq<UpsertGameSourceData>, rms: Seq<String>, n: int, i: int)
    requires
        0 <= i < n,
        first_remove_error(ups, rms, n) is None,
    ensures
        remove_error(ups, rms, i) is None,
    decreases n,
{
    if i < n - 1 {
        lemma_no_remove_error_before(ups, rms, n - 1, i);
    }
}

/// Accepted source changes write each source once, each with a name and an id
/// or data, remove each source once, and never write and remove one source.
pub proof fn lemma_accepted_source_changes(ups: Seq<UpsertGameSourceData>, rms: Seq<String>)
    requires
        source_changes_error(ups, rms) is None,
    ensures
        forall|i: int| 0 <= i < ups.len() ==> source_error(#[trigger] ups[i]) is None,
        forall|i: int, j: int| 0 <= i < j < ups.len() ==> (#[trigger] ups[i]).source@ != (#[trigger] ups[j]).source@,
        forall|i: int, j: int| 0 <= i < j < rms.len() ==> (#[trigger] rms[i])@ != (#[trigger] rms[j])@,
        forall|i: int, k: int| 0 <= i < rms.len() && 0 <= k < ups.len() ==> (#[trigger] ups[k]).source@
            != (#[trigger] rms[i])@,
{
    assert forall|i: int| 0 <= i < ups.len() implies source_error(#[trigger] ups[i]) is None by {
        lemma_no_upsert_error_before(ups, ups.len() as int, i);
    }
    assert forall|i: int, j: int| 0 <= i < j < ups.len() implies (#[trigger] ups[i]).source@
        != (#[trigger] ups[j]).source@ by {
        lemma_no_upsert_error_before(ups, ups.len() as int, j);
    }
    assert forall|i: int, j: int| 0 <= i < j < rms.len() implies (#[trigger] rms[i])@ != (
    #[trigger] rms[j])@ by {
        lemma_no_remove_error_before(ups, rms, rms.len() as int, j);
    }
    assert forall|i: int, k: int| 0 <= i < rms.len() && 0 <= k < ups.len() implies (
    #[trigger] ups[k]).source@ != (#[trigger] rms[i])@ by {
        lemma_no_remove_error_before(ups, rms, rms.len() as int, i);
    }
}

/// Accepted paths: a start file only with a game folder, and then a bare file name.
pub proof fn lemma_accepted_path_state(localpath: Option<Seq<char>>, executable: Option<Seq<char>>)
    requires
        path_state_error(localpath, executable) is None,
    ensures
        executable is Some ==> localpath is Some && is_bare_file_name(executable->0),
{
}

/// An update that clears the game folder always clears the start file, and
/// is accepted whatever start file it names.
pub proof fn lemma_clearing_folder_clears_start_file(u: UpdateGameData, current_executable: Option<String>)
    requires
        u.localpath == Some(None::<String>),
    ensures
        cascaded_executable(u) == Some(None::<String>),
        path_state_error(
            opt_opt_view_or(u.localpath, None),
            opt_opt_view_or(cascaded_executable(u), current_executable),
        ) is None,
{
}

/// A written column reads back as written; a column not written keeps its value.
pub proof fn lemma_row_update_read_back(row: GameRow, u: GameRowUpdate)
    ensures
        u.localpath matches Some(v) ==> row_after_update(row, u).localpath == v,
        u.localpath is None ==> row_after_update(row, u).localpath == row.localpath,
        u.executable matches Some(v) ==> row_after_update(row, u).executable == v,
        u.executable is None ==> row_after_update(row, u).executable == row.executable,
        u.date matches Some(v) ==> row_after_update(row, u).date == v,
        u.date is None ==> row_after_update(row, u).date == row.date,
        row_after_update(row, u).created_at == row.created_at,
        row_after_update(row, u).updated_at == Some(u.updated_at),
{
}

proof fn lemma_first_error_stays_upsert(ups: Seq<UpsertGameSourceData>, n: int, m: int)
    requires
        0 <= n <= m,
        first_upsert_error(ups, n) is Some,
    ensures
        first_upsert_error(ups, m) == first_upsert_error(ups, n),
    decreases m - n,
{
    if n < m {
        lemma_first_error_stays_upsert(ups, n, m - 1);
    }
}

proof fn lemma_first_error_stays_remove(ups: Seq<UpsertGameSourceData>, rms: Seq<String>, n: int, m: int)
    requires
        0 <= n <= m,
        first_remove_error(ups, rms, n) is Some,
    ensures
        first_remove_error(ups, rms, m) == first_remove_error(ups, rms, n),
    decreases m - n,
{
    if n < m {
        lemma_first_error_stays_remove(ups, rms, n, m - 1);
    }
}

} // verus!
