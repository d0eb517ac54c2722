//! Data exchanged with the front end, and the cleaning that turns blank text
//! into "no value" before anything is stored.

use vstd::prelude::*;
use crate::json::{JsonValue, JsonModel, clean_json_value, clean_model, opt_model};
use crate::path::{
    clean_local_path, clean_path_allows, normalized_path, name_parts, has_root, has_leading_cur_dir, path_names, lemma_normalized_first,
    lemma_normalized_path_stable,
};
use crate::seqs::split_char;
use crate::text::{
    is_blank, trim, trim_start, trim_end, is_white_space, str_is_blank, trim_string, lemma_trim_idempotent,
};

verus! {

/// Bangumi authorization.
#[derive(Debug)]
pub struct BgmAuth {
    pub access_token: String,
}

/// User-edited game data stored with the game.
#[derive(Debug, Default)]
pub struct CustomData {
    pub name: Option<String>,
    /// The user's rating in its decimal text form.
    pub user_rating: Option<String>,
    /// The other members of the stored data, kept as they are.
    pub other: Vec<(String, JsonValue)>,
}

/// Data for inserting a collection.
#[derive(Debug)]
pub struct InsertCollectionData {
    pub name: String,
    pub parent_id: Option<i32>,
    pub sort_order: i32,
    pub icon: Option<String>,
}

/// Data for updating a collection; `None` leaves a field as it is.
#[derive(Debug)]
pub struct UpdateCollectionData {
    pub name: Option<String>,
    pub parent_id: Option<Option<i32>>,
    pub sort_order: Option<i32>,
    pub icon: Option<Option<String>>,
}

/// Data for updating the settings. The outer `Option` says whether the field
/// was given, the inner one whether it is set or cleared.
#[derive(Debug, Default)]
pub struct UpdateSettingsData {
    pub bgm_auth: Option<Option<BgmAuth>>,
    pub vndb_token: Option<Option<String>>,
    pub save_root_path: Option<Option<String>>,
    pub db_backup_path: Option<Option<String>>,
    pub le_path: Option<Option<String>>,
    pub magpie_path: Option<Option<String>>,
    pub webdav_url: Option<Option<String>>,
    pub webdav_username: Option<Option<String>>,
    pub webdav_password: Option<Option<String>>,
    pub webdav_root: Option<Option<String>>,
    pub webdav_enabled: Option<Option<bool>>,
}

/// One outside metadata source of a game.
#[derive(Debug)]
pub struct GameSourceData {
    pub source: String,
    pub external_id: Option<String>,
    pub data: Option<JsonValue>,
}

/// An outside metadata source to write.
#[derive(Debug)]
pub struct UpsertGameSourceData {
    pub source: String,
    pub external_id: Option<String>,
    pub data: Option<JsonValue>,
}

/// A game with all its data, as read back.
#[derive(Debug)]
pub struct FullGameData {
    pub id: i32,
    pub id_type: String,
    pub date: Option<String>,
    pub localpath: Option<String>,
    pub executable: Option<String>,
    pub savepath: Option<String>,
    pub autosave: Option<i32>,
    pub maxbackups: Option<i32>,
    pub clear: Option<i32>,
    pub le_launch: Option<i32>,
    pub magpie: Option<i32>,
    pub webdav_sync: Option<i32>,
    pub custom_data: Option<CustomData>,
    pub sources: Vec<GameSourceData>,
    pub created_at: Option<i32>,
    pub updated_at: Option<i32>,
}

/// Data for inserting a game with its sources.
#[derive(Debug)]
pub struct InsertGameData {
    pub id_type: String,
    pub date: Option<String>,
    pub localpath: Option<String>,
    pub executable: Option<String>,
    pub savepath: Option<String>,
    pub autosave: Option<i32>,
    pub maxbackups: Option<i32>,
    pub clear: Option<i32>,
    pub le_launch: Option<i32>,
    pub magpie: Option<i32>,
    pub custom_data: Option<CustomData>,
    pub sources: Vec<UpsertGameSourceData>,
}

/// The failure of one item of a batch.
#[derive(Debug)]
pub struct BatchOperationError {
    pub index: usize,
    pub message: String,
}

/// The outcome of a batch.
#[derive(Debug)]
pub struct BatchOperationResult {
    pub total: usize,
    pub success: usize,
    pub failed: usize,
    pub ids: Vec<i32>,
    pub games: Vec<FullGameData>,
    pub errors: Vec<BatchOperationError>,
}

/// Data for updating a game; every field may be left out. The outer `Option`
/// says whether a field was given, the inner one whether it is set or cleared.
#[derive(Debug, Default)]
pub struct UpdateGameData {
    pub id_type: Option<String>,
    pub date: Option<Option<String>>,
    pub localpath: Option<Option<String>>,
    pub executable: Option<Option<String>>,
    pub savepath: Option<Option<String>>,
    pub autosave: Option<Option<i32>>,
    pub maxbackups: Option<Option<i32>>,
    pub clear: Option<Option<i32>>,
    pub le_launch: Option<Option<i32>>,
    pub magpie: Option<Option<i32>>,
    pub webdav_sync: Option<Option<i32>>,
    pub custom_data: Option<Option<CustomData>>,
    pub upsert_sources: Option<Vec<UpsertGameSourceData>>,
    pub remove_sources: Option<Vec<String>>,
}

// ==================== specifications ====================

pub open spec fn opt_view(o: Option<String>) -> Option<Seq<char>> {
    match o {
        Some(s) => Some(s@),
        None => None,
    }
}

pub open spec fn string_views(s: Seq<String>) -> Seq<Seq<char>> {
    Seq::new(s.len(), |i: int| s[i]@)
}

/// A text that is blank becomes `None`; any other stays as it is.
pub open spec fn spec_clean_option_string(s: Option<String>) -> Option<String> {
    match s {
        Some(v) => if is_blank(v@) {
            None
        } else {
            Some(v)
        },
        None => None,
    }
}

/// The same cleaning inside a given field; a field that was not given stays so.
pub open spec fn spec_clean_double_option_string(s: Option<Option<String>>) -> Option<Option<String>> {
    match s {
        Some(inner) => Some(spec_clean_option_string(inner)),
        None => None,
    }
}

/// What cleaning an optional local path may give: nothing for nothing, else
/// what cleaning the path may give on the platform.
pub open spec fn opt_path_cleaned(v: Option<String>, out: Option<String>) -> bool {
    match v {
        Some(x) => clean_path_allows(x@, opt_view(out)),
        None => out is None,
    }
}

/// A local path trimmed and normalized with the `/`-separated rules, or
/// `None` when nothing is left.
pub open spec fn spec_clean_path(v: Seq<char>) -> Option<Seq<char>> {
    let n = normalized_path(trim(v));
    if n.len() > 0 {
        Some(n)
    } else {
        None
    }
}

/// A file name trimmed, or `None` when nothing is left.
pub open spec fn spec_clean_executable(v: Seq<char>) -> Option<Seq<char>> {
    if is_blank(v) {
        None
    } else {
        Some(trim(v))
    }
}

/// What cleaning a source gives: the name trimmed, a blank id removed, and the
/// data cleaned as `clean_json_value` does.
pub open spec fn source_cleaned(before: UpsertGameSourceData, after: UpsertGameSourceData) -> bool {
    &&& after.source@ == trim(before.source@)
    &&& after.external_id == spec_clean_option_string(before.external_id)
    &&& opt_model(after.data) == match before.data {
        Some(d) => clean_model(d.model()),
        None => None,
    }
}

pub open spec fn sources_cleaned(before: Seq<UpsertGameSourceData>, after: Seq<UpsertGameSourceData>) -> bool {
    &&& after.len() == before.len()
    &&& forall|i: int| 0 <= i < before.len() ==> source_cleaned(#[trigger] before[i], after[i])
}

/// The names trimmed, the empty ones removed.
pub open spec fn cleaned_names(s: Seq<String>) -> Seq<Seq<char>>
    decreases s.len(),
{
    if s.len() == 0 {
        Seq::empty()
    } else {
        let rest = cleaned_names(s.drop_last());
        let t = trim(s.last()@);
        if t.len() == 0 {
            rest
        } else {
            rest.push(t)
        }
    }
}

// ==================== laws ====================

/// With the `/`-separated rules, cleaning a cleaned local path gives it
/// back, unless the cleaned path ends in white space (` a /` cleans to `a `, which cleans to `a`).
pub proof fn lemma_clean_path_stable(v: Seq<char>)
    requires
        spec_clean_path(v) is Some ==> !is_white_space(spec_clean_path(v)->0.last()),
    ensures
        spec_clean_path(v) is Some ==> spec_clean_path(spec_clean_path(v)->0) == spec_clean_path(v),
{
    let p = trim(v);
    let n = normalized_path(p);
    if n.len() > 0 {
        lemma_trim_idempotent(v);
        if has_root(p) {
            assert(n[0] == '/');
        } else if has_leading_cur_dir(p) {
            assert(n[0] == '.');
        } else {
            if p.len() == 0 {
                assert(split_char(p, '/') == seq![Seq::<char>::empty()]);
                assert(seq![Seq::<char>::empty()].drop_last() =~= Seq::<Seq<char>>::empty());
                assert(seq![Seq::<char>::empty()].last() == Seq::<char>::empty());
                assert(name_parts(Seq::<Seq<char>>::empty()) == Seq::<Seq<char>>::empty());
                assert(path_names(p) =~= Seq::<Seq<char>>::empty());
            }
            lemma_normalized_first(p);
        }
        assert(!is_white_space(n[0]));
        assert(trim_start(n) == n);
        assert(trim_end(n) == n);
        lemma_normalized_path_stable(p);
    }
}

/// After cleaning, a text that is still there is not blank; cleaning again changes nothing.
pub proof fn lemma_cleaned_text_not_blank(s: Option<String>)
    ensures
        spec_clean_option_string(s) matches Some(v) ==> !is_blank(v@),
        spec_clean_option_string(spec_clean_option_string(s)) == spec_clean_option_string(s),
        spec_clean_double_option_string(spec_clean_double_option_string(Some(s)))
            == spec_clean_double_option_string(Some(s)),
        spec_clean_double_option_string(None) is None,
{
}

/// A cleaned file name is trimmed and not blank; cleaning it again changes nothing.
pub proof fn lemma_cleaned_executable(v: Seq<char>)
    ensures
        spec_clean_executable(v) matches Some(t) ==> !is_blank(t) && trim(t) == t && spec_clean_executable(t)
            == Some(t),
{
    crate::text::lemma_trim_idempotent(v);
}

/// A cleaned name is trimmed: cleaning it again changes nothing.
pub proof fn lemma_cleaned_name(v: Seq<char>)
    ensures
        trim(trim(v)) == trim(v),
{
    crate::text::lemma_trim_idempotent(v);
}

// ==================== cleaning ====================

/// A blank text becomes `None`.
pub fn clean_option_string(s: Option<String>) -> (r: Option<String>)
    ensures
        r == spec_clean_option_string(s),
{
    match s {
        Some(v) => {
            if str_is_blank(v.as_str()) {
                None
            } else {
                Some(v)
            }
        },
        None => None,
    }
}

/// A given blank text becomes "given, cleared"; a field not given stays so.
pub fn clean_double_option_string(s: Option<Option<String>>) -> (r: Option<Option<String>>)
    ensures
        r == spec_clean_double_option_string(s),
{
    match s {
        Some(inner) => Some(clean_option_string(inner)),
        None => None,
    }
}

/// Cleans a local path when there is one: trimmed and rebuilt from its
/// components with the platform's rules, `None` when nothing is left.
pub fn clean_option_local_path(value: Option<String>) -> (r: Option<String>)
    ensures
        opt_path_cleaned(value, r),
{
    match value {
        Some(v) => clean_local_path(v),
        None => None,
    }
}

/// Cleans the path of an update: an absent field stays absent, and an
/// explicit `null` stays an explicit `null`.
pub fn clean_double_option_local_path(value: Option<Option<String>>) -> (r: Option<Option<String>>)
    ensures
        match value {
            Some(inner) => r is Some && opt_path_cleaned(inner, r->0),
            None => r is None,
        },
{
    match value {
        Some(inner) => Some(clean_option_local_path(inner)),
        None => None,
    }
}

/// Trims a file name; a blank one becomes `None`.
pub fn clean_executable(value: String) -> (r: Option<String>)
    ensures
        opt_view(r) == spec_clean_executable(value@),
{
    let trimmed = trim_string(value.as_str());
    if trimmed.as_str().is_empty() {
        None
    } else {
        Some(trimmed)
    }
}

pub fn clean_option_executable(value: Option<String>) -> (r: Option<String>)
    ensures
        opt_view(r) == match value {
            Some(v) => spec_clean_executable(v@),
            None => None,
        },
{
    match value {
        Some(v) => clean_executable(v),
        None => None,
    }
}

pub fn clean_double_option_executable(value: Option<Option<String>>) -> (r: Option<Option<String>>)
    ensures
        match value {
            Some(inner) => r is Some && opt_view(r->0) == match inner {
                Some(v) => spec_clean_executable(v@),
                None => None,
            },
            None => r is None,
        },
{
    match value {
        Some(inner) => Some(clean_option_executable(inner)),
        None => None,
    }
}

/// Trims the token; an authorization whose token is blank becomes `None`.
pub fn clean_bgm_auth(auth: BgmAuth) -> (r: Option<BgmAuth>)
    ensures
        match r {
            Some(a) => !is_blank(auth.access_token@) && a.access_token@ == trim(auth.access_token@),
            None => is_blank(auth.access_token@),
        },
{
    let token = trim_string(auth.access_token.as_str());
    if token.as_str().is_empty() {
        None
    } else {
        Some(BgmAuth { access_token: token })
    }
}

pub fn clean_optional_bgm_auth(auth: Option<Option<BgmAuth>>) -> (r: Option<Option<BgmAuth>>)
    ensures
        match auth {
            Some(Some(a)) => r is Some && match r->0 {
                Some(c) => !is_blank(a.access_token@) && c.access_token@ == trim(a.access_token@),
                None => is_blank(a.access_token@),
            },
            Some(None) => r == Some(None::<BgmAuth>),
            None => r is None,
        },
{
    match auth {
        Some(Some(a)) => Some(clean_bgm_auth(a)),
        Some(None) => Some(None),
        None => None,
    }
}

impl UpsertGameSourceData {
    fn cleaned_copy(&self) -> (r: Self)
        ensures
            source_cleaned(*self, r),
    {
        let external_id = match &self.external_id {
            Some(id) => if str_is_blank(id.as_str()) {
                None
            } else {
                Some(id.clone())
            },
            None => None,
        };
        let data = match &self.data {
            Some(d) => clean_json_value_ref(d),
            None => None,
        };
        UpsertGameSourceData { source: trim_string(self.source.as_str()), external_id, data }
    }

    /// Trims the source name, removes a blank id and cleans the data.
    pub fn cleaned(self) -> (r: Self)
        ensures
            source_cleaned(self, r),
    {
        self.cleaned_copy()
    }
}

fn clean_json_value_ref(value: &JsonValue) -> (r: Option<JsonValue>)
    ensures
        opt_model(r) == clean_model(value.model()),
{
    crate::json::clean_json_ref(value)
}

/// Each source cleaned, in order.
pub fn clean_sources(sources: &Vec<UpsertGameSourceData>) -> (r: Vec<UpsertGameSourceData>)
    ensures
        sources_cleaned(sources@, r@),
{
    let mut out: Vec<UpsertGameSourceData> = Vec::new();
    let mut i: usize = 0;
    while i < sources.len()
        invariant
            i <= sources.len(),
            out@.len() == i,
            forall|j: int| 0 <= j < i ==> source_cleaned(#[trigger] sources@[j], out@[j]),
        decreases sources.len() - i,
    {
        out.push(sources[i].cleaned_copy());
        i += 1;
    }
    out
}

/// The names trimmed, the empty ones removed.
pub fn clean_names(names: &Vec<String>) -> (r: Vec<String>)
    ensures
        string_views(r@) == cleaned_names(names@),
{
    let mut out: Vec<String> = Vec::new();
    let mut i: usize = 0;
    while i < names.len()
        invariant
            i <= names.len(),
            string_views(out@) == cleaned_names(names@.subrange(0, i as int)),
        decreases names.len() - i,
    {
        assert(names@.subrange(0, i + 1).drop_last() =~= names@.subrange(0, i as int));
        let t = trim_string(names[i].as_str());
        if !t.as_str().is_empty() {
            let ghost before = out@;
            out.push(t);
            assert(string_views(out@) =~= string_views(before).push(t@));
        }
        i += 1;
    }
    assert(names@.subrange(0, names@.len() as int) =~= names@);
    out
}

impl InsertGameData {
    /// Blank texts become `None`; the directory is normalized, the file name
    /// trimmed, and each source cleaned.
    pub fn cleaned(self) -> (r: Self)
        ensures
            r.id_type == self.id_type,
            r.date == spec_clean_option_string(self.date),
            opt_path_cleaned(self.localpath, r.localpath),
            opt_view(r.executable) == match self.executable {
                Some(v) => spec_clean_executable(v@),
                None => None,
            },
            r.savepath == spec_clean_option_string(self.savepath),
            r.autosave == self.autosave,
            r.maxbackups == self.maxbackups,
            r.clear == self.clear,
            r.le_launch == self.le_launch,
            r.magpie == self.magpie,
            r.custom_data == self.custom_data,
            sources_cleaned(self.sources@, r.sources@),
    {
        let InsertGameData {
            id_type,
            date,
            localpath,
            executable,
            savepath,
            autosave,
            maxbackups,
            clear,
            le_launch,
            magpie,
            custom_data,
            sources,
        } = self;
        InsertGameData {
            id_type,
            date: clean_option_string(date),
            localpath: clean_option_local_path(localpath),
            executable: clean_option_executable(executable),
            savepath: clean_option_string(savepath),
            autosave,
            maxbackups,
            clear,
            le_launch,
            magpie,
            custom_data,
            sources: clean_sources(&sources),
        }
    }
}

impl UpdateGameData {
    /// The given texts cleaned as for an insert; names of sources to remove
    /// are trimmed and empty ones dropped. Fields not given stay not given.
    pub fn cleaned(self) -> (r: Self)
        ensures
            r.id_type == self.id_type,
            r.date == spec_clean_double_option_string(self.date),
            match self.localpath {
                Some(inner) => r.localpath is Some && opt_path_cleaned(inner, r.localpath->0),
                None => r.localpath is None,
            },
            match self.executable {
                Some(inner) => r.executable is Some && opt_view(r.executable->0) == match inner {
                    Some(v) => spec_clean_executable(v@),
                    None => None,
                },
                None => r.executable is None,
            },
            r.savepath == spec_clean_double_option_string(self.savepath),
            r.autosave == self.autosave,
            r.maxbackups == self.maxbackups,
            r.clear == self.clear,
            r.le_launch == self.le_launch,
            r.magpie == self.magpie,
            r.webdav_sync == self.webdav_sync,
            r.custom_data == self.custom_data,
            match self.upsert_sources {
                Some(s) => r.upsert_sources is Some && sources_cleaned(s@, r.upsert_sources->0@),
                None => r.upsert_sources is None,
            },
            match self.remove_sources {
                Some(s) => r.remove_sources is Some && string_views(r.remove_sources->0@)
                    == cleaned_names(s@),
                None => r.remove_sources is None,
            },
    {
        let UpdateGameData {
            id_type,
            date,
            localpath,
            executable,
            savepath,
            autosave,
            maxbackups,
            clear,
            le_launch,
            magpie,
            webdav_sync,
            custom_data,
            upsert_sources,
            remove_sources,
        } = self;
        let upsert_sources = match upsert_sources {
            Some(s) => Some(clean_sources(&s)),
            None => None,
        };
        let remove_sources = match remove_sources {
            Some(s) => Some(clean_names(&s)),
            None => None,
        };
        UpdateGameData {
            id_type,
            date: clean_double_option_string(date),
            localpath: clean_double_option_local_path(localpath),
            executable: clean_double_option_executable(executable),
            savepath: clean_double_option_string(savepath),
            autosave,
            maxbackups,
            clear,
            le_launch,
            magpie,
            webdav_sync,
            custom_data,
            upsert_sources,
            remove_sources,
        }
    }
}

impl InsertCollectionData {
    /// The name trimmed; a blank icon becomes `None`.
    pub fn cleaned(self) -> (r: Self)
        ensures
            r.name@ == trim(self.name@),
            r.parent_id == self.parent_id,
            r.sort_order == self.sort_order,
            r.icon == spec_clean_option_string(self.icon),
    {
        InsertCollectionData {
            name: trim_string(self.name.as_str()),
            parent_id: self.parent_id,
            sort_order: self.sort_order,
            icon: clean_option_string(self.icon),
        }
    }
}

impl UpdateCollectionData {
    /// A given name trimmed, a blank one becomes `None`; a given blank icon
    /// becomes "given, cleared".
    pub fn cleaned(self) -> (r: Self)
        ensures
            opt_view(r.name) == match self.name {
                Some(n) => if is_blank(n@) {
                    None
                } else {
                    Some(trim(n@))
                },
                None => None,
            },
            r.parent_id == self.parent_id,
            r.sort_order == self.sort_order,
            r.icon == spec_clean_double_option_string(self.icon),
    {
        let name = match self.name {
            Some(n) => {
                if str_is_blank(n.as_str()) {
                    None
                } else {
                    Some(trim_string(n.as_str()))
                }
            },
            None => None,
        };
        UpdateCollectionData {
            name,
            parent_id: self.parent_id,
            sort_order: self.sort_order,
            icon: clean_double_option_string(self.icon),
        }
    }
}

impl UpdateSettingsData {
    /// Given blank texts become "given, cleared"; an authorization with a
    /// blank token is cleared too. The switch is left as given.
    pub fn cleaned(self) -> (r: Self)
        ensures
            match self.bgm_auth {
                Some(Some(a)) => r.bgm_auth is Some && match r.bgm_auth->0 {
                    Some(c) => !is_blank(a.access_token@) && c.access_token@ == trim(a.access_token@),
                    None => is_blank(a.access_token@),
                },
                Some(None) => r.bgm_auth == Some(None::<BgmAuth>),
                None => r.bgm_auth is None,
            },
            r.vndb_token == spec_clean_double_option_string(self.vndb_token),
            r.save_root_path == spec_clean_double_option_string(self.save_root_path),
            r.db_backup_path == spec_clean_double_option_string(self.db_backup_path),
            r.le_path == spec_clean_double_option_string(self.le_path),
            r.magpie_path == spec_clean_double_option_string(self.magpie_path),
            r.webdav_url == spec_clean_double_option_string(self.webdav_url),
            r.webdav_username == spec_clean_double_option_string(self.webdav_username),
            r.webdav_password == spec_clean_double_option_string(self.webdav_password),
            r.webdav_root == spec_clean_double_option_string(self.webdav_root),
            r.webdav_enabled == self.webdav_enabled,
    {
        UpdateSettingsData {
            bgm_auth: clean_optional_bgm_auth(self.bgm_auth),
            vndb_token: clean_double_option_string(self.vndb_token),
            save_root_path: clean_double_option_string(self.save_root_path),
            db_backup_path: clean_double_option_string(self.db_backup_path),
            le_path: clean_double_option_string(self.le_path),
            magpie_path: clean_double_option_string(self.magpie_path),
            webdav_url: clean_double_option_string(self.webdav_url),
            webdav_username: clean_double_option_string(self.webdav_username),
            webdav_password: clean_double_option_string(self.webdav_password),
            webdav_root: clean_double_option_string(self.webdav_root),
            webdav_enabled: self.webdav_enabled,
        }
    }
}

} // verus!
