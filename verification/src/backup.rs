//! Database backups: file names, the hot-backup statement, the WebDAV
//! settings a transfer needs, and where a game's save data goes on the server.

use vstd::prelude::*;
use crate::dto::{FullGameData, GameSourceData};
use crate::json_access::{get_str_member, get_str_member_of};
use crate::path::{file_name_allows, file_name_of};
use crate::settings::UserSettings;
use crate::text::{
    is_blank, trim, trim_end_char, int_decimal, ends_with, starts_with, chars_of, string_of, trim_string,
    str_is_blank, trim_end_char_string, push_str, i64_decimal, chars_end_with, lemma_trim_is_slice,
    lemma_trim_idempotent,
};
use crate::webdav::{effective_root, remote_url, build_remote_url, is_ascii_digit, is_backup_file_name, href_file_name};
use crate::seqs::lemma_split_last;

verus! {

/// The outcome of a database import.
#[derive(Debug)]
pub struct ImportResult {
    pub success: bool,
    pub message: String,
    pub backup_path: Option<String>,
}

/// The outcome of a backup.
#[derive(Debug)]
pub struct BackupResult {
    pub success: bool,
    pub path: Option<String>,
    pub message: String,
}

/// The name of a database backup taken at `timestamp`: automatic backups carry
/// an `auto_` mark so that only they are pruned.
pub open spec fn backup_file_name(timestamp: Seq<char>, auto: bool) -> Seq<char> {
    if auto {
        "reina_manager_auto_"@ + timestamp + ".db"@
    } else {
        "reina_manager_"@ + timestamp + ".db"@
    }
}

pub fn make_backup_file_name(timestamp: &str, auto: bool) -> (name: String)
    ensures
        name@ == backup_file_name(timestamp@, auto),
{
    let mut name = if auto {
        String::from_str("reina_manager_auto_")
    } else {
        String::from_str("reina_manager_")
    };
    push_str(&mut name, timestamp);
    push_str(&mut name, ".db");
    name
}

/// Every backup file name, manual or automatic, is one that the listing of
/// the server's backups keeps under that name, wherever it was uploaded;
/// automatic ones carry their mark.
pub proof fn lemma_backup_names_are_listed(folder: Seq<char>, timestamp: Seq<char>, auto: bool)
    requires
        !timestamp.contains('/'),
    ensures
        is_backup_file_name(backup_file_name(timestamp, auto)),
        href_file_name(folder + seq!['/'] + backup_file_name(timestamp, auto)) == backup_file_name(timestamp, auto),
        auto ==> starts_with(backup_file_name(timestamp, auto), "reina_manager_auto_"@),
{
    reveal_strlit("reina_manager_");
    reveal_strlit("reina_manager_auto_");
    reveal_strlit(".db");
    let name = backup_file_name(timestamp, auto);
    let head = if auto {
        "reina_manager_auto_"@
    } else {
        "reina_manager_"@
    };
    assert(name == head + timestamp + ".db"@);
    assert(name.subrange(0, 14) =~= "reina_manager_"@);
    assert(name.subrange(name.len() - 3, name.len() as int) =~= ".db"@);
    if auto {
        assert(name.subrange(0, 19) =~= "reina_manager_auto_"@);
    }
    assert(!name.contains('/')) by {
        if name.contains('/') {
            let i = choose|i: int| 0 <= i < name.len() && name[i] == '/';
            if i >= head.len() && i < head.len() + timestamp.len() {
                assert(timestamp[i - head.len()] == '/');
                assert(timestamp.contains('/'));
            }
        }
    }
    lemma_split_last(folder, '/', name);
}

/// The shape of a local timestamp `<year><MM><DD>_<hh><mm><ss>`: a year of at
/// least four characters, then two digits each for the rest.
pub open spec fn is_backup_timestamp(t: Seq<char>) -> bool {
    &&& t.len() >= 15
    &&& forall|k: int| 0 <= k < t.len() - 11 ==> is_ascii_digit(#[trigger] t[k]) || (k == 0 && (t[0] == '+'
        || t[0] == '-'))
    &&& t[t.len() - 7] == '_'
    &&& forall|k: int| t.len() - 11 <= k < t.len() - 7 ==> is_ascii_digit(#[trigger] t[k])
    &&& forall|k: int| t.len() - 6 <= k < t.len() ==> is_ascii_digit(#[trigger] t[k])
}

/// `chrono::Local::now().format("%Y%m%d_%H%M%S")`: the local time. chrono's
/// documentation zero-pads the year to four digits (with a sign before years
/// outside 0 to 9999) and month, day, hour, minute and second to two digits;
/// which time it is, nothing here states.
#[verifier::external_body]
fn local_timestamp() -> (t: String)
    ensures
        is_backup_timestamp(t@),
{
    chrono::Local::now().format("%Y%m%d_%H%M%S").to_string()
}

/// The name of a manual backup taken now.
pub fn generate_backup_filename() -> (name: String)
    ensures
        exists|t: Seq<char>| is_backup_timestamp(t) && name@ == backup_file_name(t, false),
        is_backup_file_name(name@),
{
    let t = local_timestamp();
    proof {
        lemma_timestamp_has_no_slash(t@);
        lemma_backup_names_are_listed(Seq::empty(), t@, false);
    }
    make_backup_file_name(t.as_str(), false)
}

/// The name of an automatic backup taken now.
pub fn generate_auto_backup_filename() -> (name: String)
    ensures
        exists|t: Seq<char>| is_backup_timestamp(t) && name@ == backup_file_name(t, true),
        is_backup_file_name(name@),
        starts_with(name@, "reina_manager_auto_"@),
{
    let t = local_timestamp();
    proof {
        lemma_timestamp_has_no_slash(t@);
        lemma_backup_names_are_listed(Seq::empty(), t@, true);
    }
    make_backup_file_name(t.as_str(), true)
}

proof fn lemma_timestamp_has_no_slash(t: Seq<char>)
    requires
        is_backup_timestamp(t),
    ensures
        !t.contains('/'),
{
    if t.contains('/') {
        let i = choose|i: int| 0 <= i < t.len() && t[i] == '/';
        if i < t.len() - 11 {
            assert(is_ascii_digit(t[i]) || (i == 0 && (t[0] == '+' || t[0] == '-')));
        } else if i < t.len() - 7 {
            assert(is_ascii_digit(t[i]));
        } else if i > t.len() - 7 {
            assert(is_ascii_digit(t[i]));
        }
    }
}

/// `s` with every `from` replaced by `to`.
pub open spec fn replace_char(s: Seq<char>, from: char, to: char) -> Seq<char> {
    Seq::new(s.len(), |i: int| if s[i] == from { to } else { s[i] })
}

/// `s` with every `'` doubled, as an SQL string literal needs it.
pub open spec fn escape_quotes(s: Seq<char>) -> Seq<char>
    decreases s.len(),
{
    if s.len() == 0 {
        Seq::empty()
    } else if s.last() == '\'' {
        escape_quotes(s.drop_last()) + seq!['\'', '\'']
    } else {
        escape_quotes(s.drop_last()).push(s.last())
    }
}

/// The statement that copies the live database into `path`.
pub open spec fn vacuum_into_statement(path: Seq<char>) -> Seq<char> {
    "VACUUM INTO '"@ + escape_quotes(path) + "'"@
}

/// The path with every `\` turned into `/`, which SQLite reads on every platform.
pub fn with_forward_slashes(path: &str) -> (r: String)
    ensures
        r@ == replace_char(path@, '\\', '/'),
{
    let v = chars_of(path);
    let mut out: Vec<char> = Vec::new();
    let mut i: usize = 0;
    while i < v.len()
        invariant
            i <= v.len(),
            out@ == Seq::new(i as nat, |k: int| if v@[k] == '\\' { '/' } else { v@[k] }),
        decreases v.len() - i,
    {
        let c = v[i];
        out.push(if c == '\\' { '/' } else { c });
        i += 1;
        assert(out@ =~= Seq::new(i as nat, |k: int| if v@[k] == '\\' { '/' } else { v@[k] }));
    }
    assert(out@ =~= replace_char(path@, '\\', '/'));
    string_of(&out)
}

/// `VACUUM INTO '<path>'`, with the quotes in the path escaped.
pub fn vacuum_into_sql(path: &str) -> (sql: String)
    ensures
        sql@ == vacuum_into_statement(path@),
{
    let v = chars_of(path);
    let mut out: Vec<char> = Vec::new();
    let mut i: usize = 0;
    while i < v.len()
        invariant
            i <= v.len(),
            out@ == escape_quotes(v@.subrange(0, i as int)),
        decreases v.len() - i,
    {
        assert(v@.subrange(0, i + 1).drop_last() =~= v@.subrange(0, i as int));
        let c = v[i];
        if c == '\'' {
            out.push('\'');
            out.push('\'');
            assert(out@ =~= escape_quotes(v@.subrange(0, i as int)) + seq!['\'', '\'']);
        } else {
            out.push(c);
        }
        i += 1;
    }
    assert(v@.subrange(0, v@.len() as int) =~= v@);
    let mut sql = String::from_str("VACUUM INTO '");
    let escaped = string_of(&out);
    push_str(&mut sql, escaped.as_str());
    push_str(&mut sql, "'");
    sql
}

/// A character that no folder name may hold: `\ / : * ? " < > |`.
pub open spec fn is_forbidden_in_folder_name(c: char) -> bool {
    c == '\\' || c == '/' || c == ':' || c == '*' || c == '?' || c == '"' || c == '<' || c == '>'
        || c == '|'
}

/// `s` without the characters that no folder name may hold.
pub open spec fn without_forbidden(s: Seq<char>) -> Seq<char>
    decreases s.len(),
{
    if s.len() == 0 {
        Seq::empty()
    } else if is_forbidden_in_folder_name(s.last()) {
        without_forbidden(s.drop_last())
    } else {
        without_forbidden(s.drop_last()).push(s.last())
    }
}

proof fn lemma_without_forbidden_clean(s: Seq<char>)
    ensures
        forall|i: int| 0 <= i < without_forbidden(s).len() ==> !is_forbidden_in_folder_name(
            #[trigger] without_forbidden(s)[i],
        ),
    decreases s.len(),
{
    if s.len() > 0 {
        lemma_without_forbidden_clean(s.drop_last());
        let w = without_forbidden(s);
        let p = without_forbidden(s.drop_last());
        assert forall|i: int| 0 <= i < w.len() implies !is_forbidden_in_folder_name(#[trigger] w[i]) by {
            if i < p.len() {
                assert(w[i] == p[i]);
            }
        }
    }
}

proof fn lemma_without_forbidden_keeps_clean(s: Seq<char>)
    requires
        forall|i: int| 0 <= i < s.len() ==> !is_forbidden_in_folder_name(#[trigger] s[i]),
    ensures
        without_forbidden(s) == s,
    decreases s.len(),
{
    if s.len() > 0 {
        lemma_without_forbidden_keeps_clean(s.drop_last());
        assert(s.drop_last().push(s.last()) =~= s);
    }
}

/// A sanitized folder name holds no forbidden character and no white space
/// at its ends, so sanitizing it again changes nothing.
pub proof fn lemma_sanitized_name_is_clean(name: Seq<char>)
    ensures
        forall|i: int| 0 <= i < trim(without_forbidden(name)).len() ==> !is_forbidden_in_folder_name(
            #[trigger] trim(without_forbidden(name))[i],
        ),
        trim(without_forbidden(trim(without_forbidden(name)))) == trim(without_forbidden(name)),
{
    let w = without_forbidden(name);
    let r = trim(w);
    lemma_without_forbidden_clean(name);
    let k = lemma_trim_is_slice(w);
    assert forall|i: int| 0 <= i < r.len() implies !is_forbidden_in_folder_name(#[trigger] r[i]) by {
        assert(r[i] == w[k + i]);
    }
    lemma_without_forbidden_keeps_clean(r);
    lemma_trim_idempotent(w);
}

/// The name with the forbidden characters removed, then trimmed.
pub fn sanitize_folder_name(name: &str) -> (r: String)
    ensures
        r@ == trim(without_forbidden(name@)),
{
    let v = chars_of(name);
    let mut out: Vec<char> = Vec::new();
    let mut i: usize = 0;
    while i < v.len()
        invariant
            i <= v.len(),
            out@ == without_forbidden(v@.subrange(0, i as int)),
        decreases v.len() - i,
    {
        assert(v@.subrange(0, i + 1).drop_last() =~= v@.subrange(0, i as int));
        let c = v[i];
        if !(c == '\\' || c == '/' || c == ':' || c == '*' || c == '?' || c == '"' || c == '<' || c
            == '>' || c == '|') {
            out.push(c);
        }
        i += 1;
    }
    assert(v@.subrange(0, v@.len() as int) =~= v@);
    let kept = string_of(&out);
    trim_string(kept.as_str())
}

/// The non-empty text that a source's data holds under `key`.
pub open spec fn source_member(src: GameSourceData, key: Seq<char>) -> Option<Seq<char>> {
    match src.data {
        Some(d) => match get_str_member(d.model(), key) {
            Some(n) => if n.len() > 0 {
                Some(n)
            } else {
                None
            },
            None => None,
        },
        None => None,
    }
}

/// The text under `key` of the first source, in order, that holds one.
pub open spec fn first_source_member(sources: Seq<GameSourceData>, key: Seq<char>) -> Option<Seq<char>>
    decreases sources.len(),
{
    if sources.len() == 0 {
        None
    } else {
        match source_member(sources[0], key) {
            Some(n) => Some(n),
            None => first_source_member(sources.drop_first(), key),
        }
    }
}

/// The name the user gave, trimmed, unless it is blank.
pub open spec fn custom_display_name(game: FullGameData) -> Option<Seq<char>> {
    match game.custom_data {
        Some(c) => match c.name {
            Some(n) => if is_blank(n@) {
                None
            } else {
                Some(trim(n@))
            },
            None => None,
        },
        None => None,
    }
}

/// The name shown for a game: the user's name, else a `name_cn` of the
/// sources, else a `name` of the sources (the first source, in order, that
/// gives one), else `Game_<id>`.
pub open spec fn display_name(game: FullGameData) -> Seq<char> {
    match custom_display_name(game) {
        Some(n) => n,
        None => match first_source_member(game.sources@, "name_cn"@) {
            Some(n) => n,
            None => match first_source_member(game.sources@, "name"@) {
                Some(n) => n,
                None => "Game_"@ + int_decimal(game.id as int),
            },
        },
    }
}

fn source_member_of(src: &GameSourceData, key: &str) -> (r: Option<String>)
    ensures
        match r {
            Some(s) => source_member(*src, key@) == Some(s@),
            None => source_member(*src, key@) is None,
        },
{
    match &src.data {
        Some(d) => match get_str_member_of(d, key) {
            Some(n) => {
                if !n.as_str().is_empty() {
                    Some(n)
                } else {
                    None
                }
            },
            None => None,
        },
        None => None,
    }
}

fn first_source_member_of(sources: &Vec<GameSourceData>, key: &str) -> (r: Option<String>)
    ensures
        match r {
            Some(s) => first_source_member(sources@, key@) == Some(s@),
            None => first_source_member(sources@, key@) is None,
        },
{
    let n = sources.len();
    let mut i: usize = 0;
    assert(sources@.subrange(0, n as int) =~= sources@);
    while i < n
        invariant
            n == sources.len(),
            i <= n,
            first_source_member(sources@, key@) == first_source_member(sources@.subrange(i as int, n as int), key@),
        decreases n - i,
    {
        let ghost rest = sources@.subrange(i as int, n as int);
        assert(rest[0] == sources@[i as int]);
        match source_member_of(&sources[i], key) {
            Some(name) => {
                return Some(name);
            },
            None => {},
        }
        assert(rest.drop_first() =~= sources@.subrange(i + 1, n as int));
        i += 1;
    }
    None
}

/// The name shown for a game.
pub fn get_game_display_name(game: &FullGameData) -> (name: String)
    ensures
        name@ == display_name(*game),
{
    match &game.custom_data {
        Some(c) => match &c.name {
            Some(n) => {
                if !str_is_blank(n.as_str()) {
                    return trim_string(n.as_str());
                }
            },
            None => {},
        },
        None => {},
    }
    match first_source_member_of(&game.sources, "name_cn") {
        Some(n) => {
            return n;
        },
        None => {},
    }
    match first_source_member_of(&game.sources, "name") {
        Some(n) => {
            return n;
        },
        None => {},
    }
    let mut name = String::from_str("Game_");
    let digits = i64_decimal(game.id as i64);
    push_str(&mut name, digits.as_str());
    name
}

/// The WebDAV settings a transfer needs.
#[derive(Debug)]
pub struct WebdavCredentials {
    pub url: String,
    pub username: String,
    pub password: String,
    pub root: Option<String>,
}

/// The WebDAV settings, when WebDAV is on and address, user name and password
/// are all set; otherwise the reason, `disabled_message` when it is off.
pub fn webdav_credentials(settings: &UserSettings, disabled_message: &str) -> (r: Result<
    WebdavCredentials,
    String,
>)
    ensures
        match r {
            Ok(c) => {
                &&& settings.webdav_enabled == Some(true)
                &&& settings.webdav_url == Some(c.url)
                &&& settings.webdav_username == Some(c.username)
                &&& settings.webdav_password == Some(c.password)
                &&& c.root == settings.webdav_root
            },
            Err(e) => if settings.webdav_enabled != Some(true) {
                e@ == disabled_message@
            } else if settings.webdav_url is None {
                e@ == "WebDAV URL 未配置"@
            } else if settings.webdav_username is None {
                e@ == "WebDAV 用户名未配置"@
            } else {
                settings.webdav_password is None && e@ == "WebDAV 密码未配置"@
            },
        },
{
    if !settings.webdav_enabled_value() {
        return Err(String::from_str(disabled_message));
    }
    let url = match &settings.webdav_url {
        Some(u) => u.clone(),
        None => return Err(String::from_str("WebDAV URL 未配置")),
    };
    let username = match &settings.webdav_username {
        Some(u) => u.clone(),
        None => return Err(String::from_str("WebDAV 用户名未配置")),
    };
    let password = match &settings.webdav_password {
        Some(p) => p.clone(),
        None => return Err(String::from_str("WebDAV 密码未配置")),
    };
    let root = match &settings.webdav_root {
        Some(r) => Some(r.clone()),
        None => None,
    };
    Ok(WebdavCredentials { url, username, password, root })
}

/// Where a save-data backup goes on the server.
#[derive(Debug)]
pub struct SavedataUpload {
    /// The game's folder name.
    pub game_name: String,
    /// The folder to create, under the root folder if one is set.
    pub remote_subdir: String,
    /// The name of the local file, as the platform's path rules read it.
    pub file_name: String,
    /// The file's path under the root folder: `<game>/<file>`.
    pub remote_file: String,
    /// The file's address.
    pub remote_url: String,
}

/// The game's folder under the root folder, if one is set.
pub open spec fn savedata_subdir(root: Option<String>, game_name: Seq<char>) -> Seq<char> {
    match effective_root(root) {
        Some(r) => trim_end_char(r, '/').push('/') + game_name,
        None => game_name,
    }
}

/// Where the save-data backup at `local_path` of `game` goes: a folder named
/// after the game (forbidden characters removed), holding the file under its
/// own name, read with the platform's path rules. Refused when the name is
/// empty or the path names no file.
pub fn plan_savedata_upload(creds: &WebdavCredentials, game: &FullGameData, local_path: &str) -> (r:
    Result<SavedataUpload, String>)
    ensures
        match r {
            Ok(p) => {
                let name = trim(without_forbidden(display_name(*game)));
                &&& name.len() > 0
                &&& p.game_name@ == name
                &&& file_name_allows(local_path@, Some(p.file_name@))
                &&& p.remote_file@ == name.push('/') + p.file_name@
                &&& p.remote_subdir@ == savedata_subdir(creds.root, name)
                &&& p.remote_url@ == remote_url(creds.url@, creds.root, p.remote_file@)
            },
            Err(e) => if trim(without_forbidden(display_name(*game))).len() == 0 {
                e@ == "游戏名称为空，无法创建远程目录"@
            } else {
                file_name_allows(local_path@, None) && e@ == "无法获取备份文件名"@
            },
        },
{
    let display = get_game_display_name(game);
    let game_name = sanitize_folder_name(display.as_str());
    if game_name.as_str().is_empty() {
        return Err(String::from_str("游戏名称为空，无法创建远程目录"));
    }
    let filename = match file_name_of(local_path) {
        Some(f) => f,
        None => return Err(String::from_str("无法获取备份文件名")),
    };
    let has_root = match &creds.root {
        Some(r) => !str_is_blank(r.as_str()),
        None => false,
    };
    let remote_subdir = if has_root {
        let r = creds.root.as_ref().unwrap();
        let mut s = trim_end_char_string(r.as_str(), '/');
        push_str(&mut s, "/");
        push_str(&mut s, game_name.as_str());
        proof {
            reveal_strlit("/");
            assert(s@ =~= trim_end_char(r@, '/').push('/') + game_name@);
        }
        s
    } else {
        game_name.clone()
    };
    let mut remote_file = game_name.clone();
    push_str(&mut remote_file, "/");
    push_str(&mut remote_file, filename.as_str());
    proof {
        reveal_strlit("/");
        assert(remote_file@ =~= game_name@.push('/') + filename@);
    }
    let remote_url = build_remote_url(creds.url.as_str(), &creds.root, remote_file.as_str());
    Ok(SavedataUpload { game_name, file_name: filename, remote_subdir, remote_file, remote_url })
}

/// Whether a remote file name is a database file: it ends with `.db`.
pub fn is_db_file_name(name: &str) -> (r: bool)
    ensures
        r == ends_with(name@, ".db"@),
{
    let v = chars_of(name);
    let suffix = chars_of(".db");
    chars_end_with(&v, &suffix)
}

} // verus!
