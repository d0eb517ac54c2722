//! WebDAV: the addresses that backups are written to and read from, the
//! answers to a connection test, and the reading of a PROPFIND answer.

use vstd::prelude::*;
use vstd::utf8::{valid_utf8, decode_utf8};
use crate::xml::{xml_event, open_xml, next_xml_event};
use crate::seqs::{char_views, split_char, join_with, non_empty_parts, split_chars, keep_non_empty, join_chars, append_chars};
use crate::text::{
    is_blank, trim_end_char, str_is_blank, chars_of, string_of, trim_end_char_string,
    trim_end_char_len, push_str, starts_with, ends_with, chars_start_with, chars_end_with,
    nat_decimal, u64_decimal,
};

verus! {

/// A backup file found on the server.
#[derive(Debug)]
pub struct WebdavBackupInfo {
    pub name: String,
    pub size: u64,
    pub modified: String,
}

impl WebdavBackupInfo {
    pub open spec fn model(self) -> (Seq<char>, u64, Seq<char>) {
        (self.name@, self.size, self.modified@)
    }
}

pub open spec fn backup_models(s: Seq<WebdavBackupInfo>) -> Seq<(Seq<char>, u64, Seq<char>)> {
    Seq::new(s.len(), |i: int| s[i].model())
}

// ==================== addresses ====================

/// The root folder, when one is set and not blank.
pub open spec fn effective_root(root: Option<String>) -> Option<Seq<char>> {
    match root {
        Some(r) => if is_blank(r@) {
            None
        } else {
            Some(r@)
        },
        None => None,
    }
}

/// The address of `filename` under the root folder, if any, of the server at `base`.
pub open spec fn remote_url(base: Seq<char>, root: Option<String>, filename: Seq<char>) -> Seq<char> {
    let path = match effective_root(root) {
        Some(r) => trim_end_char(r, '/').push('/') + filename,
        None => filename,
    };
    trim_end_char(base, '/').push('/') + path
}

/// The address of the folder that holds the backups.
pub open spec fn listing_url(base: Seq<char>, root: Option<String>) -> Seq<char> {
    match effective_root(root) {
        Some(r) => trim_end_char(base, '/').push('/') + trim_end_char(r, '/'),
        None => trim_end_char(base, '/'),
    }
}

/// The address of a file's folder: the address up to and including its last `/`.
pub open spec fn folder_of(url: Seq<char>) -> Option<Seq<char>> {
    if exists|i: int| 0 <= i < url.len() && url[i] == '/' {
        let i = choose|i: int|
            0 <= i < url.len() && url[i] == '/' && forall|j: int| i < j < url.len() ==> url[j] != '/';
        Some(url.subrange(0, i + 1))
    } else {
        None
    }
}

/// The folders to create, outermost first, for the sub-folder path `subdir`:
/// one address for each non-empty part of it.
pub open spec fn nested_folder_urls(base: Seq<char>, subdir: Seq<char>) -> Seq<Seq<char>> {
    let parts = non_empty_parts(split_char(subdir, '/'));
    if subdir.len() == 0 {
        Seq::empty()
    } else {
        Seq::new(
            parts.len(),
            |k: int| trim_end_char(base, '/').push('/') + join_with(parts.subrange(0, k + 1), '/'),
        )
    }
}

/// The address of `filename` under the root folder of the server at `base_url`.
pub fn build_remote_url(base_url: &str, root: &Option<String>, filename: &str) -> (url: String)
    ensures
        url@ == remote_url(base_url@, *root, filename@),
{
    let mut url = trim_end_char_string(base_url, '/');
    push_str(&mut url, "/");
    let has_root = match root {
        Some(r) => !str_is_blank(r.as_str()),
        None => false,
    };
    if has_root {
        let r = root.as_ref().unwrap();
        let trimmed = trim_end_char_string(r.as_str(), '/');
        push_str(&mut url, trimmed.as_str());
        push_str(&mut url, "/");
    }
    push_str(&mut url, filename);
    proof {
        reveal_strlit("/");
        let base = trim_end_char(base_url@, '/');
        match effective_root(*root) {
            Some(r) => {
                assert(url@ =~= base.push('/') + (trim_end_char(r, '/').push('/') + filename@));
            },
            None => {
                assert(url@ =~= base.push('/') + filename@);
            },
        }
    }
    url
}

/// The address of the folder that holds the backups.
pub fn build_listing_url(base_url: &str, root: &Option<String>) -> (url: String)
    ensures
        url@ == listing_url(base_url@, *root),
{
    let mut url = trim_end_char_string(base_url, '/');
    let has_root = match root {
        Some(r) => !str_is_blank(r.as_str()),
        None => false,
    };
    if has_root {
        let r = root.as_ref().unwrap();
        let trimmed = trim_end_char_string(r.as_str(), '/');
        push_str(&mut url, "/");
        push_str(&mut url, trimmed.as_str());
        proof {
            reveal_strlit("/");
            assert(url@ =~= trim_end_char(base_url@, '/').push('/') + trim_end_char(r@, '/'));
        }
    }
    url
}

/// The address of the folder that a backup under the root folder goes into.
pub fn remote_folder_url(base_url: &str, root: &Option<String>) -> (url: Option<String>)
    ensures
        match url {
            Some(u) => folder_of(remote_url(base_url@, *root, "_mkdir_check_"@)) == Some(u@),
            None => folder_of(remote_url(base_url@, *root, "_mkdir_check_"@)) is None,
        },
{
    let full = build_remote_url(base_url, root, "_mkdir_check_");
    let v = chars_of(full.as_str());
    let n = v.len();
    let mut k: usize = n;
    while k > 0 && v[k - 1] != '/'
        invariant
            k <= n,
            n == v.len(),
            forall|j: int| k <= j < n ==> v@[j] != '/',
        decreases k,
    {
        k -= 1;
    }
    if k == 0 {
        assert(!(exists|i: int| 0 <= i < v@.len() && v@[i] == '/'));
        return None;
    }
    let ghost chosen = choose|i: int|
        0 <= i < v@.len() && v@[i] == '/' && forall|j: int| i < j < v@.len() ==> v@[j] != '/';
    assert(0 <= k - 1 < v@.len() && v@[k - 1] == '/');
    assert(chosen == k - 1) by {
        if chosen < k - 1 {
            assert(v@[k - 1] == '/');
        }
        if chosen > k - 1 {
            assert(v@[chosen] == '/');
        }
    }
    Some(crate::text::string_of_range(&v, 0, k))
}

/// The folders to create, outermost first, for the sub-folder path `subdir_path`.
pub fn nested_folder_urls_of(base_url: &str, subdir_path: &str) -> (urls: Vec<String>)
    ensures
        Seq::new(urls@.len(), |i: int| urls@[i]@) == nested_folder_urls(base_url@, subdir_path@),
{
    let mut urls: Vec<String> = Vec::new();
    let sub = chars_of(subdir_path);
    if sub.len() == 0 {
        assert(Seq::new(urls@.len(), |i: int| urls@[i]@) =~= Seq::<Seq<char>>::empty());
        return urls;
    }
    let parts = keep_non_empty(&split_chars(&sub, '/'));
    let base_chars = chars_of(base_url);
    let base_len = trim_end_char_len(&base_chars, '/');
    let mut current: Vec<char> = Vec::new();
    let mut j: usize = 0;
    while j < base_len
        invariant
            base_len <= base_chars.len(),
            j <= base_len,
            current@ == base_chars@.subrange(0, j as int),
        decreases base_len - j,
    {
        current.push(base_chars[j]);
        j += 1;
    }
    let ghost base = trim_end_char(base_url@, '/');
    let ghost ps = char_views(parts@);
    assert(current@ == base);
    let mut k: usize = 0;
    while k < parts.len()
        invariant
            k <= parts.len(),
            ps == char_views(parts@),
            base == trim_end_char(base_url@, '/'),
            k == 0 ==> current@ == base,
            k > 0 ==> current@ == base.push('/') + join_with(ps.subrange(0, k as int), '/'),
            urls@.len() == k,
            forall|i: int| 0 <= i < k ==> (#[trigger] urls@[i])@ == base.push('/') + join_with(
                ps.subrange(0, i + 1),
                '/',
            ),
        decreases parts.len() - k,
    {
        assert(ps.subrange(0, k + 1).drop_last() =~= ps.subrange(0, k as int));
        current.push('/');
        append_chars(&mut current, &parts[k]);
        proof {
            if k == 0 {
                assert(current@ =~= base.push('/') + join_with(ps.subrange(0, 1), '/'));
            } else {
                assert(current@ =~= base.push('/') + join_with(ps.subrange(0, k + 1), '/'));
            }
        }
        urls.push(string_of(&current));
        k += 1;
    }
    assert(Seq::new(urls@.len(), |i: int| urls@[i]@) =~= nested_folder_urls(base_url@, subdir_path@));
    urls
}

// ==================== connection test ====================

/// The connection parameters are usable: the address and the user name are not blank.
pub fn check_connection_params(url: &str, username: &str) -> (r: Result<(), String>)
    ensures
        match r {
            Ok(()) => !is_blank(url@) && !is_blank(username@),
            Err(e) => if is_blank(url@) {
                e@ == "WebDAV URL 不能为空"@
            } else {
                is_blank(username@) && e@ == "用户名不能为空"@
            },
        },
{
    if str_is_blank(url) {
        return Err(String::from_str("WebDAV URL 不能为空"));
    }
    if str_is_blank(username) {
        return Err(String::from_str("用户名不能为空"));
    }
    Ok(())
}

/// The message for a failed connection test.
pub open spec fn connection_error_message(code: u16) -> Seq<char> {
    if code == 401 {
        "WebDAV 认证失败，请检查用户名和密码"@
    } else if code == 404 {
        "WebDAV 路径不存在，请检查 URL"@
    } else {
        "WebDAV 返回错误状态码: "@ + nat_decimal(code as nat)
    }
}

/// The answer of a connection test to the status code of the PROPFIND request.
pub fn connection_status_result(code: u16) -> (r: Result<bool, String>)
    ensures
        match r {
            Ok(b) => b && (code == 200 || code == 207),
            Err(e) => code != 200 && code != 207 && e@ == connection_error_message(code),
        },
{
    if code == 200 || code == 207 {
        Ok(true)
    } else if code == 401 {
        Err(String::from_str("WebDAV 认证失败，请检查用户名和密码"))
    } else if code == 404 {
        Err(String::from_str("WebDAV 路径不存在，请检查 URL"))
    } else {
        let mut msg = String::from_str("WebDAV 返回错误状态码: ");
        let digits = u64_decimal(code as u64);
        push_str(&mut msg, digits.as_str());
        Err(msg)
    }
}

/// Whether an HTTP status code reports success: the `2xx` range, as
/// `StatusCode::is_success` of the `http` crate has it.
pub open spec fn is_success_status(code: u16) -> bool {
    200 <= code < 300
}

/// Every `2xx` status is a success, `204 No Content` among them, and no
/// other status is one.
pub proof fn lemma_success_is_2xx(code: u16)
    ensures
        200 <= code && code < 300 ==> is_success_status(code),
        code < 200 || code >= 300 ==> !is_success_status(code),
        is_success_status(204),
        is_success_status(200),
        !is_success_status(404),
{
}

/// Whether a transfer (listing, upload, download, delete) succeeded, by the
/// status code of its answer.
pub fn status_is_success(code: u16) -> (r: bool)
    ensures
        r == is_success_status(code),
{
    200 <= code && code < 300
}

// ==================== PROPFIND answers ====================

/// The body of the PROPFIND request: name, length, modification time and type
/// of each resource.
pub open spec fn propfind_body() -> Seq<char> {
    "<?xml version=\"1.0\" encoding=\"utf-8\"?>\n<d:propfind xmlns:d=\"DAV:\">\n  <d:prop>\n    <d:displayname/>\n    <d:getcontentlength/>\n    <d:getlastmodified/>\n    <d:resourcetype/>\n  </d:prop>\n</d:propfind>"@
}

/// The body of the PROPFIND request.
pub fn propfind_xml() -> (body: &'static str)
    ensures
        body@ == propfind_body(),
{
    "<?xml version=\"1.0\" encoding=\"utf-8\"?>\n<d:propfind xmlns:d=\"DAV:\">\n  <d:prop>\n    <d:displayname/>\n    <d:getcontentlength/>\n    <d:getlastmodified/>\n    <d:resourcetype/>\n  </d:prop>\n</d:propfind>"
}

/// One event of an XML reader, with tag names and text as raw bytes.
#[derive(Debug)]
pub enum XmlEvent {
    /// A start tag, with its qualified name.
    Start(Vec<u8>),
    /// An end tag, with its qualified name.
    End(Vec<u8>),
    /// Escaped character data.
    Text(Vec<u8>),
    /// The end of the document.
    Eof,
    /// The document cannot be read further.
    Error,
    /// Anything else (empty elements, comments, declarations, ...).
    Other,
}

/// The elements of a PROPFIND answer that are followed.
#[derive(Debug, PartialEq, Eq, Structural)]
pub enum DavTag {
    Response,
    Propstat,
    Href,
    ContentLength,
    LastModified,
    Other,
}

/// The elements of a PROPFIND answer that the reader follows, by their
/// lower-cased local name.
pub open spec fn dav_tag(n: Seq<u8>) -> DavTag {
    if n == seq![114u8, 101u8, 115u8, 112u8, 111u8, 110u8, 115u8, 101u8] {
        DavTag::Response
    } else if n == seq![112u8, 114u8, 111u8, 112u8, 115u8, 116u8, 97u8, 116u8] {
        DavTag::Propstat
    } else if n == seq![104u8, 114u8, 101u8, 102u8] {
        DavTag::Href
    } else if n == seq![103u8, 101u8, 116u8, 99u8, 111u8, 110u8, 116u8, 101u8, 110u8, 116u8, 108u8, 101u8, 110u8, 103u8, 116u8, 104u8] {
        DavTag::ContentLength
    } else if n == seq![103u8, 101u8, 116u8, 108u8, 97u8, 115u8, 116u8, 109u8, 111u8, 100u8, 105u8, 102u8, 105u8, 101u8, 100u8] {
        DavTag::LastModified
    } else {
        DavTag::Other
    }
}

pub fn classify_tag(n: &Vec<u8>) -> (t: DavTag)
    ensures
        t == dav_tag(n@),
{
    if n.len() == 8 && n[0] == 114u8 && n[1] == 101u8 && n[2] == 115u8 && n[3] == 112u8 && n[4] == 111u8 && n[5] == 110u8 && n[6] == 115u8 && n[7] == 101u8 {
        assert(n@ =~= seq![114u8, 101u8, 115u8, 112u8, 111u8, 110u8, 115u8, 101u8]);
        return DavTag::Response;
    }
    if n.len() == 8 && n[0] == 112u8 && n[1] == 114u8 && n[2] == 111u8 && n[3] == 112u8 && n[4] == 115u8 && n[5] == 116u8 && n[6] == 97u8 && n[7] == 116u8 {
        assert(n@ =~= seq![112u8, 114u8, 111u8, 112u8, 115u8, 116u8, 97u8, 116u8]);
        return DavTag::Propstat;
    }
    if n.len() == 4 && n[0] == 104u8 && n[1] == 114u8 && n[2] == 101u8 && n[3] == 102u8 {
        assert(n@ =~= seq![104u8, 114u8, 101u8, 102u8]);
        return DavTag::Href;
    }
    if n.len() == 16 && n[0] == 103u8 && n[1] == 101u8 && n[2] == 116u8 && n[3] == 99u8 && n[4] == 111u8 && n[5] == 110u8 && n[6] == 116u8 && n[7] == 101u8 && n[8] == 110u8 && n[9] == 116u8 && n[10] == 108u8 && n[11] == 101u8 && n[12] == 110u8 && n[13] == 103u8 && n[14] == 116u8 && n[15] == 104u8 {
        assert(n@ =~= seq![103u8, 101u8, 116u8, 99u8, 111u8, 110u8, 116u8, 101u8, 110u8, 116u8, 108u8, 101u8, 110u8, 103u8, 116u8, 104u8]);
        return DavTag::ContentLength;
    }
    if n.len() == 15 && n[0] == 103u8 && n[1] == 101u8 && n[2] == 116u8 && n[3] == 108u8 && n[4] == 97u8 && n[5] == 115u8 && n[6] == 116u8 && n[7] == 109u8 && n[8] == 111u8 && n[9] == 100u8 && n[10] == 105u8 && n[11] == 102u8 && n[12] == 105u8 && n[13] == 101u8 && n[14] == 100u8 {
        assert(n@ =~= seq![103u8, 101u8, 116u8, 108u8, 97u8, 115u8, 116u8, 109u8, 111u8, 100u8, 105u8, 102u8, 105u8, 101u8, 100u8]);
        return DavTag::LastModified;
    }
    DavTag::Other
}

/// The local part of a qualified name: everything after its first `:`.
pub open spec fn local_name(q: Seq<u8>) -> Seq<u8> {
    if exists|i: int| 0 <= i < q.len() && q[i] == 0x3a {
        let i = choose|i: int| 0 <= i < q.len() && q[i] == 0x3a && forall|j: int| 0 <= j < i ==> q[j] != 0x3a;
        q.subrange(i + 1, q.len() as int)
    } else {
        q
    }
}

pub open spec fn ascii_lower(b: u8) -> u8 {
    if 0x41 <= b <= 0x5a {
        (b + 0x20) as u8
    } else {
        b
    }
}

/// The local name of a tag, ASCII letters lower-cased.
pub open spec fn lower_local_name(q: Seq<u8>) -> Seq<u8> {
    Seq::new(local_name(q).len(), |i: int| ascii_lower(local_name(q)[i]))
}

proof fn lemma_local_name_plain(q: Seq<u8>)
    requires
        !q.contains(0x3a),
    ensures
        local_name(q) == q,
{
    assert(!(exists|i: int| 0 <= i < q.len() && q[i] == 0x3a)) by {
        if exists|i: int| 0 <= i < q.len() && q[i] == 0x3a {
            let i = choose|i: int| 0 <= i < q.len() && q[i] == 0x3a;
            assert(q.contains(q[i]));
        }
    }
}

proof fn lemma_local_name_prefixed(prefix: Seq<u8>, q: Seq<u8>)
    requires
        !prefix.contains(0x3a),
    ensures
        local_name(prefix + seq![0x3au8] + q) == q,
{
    let w = prefix + seq![0x3au8] + q;
    let k = prefix.len() as int;
    assert(w[k] == 0x3a);
    assert forall|j: int| 0 <= j < k implies w[j] != 0x3a by {
        assert(w[j] == prefix[j]);
        if prefix[j] == 0x3a {
            assert(prefix.contains(prefix[j]));
        }
    }
    let c = choose|i: int| 0 <= i < w.len() && w[i] == 0x3a && forall|j: int| 0 <= j < i ==> w[j] != 0x3a;
    assert(c == k) by {
        if c < k {
            assert(w[c] != 0x3a);
        }
        if c > k {
            assert(w[k] != 0x3a);
        }
    }
    assert(w.subrange(k + 1, w.len() as int) =~= q);
}

proof fn lemma_lower_plain(q: Seq<u8>)
    requires
        !q.contains(0x3a),
    ensures
        lower_local_name(q).len() == q.len(),
        forall|i: int|
            0 <= i < q.len() ==> #[trigger] lower_local_name(q)[i] == if 0x41 <= q[i] <= 0x5a {
                (q[i] + 0x20) as u8
            } else {
                q[i]
            },
{
    lemma_local_name_plain(q);
}

proof fn lemma_lower_prefixed(prefix: Seq<u8>, q: Seq<u8>)
    requires
        !prefix.contains(0x3a),
        !q.contains(0x3a),
    ensures
        lower_local_name(prefix + seq![0x3au8] + q) == lower_local_name(q),
{
    let w = prefix + seq![0x3au8] + q;
    lemma_local_name_prefixed(prefix, q);
    lemma_local_name_plain(q);
    assert(local_name(w) == local_name(q));
    assert(lower_local_name(w) =~= lower_local_name(q));
}

/// A tag's name as the reader matches it: a name without `:` is taken
/// whole, a name with one prefix by what follows the `:`, and in either case
/// the ASCII capitals become small letters and every other byte stays. So
/// `response`, `D:response` and `d:Response` all name the same element.
pub proof fn lemma_lower_local_name(q: Seq<u8>, prefix: Seq<u8>)
    ensures
        !q.contains(0x3a) ==> lower_local_name(q).len() == q.len() && forall|i: int|
            0 <= i < q.len() ==> #[trigger] lower_local_name(q)[i] == if 0x41 <= q[i] <= 0x5a {
                (q[i] + 0x20) as u8
            } else {
                q[i]
            },
        !prefix.contains(0x3a) && !q.contains(0x3a) ==> lower_local_name(prefix + seq![0x3au8] + q)
            == lower_local_name(q),
{
    if !q.contains(0x3a) {
        lemma_lower_plain(q);
        if !prefix.contains(0x3a) {
            lemma_lower_prefixed(prefix, q);
        }
    }
}

pub fn lower_local_name_of(q: &Vec<u8>) -> (n: Vec<u8>)
    ensures
        n@ == lower_local_name(q@),
{
    let len = q.len();
    let mut start: usize = 0;
    while start < len && q[start] != 0x3a
        invariant
            len == q.len(),
            start <= len,
            forall|j: int| 0 <= j < start ==> q@[j] != 0x3a,
        decreases len - start,
    {
        start += 1;
    }
    let ghost local = local_name(q@);
    if start < len {
        let ghost chosen = choose|i: int|
            0 <= i < q@.len() && q@[i] == 0x3a && forall|j: int| 0 <= j < i ==> q@[j] != 0x3a;
        assert(chosen == start) by {
            if chosen < start {
                assert(q@[chosen] == 0x3a);
            }
            if chosen > start {
                assert(q@[start as int] == 0x3a);
            }
        }
        assert(local == q@.subrange(start + 1, len as int));
        start += 1;
    } else {
        assert(local == q@);
        start = 0;
        assert(local == q@.subrange(0, len as int));
    }
    let mut n: Vec<u8> = Vec::new();
    let mut i: usize = start;
    while i < len
        invariant
            len == q.len(),
            start <= i <= len,
            local == q@.subrange(start as int, len as int),
            n@ == Seq::new((i - start) as nat, |k: int| ascii_lower(local[k])),
        decreases len - i,
    {
        let b = q[i];
        let l = if 0x41 <= b && b <= 0x5a { b + 0x20 } else { b };
        n.push(l);
        i += 1;
        assert(n@ =~= Seq::new((i - start) as nat, |k: int| ascii_lower(local[k])));
    }
    assert(n@ =~= lower_local_name(q@));
    n
}

pub open spec fn is_ascii_digit(c: char) -> bool {
    48 <= (c as u32) <= 57
}

/// The value of a run of decimal digits.
pub open spec fn digits_value(s: Seq<char>) -> nat
    decreases s.len(),
{
    if s.len() == 0 {
        0
    } else {
        digits_value(s.drop_last()) * 10 + ((s.last() as u32) - 48) as nat
    }
}

/// The text after an optional leading `+`.
pub open spec fn digit_part(s: Seq<char>) -> Seq<char> {
    if s.len() > 0 && s[0] == '+' {
        s.drop_first()
    } else {
        s
    }
}

pub open spec fn all_digits(d: Seq<char>) -> bool {
    forall|i: int| 0 <= i < d.len() ==> is_ascii_digit(#[trigger] d[i])
}

/// `str::parse::<u64>`: an optional `+` then at least one decimal digit, with a
/// value that fits.
pub open spec fn parse_u64(s: Seq<char>) -> Option<u64> {
    let d = digit_part(s);
    if d.len() > 0 && all_digits(d) && digits_value(d) <= u64::MAX {
        Some(digits_value(d) as u64)
    } else {
        None
    }
}

proof fn lemma_digits_value_grows(s: Seq<char>, k: int)
    requires
        0 <= k <= s.len(),
        forall|i: int| 0 <= i < s.len() ==> is_ascii_digit(#[trigger] s[i]),
    ensures
        digits_value(s.subrange(0, k)) <= digits_value(s),
    decreases s.len() - k,
{
    if k < s.len() {
        lemma_digits_value_grows(s, k + 1);
        assert(s.subrange(0, k + 1).drop_last() =~= s.subrange(0, k));
    } else {
        assert(s.subrange(0, k) =~= s);
    }
}

/// `s.parse::<u64>().unwrap_or(0)`.
pub fn parse_u64_or_zero(s: &Vec<char>) -> (n: u64)
    ensures
        n == match parse_u64(s@) {
            Some(v) => v,
            None => 0,
        },
{
    let len = s.len();
    let start: usize = if len > 0 && s[0] == '+' { 1 } else { 0 };
    let ghost d = digit_part(s@);
    assert(d =~= s@.subrange(start as int, len as int));
    if start == len {
        return 0;
    }
    let mut acc: u64 = 0;
    let mut i: usize = start;
    assert(d.subrange(0, 0) =~= Seq::<char>::empty());
    while i < len
        invariant
            len == s.len(),
            start < len,
            start <= i <= len,
            d == s@.subrange(start as int, len as int),
            d == digit_part(s@),
            forall|j: int| 0 <= j < i - start ==> is_ascii_digit(#[trigger] d[j]),
            acc as nat == digits_value(d.subrange(0, (i - start) as int)),
        decreases len - i,
    {
        let c = s[i];
        let u = c as u32;
        assert(d[(i - start) as int] == c);
        if u < 48 || u > 57 {
            assert(!is_ascii_digit(d[(i - start) as int]));
            assert(!all_digits(d));
            return 0;
        }
        let digit = (u - 48) as u64;
        assert(d.subrange(0, (i + 1 - start) as int).drop_last() =~= d.subrange(0, (i - start) as int));
        assert(d.subrange(0, (i + 1 - start) as int).last() == c);
        assert(digits_value(d.subrange(0, (i + 1 - start) as int)) == acc * 10 + digit);
        if acc > (u64::MAX - digit) / 10 {
            proof {
                assert(acc * 10 + digit > u64::MAX) by (nonlinear_arith)
                    requires
                        acc > (u64::MAX - digit) / 10,
                        digit <= 9,
                ;
                if all_digits(d) {
                    lemma_digits_value_grows(d, (i + 1 - start) as int);
                }
            }
            return 0;
        }
        acc = acc * 10 + digit;
        i += 1;
    }
    assert(d.subrange(0, d.len() as int) =~= d);
    assert(all_digits(d));
    acc
}

/// The text of a `Text` event: the bytes read as UTF-8, then unescaped; a
/// text without `&` holds no reference and stays as it is.
pub open spec fn xml_text(raw: Seq<u8>) -> Option<Seq<char>> {
    if valid_utf8(raw) {
        let t = decode_utf8(raw);
        if t.contains('&') {
            xml_unescaped(t)
        } else {
            Some(t)
        }
    } else {
        None
    }
}

/// What the reader has found so far, and where in the answer it stands.
pub struct PropfindModel {
    pub in_response: bool,
    pub in_propstat: bool,
    pub in_href: bool,
    pub in_content_length: bool,
    pub in_last_modified: bool,
    pub href: Seq<char>,
    pub size: u64,
    pub modified: Seq<char>,
    pub text: Seq<char>,
    pub backups: Seq<(Seq<char>, u64, Seq<char>)>,
}

pub open spec fn propfind_start() -> PropfindModel {
    PropfindModel {
        in_response: false,
        in_propstat: false,
        in_href: false,
        in_content_length: false,
        in_last_modified: false,
        href: Seq::empty(),
        size: 0,
        modified: Seq::empty(),
        text: Seq::empty(),
        backups: Seq::empty(),
    }
}

/// The file named by a resource address: its part after the last `/`.
pub open spec fn href_file_name(href: Seq<char>) -> Seq<char> {
    split_char(href, '/').last()
}

/// A database backup of this application: `reina_manager_*.db`.
pub open spec fn is_backup_file_name(name: Seq<char>) -> bool {
    starts_with(name, "reina_manager_"@) && ends_with(name, ".db"@)
}

/// One event read. A `response` element opens a resource; inside its
/// `propstat` the length and modification time are taken, and its `href`
/// anywhere; when the `response` closes, the resource is kept if it names a
/// database backup.
pub open spec fn propfind_step(m: PropfindModel, e: XmlEvent) -> PropfindModel {
    match e {
        XmlEvent::Start(q) => match dav_tag(lower_local_name(q@)) {
            DavTag::Response => PropfindModel {
                in_response: true,
                href: Seq::empty(),
                size: 0,
                modified: Seq::empty(),
                ..m
            },
            DavTag::Propstat => if m.in_response {
                PropfindModel { in_propstat: true, ..m }
            } else {
                m
            },
            DavTag::Href => PropfindModel { in_href: true, text: Seq::empty(), ..m },
            DavTag::ContentLength => if m.in_propstat {
                PropfindModel { in_content_length: true, text: Seq::empty(), ..m }
            } else {
                m
            },
            DavTag::LastModified => if m.in_propstat {
                PropfindModel { in_last_modified: true, text: Seq::empty(), ..m }
            } else {
                m
            },
            DavTag::Other => m,
        },
        XmlEvent::Text(raw) => if m.in_href || m.in_content_length || m.in_last_modified {
            match xml_text(raw@) {
                Some(t) => PropfindModel { text: m.text + t, ..m },
                None => m,
            }
        } else {
            m
        },
        XmlEvent::End(q) => match dav_tag(lower_local_name(q@)) {
            DavTag::Href => if m.in_response {
                PropfindModel { href: m.text, in_href: false, ..m }
            } else {
                m
            },
            DavTag::ContentLength => PropfindModel {
                size: match parse_u64(m.text) {
                    Some(v) => v,
                    None => 0,
                },
                in_content_length: false,
                ..m
            },
            DavTag::LastModified => PropfindModel { modified: m.text, in_last_modified: false, ..m },
            DavTag::Propstat => PropfindModel { in_propstat: false, ..m },
            DavTag::Response => {
                let name = href_file_name(m.href);
                PropfindModel {
                    in_response: false,
                    href: Seq::empty(),
                    backups: if is_backup_file_name(name) {
                        m.backups.push((name, m.size, m.modified))
                    } else {
                        m.backups
                    },
                    ..m
                }
            },
            DavTag::Other => m,
        },
        _ => m,
    }
}

/// The events read one after the other, up to the end of the document or an error.
pub open spec fn propfind_run(m: PropfindModel, events: Seq<XmlEvent>) -> PropfindModel
    decreases events.len(),
{
    if events.len() == 0 {
        m
    } else {
        match events[0] {
            XmlEvent::Eof => m,
            XmlEvent::Error => m,
            _ => propfind_run(propfind_step(m, events[0]), events.drop_first()),
        }
    }
}

/// The database backups that a PROPFIND answer, read as `events`, lists.
pub open spec fn propfind_backups(events: Seq<XmlEvent>) -> Seq<(Seq<char>, u64, Seq<char>)> {
    propfind_run(propfind_start(), events).backups
}

/// The state of a PROPFIND answer being read.
pub struct PropfindReader {
    in_response: bool,
    in_propstat: bool,
    in_href: bool,
    in_content_length: bool,
    in_last_modified: bool,
    href: String,
    size: u64,
    modified: String,
    text: String,
    backups: Vec<WebdavBackupInfo>,
}

impl PropfindReader {
    pub closed spec fn model(&self) -> PropfindModel {
        PropfindModel {
            in_response: self.in_response,
            in_propstat: self.in_propstat,
            in_href: self.in_href,
            in_content_length: self.in_content_length,
            in_last_modified: self.in_last_modified,
            href: self.href@,
            size: self.size,
            modified: self.modified@,
            text: self.text@,
            backups: backup_models(self.backups@),
        }
    }

    pub fn new() -> (r: Self)
        ensures
            r.model() == propfind_start(),
    {
        let r = PropfindReader {
            in_response: false,
            in_propstat: false,
            in_href: false,
            in_content_length: false,
            in_last_modified: false,
            href: String::new(),
            size: 0,
            modified: String::new(),
            text: String::new(),
            backups: Vec::new(),
        };
        assert(backup_models(r.backups@) =~= Seq::empty());
        r
    }

    /// Reads one event.
    pub fn step(&mut self, e: &XmlEvent)
        ensures
            final(self).model() == propfind_step(old(self).model(), *e),
    {
        match e {
            XmlEvent::Start(q) => {
                let name = lower_local_name_of(q);
                match classify_tag(&name) {
                    DavTag::Response => {
                        self.in_response = true;
                        self.href = String::new();
                        self.size = 0;
                        self.modified = String::new();
                    },
                    DavTag::Propstat => {
                        if self.in_response {
                            self.in_propstat = true;
                        }
                    },
                    DavTag::Href => {
                        self.in_href = true;
                        self.text = String::new();
                    },
                    DavTag::ContentLength => {
                        if self.in_propstat {
                            self.in_content_length = true;
                            self.text = String::new();
                        }
                    },
                    DavTag::LastModified => {
                        if self.in_propstat {
                            self.in_last_modified = true;
                            self.text = String::new();
                        }
                    },
                    DavTag::Other => {},
                }
            },
            XmlEvent::Text(raw) => {
                if self.in_href || self.in_content_length || self.in_last_modified {
                    match decode_xml_text(raw) {
                        Some(t) => push_str(&mut self.text, t.as_str()),
                        None => {},
                    }
                }
            },
            XmlEvent::End(q) => {
                let name = lower_local_name_of(q);
                match classify_tag(&name) {
                    DavTag::Href => {
                        if self.in_response {
                            self.href = self.text.clone();
                            self.in_href = false;
                        }
                    },
                    DavTag::ContentLength => {
                        let digits = chars_of(self.text.as_str());
                        self.size = parse_u64_or_zero(&digits);
                        self.in_content_length = false;
                    },
                    DavTag::LastModified => {
                        self.modified = self.text.clone();
                        self.in_last_modified = false;
                    },
                    DavTag::Propstat => {
                        self.in_propstat = false;
                    },
                    DavTag::Response => {
                        self.in_response = false;
                        let href = chars_of(self.href.as_str());
                        let parts = split_chars(&href, '/');
                        proof {
                            crate::seqs::lemma_split_not_empty(href@, '/');
                        }
                        let file = &parts[parts.len() - 1];
                        let prefix = chars_of("reina_manager_");
                        let suffix = chars_of(".db");
                        if chars_start_with(file, &prefix) && chars_end_with(file, &suffix) {
                            let ghost before = self.backups@;
                            let info = WebdavBackupInfo {
                                name: string_of(file),
                                size: self.size,
                                modified: self.modified.clone(),
                            };
                            self.backups.push(info);
                            assert(backup_models(self.backups@) =~= backup_models(before).push(info.model()));
                        }
                        self.href = String::new();
                    },
                    DavTag::Other => {},
                }
            },
            _ => {},
        }
    }

    /// The backups found.
    pub fn into_backups(self) -> (r: Vec<WebdavBackupInfo>)
        ensures
            backup_models(r@) == self.model().backups,
    {
        self.backups
    }
}

/// The database backups that a PROPFIND answer lists, the answer given as its
/// events; reading stops at the end of the document or at an error.
pub fn backups_from_events(events: &Vec<XmlEvent>) -> (r: Vec<WebdavBackupInfo>)
    ensures
        backup_models(r@) == propfind_backups(events@),
{
    let mut reader = PropfindReader::new();
    let n = events.len();
    let mut i: usize = 0;
    assert(events@.subrange(0, n as int) =~= events@);
    while i < n
        invariant
            n == events.len(),
            i <= n,
            propfind_run(propfind_start(), events@) == propfind_run(
                reader.model(),
                events@.subrange(i as int, n as int),
            ),
        ensures
            propfind_run(propfind_start(), events@) == reader.model(),
        decreases n - i,
    {
        let ghost rest = events@.subrange(i as int, n as int);
        assert(rest[0] == events@[i as int]);
        match &events[i] {
            XmlEvent::Eof => {
                break;
            },
            XmlEvent::Error => {
                break;
            },
            e => {
                assert(rest.drop_first() =~= events@.subrange(i + 1, n as int));
                reader.step(e);
            },
        }
        i += 1;
    }
    reader.into_backups()
}

// ==================== reading XML ====================

/// What `quick_xml::escape::unescape` gives for a text: the text with its
/// character and entity references replaced, or nothing for a malformed one.
pub uninterp spec fn xml_unescaped(raw: Seq<char>) -> Option<Seq<char>>;

/// `quick_xml::escape::unescape`. Claimed: the result is `xml_unescaped` of the
/// text, and a text without `&` comes back unchanged (the function only acts
/// on `&...;` references).
#[verifier::external_body]
fn unescape_xml(raw: &str) -> (r: Option<String>)
    ensures
        match r {
            Some(s) => xml_unescaped(raw@) == Some(s@),
            None => xml_unescaped(raw@) is None,
        },
        !raw@.contains('&') ==> match r {
            Some(s) => s@ == raw@,
            None => false,
        },
{
    match quick_xml::escape::unescape(raw) {
        Ok(text) => Some(text.into_owned()),
        Err(_) => None,
    }
}

/// `std::str::from_utf8`, owned. Claimed: the bytes are accepted exactly when
/// they are valid UTF-8, and then decoded.
#[verifier::external_body]
fn utf8_string(bytes: &Vec<u8>) -> (r: Option<String>)
    ensures
        match r {
            Some(s) => valid_utf8(bytes@) && s@ == decode_utf8(bytes@),
            None => !valid_utf8(bytes@),
        },
{
    match std::str::from_utf8(bytes.as_slice()) {
        Ok(s) => Some(s.to_string()),
        Err(_) => None,
    }
}

/// The text of a `Text` event: decoded as UTF-8, then unescaped.
pub fn decode_xml_text(raw: &Vec<u8>) -> (r: Option<String>)
    ensures
        match r {
            Some(s) => xml_text(raw@) == Some(s@),
            None => xml_text(raw@) is None,
        },
{
    match utf8_string(raw) {
        Some(s) => unescape_xml(s.as_str()),
        None => None,
    }
}

/// The first `n` events that the reader gives for `xml`.
pub open spec fn xml_events(xml: Seq<char>, n: nat) -> Seq<XmlEvent> {
    Seq::new(n, |k: int| xml_event(xml, k as nat))
}

/// The database backups that a PROPFIND answer lists, with size and
/// modification time: the answer's events, as the XML reader gives them for
/// the text, read one after the other up to the end of the document or the
/// first error. At most one event more than the text has characters is read;
/// the reader gives at most one event per character before the end.
pub fn parse_propfind_response(xml: &str) -> (r: Vec<WebdavBackupInfo>)
    ensures
        backup_models(r@) == propfind_backups(xml_events(xml@, xml@.len() + 1)),
        forall|i: int| 0 <= i < r@.len() ==> is_backup_file_name(#[trigger] r@[i].name@),
{
    let mut cursor = open_xml(xml);
    let total = chars_of(xml).len();
    let ghost all = xml_events(xml@, xml@.len() + 1);
    let mut reader = PropfindReader::new();
    let mut left: usize = total;
    let ghost mut n: nat = 0;
    loop
        invariant_except_break
            cursor@ == (xml@, n),
            n + left == total,
            reader.model() == propfind_run(propfind_start(), all.subrange(0, n as int)),
            forall|k: int| 0 <= k < n ==> !(#[trigger] all[k] is Eof) && !(all[k] is Error),
        invariant
            total == xml@.len(),
            all == xml_events(xml@, xml@.len() + 1),
        ensures
            reader.model() == propfind_run(propfind_start(), all),
        decreases left,
    {
        let e = next_xml_event(&mut cursor);
        assert(e == all[n as int]);
        match e {
            XmlEvent::Eof => {
                proof {
                    lemma_run_stops(propfind_start(), all, n as int);
                }
                break;
            },
            XmlEvent::Error => {
                proof {
                    lemma_run_stops(propfind_start(), all, n as int);
                }
                break;
            },
            _ => {},
        }
        proof {
            lemma_run_append(propfind_start(), all.subrange(0, n as int), e);
            assert(all.subrange(0, n + 1 as int) =~= all.subrange(0, n as int).push(e));
            n = n + 1;
        }
        reader.step(&e);
        if left == 0 {
            proof {
                assert(all.subrange(0, n as int) =~= all);
            }
            break;
        }
        left -= 1;
    }
    let r = reader.into_backups();
    proof {
        lemma_run_keeps_backup_names(propfind_start(), all);
        assert(backup_models(r@) == propfind_backups(all));
        assert forall|i: int| 0 <= i < r@.len() implies is_backup_file_name(#[trigger] r@[i].name@) by {
            assert(backup_models(r@)[i] == r@[i].model());
            assert(is_backup_file_name(propfind_run(propfind_start(), all).backups[i].0));
        }
    }
    r
}

/// Reading stops at the first end or error: what follows is never read.
proof fn lemma_run_stops(m: PropfindModel, s: Seq<XmlEvent>, n: int)
    requires
        0 <= n < s.len(),
        forall|k: int| 0 <= k < n ==> !(#[trigger] s[k] is Eof) && !(s[k] is Error),
        s[n] is Eof || s[n] is Error,
    ensures
        propfind_run(m, s) == propfind_run(m, s.subrange(0, n)),
    decreases n,
{
    if n == 0 {
        assert(s.subrange(0, 0) =~= Seq::<XmlEvent>::empty());
    } else {
        assert(!(s[0] is Eof) && !(s[0] is Error));
        let t = s.drop_first();
        assert forall|k: int| 0 <= k < n - 1 implies !(#[trigger] t[k] is Eof) && !(t[k] is Error) by {
            assert(t[k] == s[k + 1]);
        }
        assert(t[n - 1] == s[n]);
        lemma_run_stops(propfind_step(m, s[0]), t, n - 1);
        let u = s.subrange(0, n);
        assert(u[0] == s[0]);
        assert(u.drop_first() =~= t.subrange(0, n - 1));
    }
}

proof fn lemma_run_append(m: PropfindModel, events: Seq<XmlEvent>, e: XmlEvent)
    requires
        forall|i: int| 0 <= i < events.len() ==> !(events[i] is Eof) && !(events[i] is Error),
        !(e is Eof),
        !(e is Error),
    ensures
        propfind_run(m, events.push(e)) == propfind_step(propfind_run(m, events), e),
    decreases events.len(),
{
    if events.len() == 0 {
        assert(events.push(e)[0] == e);
        assert(events.push(e).drop_first() =~= Seq::<XmlEvent>::empty());
        assert(propfind_run(m, events.push(e)) == propfind_run(
            propfind_step(m, e),
            events.push(e).drop_first(),
        ));
        assert(propfind_run(propfind_step(m, e), Seq::<XmlEvent>::empty()) == propfind_step(m, e));
    } else {
        assert(events.push(e)[0] == events[0]);
        assert(!(events[0] is Eof) && !(events[0] is Error));
        assert(events.push(e).drop_first() =~= events.drop_first().push(e));
        assert forall|i: int| 0 <= i < events.drop_first().len() implies !(
        #[trigger] events.drop_first()[i] is Eof) && !(events.drop_first()[i] is Error) by {
            assert(events.drop_first()[i] == events[i + 1]);
        }
        lemma_run_append(propfind_step(m, events[0]), events.drop_first(), e);
        assert(propfind_run(m, events.push(e)) == propfind_run(
            propfind_step(m, events[0]),
            events.push(e).drop_first(),
        ));
        assert(propfind_run(m, events) == propfind_run(propfind_step(m, events[0]), events.drop_first()));
    }
}

proof fn lemma_run_keeps_backup_names(m: PropfindModel, events: Seq<XmlEvent>)
    requires
        forall|i: int| 0 <= i < m.backups.len() ==> is_backup_file_name(#[trigger] m.backups[i].0),
    ensures
        forall|i: int| 0 <= i < propfind_run(m, events).backups.len() ==> is_backup_file_name(
            #[trigger] propfind_run(m, events).backups[i].0,
        ),
    decreases events.len(),
{
    if events.len() > 0 {
        match events[0] {
            XmlEvent::Eof => {},
            XmlEvent::Error => {},
            _ => {
                let next = propfind_step(m, events[0]);
                assert(propfind_run(m, events) == propfind_run(next, events.drop_first()));
                assert forall|i: int| 0 <= i < next.backups.len() implies is_backup_file_name(
                    #[trigger] next.backups[i].0,
                ) by {
                    if i < m.backups.len() {
                        assert(next.backups[i] == m.backups[i]);
                    }
                }
                lemma_run_keeps_backup_names(next, events.drop_first());
            },
        }
    }
}

} // verus!
