//! Local paths. The spec functions read a path with the `/`-separated rules
//! of `std::path`: repeated separators and `.` components are normalized away
//! (a leading `./` stays), a trailing separator is ignored, and `..` is kept.
//! The executable functions ask `std::path` itself, so they follow the rules
//! of the platform they run on. Their contracts state the readings that can
//! come out: the text as it stands, where `/` is the only separator, or with
//! `\` read as `/` and a leading drive such as `C:` read as a prefix, where
//! both are separators. A text with another prefix (a network, device or
//! verbatim one) is left unstated.

use vstd::prelude::*;
use crate::seqs::{
    char_views, split_char, split_from, join_with, split_chars, join_chars, copy_chars, lemma_split_from_sep,
    lemma_split_from_plain, lemma_split_join, lemma_join_prefix, lemma_split_from_parts, lemma_split_from_first,
    before_sep,
};
use crate::text::{trim, chars_of, trim_string};

verus! {

pub open spec fn is_dot(s: Seq<char>) -> bool {
    s == seq!['.']
}

pub open spec fn is_dot_dot(s: Seq<char>) -> bool {
    s == seq!['.', '.']
}

/// The parts between separators that name something: empty parts and `.` dropped.
pub open spec fn name_parts(parts: Seq<Seq<char>>) -> Seq<Seq<char>>
    decreases parts.len(),
{
    if parts.len() == 0 {
        Seq::empty()
    } else if parts.last().len() == 0 || is_dot(parts.last()) {
        name_parts(parts.drop_last())
    } else {
        name_parts(parts.drop_last()).push(parts.last())
    }
}

/// The names of the path: its `Normal` and `ParentDir` components.
pub open spec fn path_names(p: Seq<char>) -> Seq<Seq<char>> {
    name_parts(split_char(p, '/'))
}

/// The path starts at the root.
pub open spec fn has_root(p: Seq<char>) -> bool {
    p.len() > 0 && p[0] == '/'
}

/// The path starts with a `CurDir` component: `.` alone or followed by a separator.
pub open spec fn has_leading_cur_dir(p: Seq<char>) -> bool {
    !has_root(p) && p.len() > 0 && p[0] == '.' && (p.len() == 1 || p[1] == '/')
}

/// The path rebuilt from its components, as collecting `Path::components`
/// into a `PathBuf` gives it.
pub open spec fn normalized_path(p: Seq<char>) -> Seq<char> {
    let names = path_names(p);
    if has_root(p) {
        seq!['/'] + join_with(names, '/')
    } else if has_leading_cur_dir(p) {
        if names.len() == 0 {
            seq!['.']
        } else {
            seq!['.', '/'] + join_with(names, '/')
        }
    } else {
        join_with(names, '/')
    }
}

/// `Path::file_name`: the last component, when it is a normal name.
pub open spec fn file_name(p: Seq<char>) -> Option<Seq<char>> {
    let names = path_names(p);
    if names.len() > 0 && !is_dot_dot(names.last()) {
        Some(names.last())
    } else {
        None
    }
}

/// The path is one normal component and holds no separator of any platform.
pub open spec fn is_bare_file_name(p: Seq<char>) -> bool {
    &&& !p.contains('/')
    &&& !p.contains('\\')
    &&& p.len() > 0
    &&& !is_dot(p)
    &&& !is_dot_dot(p)
}

/// The extension of a file name, as `Path::extension` reads it: the text after
/// the last `.`, unless that dot starts the name.
pub open spec fn name_extension(name: Seq<char>) -> Option<Seq<char>> {
    if is_dot_dot(name) {
        None
    } else if exists|i: int| 0 < i < name.len() && name[i] == '.' {
        let i = choose|i: int|
            0 < i < name.len() && name[i] == '.' && forall|j: int| i < j < name.len() ==> name[j] != '.';
        Some(name.subrange(i + 1, name.len() as int))
    } else {
        None
    }
}

/// `Path::extension` of the whole path.
pub open spec fn path_extension(p: Seq<char>) -> Option<Seq<char>> {
    match file_name(p) {
        Some(name) => name_extension(name),
        None => None,
    }
}

/// A part that names something: not empty and not `.`.
pub open spec fn is_name(part: Seq<char>) -> bool {
    part.len() > 0 && !is_dot(part)
}

proof fn lemma_name_parts_concat(a: Seq<Seq<char>>, b: Seq<Seq<char>>)
    ensures
        name_parts(a + b) == name_parts(a) + name_parts(b),
    decreases b.len(),
{
    if b.len() == 0 {
        assert(a + b =~= a);
        assert(name_parts(a) + name_parts(b) =~= name_parts(a));
    } else {
        assert((a + b).drop_last() =~= a + b.drop_last());
        assert((a + b).last() == b.last());
        lemma_name_parts_concat(a, b.drop_last());
        if !(b.last().len() == 0 || is_dot(b.last())) {
            assert((name_parts(a) + name_parts(b.drop_last())).push(b.last()) =~= name_parts(a) + name_parts(
                b.drop_last(),
            ).push(b.last()));
        }
    }
}

proof fn lemma_name_parts_of_names(x: Seq<Seq<char>>)
    requires
        forall|i: int| 0 <= i < x.len() ==> is_name(#[trigger] x[i]),
    ensures
        name_parts(x) == x,
    decreases x.len(),
{
    if x.len() > 0 {
        assert(is_name(x[x.len() - 1]));
        assert forall|i: int| 0 <= i < x.drop_last().len() implies is_name(#[trigger] x.drop_last()[i]) by {
            assert(x.drop_last()[i] == x[i]);
        }
        lemma_name_parts_of_names(x.drop_last());
        assert(x.drop_last().push(x.last()) =~= x);
    }
}

proof fn lemma_name_parts_props(x: Seq<Seq<char>>)
    ensures
        forall|i: int| 0 <= i < name_parts(x).len() ==> is_name(#[trigger] name_parts(x)[i]) && x.contains(
            name_parts(x)[i],
        ),
    decreases x.len(),
{
    if x.len() > 0 {
        lemma_name_parts_props(x.drop_last());
        let r = name_parts(x);
        let q = name_parts(x.drop_last());
        assert forall|i: int| 0 <= i < r.len() implies is_name(#[trigger] r[i]) && x.contains(r[i]) by {
            if i < q.len() {
                assert(r[i] == q[i]);
                let k = choose|k: int| 0 <= k < x.drop_last().len() && x.drop_last()[k] == q[i];
                assert(x[k] == q[i]);
            } else {
                assert(r[i] == x.last());
                assert(x[x.len() - 1] == x.last());
            }
        }
    }
}

/// The names of a path are names, and hold no separator.
proof fn lemma_path_names_props(p: Seq<char>)
    ensures
        forall|i: int| 0 <= i < path_names(p).len() ==> is_name(#[trigger] path_names(p)[i]) && !path_names(
            p,
        )[i].contains('/'),
{
    let parts = split_char(p, '/');
    lemma_split_from_parts(p, '/', Seq::empty(), Seq::empty());
    lemma_name_parts_props(parts);
    assert forall|i: int| 0 <= i < path_names(p).len() implies is_name(#[trigger] path_names(p)[i]) && !path_names(
        p,
    )[i].contains('/') by {
        let k = choose|k: int| 0 <= k < parts.len() && parts[k] == path_names(p)[i];
        assert(!parts[k].contains('/'));
    }
}

/// Normalizing a normalized path changes nothing.
pub proof fn lemma_normalized_path_stable(p: Seq<char>)
    ensures
        normalized_path(normalized_path(p)) == normalized_path(p),
{
    let names = path_names(p);
    let j = join_with(names, '/');
    let n = normalized_path(p);
    let e = Seq::<char>::empty();
    let no_parts = Seq::<Seq<char>>::empty();
    lemma_path_names_props(p);
    if names.len() > 0 {
        assert forall|i: int| 0 <= i < names.len() implies !(#[trigger] names[i]).contains('/') by {}
        lemma_name_parts_of_names(names);
    }
    if has_root(p) {
        assert(n == seq!['/'] + j);
        assert(n =~= e + seq!['/'] + j);
        lemma_split_from_sep(e, '/', j, e, no_parts);
        assert(split_from(e, '/', e, no_parts) == seq![e]);
        assert(seq![e].drop_last() =~= no_parts);
        assert(seq![e].last() == e);
        assert(name_parts(no_parts) == no_parts);
        assert(name_parts(seq![e]) == no_parts);
        if names.len() == 0 {
            assert(j == e);
            assert(split_from(j, '/', e, seq![e]) == seq![e, e]);
            assert(seq![e, e].drop_last() =~= seq![e]);
            assert(path_names(n) == no_parts);
            assert(join_with(no_parts, '/') == e);
        } else {
            lemma_split_join(names, '/', seq![e]);
            lemma_name_parts_concat(seq![e], names);
            assert(seq![e] + names == split_char(n, '/'));
            assert(no_parts + names =~= names);
        }
        assert(has_root(n));
    } else if has_leading_cur_dir(p) {
        let dot = seq!['.'];
        assert(!dot.contains('/')) by {
            if dot.contains('/') {
                let k = choose|k: int| 0 <= k < dot.len() && dot[k] == '/';
                assert(dot[k] == '.');
            }
        }
        lemma_split_from_plain(dot, '/', e, no_parts);
        assert(e + dot =~= dot);
        assert(split_from(dot, '/', e, no_parts) == seq![dot]);
        assert(is_dot(dot));
        assert(seq![dot].drop_last() =~= no_parts);
        assert(seq![dot].last() == dot);
        assert(name_parts(no_parts) == no_parts);
        assert(name_parts(seq![dot]) == no_parts);
        if names.len() == 0 {
            assert(n == dot);
            assert(path_names(n) == no_parts);
        } else {
            assert(n == seq!['.', '/'] + j);
            assert(n =~= dot + seq!['/'] + j);
            lemma_split_from_sep(dot, '/', j, e, no_parts);
            lemma_split_join(names, '/', seq![dot]);
            lemma_name_parts_concat(seq![dot], names);
            assert(no_parts + names =~= names);
            assert(path_names(n) == names);
        }
        assert(!has_root(n));
        assert(has_leading_cur_dir(n));
    } else {
        assert(n == j);
        if names.len() == 0 {
            assert(j == e);
            assert(split_from(e, '/', e, no_parts) == seq![e]);
            assert(seq![e].drop_last() =~= no_parts);
            assert(seq![e].last() == e);
            assert(name_parts(no_parts) == no_parts);
            assert(split_char(n, '/') == seq![e]);
            assert(path_names(n) == no_parts);
        } else {
            lemma_split_join(names, '/', no_parts);
            assert(no_parts + names =~= names);
            assert(path_names(n) == names);
            lemma_join_prefix(names, '/');
            let first = names[0];
            assert(is_name(first) && !first.contains('/'));
            assert(j[0] == first[0]) by {
                assert(j.subrange(0, first.len() as int)[0] == j[0]);
            }
            assert(first[0] != '/') by {
                assert(first.contains(first[0]));
            }
            if j[0] == '.' {
                if first.len() == 1 {
                    assert(first =~= seq!['.']);
                } else {
                    assert(j[1] == first[1]) by {
                        assert(j.subrange(0, first.len() as int)[1] == j[1]);
                    }
                    assert(first[1] != '/') by {
                        assert(first.contains(first[1]));
                    }
                }
            }
            assert(!has_root(n));
            assert(!has_leading_cur_dir(n));
        }
    }
}

/// A path that starts neither at the root nor with `.` keeps its first
/// character when normalized.
pub proof fn lemma_normalized_first(p: Seq<char>)
    requires
        p.len() > 0,
        !has_root(p),
        !has_leading_cur_dir(p),
    ensures
        normalized_path(p).len() > 0,
        normalized_path(p)[0] == p[0],
{
    let e = Seq::<char>::empty();
    let no_parts = Seq::<Seq<char>>::empty();
    let parts = split_char(p, '/');
    lemma_split_from_first(p, '/', e, no_parts);
    let x0 = before_sep(p, '/');
    assert(p[0] != '/');
    assert(x0 == seq![p[0]] + before_sep(p.drop_first(), '/'));
    assert(parts[0] == e + x0);
    assert(e + x0 =~= x0);
    assert(x0.len() > 0 && x0[0] == p[0]);
    assert(!is_dot(x0)) by {
        if is_dot(x0) {
            assert(x0.len() == 1);
            let rest = before_sep(p.drop_first(), '/');
            assert(rest.len() == 0);
            if p.len() > 1 {
                assert(p.drop_first().len() > 0);
                if p.drop_first()[0] != '/' {
                    assert(rest == seq![p.drop_first()[0]] + before_sep(p.drop_first().drop_first(), '/'));
                }
                assert(p.drop_first()[0] == p[1]);
            }
            assert(x0[0] == '.');
        }
    }
    assert(parts =~= seq![x0] + parts.drop_first());
    lemma_name_parts_concat(seq![x0], parts.drop_first());
    assert(seq![x0].drop_last() =~= no_parts);
    assert(seq![x0].last() == x0);
    assert(name_parts(no_parts) == no_parts);
    assert(name_parts(seq![x0]) == no_parts.push(x0));
    let names = path_names(p);
    assert(names == no_parts.push(x0) + name_parts(parts.drop_first()));
    assert(names[0] == x0);
    lemma_join_prefix(names, '/');
    assert(normalized_path(p) == join_with(names, '/'));
    assert(join_with(names, '/').subrange(0, x0.len() as int)[0] == join_with(names, '/')[0]);
}

// ==================== the platform's path rules ====================

/// A component of a path, as `std::path::Path::components` reads it.
#[derive(Debug)]
pub enum PathPart {
    Prefix(String),
    RootDir,
    CurDir,
    ParentDir,
    Normal(String),
}

/// The mathematical form of a `PathPart`.
pub enum PartModel {
    Prefix(Seq<char>),
    RootDir,
    CurDir,
    ParentDir,
    Normal(Seq<char>),
}

impl PathPart {
    pub open spec fn model(self) -> PartModel {
        match self {
            PathPart::Prefix(s) => PartModel::Prefix(s@),
            PathPart::RootDir => PartModel::RootDir,
            PathPart::CurDir => PartModel::CurDir,
            PathPart::ParentDir => PartModel::ParentDir,
            PathPart::Normal(s) => PartModel::Normal(s@),
        }
    }
}

pub open spec fn part_models(s: Seq<PathPart>) -> Seq<PartModel> {
    Seq::new(s.len(), |i: int| s[i].model())
}

pub open spec fn is_sep(c: char) -> bool {
    c == '/' || c == '\\'
}

/// The text starts with two separators, as a network or device prefix does.
pub open spec fn starts_with_two_seps(p: Seq<char>) -> bool {
    p.len() >= 2 && is_sep(p[0]) && is_sep(p[1])
}

/// No platform reads a prefix in the text: it holds no `:` (a drive prefix
/// needs one) and does not start with two separators (a network, device or
/// verbatim prefix does).
pub open spec fn prefix_free(p: Seq<char>) -> bool {
    !p.contains(':') && !starts_with_two_seps(p)
}

/// A text that every platform reads with the `/`-separated rules: no prefix,
/// and no `\`, which some platforms take as a separator.
pub open spec fn portable(p: Seq<char>) -> bool {
    prefix_free(p) && !p.contains('\\')
}

/// The text with each `\` read as `/`: how a platform that takes both as
/// separators reads a text without a prefix.
pub open spec fn slashed(p: Seq<char>) -> Seq<char> {
    Seq::new(p.len(), |i: int| if p[i] == '\\' { '/' } else { p[i] })
}

/// A text without `\` reads the same either way.
pub proof fn lemma_slashed_portable(p: Seq<char>)
    requires
        !p.contains('\\'),
    ensures
        slashed(p) == p,
{
    assert forall|i: int| 0 <= i < p.len() implies slashed(p)[i] == p[i] by {
        assert(p[i] != '\\') by {
            if p[i] == '\\' {
                assert(p.contains(p[i]));
            }
        }
    }
    assert(slashed(p) =~= p);
}

/// A letter of the drive names `A` to `Z`, either case.
pub open spec fn is_drive_letter(c: char) -> bool {
    ('a' <= c && c <= 'z') || ('A' <= c && c <= 'Z')
}

/// A drive: a letter and `:`, as `C:`.
pub open spec fn is_drive(d: Seq<char>) -> bool {
    d.len() == 2 && is_drive_letter(d[0]) && d[1] == ':'
}

/// The text starts with a drive, which some platforms read as a prefix.
pub open spec fn drive_led(p: Seq<char>) -> bool {
    p.len() >= 2 && is_drive(p.subrange(0, 2))
}

/// What follows the drive.
pub open spec fn drive_rest(p: Seq<char>) -> Seq<char> {
    p.subrange(2, p.len() as int)
}

/// The component a name stands for.
pub open spec fn name_part(n: Seq<char>) -> PartModel {
    if is_dot_dot(n) {
        PartModel::ParentDir
    } else {
        PartModel::Normal(n)
    }
}

/// The components that the `/`-separated rules give: the root or a leading
/// `.`, then the names.
pub open spec fn posix_parts(p: Seq<char>) -> Seq<PartModel> {
    let names = path_names(p);
    let head = if has_root(p) {
        seq![PartModel::RootDir]
    } else if has_leading_cur_dir(p) {
        seq![PartModel::CurDir]
    } else {
        Seq::empty()
    };
    head + Seq::new(names.len(), |i: int| name_part(names[i]))
}

/// The components of a text that starts with a drive, where the drive is
/// read as a prefix: the drive, then the rest read with the `/`-separated
/// rules, each `\` read as `/`.
pub open spec fn drive_parts(p: Seq<char>) -> Seq<PartModel> {
    seq![PartModel::Prefix(p.subrange(0, 2))] + posix_parts(slashed(drive_rest(p)))
}

/// The text of a component.
pub open spec fn part_text(p: PartModel) -> Seq<char> {
    match p {
        PartModel::Prefix(s) => s,
        PartModel::RootDir => Seq::empty(),
        PartModel::CurDir => seq!['.'],
        PartModel::ParentDir => seq!['.', '.'],
        PartModel::Normal(s) => s,
    }
}

pub open spec fn part_texts(parts: Seq<PartModel>) -> Seq<Seq<char>> {
    Seq::new(parts.len(), |i: int| part_text(parts[i]))
}

/// Components of the plain form: no prefix, the root or `.` only first, and
/// names that hold no `/`, `\` or `:`.
pub open spec fn plain_parts(parts: Seq<PartModel>) -> bool {
    forall|i: int|
        0 <= i < parts.len() ==> match #[trigger] parts[i] {
            PartModel::Prefix(_) => false,
            PartModel::RootDir => i == 0,
            PartModel::CurDir => i == 0,
            PartModel::ParentDir => true,
            PartModel::Normal(n) => is_name(n) && !is_dot_dot(n) && !n.contains('/') && !n.contains('\\')
                && !n.contains(':'),
        }
}

/// The path that a `PathBuf` holds once components of the plain form are
/// pushed onto it, with `sep` as the platform's separator.
pub open spec fn assemble(parts: Seq<PartModel>, sep: char) -> Seq<char> {
    if parts.len() > 0 && parts[0] is RootDir {
        seq![sep] + join_with(part_texts(parts.drop_first()), sep)
    } else if parts.len() > 0 && parts[0] is CurDir {
        if parts.len() == 1 {
            seq!['.']
        } else {
            seq!['.', sep] + join_with(part_texts(parts.drop_first()), sep)
        }
    } else {
        join_with(part_texts(parts), sep)
    }
}

/// Components that a `PathBuf` takes as they stand: a drive prefix only
/// first; the root or `.` first or right after the prefix; names that hold
/// no `/`, do not start with `\`, end with `\` only when they come last, and
/// hold `:` only when they come first.
pub open spec fn buildable_parts(parts: Seq<PartModel>) -> bool {
    forall|i: int|
        0 <= i < parts.len() ==> match #[trigger] parts[i] {
            PartModel::Prefix(d) => i == 0 && is_drive(d),
            PartModel::RootDir => i == 0 || (i == 1 && parts[0] is Prefix),
            PartModel::CurDir => i == 0 || (i == 1 && parts[0] is Prefix),
            PartModel::ParentDir => true,
            PartModel::Normal(n) => is_name(n) && !is_dot_dot(n) && !n.contains('/') && n[0] != '\\' && (i + 1
                < parts.len() ==> n.last() != '\\') && (i > 0 ==> !n.contains(':')),
        }
}

/// What pushing `parts` gives where `/` is the only separator: a prefix is
/// text like a name, and the root replaces what came before it.
pub open spec fn unix_built(parts: Seq<PartModel>) -> Seq<char> {
    if parts.len() > 0 && parts[0] is Prefix {
        let rest = parts.drop_first();
        if rest.len() == 0 {
            part_text(parts[0])
        } else if rest[0] is RootDir {
            assemble(rest, '/')
        } else {
            part_text(parts[0]) + seq!['/'] + assemble(rest, '/')
        }
    } else {
        assemble(parts, '/')
    }
}

/// What pushing `parts` gives where `\` is the separator and a drive is a
/// prefix: nothing is put between a drive and what follows it.
pub open spec fn windows_built(parts: Seq<PartModel>) -> Seq<char> {
    if parts.len() > 0 && (parts[0] is Prefix || (parts[0] is Normal && is_drive(part_text(parts[0])))) {
        part_text(parts[0]) + assemble(parts.drop_first(), '\\')
    } else {
        assemble(parts, '\\')
    }
}

/// A path, or `None` for the empty text.
pub open spec fn non_empty_path(n: Seq<char>) -> Option<Seq<char>> {
    if n.len() > 0 {
        Some(n)
    } else {
        None
    }
}

/// `out` is what pushing `parts` gives on one of the two kinds of platform.
pub open spec fn built_from(parts: Seq<PartModel>, out: Option<Seq<char>>) -> bool {
    out == non_empty_path(unix_built(parts)) || out == non_empty_path(windows_built(parts))
}

/// Plain components are taken as they stand, and each platform joins them
/// with its separator.
proof fn lemma_plain_built(parts: Seq<PartModel>)
    requires
        plain_parts(parts),
    ensures
        buildable_parts(parts),
        unix_built(parts) == assemble(parts, '/'),
        windows_built(parts) == assemble(parts, '\\'),
{
    assert forall|i: int| 0 <= i < parts.len() implies match #[trigger] parts[i] {
        PartModel::Prefix(d) => i == 0 && is_drive(d),
        PartModel::RootDir => i == 0 || (i == 1 && parts[0] is Prefix),
        PartModel::CurDir => i == 0 || (i == 1 && parts[0] is Prefix),
        PartModel::ParentDir => true,
        PartModel::Normal(n) => is_name(n) && !is_dot_dot(n) && !n.contains('/') && n[0] != '\\' && (i + 1
            < parts.len() ==> n.last() != '\\') && (i > 0 ==> !n.contains(':')),
    } by {
        if let PartModel::Normal(n) = parts[i] {
            assert(n.contains(n[0]));
            assert(n.contains(n[n.len() - 1]));
        }
    }
    if parts.len() > 0 {
        if let PartModel::Normal(n) = parts[0] {
            if is_drive(n) {
                assert(n.contains(n[1]));
            }
        }
    }
}

/// The path rebuilt from `parts` with `sep` between them, or `None` when
/// nothing is left.
pub open spec fn rebuilt(parts: Seq<PartModel>, sep: char) -> Option<Seq<char>> {
    let n = assemble(parts, sep);
    if n.len() > 0 {
        Some(n)
    } else {
        None
    }
}

/// The trimmed text as a path rebuilt from its components with `sep`
/// between them, or `None` when nothing is left.
pub open spec fn clean_path_on(v: Seq<char>, sep: char) -> Option<Seq<char>> {
    rebuilt(posix_parts(trim(v)), sep)
}

/// What cleaning the local path `v` may give: a non-empty path or nothing.
/// For a text that is portable once trimmed, the path rebuilt from its
/// components with the platform's separator, `/` or `\`. For a text without
/// a prefix, what pushing the components that the platform reads gives: the
/// text as it stands, or with each `\` read as `/`. For a text that starts
/// with a drive and has no prefix after it, the same, the second reading
/// taking the drive as a prefix. The reading of the text as it stands is
/// counted where its components can be pushed as they stand; what a text
/// with another prefix gives is not stated.
pub open spec fn clean_path_allows(v: Seq<char>, out: Option<Seq<char>>) -> bool {
    let t = trim(v);
    &&& (out matches Some(s) ==> s.len() > 0)
    &&& portable(t) ==> (out == clean_path_on(v, '/') || out == clean_path_on(v, '\\'))
    &&& (prefix_free(t) && buildable_parts(posix_parts(t))) ==> (built_from(posix_parts(t), out) || built_from(
        posix_parts(slashed(t)),
        out,
    ))
    &&& (drive_led(t) && prefix_free(drive_rest(t)) && buildable_parts(posix_parts(t))) ==> (built_from(
        posix_parts(t),
        out,
    ) || built_from(drive_parts(t), out))
}

/// With each `\` read as `/`, a text without a prefix is portable.
proof fn lemma_slashed_prefix_free(p: Seq<char>)
    requires
        prefix_free(p),
    ensures
        portable(slashed(p)),
{
    let q = slashed(p);
    assert(!q.contains('\\')) by {
        if q.contains('\\') {
            let k = choose|k: int| 0 <= k < q.len() && q[k] == '\\';
            assert(q[k] == (if p[k] == '\\' { '/' } else { p[k] }));
        }
    }
    assert(!q.contains(':')) by {
        if q.contains(':') {
            let k = choose|k: int| 0 <= k < q.len() && q[k] == ':';
            assert(p[k] == ':');
            assert(p.contains(':'));
        }
    }
    if q.len() >= 2 {
        assert(is_sep(q[0]) == is_sep(p[0]));
        assert(is_sep(q[1]) == is_sep(p[1]));
    }
}

proof fn lemma_split_from_lacks(s: Seq<char>, c: char, d: char, cur: Seq<char>, done: Seq<Seq<char>>)
    requires
        !s.contains(d),
        !cur.contains(d),
        forall|i: int| 0 <= i < done.len() ==> !(#[trigger] done[i]).contains(d),
    ensures
        forall|i: int| 0 <= i < split_from(s, c, cur, done).len() ==> !(#[trigger] split_from(s, c, cur, done)[i]).contains(d),
    decreases s.len(),
{
    if s.len() == 0 {
        assert(split_from(s, c, cur, done) == done.push(cur));
        assert forall|i: int| 0 <= i < done.push(cur).len() implies !(#[trigger] done.push(cur)[i]).contains(d) by {
            if i < done.len() {
                assert(done.push(cur)[i] == done[i]);
            }
        }
    } else {
        assert(s[0] != d) by {
            assert(s.contains(s[0]));
        }
        assert(!s.drop_first().contains(d)) by {
            if s.drop_first().contains(d) {
                let k = choose|k: int| 0 <= k < s.drop_first().len() && s.drop_first()[k] == d;
                assert(s[k + 1] == d);
            }
        }
        if s[0] == c {
            let dd = done.push(cur);
            assert forall|i: int| 0 <= i < dd.len() implies !(#[trigger] dd[i]).contains(d) by {
                if i < done.len() {
                    assert(dd[i] == done[i]);
                }
            }
            lemma_split_from_lacks(s.drop_first(), c, d, Seq::empty(), dd);
            assert(split_from(s, c, cur, done) == split_from(s.drop_first(), c, Seq::empty(), dd));
        } else {
            let nc = cur.push(s[0]);
            assert(!nc.contains(d)) by {
                if nc.contains(d) {
                    let k = choose|k: int| 0 <= k < nc.len() && nc[k] == d;
                    if k < cur.len() {
                        assert(cur[k] == d);
                    }
                }
            }
            lemma_split_from_lacks(s.drop_first(), c, d, nc, done);
            assert(split_from(s, c, cur, done) == split_from(s.drop_first(), c, nc, done));
        }
    }
}

/// On a portable text, the components are plain and rebuilding them with `/`
/// gives the normalized path.
pub proof fn lemma_posix_parts_plain(p: Seq<char>)
    requires
        portable(p),
    ensures
        plain_parts(posix_parts(p)),
        assemble(posix_parts(p), '/') == normalized_path(p),
{
    let names = path_names(p);
    let parts = posix_parts(p);
    let tail = Seq::new(names.len(), |i: int| name_part(names[i]));
    lemma_path_names_props(p);
    lemma_split_from_lacks(p, '/', '\\', Seq::empty(), Seq::empty());
    lemma_split_from_lacks(p, '/', ':', Seq::empty(), Seq::empty());
    lemma_name_parts_props(split_char(p, '/'));
    assert forall|i: int| 0 <= i < names.len() implies !(#[trigger] names[i]).contains('\\') && !names[i].contains(':') by {
        let x = split_char(p, '/');
        let k = choose|k: int| 0 <= k < x.len() && x[k] == names[i];
        assert(!x[k].contains('\\') && !x[k].contains(':'));
    }
    assert(part_texts(tail) =~= names) by {
        assert forall|i: int| 0 <= i < names.len() implies part_texts(tail)[i] == names[i] by {
            if is_dot_dot(names[i]) {
                assert(names[i] =~= seq!['.', '.']);
            }
        }
    }
    let h: int = if has_root(p) || has_leading_cur_dir(p) { 1 } else { 0 };
    assert forall|i: int| 0 <= i < parts.len() implies match #[trigger] parts[i] {
        PartModel::Prefix(_) => false,
        PartModel::RootDir => i == 0,
        PartModel::CurDir => i == 0,
        PartModel::ParentDir => true,
        PartModel::Normal(n) => is_name(n) && !is_dot_dot(n) && !n.contains('/') && !n.contains('\\')
            && !n.contains(':'),
    } by {
        if i >= h {
            assert(parts[i] == tail[i - h]);
            assert(tail[i - h] == name_part(names[i - h]));
        }
    }
    if has_root(p) {
        assert(parts.drop_first() =~= tail);
    } else if has_leading_cur_dir(p) {
        assert(parts.drop_first() =~= tail);
        if names.len() == 0 {
            assert(parts.len() == 1);
        } else {
            assert(parts.len() > 1);
        }
    } else {
        assert(parts =~= tail);
        if parts.len() > 0 {
            assert(parts[0] == name_part(names[0]));
        }
    }
}

/// `std::path::Path::components`, each component converted. Claimed: a
/// text without a prefix is read with the `/`-separated rules, either as it
/// stands (where `/` is the only separator) or with each `\` read as `/`
/// (where both are); a text that starts with a drive, with no prefix after
/// it, is read either as it stands or as the drive prefix followed by the
/// rest read with each `\` as `/` (where a drive is a prefix). Which reading
/// depends on the platform; what a text with another prefix gives is not
/// stated.
#[verifier::external_body]
fn path_components(p: &str) -> (r: Vec<PathPart>)
    ensures
        prefix_free(p@) ==> (part_models(r@) == posix_parts(p@) || part_models(r@) == posix_parts(slashed(p@))),
        (drive_led(p@) && prefix_free(drive_rest(p@))) ==> (part_models(r@) == posix_parts(p@) || part_models(r@)
            == drive_parts(p@)),
{
    std::path::Path::new(p).components().map(|c| match c {
        std::path::Component::Prefix(x) => PathPart::Prefix(x.as_os_str().to_string_lossy().to_string()),
        std::path::Component::RootDir => PathPart::RootDir,
        std::path::Component::CurDir => PathPart::CurDir,
        std::path::Component::ParentDir => PathPart::ParentDir,
        std::path::Component::Normal(n) => PathPart::Normal(n.to_string_lossy().to_string()),
    }).collect()
}

/// `PathBuf`'s `FromIterator`: the components pushed one after the other,
/// read back as text. Claimed: components that can be pushed as they stand
/// come back as `unix_built` gives them where `/` is the only separator, or
/// as `windows_built` gives them where `\` is the separator (std's
/// `MAIN_SEPARATOR`) and a drive is a prefix.
#[verifier::external_body]
fn path_from_parts(parts: &Vec<PathPart>) -> (r: String)
    ensures
        buildable_parts(part_models(parts@)) ==> (r@ == unix_built(part_models(parts@)) || r@ == windows_built(
            part_models(parts@),
        )),
{
    parts.iter().map(|part| match part {
        PathPart::Prefix(x) => x.as_str(),
        PathPart::RootDir => std::path::MAIN_SEPARATOR_STR,
        PathPart::CurDir => ".",
        PathPart::ParentDir => "..",
        PathPart::Normal(n) => n.as_str(),
    }).collect::<std::path::PathBuf>().to_string_lossy().to_string()
}

/// `std::path::Path::file_name`: the last component when it is a name.
/// Claimed, with the readings of `path_components`: for a text without a
/// prefix, that name as the `/`-separated rules read the text as it stands
/// or with each `\` read as `/`; for a text that starts with a drive, with no
/// prefix after it, the name read from the text as it stands or from what
/// follows the drive, each `\` read as `/`.
#[verifier::external_body]
fn path_file_name(p: &str) -> (r: Option<String>)
    ensures
        file_name_allows(p@, opt_text(r)),
{
    std::path::Path::new(p).file_name().map(|n| n.to_string_lossy().to_string())
}

/// The file names that the platform's readings of `p` give.
pub open spec fn file_name_allows(p: Seq<char>, out: Option<Seq<char>>) -> bool {
    &&& prefix_free(p) ==> (out == file_name(p) || out == file_name(slashed(p)))
    &&& (drive_led(p) && prefix_free(drive_rest(p))) ==> (out == file_name(p) || out == file_name(
        slashed(drive_rest(p)),
    ))
}

/// A file name whose extension is `db`.
pub open spec fn is_db_name(o: Option<Seq<char>>) -> bool {
    match o {
        Some(n) => name_extension(n) == Some(seq!['d', 'b']),
        None => false,
    }
}

/// Read as a prefix, the drive and the rest with each `\` as `/` make
/// components that can be pushed as they stand.
proof fn lemma_drive_parts_buildable(p: Seq<char>)
    requires
        drive_led(p),
        prefix_free(drive_rest(p)),
    ensures
        buildable_parts(drive_parts(p)),
{
    let rest = slashed(drive_rest(p));
    lemma_slashed_prefix_free(drive_rest(p));
    lemma_posix_parts_plain(rest);
    let ps = posix_parts(rest);
    let dp = drive_parts(p);
    assert forall|i: int| 0 <= i < dp.len() implies match #[trigger] dp[i] {
        PartModel::Prefix(d) => i == 0 && is_drive(d),
        PartModel::RootDir => i == 0 || (i == 1 && dp[0] is Prefix),
        PartModel::CurDir => i == 0 || (i == 1 && dp[0] is Prefix),
        PartModel::ParentDir => true,
        PartModel::Normal(n) => is_name(n) && !is_dot_dot(n) && !n.contains('/') && n[0] != '\\' && (i + 1
            < dp.len() ==> n.last() != '\\') && (i > 0 ==> !n.contains(':')),
    } by {
        if i > 0 {
            assert(dp[i] == ps[i - 1]);
            let q = ps[i - 1];
            assert(match q {
                PartModel::Prefix(_) => false,
                PartModel::RootDir => i - 1 == 0,
                PartModel::CurDir => i - 1 == 0,
                PartModel::ParentDir => true,
                PartModel::Normal(n) => is_name(n) && !is_dot_dot(n) && !n.contains('/') && !n.contains('\\')
                    && !n.contains(':'),
            });
            if let PartModel::Normal(n) = q {
                assert(n.contains(n[0]));
                assert(n.contains(n[n.len() - 1]));
            }
        }
    }
}

pub open spec fn opt_text(o: Option<String>) -> Option<Seq<char>> {
    match o {
        Some(s) => Some(s@),
        None => None,
    }
}

/// Trims `value` and normalizes it as a path with the platform's rules, as
/// collecting `Path::components` into a `PathBuf` does; `None` when nothing
/// is left.
pub fn clean_local_path(value: String) -> (r: Option<String>)
    ensures
        clean_path_allows(value@, opt_text(r)),
{
    let t = trim_string(value.as_str());
    let parts = path_components(t.as_str());
    let s = path_from_parts(&parts);
    let n = chars_of(s.as_str()).len();
    proof {
        let tv = trim(value@);
        if prefix_free(tv) {
            lemma_slashed_prefix_free(tv);
            lemma_posix_parts_plain(slashed(tv));
            lemma_plain_built(posix_parts(slashed(tv)));
        }
        if portable(tv) {
            lemma_slashed_portable(tv);
            lemma_posix_parts_plain(tv);
            lemma_plain_built(posix_parts(tv));
        }
        if drive_led(tv) && prefix_free(drive_rest(tv)) {
            lemma_drive_parts_buildable(tv);
        }
    }
    if n > 0 {
        Some(s)
    } else {
        None
    }
}

/// `Path::file_name` of `path`, with the platform's rules.
pub fn file_name_of(path: &str) -> (r: Option<String>)
    ensures
        portable(path@) ==> opt_text(r) == file_name(path@),
        file_name_allows(path@, opt_text(r)),
{
    proof {
        if portable(path@) {
            lemma_slashed_portable(path@);
        }
    }
    path_file_name(path)
}

/// Whether the path is one normal component, with the platform's rules,
/// and holds no separator of any platform. A text with a separator is never
/// one; a portable text is one as the `/`-separated rules say; a text with
/// `:` may be refused where a leading `X:` is a drive prefix.
pub fn is_bare_file_name_str(p: &str) -> (r: bool)
    ensures
        p@.contains('/') || p@.contains('\\') ==> !r,
        portable(p@) ==> r == is_bare_file_name(p@),
        r ==> is_bare_file_name(p@),
{
    let v = chars_of(p);
    let n = v.len();
    let mut i: usize = 0;
    while i < n
        invariant
            n == v.len(),
            v@ == p@,
            i <= n,
            forall|j: int| 0 <= j < i ==> v@[j] != '/' && v@[j] != '\\',
        decreases n - i,
    {
        if v[i] == '/' || v[i] == '\\' {
            let ghost c = v@[i as int];
            assert(v@.contains(c));
            assert(c == '/' ==> v@.contains('/'));
            assert(c == '\\' ==> v@.contains('\\'));
            return false;
        }
        i += 1;
    }
    assert(!v@.contains('/') && !v@.contains('\\'));
    let parts = path_components(p);
    let one_name = parts.len() == 1 && match &parts[0] {
        PathPart::Normal(_) => true,
        _ => false,
    };
    proof {
        lemma_single_name_parts(p@);
        lemma_slashed_portable(p@);
        if p@.len() >= 2 {
            assert(p@.contains(p@[0]));
        }
        if !portable(p@) {
            assert(p@.contains(':'));
            assert(p@ != Seq::<char>::empty());
            if p@ =~= seq!['.'] || p@ =~= seq!['.', '.'] {
                let k = choose|k: int| 0 <= k < p@.len() && p@[k] == ':';
                assert(p@[k] == '.');
            }
        }
    }
    one_name
}

/// A text without `/`: the `/`-separated rules read it as one name, or as
/// nothing when it is empty, `.` or `..`.
proof fn lemma_single_name_parts(p: Seq<char>)
    requires
        !p.contains('/'),
    ensures
        is_bare_file_name(p) <==> !p.contains('\\') && posix_parts(p).len() == 1 && posix_parts(p)[0] is Normal,
{
    let e = Seq::<char>::empty();
    let no_parts = Seq::<Seq<char>>::empty();
    lemma_split_from_plain(p, '/', e, no_parts);
    assert(e + p =~= p);
    assert(split_char(p, '/') == seq![p]);
    assert(seq![p].drop_last() =~= no_parts);
    assert(seq![p].last() == p);
    assert(name_parts(no_parts) == no_parts);
    assert(!has_root(p)) by {
        if p.len() > 0 {
            assert(p.contains(p[0]));
        }
    }
    if is_name(p) {
        assert(path_names(p) == seq![p]);
    } else {
        assert(path_names(p) =~= no_parts);
    }
    if has_leading_cur_dir(p) {
        assert(p.len() == 1) by {
            if p.len() > 1 {
                assert(p.contains(p[1]));
            }
        }
        assert(p =~= seq!['.']);
    }
    if p.len() == 1 && p[0] == '.' {
        assert(p =~= seq!['.']);
    }
    if p.len() == 2 && p[0] == '.' && p[1] == '.' {
        assert(p =~= seq!['.', '.']);
    }
}

/// Whether `Path::extension` of a file name is `db`.
pub fn name_has_db_extension(name: &str) -> (r: bool)
    ensures
        r == (name_extension(name@) == Some(seq!['d', 'b'])),
{
    let v = chars_of(name);
    let n = v.len();
    if n == 2 && v[0] == '.' && v[1] == '.' {
        assert(v@ =~= seq!['.', '.']);
        return false;
    }
    // find the last dot
    let mut k: usize = n;
    while k > 0 && v[k - 1] != '.'
        invariant
            k <= n,
            n == v.len(),
            forall|j: int| k <= j < n ==> v@[j] != '.',
        decreases k,
    {
        k -= 1;
    }
    // the dot, if any, stands at index k - 1
    if k <= 1 {
        assert(!(exists|i: int| 0 < i < v@.len() && v@[i] == '.')) by {
            if exists|i: int| 0 < i < v@.len() && v@[i] == '.' {
                let i = choose|i: int| 0 < i < v@.len() && v@[i] == '.';
                assert(i >= k);
            }
        }
        return false;
    }
    let d = k - 1;
    assert(0 < d < v@.len() && v@[d as int] == '.' && forall|j: int| d < j < v@.len() ==> v@[j] != '.');
    let ghost chosen = choose|i: int|
        0 < i < v@.len() && v@[i] == '.' && forall|j: int| i < j < v@.len() ==> v@[j] != '.';
    assert(chosen == d) by {
        if chosen < d {
            assert(v@[d as int] == '.');
        }
        if chosen > d {
            assert(v@[chosen] == '.');
        }
    }
    let ext_db = n - k == 2 && v[k] == 'd' && v[k + 1] == 'b';
    proof {
        let ext = v@.subrange(k as int, n as int);
        if ext_db {
            assert(ext =~= seq!['d', 'b']);
        }
        if ext == seq!['d', 'b'] {
            assert(ext.len() == 2 && ext[0] == 'd' && ext[1] == 'b');
        }
    }
    ext_db
}


/// Whether `Path::extension` of `path` is `db`, with the platform's rules.
pub fn has_db_extension(path: &str) -> (r: bool)
    ensures
        portable(path@) ==> r == (path_extension(path@) == Some(seq!['d', 'b'])),
        exists|o: Option<Seq<char>>| #[trigger] file_name_allows(path@, o) && r == is_db_name(o),
{
    let name = file_name_of(path);
    let r = match &name {
        Some(n) => name_has_db_extension(n.as_str()),
        None => false,
    };
    assert(file_name_allows(path@, opt_text(name)) && r == is_db_name(opt_text(name)));
    r
}

} // verus!
