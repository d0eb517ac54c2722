//! Splitting and joining character sequences.

use vstd::prelude::*;

verus! {

/// The views of a sequence of character vectors.
pub open spec fn char_views(v: Seq<Vec<char>>) -> Seq<Seq<char>> {
    Seq::new(v.len(), |i: int| v[i]@)
}

/// Splitting of `s` at every `c`, continuing a part `cur` after the finished parts `done`.
pub open spec fn split_from(s: Seq<char>, c: char, cur: Seq<char>, done: Seq<Seq<char>>) -> Seq<
    Seq<char>,
>
    decreases s.len(),
{
    if s.len() == 0 {
        done.push(cur)
    } else if s[0] == c {
        split_from(s.drop_first(), c, Seq::empty(), done.push(cur))
    } else {
        split_from(s.drop_first(), c, cur.push(s[0]), done)
    }
}

/// The parts of `s` between occurrences of `c`, as `str::split(c)` gives them
/// (always at least one part, empty parts included).
pub open spec fn split_char(s: Seq<char>, c: char) -> Seq<Seq<char>> {
    split_from(s, c, Seq::empty(), Seq::empty())
}

proof fn lemma_split_from_len(s: Seq<char>, c: char, cur: Seq<char>, done: Seq<Seq<char>>)
    ensures
        split_from(s, c, cur, done).len() > done.len(),
    decreases s.len(),
{
    if s.len() > 0 {
        if s[0] == c {
            lemma_split_from_len(s.drop_first(), c, Seq::empty(), done.push(cur));
        } else {
            lemma_split_from_len(s.drop_first(), c, cur.push(s[0]), done);
        }
    }
}

/// Splitting always gives at least one part.
pub proof fn lemma_split_not_empty(s: Seq<char>, c: char)
    ensures
        split_char(s, c).len() > 0,
{
    lemma_split_from_len(s, c, Seq::empty(), Seq::empty());
}

/// A text without the separator ends the part under way, which is then finished.
pub proof fn lemma_split_from_plain(b: Seq<char>, c: char, cur: Seq<char>, done: Seq<Seq<char>>)
    requires
        !b.contains(c),
    ensures
        split_from(b, c, cur, done) == done.push(cur + b),
    decreases b.len(),
{
    if b.len() == 0 {
        assert(cur + b =~= cur);
    } else {
        assert(b[0] != c) by {
            assert(b.contains(b[0]));
        }
        assert forall|i: int| 0 <= i < b.drop_first().len() implies b.drop_first()[i] != c by {
            assert(b.drop_first()[i] == b[i + 1]);
            assert(b.contains(b[i + 1]));
        }
        lemma_split_from_plain(b.drop_first(), c, cur.push(b[0]), done);
        assert(cur.push(b[0]) + b.drop_first() =~= cur + b);
    }
}

proof fn lemma_split_from_last(x: Seq<char>, c: char, b: Seq<char>, cur: Seq<char>, done: Seq<Seq<char>>)
    requires
        !b.contains(c),
    ensures
        split_from(x + seq![c] + b, c, cur, done).last() == b,
    decreases x.len(),
{
    let s = x + seq![c] + b;
    if x.len() == 0 {
        assert(s[0] == c);
        assert(s.drop_first() =~= b);
        lemma_split_from_plain(b, c, Seq::empty(), done.push(cur));
        assert(Seq::<char>::empty() + b =~= b);
    } else {
        assert(s[0] == x[0]);
        assert(s.drop_first() =~= x.drop_first() + seq![c] + b);
        if x[0] == c {
            lemma_split_from_last(x.drop_first(), c, b, Seq::empty(), done.push(cur));
        } else {
            lemma_split_from_last(x.drop_first(), c, b, cur.push(x[0]), done);
        }
    }
}

/// The last part of a split is what follows the last separator.
pub proof fn lemma_split_last(x: Seq<char>, c: char, b: Seq<char>)
    requires
        !b.contains(c),
    ensures
        split_char(x + seq![c] + b, c).last() == b,
{
    lemma_split_from_last(x, c, b, Seq::empty(), Seq::empty());
}

/// The parts joined with `sep` between them, as `[..].join(sep)` gives it.
pub open spec fn join_with(parts: Seq<Seq<char>>, sep: char) -> Seq<char>
    decreases parts.len(),
{
    if parts.len() == 0 {
        Seq::empty()
    } else if parts.len() == 1 {
        parts[0]
    } else {
        join_with(parts.drop_last(), sep).push(sep) + parts.last()
    }
}

/// Splitting across a separator: what follows it is split on from the parts
/// of what precedes it.
pub proof fn lemma_split_from_sep(a: Seq<char>, c: char, b: Seq<char>, cur: Seq<char>, done: Seq<Seq<char>>)
    ensures
        split_from(a + seq![c] + b, c, cur, done) == split_from(b, c, Seq::empty(), split_from(a, c, cur, done)),
    decreases a.len(),
{
    let s = a + seq![c] + b;
    if a.len() == 0 {
        assert(s[0] == c);
        assert(s.drop_first() =~= b);
    } else {
        assert(s[0] == a[0]);
        assert(s.drop_first() =~= a.drop_first() + seq![c] + b);
        if a[0] == c {
            lemma_split_from_sep(a.drop_first(), c, b, Seq::empty(), done.push(cur));
        } else {
            lemma_split_from_sep(a.drop_first(), c, b, cur.push(a[0]), done);
        }
    }
}

/// Splitting parts joined by a separator none of them holds gives the parts back.
pub proof fn lemma_split_join(parts: Seq<Seq<char>>, c: char, done: Seq<Seq<char>>)
    requires
        parts.len() > 0,
        forall|i: int| 0 <= i < parts.len() ==> !(#[trigger] parts[i]).contains(c),
    ensures
        split_from(join_with(parts, c), c, Seq::empty(), done) == done + parts,
    decreases parts.len(),
{
    if parts.len() == 1 {
        lemma_split_from_plain(parts[0], c, Seq::empty(), done);
        assert(Seq::<char>::empty() + parts[0] =~= parts[0]);
        assert(done.push(parts[0]) =~= done + parts);
    } else {
        let init = parts.drop_last();
        assert forall|i: int| 0 <= i < init.len() implies !(#[trigger] init[i]).contains(c) by {
            assert(init[i] == parts[i]);
        }
        lemma_split_join(init, c, done);
        let j = join_with(init, c);
        assert(join_with(parts, c) =~= j + seq![c] + parts.last());
        lemma_split_from_sep(j, c, parts.last(), Seq::empty(), done);
        assert(!parts.last().contains(c)) by {
            assert(parts.last() == parts[parts.len() - 1]);
        }
        lemma_split_from_plain(parts.last(), c, Seq::empty(), done + init);
        assert(Seq::<char>::empty() + parts.last() =~= parts.last());
        assert((done + init).push(parts.last()) =~= done + parts);
    }
}

/// Joined parts begin with the first part.
pub proof fn lemma_join_prefix(parts: Seq<Seq<char>>, c: char)
    requires
        parts.len() > 0,
    ensures
        join_with(parts, c).len() >= parts[0].len(),
        join_with(parts, c).subrange(0, parts[0].len() as int) == parts[0],
    decreases parts.len(),
{
    if parts.len() == 1 {
        assert(parts[0].subrange(0, parts[0].len() as int) =~= parts[0]);
    } else {
        lemma_join_prefix(parts.drop_last(), c);
        let j = join_with(parts.drop_last(), c);
        assert(parts.drop_last()[0] == parts[0]);
        assert(join_with(parts, c) =~= j.push(c) + parts.last());
        assert(join_with(parts, c).subrange(0, parts[0].len() as int) =~= j.subrange(0, parts[0].len() as int));
    }
}

/// What comes before the first `c` in `s` (all of `s` when it holds none).
pub open spec fn before_sep(s: Seq<char>, c: char) -> Seq<char>
    decreases s.len(),
{
    if s.len() == 0 || s[0] == c {
        Seq::empty()
    } else {
        seq![s[0]] + before_sep(s.drop_first(), c)
    }
}

/// Splitting keeps the finished parts and makes the part under way, `cur`,
/// the next one, extended up to the first separator.
pub proof fn lemma_split_from_first(s: Seq<char>, c: char, cur: Seq<char>, done: Seq<Seq<char>>)
    ensures
        split_from(s, c, cur, done).len() > done.len(),
        split_from(s, c, cur, done).subrange(0, done.len() as int) == done,
        split_from(s, c, cur, done)[done.len() as int] == cur + before_sep(s, c),
    decreases s.len(),
{
    if s.len() == 0 {
        assert(done.push(cur).subrange(0, done.len() as int) =~= done);
        assert(cur + before_sep(s, c) =~= cur);
    } else if s[0] == c {
        lemma_split_from_first(s.drop_first(), c, Seq::empty(), done.push(cur));
        let r = split_from(s, c, cur, done);
        assert(r.subrange(0, done.len() + 1 as int) == done.push(cur));
        assert(r.subrange(0, done.len() as int) =~= done.push(cur).subrange(0, done.len() as int));
        assert(r[done.len() as int] == done.push(cur)[done.len() as int]);
        assert(cur + before_sep(s, c) =~= cur);
    } else {
        lemma_split_from_first(s.drop_first(), c, cur.push(s[0]), done);
        assert(cur.push(s[0]) + before_sep(s.drop_first(), c) =~= cur + before_sep(s, c));
    }
}

/// No part of a split holds the separator.
pub proof fn lemma_split_from_parts(s: Seq<char>, c: char, cur: Seq<char>, done: Seq<Seq<char>>)
    requires
        !cur.contains(c),
        forall|i: int| 0 <= i < done.len() ==> !(#[trigger] done[i]).contains(c),
    ensures
        forall|i: int| 0 <= i < split_from(s, c, cur, done).len() ==> !(#[trigger] split_from(s, c, cur, done)[i]).contains(c),
    decreases s.len(),
{
    if s.len() == 0 {
        assert(split_from(s, c, cur, done) == done.push(cur));
        assert forall|i: int| 0 <= i < done.push(cur).len() implies !(#[trigger] done.push(cur)[i]).contains(c) by {
            if i < done.len() {
                assert(done.push(cur)[i] == done[i]);
            }
        }
    } else if s[0] == c {
        let d = done.push(cur);
        assert forall|i: int| 0 <= i < d.len() implies !(#[trigger] d[i]).contains(c) by {
            if i < done.len() {
                assert(d[i] == done[i]);
            }
        }
        lemma_split_from_parts(s.drop_first(), c, Seq::empty(), d);
        assert(split_from(s, c, cur, done) == split_from(s.drop_first(), c, Seq::empty(), d));
    } else {
        let nc = cur.push(s[0]);
        assert(!nc.contains(c)) by {
            if nc.contains(c) {
                let k = choose|k: int| 0 <= k < nc.len() && nc[k] == c;
                if k < cur.len() {
                    assert(cur[k] == c);
                    assert(cur.contains(c));
                }
            }
        }
        lemma_split_from_parts(s.drop_first(), c, nc, done);
        assert(split_from(s, c, cur, done) == split_from(s.drop_first(), c, nc, done));
    }
}

/// The non-empty parts, in order.
pub open spec fn non_empty_parts(parts: Seq<Seq<char>>) -> Seq<Seq<char>>
    decreases parts.len(),
{
    if parts.len() == 0 {
        Seq::empty()
    } else if parts.last().len() == 0 {
        non_empty_parts(parts.drop_last())
    } else {
        non_empty_parts(parts.drop_last()).push(parts.last())
    }
}

/// Appends the characters of `src` to `out`.
pub fn append_chars(out: &mut Vec<char>, src: &Vec<char>)
    ensures
        final(out)@ == old(out)@ + src@,
{
    let ghost start = out@;
    let mut i: usize = 0;
    while i < src.len()
        invariant
            i <= src.len(),
            out@ == start + src@.subrange(0, i as int),
        decreases src.len() - i,
    {
        out.push(src[i]);
        i += 1;
        assert(out@ =~= start + src@.subrange(0, i as int));
    }
    assert(src@.subrange(0, src@.len() as int) =~= src@);
}

/// `str::split(c)`, on characters.
pub fn split_chars(s: &Vec<char>, c: char) -> (parts: Vec<Vec<char>>)
    ensures
        char_views(parts@) == split_char(s@, c),
{
    let n = s.len();
    let mut done: Vec<Vec<char>> = Vec::new();
    let mut cur: Vec<char> = Vec::new();
    let mut i: usize = 0;
    assert(s@.subrange(0, n as int) =~= s@);
    assert(char_views(done@) =~= Seq::<Seq<char>>::empty());
    while i < n
        invariant
            n == s.len(),
            i <= n,
            split_char(s@, c) == split_from(s@.subrange(i as int, n as int), c, cur@, char_views(done@)),
        decreases n - i,
    {
        let ghost sub = s@.subrange(i as int, n as int);
        assert(sub.drop_first() =~= s@.subrange(i + 1, n as int));
        if s[i] == c {
            let ghost before = done@;
            let finished = cur;
            cur = Vec::new();
            done.push(finished);
            assert(char_views(done@) =~= char_views(before).push(finished@));
            assert(cur@ =~= Seq::<char>::empty());
        } else {
            cur.push(s[i]);
        }
        i += 1;
    }
    let ghost before = done@;
    let last = cur;
    done.push(last);
    assert(char_views(done@) =~= char_views(before).push(last@));
    done
}

/// Joins the parts with `sep` between them.
pub fn join_chars(parts: &Vec<Vec<char>>, sep: char) -> (out: Vec<char>)
    ensures
        out@ == join_with(char_views(parts@), sep),
{
    let mut out: Vec<char> = Vec::new();
    let mut i: usize = 0;
    while i < parts.len()
        invariant
            i <= parts.len(),
            out@ == join_with(char_views(parts@).subrange(0, i as int), sep),
        decreases parts.len() - i,
    {
        let ghost views = char_views(parts@);
        assert(views.subrange(0, i + 1).drop_last() =~= views.subrange(0, i as int));
        if i > 0 {
            out.push(sep);
        }
        append_chars(&mut out, &parts[i]);
        i += 1;
    }
    assert(char_views(parts@).subrange(0, parts@.len() as int) =~= char_views(parts@));
    out
}

/// A copy of `v`.
pub fn copy_chars(v: &Vec<char>) -> (out: Vec<char>)
    ensures
        out@ == v@,
{
    let mut out: Vec<char> = Vec::new();
    append_chars(&mut out, v);
    assert(out@ =~= v@);
    out
}

/// The non-empty parts, in order.
pub fn keep_non_empty(parts: &Vec<Vec<char>>) -> (kept: Vec<Vec<char>>)
    ensures
        char_views(kept@) == non_empty_parts(char_views(parts@)),
{
    let mut kept: Vec<Vec<char>> = Vec::new();
    let mut i: usize = 0;
    while i < parts.len()
        invariant
            i <= parts.len(),
            char_views(kept@) == non_empty_parts(char_views(parts@).subrange(0, i as int)),
        decreases parts.len() - i,
    {
        let ghost views = char_views(parts@);
        assert(views.subrange(0, i + 1).drop_last() =~= views.subrange(0, i as int));
        if parts[i].len() > 0 {
            let ghost before = kept@;
            let p = copy_chars(&parts[i]);
            kept.push(p);
            assert(char_views(kept@) =~= char_views(before).push(p@));
        }
        i += 1;
    }
    assert(char_views(parts@).subrange(0, parts@.len() as int) =~= char_views(parts@));
    kept
}

} // verus!
