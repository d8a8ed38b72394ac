//! Character sequences: conversion between strings and vectors of
//! characters, and the splitting and joining of paths into segments.

use vstd::prelude::*;

verus! {

/// Whether `c` separates path segments: the slash, and also the backslash
/// where `both` is set.
pub open spec fn is_sep(c: char, both: bool) -> bool {
    c == '/' || (both && c == '\\')
}

/// Whether no character of `s` is a separator.
pub open spec fn sep_free(s: Seq<char>, both: bool) -> bool {
    forall|i: int| 0 <= i < s.len() ==> !is_sep(#[trigger] s[i], both)
}

/// Whether every piece of `parts` is free of separators.
pub open spec fn all_sep_free(parts: Seq<Seq<char>>, both: bool) -> bool {
    forall|i: int| 0 <= i < parts.len() ==> sep_free(#[trigger] parts[i], both)
}

/// The pieces of `s` between its separators. There is always at least one
/// piece; two adjacent separators enclose an empty piece.
pub open spec fn split(s: Seq<char>, both: bool) -> Seq<Seq<char>>
    decreases s.len(),
{
    if s.len() == 0 {
        seq![Seq::<char>::empty()]
    } else {
        let init = split(s.drop_last(), both);
        if is_sep(s.last(), both) {
            init.push(Seq::<char>::empty())
        } else {
            init.drop_last().push(init.last().push(s.last()))
        }
    }
}

/// The pieces of `parts` with one slash between each two neighbours.
pub open spec fn join(parts: Seq<Seq<char>>) -> Seq<char>
    decreases parts.len(),
{
    if parts.len() == 0 {
        Seq::<char>::empty()
    } else if parts.len() == 1 {
        parts[0]
    } else {
        join(parts.drop_last()) + seq!['/'] + parts.last()
    }
}

/// Whether `p` is an initial part of `s`.
pub open spec fn is_prefix(p: Seq<char>, s: Seq<char>) -> bool {
    p.len() <= s.len() && s.subrange(0, p.len() as int) == p
}

/// Whether `t` is a final part of `s`.
pub open spec fn is_suffix(t: Seq<char>, s: Seq<char>) -> bool {
    t.len() <= s.len() && s.subrange(s.len() - t.len(), s.len() as int) == t
}

/// The views of a sequence of character vectors.
pub open spec fn views(v: Seq<Vec<char>>) -> Seq<Seq<char>> {
    Seq::new(v.len(), |i: int| v[i]@)
}

/// Splitting gives at least one piece.
pub proof fn lemma_split_len(s: Seq<char>, both: bool)
    ensures
        split(s, both).len() >= 1,
    decreases s.len(),
{
    if s.len() > 0 {
        lemma_split_len(s.drop_last(), both);
    }
}

/// The pieces that splitting gives hold no separator.
pub proof fn lemma_split_sep_free(s: Seq<char>, both: bool)
    ensures
        all_sep_free(split(s, both), both),
    decreases s.len(),
{
    if s.len() > 0 {
        lemma_split_len(s.drop_last(), both);
        lemma_split_sep_free(s.drop_last(), both);
        let init = split(s.drop_last(), both);
        let r = split(s, both);
        assert forall|i: int| 0 <= i < r.len() implies sep_free(#[trigger] r[i], both) by {
            if i < r.len() - 1 {
                assert(r[i] == init[i]);
            } else if !is_sep(s.last(), both) {
                assert(sep_free(init.last(), both));
            }
        }
    }
}

/// Joining what was split at slashes gives the text back.
pub proof fn lemma_join_split(s: Seq<char>)
    ensures
        join(split(s, false)) == s,
    decreases s.len(),
{
    if s.len() == 0 {
        assert(join(seq![Seq::<char>::empty()]) =~= s);
    } else {
        let t = s.drop_last();
        let init = split(t, false);
        lemma_split_len(t, false);
        lemma_join_split(t);
        if is_sep(s.last(), false) {
            let r = init.push(Seq::<char>::empty());
            assert(r.drop_last() == init);
            assert(join(r) =~= join(init) + seq!['/'] + Seq::<char>::empty());
            assert(s =~= t + seq!['/']);
        } else {
            let r = init.drop_last().push(init.last().push(s.last()));
            if init.len() == 1 {
                assert(join(init) == init[0]);
                assert(join(r) == r[0]);
                assert(s =~= t.push(s.last()));
            } else {
                assert(r.drop_last() == init.drop_last());
                assert(join(r) == join(init.drop_last()) + seq!['/'] + init.last().push(s.last()));
                assert(join(init) == join(init.drop_last()) + seq!['/'] + init.last());
                assert(join(r) =~= join(init).push(s.last()));
                assert(s =~= t.push(s.last()));
            }
        }
    }
}

/// Splitting a text that ends in a piece without separators: the piece is
/// added to the last piece of what stands before it.
pub proof fn lemma_split_append_piece(s: Seq<char>, p: Seq<char>, both: bool)
    requires
        sep_free(p, both),
    ensures
        split(s + p, both) == split(s, both).drop_last().push(split(s, both).last() + p),
    decreases p.len(),
{
    lemma_split_len(s, both);
    let init = split(s, both);
    if p.len() == 0 {
        assert(s + p =~= s);
        assert(init.last() + p =~= init.last());
        assert(init.drop_last().push(init.last()) =~= init);
    } else {
        let q = p.drop_last();
        assert(sep_free(q, both)) by {
            assert forall|i: int| 0 <= i < q.len() implies !is_sep(#[trigger] q[i], both) by {
                assert(q[i] == p[i]);
            }
        }
        lemma_split_append_piece(s, q, both);
        assert((s + p).drop_last() =~= s + q);
        assert((s + p).last() == p.last());
        assert(!is_sep(p[p.len() - 1], both));
        let mid = split(s + q, both);
        assert(mid.drop_last() =~= init.drop_last());
        assert(mid.last().push(p.last()) =~= init.last() + p);
    }
}

/// Splitting the join of pieces without separators gives the pieces back.
pub proof fn lemma_split_join(parts: Seq<Seq<char>>, both: bool)
    requires
        parts.len() >= 1,
        all_sep_free(parts, both),
    ensures
        split(join(parts), both) == parts,
    decreases parts.len(),
{
    let empty = Seq::<char>::empty();
    if parts.len() == 1 {
        assert(sep_free(parts[0], both));
        lemma_split_append_piece(empty, parts[0], both);
        assert(empty + parts[0] =~= parts[0]);
        assert(split(empty, both) == seq![empty]);
        assert(seq![empty].drop_last().push(empty + parts[0]) =~= parts);
    } else {
        let init = parts.drop_last();
        assert(all_sep_free(init, both)) by {
            assert forall|i: int| 0 <= i < init.len() implies sep_free(#[trigger] init[i], both) by {
                assert(init[i] == parts[i]);
            }
        }
        lemma_split_join(init, both);
        let head = join(init) + seq!['/'];
        assert(head.drop_last() =~= join(init));
        assert(is_sep(head.last(), both));
        assert(split(head, both) == init.push(empty));
        assert(sep_free(parts.last(), both));
        lemma_split_append_piece(head, parts.last(), both);
        assert(init.push(empty).drop_last().push(empty + parts.last()) =~= parts);
    }
}

/// The join of pieces of which the first is not empty starts as that piece
/// does.
pub proof fn lemma_join_first(parts: Seq<Seq<char>>)
    requires
        parts.len() >= 1,
        parts[0].len() > 0,
    ensures
        join(parts).len() > 0,
        join(parts)[0] == parts[0][0],
    decreases parts.len(),
{
    if parts.len() > 1 {
        let init = parts.drop_last();
        assert(init[0] == parts[0]);
        lemma_join_first(init);
        assert(join(parts)[0] == join(init)[0]);
    }
}

/// Joining two runs of pieces, both not empty, puts one slash between
/// their joins.
pub proof fn lemma_join_concat(a: Seq<Seq<char>>, b: Seq<Seq<char>>)
    requires
        a.len() >= 1,
        b.len() >= 1,
    ensures
        join(a + b) == join(a) + seq!['/'] + join(b),
    decreases b.len(),
{
    if b.len() == 1 {
        assert((a + b).drop_last() =~= a);
        assert((a + b).last() == b[0]);
    } else {
        lemma_join_concat(a, b.drop_last());
        assert((a + b).drop_last() =~= a + b.drop_last());
        assert((a + b).last() == b.last());
        assert(join(a + b) =~= join(a) + seq!['/'] + join(b));
    }
}

/// Appends one character to a string, as `String::push` does.
#[verifier::external_body]
fn push_char(s: &mut String, c: char)
    ensures
        final(s)@ == old(s)@.push(c),
{
    s.push(c)
}

/// The characters of a string, in order.
pub fn chars_of(s: &str) -> (v: Vec<char>)
    ensures
        v@ == s@,
{
    let mut v: Vec<char> = Vec::new();
    for c in it: s.chars()
        invariant
            v@ == it.seq().take(it.index() as int),
            it.seq() == s@,
    {
        v.push(c);
    }
    v
}

/// The string made of the characters `v[from..to]`.
pub fn string_of_range(v: &Vec<char>, from: usize, to: usize) -> (s: String)
    requires
        from <= to <= v.len(),
    ensures
        s@ == v@.subrange(from as int, to as int),
{
    let mut s = String::new();
    let mut i: usize = from;
    while i < to
        invariant
            from <= i <= to <= v.len(),
            s@ == v@.subrange(from as int, i as int),
        decreases to - i,
    {
        push_char(&mut s, v[i]);
        assert(v@.subrange(from as int, i as int).push(v@[i as int]) =~= v@.subrange(
            from as int,
            i + 1,
        ));
        i = i + 1;
    }
    s
}

/// The string made of the given characters.
pub fn string_of(v: &Vec<char>) -> (s: String)
    ensures
        s@ == v@,
{
    let s = string_of_range(v, 0, v.len());
    assert(v@.subrange(0, v.len() as int) =~= v@);
    s
}

/// Appends the characters of `src` to `dst`.
pub fn append_chars(dst: &mut Vec<char>, src: &Vec<char>)
    ensures
        final(dst)@ == old(dst)@ + src@,
{
    let mut i: usize = 0;
    while i < src.len()
        invariant
            i <= src.len(),
            dst@ == old(dst)@ + src@.take(i as int),
        decreases src.len() - i,
    {
        dst.push(src[i]);
        assert(src@.take(i as int).push(src@[i as int]) =~= src@.take(i + 1));
        i = i + 1;
    }
    assert(src@.take(src.len() as int) =~= src@);
}

/// A copy of the characters `v[from..to]`.
pub fn copy_range(v: &Vec<char>, from: usize, to: usize) -> (r: Vec<char>)
    requires
        from <= to <= v.len(),
    ensures
        r@ == v@.subrange(from as int, to as int),
{
    let mut r: Vec<char> = Vec::new();
    let mut i: usize = from;
    while i < to
        invariant
            from <= i <= to <= v.len(),
            r@ == v@.subrange(from as int, i as int),
        decreases to - i,
    {
        r.push(v[i]);
        assert(v@.subrange(from as int, i as int).push(v@[i as int]) =~= v@.subrange(
            from as int,
            i + 1,
        ));
        i = i + 1;
    }
    r
}

/// Whether two character vectors hold the same characters.
pub fn same_chars(a: &Vec<char>, b: &Vec<char>) -> (r: bool)
    ensures
        r == (a@ == b@),
{
    if a.len() != b.len() {
        return false;
    }
    let mut i: usize = 0;
    while i < a.len()
        invariant
            i <= a.len(),
            a.len() == b.len(),
            a@.take(i as int) == b@.take(i as int),
        decreases a.len() - i,
    {
        if a[i] != b[i] {
            return false;
        }
        assert(a@.take(i + 1) =~= a@.take(i as int).push(a@[i as int]));
        assert(b@.take(i + 1) =~= b@.take(i as int).push(b@[i as int]));
        i = i + 1;
    }
    assert(a@.take(a.len() as int) =~= a@);
    assert(b@.take(b.len() as int) =~= b@);
    true
}

/// Whether the characters of `p` stand in `s` from position `at` on.
pub fn matches_at(s: &Vec<char>, at: usize, p: &Vec<char>) -> (r: bool)
    ensures
        r == (at + p.len() <= s.len() && s@.subrange(at as int, at + p.len()) == p@),
{
    if at > s.len() || p.len() > s.len() - at {
        return false;
    }
    let mut i: usize = 0;
    while i < p.len()
        invariant
            i <= p.len(),
            at + p.len() <= s.len(),
            s@.subrange(at as int, at + i) == p@.take(i as int),
        decreases p.len() - i,
    {
        if s[at + i] != p[i] {
            assert(s@.subrange(at as int, at + p.len())[i as int] == s@[at + i]);
            return false;
        }
        assert(s@.subrange(at as int, at + i + 1) =~= s@.subrange(at as int, at + i).push(
            s@[at + i],
        ));
        assert(p@.take(i + 1) =~= p@.take(i as int).push(p@[i as int]));
        i = i + 1;
    }
    assert(p@.take(p.len() as int) =~= p@);
    true
}

/// The pieces of `s` between its separators.
pub fn split_chars(s: &Vec<char>, both: bool) -> (parts: Vec<Vec<char>>)
    ensures
        views(parts@) == split(s@, both),
{
    let mut parts: Vec<Vec<char>> = Vec::new();
    let mut cur: Vec<char> = Vec::new();
    let mut i: usize = 0;
    assert(views(parts@).push(cur@) =~= split(s@.take(0), both));
    while i < s.len()
        invariant
            i <= s.len(),
            views(parts@).push(cur@) == split(s@.take(i as int), both),
        decreases s.len() - i,
    {
        let c = s[i];
        let ghost before = views(parts@).push(cur@);
        assert(s@.take(i + 1).drop_last() =~= s@.take(i as int));
        assert(s@.take(i + 1).last() == c);
        if c == '/' || (both && c == '\\') {
            parts.push(cur);
            cur = Vec::new();
            assert(views(parts@) =~= before);
        } else {
            cur.push(c);
            assert(before.drop_last() =~= views(parts@));
        }
        i = i + 1;
    }
    assert(s@.take(s.len() as int) =~= s@);
    let ghost before = views(parts@).push(cur@);
    parts.push(cur);
    assert(views(parts@) =~= before);
    parts
}

/// The pieces `parts[from..to]` with one slash between each two neighbours.
pub fn join_range(parts: &Vec<Vec<char>>, from: usize, to: usize) -> (s: Vec<char>)
    requires
        from <= to <= parts.len(),
    ensures
        s@ == join(views(parts@).subrange(from as int, to as int)),
{
    let mut s: Vec<char> = Vec::new();
    let mut i: usize = from;
    let ghost all = views(parts@);
    assert(all.subrange(from as int, from as int) =~= Seq::<Seq<char>>::empty());
    while i < to
        invariant
            from <= i <= to <= parts.len(),
            all == views(parts@),
            s@ == join(all.subrange(from as int, i as int)),
        decreases to - i,
    {
        let ghost next = all.subrange(from as int, i + 1);
        assert(next.drop_last() =~= all.subrange(from as int, i as int));
        assert(next.last() == parts@[i as int]@);
        if i > from {
            s.push('/');
        }
        append_chars(&mut s, &parts[i]);
        assert(s@ =~= join(next));
        i = i + 1;
    }
    s
}

/// Whether two strings hold the same characters.
pub fn same_text(a: &str, b: &str) -> (r: bool)
    ensures
        r == (a@ == b@),
{
    let x = chars_of(a);
    let y = chars_of(b);
    same_chars(&x, &y)
}

} // verus!
