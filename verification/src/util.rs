//! Path normalization, the portable form of Windows paths, and the
//! unescaping of slashes in patterns.

use crate::text::{
    all_sep_free, append_chars, matches_at, chars_of, copy_range, is_sep, join, join_range, lemma_split_join,
    lemma_split_sep_free, sep_free, split, split_chars, string_of, views,
};
use vstd::prelude::*;

verus! {

/// The segment that stands for the current directory.
pub open spec fn dot() -> Seq<char> {
    seq!['.']
}

/// The segment that stands for the parent directory.
pub open spec fn dotdot() -> Seq<char> {
    seq!['.', '.']
}

/// Whether a path starts at the root.
pub open spec fn is_rooted(s: Seq<char>) -> bool {
    s.len() > 0 && s[0] == '/'
}

/// Whether a path ends in a separator, forward or backward.
pub open spec fn ends_with_sep(s: Seq<char>) -> bool {
    s.len() > 0 && is_sep(s.last(), true)
}

/// The stack of segments after one more segment `c` has been walked:
/// empty segments and `.` leave it as it is; `..` removes the top, unless
/// the stack is empty (then it is dropped at the root and kept elsewhere)
/// or the top is itself `..` (then it is kept); any other segment is added.
pub open spec fn step(out: Seq<Seq<char>>, c: Seq<char>, rooted: bool) -> Seq<Seq<char>> {
    if c.len() == 0 || c == dot() {
        out
    } else if c == dotdot() {
        if out.len() == 0 {
            if rooted {
                out
            } else {
                out.push(c)
            }
        } else if out.last() == dotdot() {
            out.push(c)
        } else {
            out.drop_last()
        }
    } else {
        out.push(c)
    }
}

/// The stack of segments after all of `comps` have been walked, first to
/// last.
pub open spec fn walk(comps: Seq<Seq<char>>, rooted: bool) -> Seq<Seq<char>>
    decreases comps.len(),
{
    if comps.len() == 0 {
        Seq::<Seq<char>>::empty()
    } else {
        step(walk(comps.drop_last(), rooted), comps.last(), rooted)
    }
}

/// The normal form of a path: its segments walked, joined with `/`, with
/// the leading `/` of a rooted path and the trailing separator of the input
/// kept. A path without segments is `/` if rooted and `.` if not.
pub open spec fn normalized(s: Seq<char>) -> Seq<char> {
    let rooted = is_rooted(s);
    let body = if rooted {
        s.drop_first()
    } else {
        s
    };
    let out = walk(split(body, true), rooted);
    if out.len() == 0 {
        if rooted {
            seq!['/']
        } else {
            seq!['.']
        }
    } else {
        let joined = if rooted {
            seq!['/'] + join(out)
        } else {
            join(out)
        };
        if ends_with_sep(s) {
            joined.push('/')
        } else {
            joined
        }
    }
}

/// What holds of a stack of walked segments: none is empty, holds a
/// separator or is `.`, and `..` stands only at the start of a path that is
/// not rooted, in one run.
pub open spec fn clean(out: Seq<Seq<char>>, rooted: bool) -> bool {
    forall|i: int|
        0 <= i < out.len() ==> {
            &&& (#[trigger] out[i]).len() > 0
            &&& sep_free(out[i], true)
            &&& out[i] != dot()
            &&& (out[i] == dotdot() ==> !rooted && (i == 0 || out[i - 1] == dotdot()))
        }
}

/// One more segment walked keeps a stack clean.
pub proof fn lemma_step_clean(out: Seq<Seq<char>>, c: Seq<char>, rooted: bool)
    requires
        clean(out, rooted),
        sep_free(c, true),
    ensures
        clean(step(out, c, rooted), rooted),
{
    let r = step(out, c, rooted);
    assert forall|i: int| 0 <= i < r.len() implies {
        &&& (#[trigger] r[i]).len() > 0
        &&& sep_free(r[i], true)
        &&& r[i] != dot()
        &&& (r[i] == dotdot() ==> !rooted && (i == 0 || r[i - 1] == dotdot()))
    } by {
        if i < out.len() {
            assert(r[i] == out[i]);
            if i > 0 {
                assert(r[i - 1] == out[i - 1]);
            }
        } else {
            assert(r == out.push(c));
            if c == dotdot() && out.len() > 0 {
                assert(out[out.len() - 1] == dotdot());
            }
        }
    }
}

/// Walking segments that hold no separator gives a clean stack.
pub proof fn lemma_walk_clean(comps: Seq<Seq<char>>, rooted: bool)
    requires
        all_sep_free(comps, true),
    ensures
        clean(walk(comps, rooted), rooted),
    decreases comps.len(),
{
    if comps.len() > 0 {
        let init = comps.drop_last();
        assert(all_sep_free(init, true)) by {
            assert forall|i: int| 0 <= i < init.len() implies sep_free(#[trigger] init[i], true) by {
                assert(init[i] == comps[i]);
            }
        }
        lemma_walk_clean(init, rooted);
        assert(sep_free(comps[comps.len() - 1], true));
        lemma_step_clean(walk(init, rooted), comps.last(), rooted);
    }
}

/// Walking a clean stack changes nothing.
pub proof fn lemma_walk_of_clean(out: Seq<Seq<char>>, rooted: bool)
    requires
        clean(out, rooted),
    ensures
        walk(out, rooted) == out,
    decreases out.len(),
{
    if out.len() == 0 {
        assert(walk(out, rooted) =~= out);
    } else {
        let init = out.drop_last();
        assert(clean(init, rooted)) by {
            assert forall|i: int| 0 <= i < init.len() implies {
                &&& (#[trigger] init[i]).len() > 0
                &&& sep_free(init[i], true)
                &&& init[i] != dot()
                &&& (init[i] == dotdot() ==> !rooted && (i == 0 || init[i - 1] == dotdot()))
            } by {
                assert(init[i] == out[i]);
                if i > 0 {
                    assert(init[i - 1] == out[i - 1]);
                }
            }
        }
        lemma_walk_of_clean(init, rooted);
        let last = out[out.len() - 1];
        assert(last.len() > 0 && last != dot());
        if last == dotdot() {
            if init.len() > 0 {
                assert(init.last() == out[out.len() - 2]);
            }
        }
        assert(init.push(last) =~= out);
    }
}

/// The join of a clean stack that is not empty starts with a character
/// that is no separator and ends with one.
pub proof fn lemma_join_clean_ends(out: Seq<Seq<char>>, rooted: bool)
    requires
        clean(out, rooted),
        out.len() > 0,
    ensures
        join(out).len() > 0,
        !is_sep(join(out)[0], true),
        !is_sep(join(out).last(), true),
    decreases out.len(),
{
    let last = out[out.len() - 1];
    assert(last.len() > 0 && sep_free(last, true));
    assert(!is_sep(last[0], true));
    assert(!is_sep(last[last.len() - 1], true));
    if out.len() > 1 {
        let init = out.drop_last();
        assert(clean(init, rooted)) by {
            assert forall|i: int| 0 <= i < init.len() implies {
                &&& (#[trigger] init[i]).len() > 0
                &&& sep_free(init[i], true)
                &&& init[i] != dot()
                &&& (init[i] == dotdot() ==> !rooted && (i == 0 || init[i - 1] == dotdot()))
            } by {
                assert(init[i] == out[i]);
                if i > 0 {
                    assert(init[i - 1] == out[i - 1]);
                }
            }
        }
        lemma_join_clean_ends(init, rooted);
        let j = join(init) + seq!['/'] + last;
        assert(j[0] == join(init)[0]);
        assert(j.last() == last.last());
    }
}

/// The join of pieces without backslashes has none.
pub proof fn lemma_join_no_backslash(parts: Seq<Seq<char>>)
    requires
        all_sep_free(parts, true),
    ensures
        forall|i: int| 0 <= i < join(parts).len() ==> #[trigger] join(parts)[i] != '\\',
    decreases parts.len(),
{
    if parts.len() == 1 {
        assert(sep_free(parts[0], true));
    } else if parts.len() > 1 {
        let init = parts.drop_last();
        assert(all_sep_free(init, true)) by {
            assert forall|i: int| 0 <= i < init.len() implies sep_free(#[trigger] init[i], true) by {
                assert(init[i] == parts[i]);
            }
        }
        lemma_join_no_backslash(init);
        assert(sep_free(parts[parts.len() - 1], true));
        let head = join(init) + seq!['/'];
        assert forall|i: int| 0 <= i < join(parts).len() implies #[trigger] join(parts)[i]
            != '\\' by {
            if i < join(init).len() {
                assert(join(parts)[i] == join(init)[i]);
            } else if i >= head.len() {
                assert(join(parts)[i] == parts.last()[i - head.len()]);
            }
        }
    }
}

/// A normal form is a portable path: it is not empty and holds no
/// backslash.
pub proof fn normalized_is_portable(s: Seq<char>)
    ensures
        normalized(s).len() > 0,
        forall|i: int| 0 <= i < normalized(s).len() ==> #[trigger] normalized(s)[i] != '\\',
{
    let rooted = is_rooted(s);
    let body = if rooted {
        s.drop_first()
    } else {
        s
    };
    let out = walk(split(body, true), rooted);
    lemma_split_sep_free(body, true);
    lemma_walk_clean(split(body, true), rooted);
    if out.len() > 0 {
        assert(all_sep_free(out, true)) by {
            assert forall|i: int| 0 <= i < out.len() implies sep_free(#[trigger] out[i], true) by {}
        }
        lemma_join_no_backslash(out);
        lemma_join_clean_ends(out, rooted);
        let j = join(out);
        let n = normalized(s);
        assert forall|i: int| 0 <= i < n.len() implies #[trigger] n[i] != '\\' by {
            if rooted {
                if 1 <= i <= j.len() {
                    assert(n[i] == j[i - 1]);
                }
            } else if i < j.len() {
                assert(n[i] == j[i]);
            }
        }
    }
}

/// What is left of a path without the slash of its root.
pub open spec fn unrooted(s: Seq<char>) -> Seq<char> {
    if is_rooted(s) {
        s.drop_first()
    } else {
        s
    }
}

/// Of the segments of a normal form only the last can be empty.
pub proof fn normalized_segments_not_empty(s: Seq<char>)
    ensures
        forall|i: int|
            0 <= i < split(unrooted(normalized(s)), false).len() - 1 ==> (#[trigger] split(
                unrooted(normalized(s)),
                false,
            )[i]).len() > 0,
{
    let rooted = is_rooted(s);
    let body = if rooted {
        s.drop_first()
    } else {
        s
    };
    let out = walk(split(body, true), rooted);
    let n = normalized(s);
    let empty = Seq::<char>::empty();
    lemma_split_sep_free(body, true);
    lemma_walk_clean(split(body, true), rooted);
    if out.len() == 0 {
        if rooted {
            assert(unrooted(n) =~= empty);
        } else {
            assert(unrooted(n) == dot());
            assert(dot().drop_last() =~= empty);
            assert(split(dot(), false) == split(empty, false).drop_last().push(
                split(empty, false).last().push('.'),
            ));
            assert(split(dot(), false).len() == 1);
        }
    } else {
        lemma_join_clean_ends(out, rooted);
        let j = join(out);
        let head = if rooted {
            seq!['/'] + j
        } else {
            j
        };
        assert(is_rooted(n) == rooted) by {
            assert(n[0] == head[0]);
        }
        assert(all_sep_free(out, false)) by {
            assert forall|i: int| 0 <= i < out.len() implies sep_free(#[trigger] out[i], false) by {
                assert(sep_free(out[i], true));
                assert forall|x: int| 0 <= x < out[i].len() implies !is_sep(
                    #[trigger] out[i][x],
                    false,
                ) by {
                    assert(!is_sep(out[i][x], true));
                }
            }
        }
        lemma_split_join(out, false);
        if ends_with_sep(s) {
            assert(unrooted(n) =~= j.push('/'));
            assert(unrooted(n).drop_last() =~= j);
            assert(split(unrooted(n), false) == out.push(empty));
        } else {
            assert(unrooted(n) =~= j);
        }
        assert forall|i: int| 0 <= i < split(unrooted(n), false).len() - 1 implies (#[trigger] split(
            unrooted(n),
            false,
        )[i]).len() > 0 by {
            assert(split(unrooted(n), false)[i] == out[i]);
        }
    }
}

/// Normalizing twice gives what normalizing once gives.
pub proof fn normalize_idempotent(s: Seq<char>)
    ensures
        normalized(normalized(s)) == normalized(s),
{
    let rooted = is_rooted(s);
    let body = if rooted {
        s.drop_first()
    } else {
        s
    };
    let comps = split(body, true);
    let out = walk(comps, rooted);
    let n = normalized(s);
    lemma_split_sep_free(body, true);
    lemma_walk_clean(comps, rooted);
    let empty = Seq::<char>::empty();
    if out.len() == 0 {
        if rooted {
            assert(n.drop_first() =~= empty);
            assert(split(empty, true) == seq![empty]);
            assert(seq![empty].drop_last() =~= Seq::<Seq<char>>::empty());
            assert(walk(seq![empty], true) == step(walk(seq![empty].drop_last(), true), empty, true));
            assert(walk(seq![empty], true) =~= Seq::<Seq<char>>::empty());
        } else {
            assert(n == dot());
            assert(n.drop_last() =~= empty);
            assert(split(n, true) == split(empty, true).drop_last().push(
                split(empty, true).last().push('.'),
            ));
            assert(split(n, true) =~= seq![dot()]);
            assert(seq![dot()].drop_last() =~= Seq::<Seq<char>>::empty());
            assert(walk(seq![dot()], false) == step(
                walk(seq![dot()].drop_last(), false),
                dot(),
                false,
            ));
            assert(walk(seq![dot()], false) =~= Seq::<Seq<char>>::empty());
        }
    } else {
        lemma_join_clean_ends(out, rooted);
        let trail = ends_with_sep(s);
        let j = join(out);
        let head = if rooted {
            seq!['/'] + j
        } else {
            j
        };
        assert(is_rooted(n) == rooted) by {
            assert(n[0] == head[0]);
        }
        let body2 = if rooted {
            n.drop_first()
        } else {
            n
        };
        assert(all_sep_free(out, true)) by {
            assert forall|i: int| 0 <= i < out.len() implies sep_free(#[trigger] out[i], true) by {}
        }
        lemma_split_join(out, true);
        lemma_walk_of_clean(out, rooted);
        if trail {
            assert(body2 =~= j.push('/'));
            assert(body2.drop_last() =~= j);
            assert(split(body2, true) == out.push(empty));
            assert(out.push(empty).drop_last() =~= out);
            assert(walk(out.push(empty), rooted) == out);
            assert(ends_with_sep(n));
        } else {
            assert(body2 =~= j);
            assert(n.last() == j.last());
            assert(!ends_with_sep(n));
        }
    }
}

fn is_dot(c: &Vec<char>) -> (r: bool)
    ensures
        r == (c@ == dot()),
{
    let r = c.len() == 1 && c[0] == '.';
    assert(r ==> c@ =~= dot());
    assert(c@ == dot() ==> c@.len() == 1 && c@[0] == '.');
    r
}

fn is_dotdot(c: &Vec<char>) -> (r: bool)
    ensures
        r == (c@ == dotdot()),
{
    let r = c.len() == 2 && c[0] == '.' && c[1] == '.';
    assert(r ==> c@ =~= dotdot());
    assert(c@ == dotdot() ==> c@.len() == 2 && c@[0] == '.' && c@[1] == '.');
    r
}

/// The stack of segments that walking `comps` leaves.
fn walk_segments(comps: &Vec<Vec<char>>, rooted: bool) -> (out: Vec<Vec<char>>)
    ensures
        views(out@) == walk(views(comps@), rooted),
{
    let mut out: Vec<Vec<char>> = Vec::new();
    let mut k: usize = 0;
    let ghost all = views(comps@);
    assert(views(out@) =~= walk(all.take(0), rooted));
    while k < comps.len()
        invariant
            k <= comps.len(),
            all == views(comps@),
            views(out@) == walk(all.take(k as int), rooted),
        decreases comps.len() - k,
    {
        let c = &comps[k];
        let ghost before = views(out@);
        assert(all.take(k + 1).drop_last() =~= all.take(k as int));
        assert(all.take(k + 1).last() == c@);
        if c.len() == 0 || is_dot(c) {
        } else if is_dotdot(c) {
            if out.len() == 0 {
                if !rooted {
                    out.push(copy_range(c, 0, c.len()));
                    assert(c@.subrange(0, c.len() as int) =~= c@);
                    assert(views(out@) =~= before.push(c@));
                }
            } else if is_dotdot(&out[out.len() - 1]) {
                out.push(copy_range(c, 0, c.len()));
                assert(c@.subrange(0, c.len() as int) =~= c@);
                assert(views(out@) =~= before.push(c@));
            } else {
                out.pop();
                assert(views(out@) =~= before.drop_last());
            }
        } else {
            out.push(copy_range(c, 0, c.len()));
            assert(c@.subrange(0, c.len() as int) =~= c@);
            assert(views(out@) =~= before.push(c@));
        }
        k = k + 1;
    }
    assert(all.take(comps.len() as int) =~= all);
    out
}

/// The normal form of a path, on characters.
pub fn normalize_chars(s: &Vec<char>) -> (r: Vec<char>)
    ensures
        r@ == normalized(s@),
{
    let rooted = s.len() > 0 && s[0] == '/';
    let start: usize = if rooted {
        1
    } else {
        0
    };
    let body = copy_range(s, start, s.len());
    assert(body@ =~= if rooted {
        s@.drop_first()
    } else {
        s@
    });
    let comps = split_chars(&body, true);
    let out = walk_segments(&comps, rooted);
    let mut r: Vec<char> = Vec::new();
    if out.len() == 0 {
        if rooted {
            r.push('/');
        } else {
            r.push('.');
        }
        assert(r@ =~= normalized(s@));
        return r;
    }
    if rooted {
        r.push('/');
    }
    let joined = join_range(&out, 0, out.len());
    assert(views(out@).subrange(0, out.len() as int) =~= views(out@));
    append_chars(&mut r, &joined);
    proof {
        if s@.len() == 0 {
            let empty = Seq::<char>::empty();
            assert(body@ =~= empty);
            assert(seq![empty].drop_last() =~= Seq::<Seq<char>>::empty());
            assert(walk(seq![empty], rooted) == step(
                walk(seq![empty].drop_last(), rooted),
                empty,
                rooted,
            ));
            assert(false);
        }
    }
    let last = s[s.len() - 1];
    if last == '/' || last == '\\' {
        r.push('/');
    }
    assert(r@ =~= normalized(s@));
    r
}

/// Brings a path to its normal form: `.` and empty segments are dropped,
/// `..` removes the segment before it (at the root it is dropped, at the
/// start of a relative path it is kept), segments are joined with `/`, and
/// a trailing separator of the input is kept. The empty path becomes `.`.
pub fn normalize_path(path: &str) -> (r: String)
    ensures
        r@ == normalized(path@),
{
    let chars = chars_of(path);
    let out = normalize_chars(&chars);
    string_of(&out)
}

/// What is left of `s` from position `i` on when the backslash before a
/// slash is taken out. A backslash escapes the character behind it, so the
/// second of two backslashes in a row escapes nothing.
pub open spec fn unescaped_from(s: Seq<char>, i: int, escaped: bool) -> Seq<char>
    decreases s.len() - i,
{
    if i < 0 || i >= s.len() {
        Seq::<char>::empty()
    } else if !escaped && s[i] == '\\' {
        if i + 1 < s.len() && s[i + 1] == '/' {
            unescaped_from(s, i + 1, false)
        } else {
            seq![s[i]] + unescaped_from(s, i + 1, true)
        }
    } else {
        seq![s[i]] + unescaped_from(s, i + 1, false)
    }
}

/// A pattern with each `\/` turned into `/`.
pub open spec fn slash_unescaped(s: Seq<char>) -> Seq<char> {
    unescaped_from(s, 0, false)
}

/// Takes the backslash out of each `\/` of a pattern.
pub fn strip_slash_escape(str: &str) -> (r: String)
    ensures
        r@ == slash_unescaped(str@),
{
    let s = chars_of(str);
    let mut out: Vec<char> = Vec::new();
    let mut escaped = false;
    let mut i: usize = 0;
    while i < s.len()
        invariant
            i <= s.len(),
            out@ + unescaped_from(s@, i as int, escaped) == slash_unescaped(s@),
        decreases s.len() - i,
    {
        let c = s[i];
        let ghost rest = unescaped_from(s@, i + 1, !escaped && c == '\\');
        if !escaped && c == '\\' {
            if i + 1 < s.len() && s[i + 1] == '/' {
                i = i + 1;
                continue ;
            }
            escaped = true;
        } else {
            escaped = false;
        }
        out.push(c);
        assert(out@ + rest =~= (out@.drop_last() + (seq![c] + rest)));
        i = i + 1;
    }
    assert(out@ + Seq::<char>::empty() =~= out@);
    string_of(&out)
}

/// `fancy_regex::Regex`, a compiled regular expression.
#[verifier::external_type_specification]
#[verifier::external_body]
pub struct ExRegex(fancy_regex::Regex);

/// Whether a text is a regular expression that `fancy_regex` compiles.
pub uninterp spec fn is_pattern(pattern: Seq<char>) -> bool;

/// What searching a text for a match of a pattern gives: nothing where the
/// search was given up, else whether the pattern matches somewhere in the
/// text.
pub uninterp spec fn match_outcome(pattern: Seq<char>, text: Seq<char>) -> Option<bool>;

/// The pattern of the paths that a manifest leaves to other resolvers: its
/// text, and the text compiled.
#[derive(Debug)]
pub struct RegexDef {
    pattern: String,
    regex: fancy_regex::Regex,
}

impl View for RegexDef {
    type V = Seq<char>;

    /// The text of the pattern.
    closed spec fn view(&self) -> Seq<char> {
        self.pattern@
    }
}

/// `fancy_regex::Regex::new`: compiles a pattern, if it is a regular
/// expression.
#[verifier::external_body]
fn compile(pattern: String) -> (r: Option<RegexDef>)
    ensures
        match r {
            Some(def) => def@ == pattern@ && is_pattern(pattern@),
            None => !is_pattern(pattern@),
        },
{
    fancy_regex::Regex::new(&pattern).ok().map(|regex| RegexDef { pattern, regex })
}

/// `fancy_regex::Regex::is_match`: searches a text for a match of the
/// compiled pattern.
#[verifier::external_body]
fn search(def: &RegexDef, text: &str) -> (r: Option<bool>)
    ensures
        r == match_outcome(def@, text@),
{
    def.regex.is_match(text).ok()
}

/// `fancy_regex::Regex::clone`: a copy of a compiled pattern is the same
/// pattern compiled.
#[verifier::external_body]
fn copy_of(def: &RegexDef) -> (r: RegexDef)
    ensures
        r@ == def@,
{
    RegexDef { pattern: def.pattern.clone(), regex: def.regex.clone() }
}

/// The way from the directory `base` to `path`, as `pathdiff` finds it. It
/// reads the two paths as `std::path` does on the platform that the crate
/// is built for, and reads nothing else.
pub uninterp spec fn relative_path(path: Seq<char>, base: Seq<char>) -> Option<Seq<char>>;

/// `pathdiff::diff_paths`: the relative path that leads from `base` to
/// `path`, where there is one.
#[verifier::external_body]
pub(crate) fn diff_paths(path: &str, base: &str) -> (r: Option<String>)
    ensures
        match r {
            Some(p) => relative_path(path@, base@) == Some(p@),
            None => relative_path(path@, base@) is None,
        },
{
    pathdiff::diff_paths(path, base).map(|p| p.to_string_lossy().into_owned())
}

/// The directory in which a file stands, as `std::path::Path` sees it on
/// the platform that the crate is built for.
pub uninterp spec fn parent_path(path: Seq<char>) -> Option<Seq<char>>;

/// `std::path::Path::parent`: the path without its last component, where
/// it has one. What is left is shorter than the path.
#[verifier::external_body]
pub(crate) fn parent_of(path: &str) -> (r: Option<String>)
    ensures
        match r {
            Some(p) => parent_path(path@) == Some(p@) && p@.len() < path@.len(),
            None => parent_path(path@) is None,
        },
{
    std::path::Path::new(path).parent().map(|p| p.to_string_lossy().into_owned())
}

impl Clone for RegexDef {
    fn clone(&self) -> (r: Self)
        ensures
            r@ == self@,
    {
        copy_of(self)
    }
}

impl RegexDef {
    /// Whether the outcome of a search says that the pattern matched.
    pub open spec fn is_hit(outcome: Option<bool>) -> bool {
        outcome == Some(true)
    }

    /// Whether this pattern matches somewhere in `text`.
    pub open spec fn matches(&self, text: Seq<char>) -> bool {
        Self::is_hit(match_outcome(self@, text))
    }

    /// The pattern written as `raw`, with `\/` for `/`, if it is a regular
    /// expression.
    pub fn parse(raw: &str) -> (r: Option<RegexDef>)
        ensures
            match r {
                Some(def) => def@ == slash_unescaped(raw@) && is_pattern(def@),
                None => !is_pattern(slash_unescaped(raw@)),
            },
    {
        compile(strip_slash_escape(raw))
    }

    /// The text of the pattern.
    pub fn pattern(&self) -> (r: &str)
        ensures
            r@ == self@,
    {
        self.pattern.as_str()
    }

    /// Whether this pattern matches somewhere in `text`. A search that is
    /// given up counts as no match.
    pub fn is_match(&self, text: &str) -> (r: bool)
        ensures
            r == self.matches(text@),
    {
        Self::hit(search(self, text))
    }

    /// Whether `outcome`, what a search gave, says that the pattern matched.
    pub fn hit(outcome: Option<bool>) -> (r: bool)
        ensures
            r == Self::is_hit(outcome),
    {
        match outcome {
            Some(true) => true,
            _ => false,
        }
    }
}

/// A letter of the alphabet, as it names a drive.
pub open spec fn is_letter(c: char) -> bool {
    ('a' <= c && c <= 'z') || ('A' <= c && c <= 'Z')
}

/// Whether `s` has no line break from position `from` on.
pub open spec fn one_line(s: Seq<char>, from: int) -> bool {
    forall|i: int| from <= i < s.len() ==> #[trigger] s[i] != '\n'
}

/// Whether a Windows path starts with the letter of a drive.
pub open spec fn is_drive_path(s: Seq<char>) -> bool {
    s.len() >= 2 && is_letter(s[0]) && s[1] == ':' && one_line(s, 2)
}

/// Whether a Windows path names a share: it starts with two separators.
pub open spec fn is_share_path(s: Seq<char>) -> bool {
    s.len() >= 2 && is_sep(s[0], true) && is_sep(s[1], true) && one_line(s, 2)
}

/// The start of the portable form of a share.
pub open spec fn share_root() -> Seq<char> {
    seq!['/', 'u', 'n', 'c', '/']
}

/// What follows the start of the portable form of a share whose name is
/// the dot.
pub open spec fn dot_share() -> Seq<char> {
    seq!['.', 'd', 'o', 't', '/']
}

/// The portable form of a Windows path: a drive goes behind a slash, a
/// share behind `/unc/`, and a share named `.` behind `/unc/.dot/`. Any
/// other path is portable as it is.
pub open spec fn portable(s: Seq<char>) -> Seq<char> {
    if is_drive_path(s) {
        seq!['/'] + s
    } else if is_share_path(s) {
        if s.len() >= 4 && s[2] == '.' && is_sep(s[3], true) {
            share_root() + dot_share() + s.skip(4)
        } else {
            share_root() + s.skip(2)
        }
    } else {
        s
    }
}

/// Whether a portable path names a drive.
pub open spec fn is_portable_drive(s: Seq<char>) -> bool {
    s.len() >= 3 && s[0] == '/' && is_letter(s[1]) && s[2] == ':' && one_line(s, 3)
}

/// Whether a portable path names a share.
pub open spec fn is_portable_share(s: Seq<char>) -> bool {
    s.len() >= 5 && s.subrange(0, 5) == share_root() && one_line(s, 5)
}

/// The Windows form of a portable path: the reverse of `portable`.
pub open spec fn native(s: Seq<char>) -> Seq<char> {
    if is_portable_drive(s) {
        s.skip(1)
    } else if is_portable_share(s) {
        if s.len() >= 10 && s.subrange(5, 10) == dot_share() {
            seq!['\\', '\\', '.', '\\'] + s.skip(10)
        } else {
            seq!['\\', '\\'] + s.skip(5)
        }
    } else {
        s
    }
}

/// The normal form of a Windows path: that of its portable form, brought
/// back to the Windows form.
pub open spec fn windows_normalized(s: Seq<char>) -> Seq<char> {
    native(normalized(portable(s)))
}

fn letter(c: char) -> (r: bool)
    ensures
        r == is_letter(c),
{
    ('a' <= c && c <= 'z') || ('A' <= c && c <= 'Z')
}

fn separator(c: char) -> (r: bool)
    ensures
        r == is_sep(c, true),
{
    c == '/' || c == '\\'
}

fn single_line(s: &Vec<char>, from: usize) -> (r: bool)
    ensures
        r == one_line(s@, from as int),
{
    let mut i: usize = from;
    while i < s.len()
        invariant
            from <= i,
            forall|x: int| from <= x < i && x < s.len() ==> #[trigger] s@[x] != '\n',
        decreases s.len() - i,
    {
        if s[i] == '\n' {
            return false;
        }
        i = i + 1;
    }
    true
}

fn portable_chars(s: &Vec<char>) -> (r: Vec<char>)
    ensures
        r@ == portable(s@),
{
    let mut r: Vec<char> = Vec::new();
    if s.len() >= 2 && single_line(s, 2) {
        if letter(s[0]) && s[1] == ':' {
            r.push('/');
            append_chars(&mut r, s);
            assert(r@ =~= portable(s@));
            return r;
        }
        if separator(s[0]) && separator(s[1]) {
            let mut root = vec!['/', 'u', 'n', 'c', '/'];
            assert(root@ =~= share_root());
            append_chars(&mut r, &root);
            if s.len() >= 4 && s[2] == '.' && separator(s[3]) {
                let dot = vec!['.', 'd', 'o', 't', '/'];
                assert(dot@ =~= dot_share());
                append_chars(&mut r, &dot);
                let rest = copy_range(s, 4, s.len());
                append_chars(&mut r, &rest);
                assert(s@.subrange(4, s.len() as int) =~= s@.skip(4));
            } else {
                let rest = copy_range(s, 2, s.len());
                append_chars(&mut r, &rest);
                assert(s@.subrange(2, s.len() as int) =~= s@.skip(2));
            }
            assert(r@ =~= portable(s@));
            return r;
        }
    }
    append_chars(&mut r, s);
    assert(r@ =~= portable(s@));
    r
}

fn native_chars(s: &Vec<char>) -> (r: Vec<char>)
    ensures
        r@ == native(s@),
{
    let mut r: Vec<char> = Vec::new();
    if s.len() >= 3 && s[0] == '/' && letter(s[1]) && s[2] == ':' && single_line(s, 3) {
        let rest = copy_range(s, 1, s.len());
        assert(s@.subrange(1, s.len() as int) =~= s@.skip(1));
        return rest;
    }
    let root = vec!['/', 'u', 'n', 'c', '/'];
    assert(root@ =~= share_root());
    if matches_at(s, 0, &root) && single_line(s, 5) {
        let dot = vec!['.', 'd', 'o', 't', '/'];
        assert(dot@ =~= dot_share());
        r.push('\\');
        r.push('\\');
        if matches_at(s, 5, &dot) {
            r.push('.');
            r.push('\\');
            let rest = copy_range(s, 10, s.len());
            append_chars(&mut r, &rest);
            assert(s@.subrange(10, s.len() as int) =~= s@.skip(10));
        } else {
            let rest = copy_range(s, 5, s.len());
            append_chars(&mut r, &rest);
            assert(s@.subrange(5, s.len() as int) =~= s@.skip(5));
        }
        assert(r@ =~= native(s@));
        return r;
    }
    append_chars(&mut r, s);
    assert(r@ =~= native(s@));
    r
}

/// The portable form of a Windows path.
pub fn to_portable_path(str: &str) -> (r: String)
    ensures
        r@ == portable(str@),
{
    let s = chars_of(str);
    string_of(&portable_chars(&s))
}

/// The Windows form of a portable path.
pub fn from_portable_path(str: &str) -> (r: String)
    ensures
        r@ == native(str@),
{
    let s = chars_of(str);
    string_of(&native_chars(&s))
}

/// Brings a Windows path to its normal form: drives and shares are kept
/// as the root of the path.
pub fn normalize_windows_path(path: &str) -> (r: String)
    ensures
        r@ == windows_normalized(path@),
{
    let s = chars_of(path);
    let p = portable_chars(&s);
    let n = normalize_chars(&p);
    string_of(&native_chars(&n))
}

} // verus!
