//! Paths into archives in their plain form: the path of the archive and
//! the path inside it.

use crate::fs::{dot_zip, Error};
use crate::text::{chars_of, copy_range, string_of, string_of_range};
use crate::util::{normalize_chars, normalized};
use vstd::prelude::*;

verus! {

/// A path that leads into an archive, or one that does not.
#[derive(Clone, Debug, PartialEq)]
pub enum PnpPath {
    Zip(String, Option<String>),
    Native(String),
}

/// The mathematical value of such a path.
pub enum PnpPathView {
    Zip(Seq<char>, Option<Seq<char>>),
    Native(Seq<char>),
}

impl View for PnpPath {
    type V = PnpPathView;

    open spec fn view(&self) -> PnpPathView {
        match self {
            PnpPath::Zip(archive, inner) => PnpPathView::Zip(
                archive@,
                match inner {
                    Some(path) => Some(path@),
                    None => None,
                },
            ),
            PnpPath::Native(path) => PnpPathView::Native(path@),
        }
    }
}

/// What the mode of a directory entry tells of it.
#[derive(Clone, Copy, Debug, PartialEq, Eq, Structural)]
pub enum FileType {
    Unknown,
    File,
    Directory,
}

/// The kind of entry that a mode stands for. No mode tells it.
pub fn mode_to_file_type(mode: u32) -> (r: FileType)
    ensures
        r == FileType::Unknown,
{
    FileType::Unknown
}

/// Whether `.zip` stands in `s` at position `i`.
pub open spec fn dot_zip_at(s: Seq<char>, i: int) -> bool {
    0 <= i && i + 4 <= s.len() && s.subrange(i, i + 4) == dot_zip()
}

/// The first position at or behind `i` at which `.zip` stands in `s`.
pub open spec fn dot_zip_from(s: Seq<char>, i: int) -> Option<int>
    decreases s.len() - i,
{
    if i < 0 || i + 4 > s.len() {
        None
    } else if dot_zip_at(s, i) {
        Some(i)
    } else {
        dot_zip_from(s, i + 1)
    }
}

/// Where the path of the archive ends, looking from the `.zip` at `at` on.
/// A `.zip` with a slash behind it ends the path. One without, that starts
/// the path or a segment, makes the path native. Behind any other the next
/// `.zip` is looked at; the last one ends what there is of a path.
pub open spec fn archive_end(s: Seq<char>, at: int) -> Option<int>
    decreases s.len() - at,
{
    if at < 0 || at + 4 > s.len() {
        None
    } else if at + 4 < s.len() && s[at + 4] == '/' {
        Some(at + 4)
    } else if at == 0 || s[at - 1] == '/' {
        None
    } else {
        match dot_zip_from(s, at + 4) {
            Some(next) => if at + 4 <= next && next + 4 <= s.len() {
                archive_end(s, next)
            } else {
                None
            },
            None => Some(at + 4),
        }
    }
}

/// The parts of a path: the path of an archive, with the normal form of
/// what follows the slash behind it if anything does, or the path as it is
/// where it names no archive.
pub open spec fn parted(s: Seq<char>) -> PnpPathView {
    match dot_zip_from(s, 0) {
        None => PnpPathView::Native(s),
        Some(first) => match archive_end(s, first) {
            None => PnpPathView::Native(s),
            Some(end) => if end < s.len() && s[end] != '/' {
                PnpPathView::Native(s)
            } else {
                PnpPathView::Zip(
                    s.take(end),
                    if end + 1 < s.len() {
                        Some(normalized(s.skip(end + 1)))
                    } else {
                        None
                    },
                )
            },
        },
    }
}

fn find_dot_zip(s: &Vec<char>, from: usize) -> (r: Option<usize>)
    ensures
        match r {
            Some(j) => dot_zip_from(s@, from as int) == Some(j as int) && from <= j && j + 4
                <= s.len(),
            None => dot_zip_from(s@, from as int) is None,
        },
{
    if s.len() < 4 {
        return None;
    }
    let mut i: usize = from;
    while i <= s.len() - 4
        invariant
            s.len() >= 4,
            from <= i,
            dot_zip_from(s@, from as int) == dot_zip_from(s@, i as int),
        decreases s.len() - i,
    {
        if s[i] == '.' && s[i + 1] == 'z' && s[i + 2] == 'i' && s[i + 3] == 'p' {
            assert(s@.subrange(i as int, i + 4) =~= dot_zip());
            return Some(i);
        }
        assert(!dot_zip_at(s@, i as int)) by {
            if dot_zip_at(s@, i as int) {
                assert(s@.subrange(i as int, i + 4)[0] == '.');
                assert(s@.subrange(i as int, i + 4)[1] == 'z');
                assert(s@.subrange(i as int, i + 4)[2] == 'i');
                assert(s@.subrange(i as int, i + 4)[3] == 'p');
            }
        }
        i = i + 1;
    }
    None
}

/// Parts a path into the path of an archive and the path inside it.
pub fn path_to_pnp(p: &str) -> (r: Result<PnpPath, Error>)
    ensures
        r matches Ok(path) && path@ == parted(p@),
{
    let s = chars_of(p);
    let first = match find_dot_zip(&s, 0) {
        Some(first) => first,
        None => {
            return Ok(PnpPath::Native(string_of(&s)));
        },
    };
    let mut at: usize = first;
    let mut end: usize = 0;
    loop
        invariant_except_break
            at + 4 <= s.len(),
            archive_end(s@, first as int) == archive_end(s@, at as int),
        invariant
            s@ == p@,
            dot_zip_from(s@, 0) == Some(first as int),
        ensures
            archive_end(s@, first as int) == Some(end as int),
            4 <= end <= s.len(),
        decreases s.len() - at,
    {
        let next = at + 4;
        if next < s.len() && s[next] == '/' {
            end = next;
            break ;
        }
        if at == 0 || s[at - 1] == '/' {
            return Ok(PnpPath::Native(string_of(&s)));
        }
        match find_dot_zip(&s, next) {
            Some(later) => {
                at = later;
            },
            None => {
                end = next;
                break ;
            },
        }
    }
    if end < s.len() && s[end] != '/' {
        return Ok(PnpPath::Native(string_of(&s)));
    }
    let archive = string_of_range(&s, 0, end);
    assert(s@.subrange(0, end as int) =~= s@.take(end as int));
    let inner = if end < s.len() - 1 {
        let rest = copy_range(&s, end + 1, s.len());
        assert(s@.subrange(end + 1, s.len() as int) =~= s@.skip(end + 1));
        Some(string_of(&normalize_chars(&rest)))
    } else {
        None
    };
    Ok(PnpPath::Zip(archive, inner))
}

} // verus!
