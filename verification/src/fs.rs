//! Virtual paths: the classification of a path as native, virtual or
//! inside a zip archive.

use crate::text::{
    append_chars, chars_of, copy_range, is_suffix, join, join_range, lemma_join_concat,
    lemma_join_first, lemma_join_split, lemma_split_append_piece, lemma_split_len,
    lemma_split_sep_free, sep_free, split, split_chars, string_of, views,
};
use crate::util::{
    is_rooted, normalize_chars, normalize_idempotent, normalized, normalized_segments_not_empty,
    unrooted,
};
use vstd::prelude::*;

verus! {

/// What a name inside an archive stands for.
#[derive(Clone, Copy, Debug, PartialEq, Eq, Structural)]
pub enum FileType {
    File,
    Directory,
}

/// A path into a zip archive.
#[derive(Clone, Debug, PartialEq)]
pub struct ZipInfo {
    /// The path of the archive, or what stands before the virtual marker
    /// where there is one.
    pub base_path: String,
    /// The full and the resolved tail of a virtual marker in the path of
    /// the archive.
    pub virtual_segments: Option<(String, String)>,
    /// The path inside the archive.
    pub zip_path: String,
}

/// A path through a virtual marker.
#[derive(Debug, PartialEq)]
pub struct VirtualInfo {
    /// What stands before the virtual marker, less the segments that the
    /// marker's depth takes.
    pub base_path: String,
    /// The full tail, from the segments taken through the marker to the
    /// end, and the resolved tail, what follows the marker.
    pub virtual_segments: (String, String),
}

impl Clone for VirtualInfo {
    fn clone(&self) -> (r: Self)
        ensures
            r == *self,
    {
        VirtualInfo {
            base_path: self.base_path.clone(),
            virtual_segments: (self.virtual_segments.0.clone(), self.virtual_segments.1.clone()),
        }
    }
}

/// A classified path.
#[derive(Clone, Debug, PartialEq)]
pub enum VPath {
    Zip(ZipInfo),
    Virtual(VirtualInfo),
    Native(String),
}

/// The mathematical value of a classified path.
#[allow(inconsistent_fields)]
pub enum VPathView {
    Zip { base_path: Seq<char>, virtual_segments: Option<(Seq<char>, Seq<char>)>, zip_path: Seq<char> },
    Virtual { base_path: Seq<char>, virtual_segments: (Seq<char>, Seq<char>) },
    Native(Seq<char>),
}

impl View for ZipInfo {
    type V = VPathView;

    open spec fn view(&self) -> VPathView {
        VPathView::Zip {
            base_path: self.base_path@,
            virtual_segments: match self.virtual_segments {
                Some(pair) => Some((pair.0@, pair.1@)),
                None => None,
            },
            zip_path: self.zip_path@,
        }
    }
}

impl View for VirtualInfo {
    type V = VPathView;

    open spec fn view(&self) -> VPathView {
        VPathView::Virtual {
            base_path: self.base_path@,
            virtual_segments: (self.virtual_segments.0@, self.virtual_segments.1@),
        }
    }
}

impl View for VPath {
    type V = VPathView;

    open spec fn view(&self) -> VPathView {
        match self {
            VPath::Zip(info) => info@,
            VPath::Virtual(info) => info@,
            VPath::Native(path) => VPathView::Native(path@),
        }
    }
}

/// The extension that marks an archive.
pub open spec fn dot_zip() -> Seq<char> {
    seq!['.', 'z', 'i', 'p']
}

/// Whether `.zip` at position `i` of `n` ends the path of an archive: it
/// does not start the path, no slash stands before it, and a slash and at
/// least one more character follow it.
pub open spec fn zip_boundary_at(n: Seq<char>, i: int) -> bool {
    &&& 0 < i
    &&& i + 5 < n.len()
    &&& n[i - 1] != '/'
    &&& n.subrange(i, i + 4) == dot_zip()
    &&& n[i + 4] == '/'
}

/// The first position from `i` on at which `.zip` ends the path of an
/// archive.
pub open spec fn zip_boundary_from(n: Seq<char>, i: int) -> Option<int>
    decreases n.len() - i,
{
    if i < 0 || i >= n.len() {
        None
    } else if zip_boundary_at(n, i) {
        Some(i)
    } else {
        zip_boundary_from(n, i + 1)
    }
}

/// The name of the directory that starts a virtual marker.
pub open spec fn is_marker_name(s: Seq<char>) -> bool {
    s == seq!['_', '_', 'v', 'i', 'r', 't', 'u', 'a', 'l', '_', '_'] || s == seq![
        '$',
        '$',
        'v',
        'i',
        'r',
        't',
        'u',
        'a',
        'l',
    ]
}

/// A lower-case hexadecimal digit.
pub open spec fn is_hex(c: char) -> bool {
    ('0' <= c && c <= '9') || ('a' <= c && c <= 'f')
}

/// A decimal digit.
pub open spec fn is_digit(c: char) -> bool {
    '0' <= c && c <= '9'
}

/// Whether a segment is a hash: something not empty, a dash, and one or
/// more hexadecimal digits.
pub open spec fn is_hash_segment(s: Seq<char>) -> bool {
    exists|k: int| is_hash_split(s, k)
}

/// Whether the dash at position `k` parts `s` into a name and a hash.
pub open spec fn is_hash_split(s: Seq<char>, k: int) -> bool {
    &&& 0 < k < s.len() - 1
    &&& s[k] == '-'
    &&& forall|i: int| k < i < s.len() ==> is_hex(#[trigger] s[i])
}

/// Whether a segment is a depth: one or more decimal digits.
pub open spec fn is_depth_segment(s: Seq<char>) -> bool {
    s.len() > 0 && forall|i: int| 0 <= i < s.len() ==> is_digit(#[trigger] s[i])
}

/// The number that decimal digits stand for.
pub open spec fn digits_value(s: Seq<char>) -> nat
    decreases s.len(),
{
    if s.len() == 0 {
        0
    } else {
        (digits_value(s.drop_last()) * 10 + (s.last() as nat - '0' as nat)) as nat
    }
}

/// Whether a virtual marker starts at segment `j`: the marker's name, a
/// hash and a depth, with at least one more segment behind them.
pub open spec fn marker_at(segs: Seq<Seq<char>>, j: int) -> bool {
    &&& 0 <= j
    &&& j + 3 < segs.len()
    &&& is_marker_name(segs[j])
    &&& is_hash_segment(segs[j + 1])
    &&& is_depth_segment(segs[j + 2])
}

/// The first segment from `j` on at which a virtual marker starts.
pub open spec fn marker_from(segs: Seq<Seq<char>>, j: int) -> Option<int>
    decreases segs.len() - j,
{
    if j < 0 || j >= segs.len() {
        None
    } else if marker_at(segs, j) {
        Some(j)
    } else {
        marker_from(segs, j + 1)
    }
}

/// The smaller of two numbers.
pub open spec fn least(a: int, b: int) -> int {
    if a <= b {
        a
    } else {
        b
    }
}

/// The path of an archive within a normalized path `n`: what stands before
/// the slash that follows the first `.zip` boundary, or all of `n`.
pub open spec fn archive_path(n: Seq<char>) -> Seq<char> {
    match zip_boundary_from(n, 0) {
        Some(i) => n.subrange(0, i + 4),
        None => n,
    }
}

/// The segments of a path, without the slash of the root.
pub open spec fn segments(path: Seq<char>) -> Seq<Seq<char>> {
    split(unrooted(path), false)
}

/// The root of a rooted path, or nothing.
pub open spec fn root_of(path: Seq<char>) -> Seq<char> {
    if is_rooted(path) {
        seq!['/']
    } else {
        Seq::<char>::empty()
    }
}

/// The classification of a normalized path `n`.
///
/// The archive is cut off at the first `.zip` boundary. A virtual marker is
/// looked for in the path of the archive only. Its depth takes that many
/// segments from the end of what stands before it, as far as there are any:
/// they open the full tail, which runs on through the marker to the end of
/// the archive's path. The resolved tail is what follows the marker.
pub open spec fn classified_normal(n: Seq<char>) -> VPathView {
    let zip = zip_boundary_from(n, 0);
    let archive = archive_path(n);
    let segs = segments(archive);
    match marker_from(segs, 0) {
        Some(j) => {
            let k = least(digits_value(segs[j + 2]) as int, j);
            let base_path = root_of(archive) + join(segs.subrange(0, j - k));
            let full = join(segs.subrange(j - k, segs.len() as int));
            let resolved = join(segs.subrange(j + 3, segs.len() as int));
            match zip {
                Some(i) => VPathView::Zip {
                    base_path,
                    virtual_segments: Some((full, resolved)),
                    zip_path: n.subrange(i + 5, n.len() as int),
                },
                None => VPathView::Virtual { base_path, virtual_segments: (full, resolved) },
            }
        },
        None => match zip {
            Some(i) => VPathView::Zip {
                base_path: archive,
                virtual_segments: None,
                zip_path: n.subrange(i + 5, n.len() as int),
            },
            None => VPathView::Native(n),
        },
    }
}

/// The classification of a path: that of its normal form.
pub open spec fn classified(p: Seq<char>) -> VPathView {
    classified_normal(normalized(p))
}

/// What the zip reader and the archive cache report.
#[derive(Debug, PartialEq)]
pub enum Error {
    /// The archive has no entry of that name.
    EntryNotFound,
    /// An entry is stored in a way other than as it is or deflated.
    UnsupportedCompression,
    /// The bytes of an entry are no sound deflate data.
    DecompressionError,
    /// A name or a content is no UTF-8.
    Utf8Error,
    /// The archive lacks the record that ends its central directory, or a
    /// header or an entry does not fit in it.
    MalformedArchive,
    /// What an opener of archives reports when it cannot read one.
    IOError(String),
}

/// What `zip_boundary_from` finds is the first boundary at or behind `i`.
pub proof fn lemma_zip_boundary_from(n: Seq<char>, i: int)
    requires
        0 <= i,
    ensures
        match zip_boundary_from(n, i) {
            Some(b) => i <= b && zip_boundary_at(n, b) && forall|x: int|
                i <= x < b ==> !zip_boundary_at(n, x),
            None => forall|x: int| i <= x ==> !zip_boundary_at(n, x),
        },
    decreases n.len() - i,
{
    if i < n.len() && !zip_boundary_at(n, i) {
        lemma_zip_boundary_from(n, i + 1);
    }
}

/// What `marker_from` finds is the first marker at or behind `j`.
pub proof fn lemma_marker_from(segs: Seq<Seq<char>>, j: int)
    requires
        0 <= j,
    ensures
        match marker_from(segs, j) {
            Some(m) => j <= m && marker_at(segs, m) && forall|x: int|
                j <= x < m ==> !marker_at(segs, x),
            None => forall|x: int| j <= x ==> !marker_at(segs, x),
        },
    decreases segs.len() - j,
{
    if j < segs.len() && !marker_at(segs, j) {
        lemma_marker_from(segs, j + 1);
    }
}

/// The first `.zip` boundary of `n`, if it has one.
fn find_zip_boundary(n: &Vec<char>) -> (r: Option<usize>)
    ensures
        match r {
            Some(i) => zip_boundary_from(n@, 0) == Some(i as int),
            None => zip_boundary_from(n@, 0) is None,
        },
{
    if n.len() < 7 {
        proof {
            lemma_zip_boundary_from(n@, 0);
        }
        return None;
    }
    let mut i: usize = 0;
    while i + 5 < n.len()
        invariant
            n.len() >= 7,
            i + 5 <= n.len(),
            zip_boundary_from(n@, 0) == zip_boundary_from(n@, i as int),
        decreases n.len() - i,
    {
        if i > 0 && n[i - 1] != '/' && n[i] == '.' && n[i + 1] == 'z' && n[i + 2] == 'i' && n[i
            + 3] == 'p' && n[i + 4] == '/' {
            assert(n@.subrange(i as int, i + 4) =~= dot_zip());
            return Some(i);
        }
        assert(!zip_boundary_at(n@, i as int)) by {
            if n@.subrange(i as int, i + 4) == dot_zip() {
                assert(n@.subrange(i as int, i + 4)[0] == '.');
                assert(n@.subrange(i as int, i + 4)[1] == 'z');
                assert(n@.subrange(i as int, i + 4)[2] == 'i');
                assert(n@.subrange(i as int, i + 4)[3] == 'p');
            }
        }
        i = i + 1;
    }
    proof {
        lemma_zip_boundary_from(n@, i as int);
    }
    None
}

fn has_marker_name(seg: &Vec<char>) -> (r: bool)
    ensures
        r == is_marker_name(seg@),
{
    let under = seg.len() == 11 && seg[0] == '_' && seg[1] == '_' && seg[2] == 'v' && seg[3] == 'i'
        && seg[4] == 'r' && seg[5] == 't' && seg[6] == 'u' && seg[7] == 'a' && seg[8] == 'l'
        && seg[9] == '_' && seg[10] == '_';
    let dollar = seg.len() == 9 && seg[0] == '$' && seg[1] == '$' && seg[2] == 'v' && seg[3] == 'i'
        && seg[4] == 'r' && seg[5] == 't' && seg[6] == 'u' && seg[7] == 'a' && seg[8] == 'l';
    proof {
        let a = seq!['_', '_', 'v', 'i', 'r', 't', 'u', 'a', 'l', '_', '_'];
        let b = seq!['$', '$', 'v', 'i', 'r', 't', 'u', 'a', 'l'];
        if under {
            assert(seg@ =~= a);
        }
        if dollar {
            assert(seg@ =~= b);
        }
        if seg@ == a {
            assert(a.len() == 11 && a[0] == '_' && a[1] == '_' && a[2] == 'v' && a[3] == 'i' && a[4]
                == 'r' && a[5] == 't' && a[6] == 'u' && a[7] == 'a' && a[8] == 'l' && a[9] == '_'
                && a[10] == '_');
        }
        if seg@ == b {
            assert(b.len() == 9 && b[0] == '$' && b[1] == '$' && b[2] == 'v' && b[3] == 'i' && b[4]
                == 'r' && b[5] == 't' && b[6] == 'u' && b[7] == 'a' && b[8] == 'l');
        }
    }
    under || dollar
}

fn hex_char(c: char) -> (r: bool)
    ensures
        r == is_hex(c),
{
    ('0' <= c && c <= '9') || ('a' <= c && c <= 'f')
}

fn has_hash(seg: &Vec<char>) -> (r: bool)
    ensures
        r == is_hash_segment(seg@),
{
    let mut h: usize = seg.len();
    while h > 0 && hex_char(seg[h - 1])
        invariant
            h <= seg.len(),
            forall|i: int| h <= i < seg.len() ==> is_hex(#[trigger] seg@[i]),
        decreases h,
    {
        h = h - 1;
    }
    let r = 2 <= h && h < seg.len() && seg[h - 1] == '-';
    proof {
        if r {
            assert(is_hash_split(seg@, h - 1));
        }
        if is_hash_segment(seg@) {
            let k = choose|k: int| is_hash_split(seg@, k);
            assert(!is_hex(seg@[k]));
            if h > 0 {
                assert(!is_hex(seg@[h - 1]));
                if k < h - 1 {
                    assert(is_hex(seg@[h - 1]));
                }
            }
            assert(k == h - 1);
        }
    }
    r
}

fn has_depth(seg: &Vec<char>) -> (r: bool)
    ensures
        r == is_depth_segment(seg@),
{
    if seg.len() == 0 {
        return false;
    }
    let mut i: usize = 0;
    while i < seg.len()
        invariant
            i <= seg.len(),
            forall|x: int| 0 <= x < i ==> is_digit(#[trigger] seg@[x]),
        decreases seg.len() - i,
    {
        let c = seg[i];
        if !('0' <= c && c <= '9') {
            return false;
        }
        i = i + 1;
    }
    true
}

/// The number that the digits of `seg` stand for, or `cap` if that is less.
fn clamped_depth(seg: &Vec<char>, cap: usize) -> (r: usize)
    requires
        is_depth_segment(seg@),
    ensures
        r as int == least(digits_value(seg@) as int, cap as int),
{
    let mut acc: usize = 0;
    let mut i: usize = 0;
    assert(seg@.take(0) =~= Seq::<char>::empty());
    while i < seg.len()
        invariant
            i <= seg.len(),
            is_depth_segment(seg@),
            acc as int == least(digits_value(seg@.take(i as int)) as int, cap as int),
        decreases seg.len() - i,
    {
        let c = seg[i];
        assert(is_digit(seg@[i as int]));
        let d: u128 = (c as u32 - '0' as u32) as u128;
        let next: u128 = acc as u128 * 10 + d;
        assert(seg@.take(i + 1).drop_last() =~= seg@.take(i as int));
        assert(seg@.take(i + 1).last() == c);
        if next >= cap as u128 {
            acc = cap;
        } else {
            acc = next as usize;
        }
        i = i + 1;
    }
    assert(seg@.take(seg.len() as int) =~= seg@);
    acc
}

/// The first segment at which a virtual marker starts, if there is one.
fn find_marker(segs: &Vec<Vec<char>>) -> (r: Option<usize>)
    ensures
        match r {
            Some(j) => marker_from(views(segs@), 0) == Some(j as int),
            None => marker_from(views(segs@), 0) is None,
        },
{
    let ghost all = views(segs@);
    if segs.len() < 4 {
        proof {
            lemma_marker_from(all, 0);
        }
        return None;
    }
    let mut j: usize = 0;
    while j + 3 < segs.len()
        invariant
            segs.len() >= 4,
            j + 3 <= segs.len(),
            all == views(segs@),
            marker_from(all, 0) == marker_from(all, j as int),
        decreases segs.len() - j,
    {
        if has_marker_name(&segs[j]) && has_hash(&segs[j + 1]) && has_depth(&segs[j + 2]) {
            return Some(j);
        }
        j = j + 1;
    }
    proof {
        lemma_marker_from(all, j as int);
    }
    None
}

/// Classifies a path, on characters.
fn classify_chars(p: &Vec<char>) -> (r: VPath)
    ensures
        r@ == classified(p@),
{
    let n = normalize_chars(p);
    let zip = find_zip_boundary(&n);
    proof {
        lemma_zip_boundary_from(n@, 0);
    }
    let archive = match zip {
        Some(i) => copy_range(&n, 0, i + 4),
        None => {
            assert(n@.subrange(0, n.len() as int) =~= n@);
            copy_range(&n, 0, n.len())
        },
    };
    let rooted = archive.len() > 0 && archive[0] == '/';
    let start: usize = if rooted {
        1
    } else {
        0
    };
    let rel = copy_range(&archive, start, archive.len());
    assert(rel@ =~= if rooted {
        archive@.drop_first()
    } else {
        archive@
    });
    let segs = split_chars(&rel, false);
    let ghost all = views(segs@);
    match find_marker(&segs) {
        Some(j) => {
            proof {
                lemma_marker_from(all, 0);
                assert(marker_at(all, j as int));
                assert(all.len() == segs.len());
                assert(all[j + 2] == segs@[j + 2]@);
            }
            let k = clamped_depth(&segs[j + 2], j);
            let mut base: Vec<char> = Vec::new();
            if rooted {
                base.push('/');
            }
            let head = join_range(&segs, 0, j - k);
            append_chars(&mut base, &head);
            assert(base@ =~= root_of(archive@) + join(all.subrange(0, j - k)));
            let full = join_range(&segs, j - k, segs.len());
            let resolved = join_range(&segs, j + 3, segs.len());
            match zip {
                Some(i) => {
                    let inner = copy_range(&n, i + 5, n.len());
                    VPath::Zip(
                        ZipInfo {
                            base_path: string_of(&base),
                            virtual_segments: Some((string_of(&full), string_of(&resolved))),
                            zip_path: string_of(&inner),
                        },
                    )
                },
                None => VPath::Virtual(
                    VirtualInfo {
                        base_path: string_of(&base),
                        virtual_segments: (string_of(&full), string_of(&resolved)),
                    },
                ),
            }
        },
        None => match zip {
            Some(i) => {
                let inner = copy_range(&n, i + 5, n.len());
                VPath::Zip(
                    ZipInfo {
                        base_path: string_of(&archive),
                        virtual_segments: None,
                        zip_path: string_of(&inner),
                    },
                )
            },
            None => VPath::Native(string_of(&n)),
        },
    }
}

/// Classifies a path as native, virtual or inside a zip archive.
///
/// Whole segments are taken from the base for the marker's depth, so the
/// base always ends between two segments and every path has a
/// classification.
pub fn vpath(p: &str) -> (r: Result<VPath, Error>)
    ensures
        r matches Ok(v) && v@ == classified(p@),
{
    let chars = chars_of(p);
    Ok(classify_chars(&chars))
}

impl VPath {
    /// Classifies a path as native, virtual or inside a zip archive.
    pub fn from(p: &str) -> (r: Result<VPath, Error>)
        ensures
            r matches Ok(v) && v@ == classified(p@),
    {
        vpath(p)
    }
}

/// The path on disk that a classified path stands for.
pub trait VPathInfo {
    /// The base path with the resolved tail behind it.
    spec fn physical_base(&self) -> Seq<char>;

    fn physical_base_path(&self) -> (r: String)
        ensures
            r@ == self.physical_base(),
    ;
}

/// A path with another one behind it: a rooted `tail` stands alone; else a
/// slash is put between the two, unless `base` is empty or ends in one.
pub open spec fn joined_paths(base: Seq<char>, tail: Seq<char>) -> Seq<char> {
    if is_rooted(tail) {
        tail
    } else if base.len() == 0 || base.last() == '/' {
        base + tail
    } else {
        base + seq!['/'] + tail
    }
}

/// Puts `tail` behind `base`, as `joined_paths` says.
pub fn join_paths(base: &str, tail: &str) -> (r: String)
    ensures
        r@ == joined_paths(base@, tail@),
{
    let b = chars_of(base);
    let t = chars_of(tail);
    if t.len() > 0 && t[0] == '/' {
        return string_of(&t);
    }
    let mut out: Vec<char> = Vec::new();
    append_chars(&mut out, &b);
    if b.len() > 0 && b[b.len() - 1] != '/' {
        out.push('/');
    }
    append_chars(&mut out, &t);
    assert(out@ =~= joined_paths(base@, tail@));
    string_of(&out)
}

impl VPathInfo for ZipInfo {
    open spec fn physical_base(&self) -> Seq<char> {
        match self.virtual_segments {
            None => self.base_path@,
            Some(segments) => joined_paths(self.base_path@, segments.1@),
        }
    }

    fn physical_base_path(&self) -> (r: String) {
        match &self.virtual_segments {
            None => self.base_path.clone(),
            Some(segments) => join_paths(self.base_path.as_str(), segments.1.as_str()),
        }
    }
}

impl VPathInfo for VirtualInfo {
    open spec fn physical_base(&self) -> Seq<char> {
        joined_paths(self.base_path@, self.virtual_segments.1@)
    }

    fn physical_base_path(&self) -> (r: String) {
        join_paths(self.base_path.as_str(), self.virtual_segments.1.as_str())
    }
}

/// A path and its normal form classify alike.
pub proof fn classify_of_normalized(p: Seq<char>)
    ensures
        classified(normalized(p)) == classified(p),
{
    normalize_idempotent(p);
}

/// A path whose normal form has no `.zip` boundary and no virtual marker
/// is native, and is kept in its normal form.
pub proof fn classify_plain_is_native(p: Seq<char>)
    requires
        forall|i: int| !zip_boundary_at(normalized(p), i),
        forall|j: int| !marker_at(segments(normalized(p)), j),
    ensures
        classified(p) == VPathView::Native(normalized(p)),
{
    let n = normalized(p);
    lemma_zip_boundary_from(n, 0);
    lemma_marker_from(segments(n), 0);
}

/// A base path with a tail behind it: with a slash between the two, but
/// for the empty base and the root, which take the tail as it is.
pub open spec fn rejoined(base: Seq<char>, tail: Seq<char>) -> Seq<char> {
    if base.len() == 0 || base == seq!['/'] {
        base + tail
    } else {
        base + seq!['/'] + tail
    }
}

/// Where classification gives a virtual path, the base with the full tail
/// behind it is the normal form of the input.
pub proof fn classify_virtual_rejoins(p: Seq<char>)
    requires
        classified(p) is Virtual,
    ensures
        rejoined(classified(p)->Virtual_base_path, classified(p)->Virtual_virtual_segments.0)
            == normalized(p),
{
    let n = normalized(p);
    lemma_zip_boundary_from(n, 0);
    let segs = segments(n);
    lemma_marker_from(segs, 0);
    let j = marker_from(segs, 0)->Some_0;
    let k = least(digits_value(segs[j + 2]) as int, j);
    let a = segs.subrange(0, j - k);
    let b = segs.subrange(j - k, segs.len() as int);
    let rel = unrooted(n);
    let base = root_of(n) + join(a);
    lemma_join_split(rel);
    assert(a + b =~= segs);
    assert(root_of(n) + rel =~= n);
    if a.len() == 0 {
        assert(join(a) =~= Seq::<char>::empty());
        assert(base =~= root_of(n));
        assert(b =~= segs);
    } else {
        normalized_segments_not_empty(p);
        lemma_split_sep_free(rel, false);
        assert(a[0] == segs[0]);
        assert(a[0].len() > 0);
        assert(sep_free(segs[0], false));
        lemma_join_first(a);
        assert(join(a)[0] != '/');
        assert(base.len() > 0 && base != seq!['/']) by {
            if is_rooted(n) {
                assert(base.len() == 1 + join(a).len());
            } else {
                assert(base =~= join(a));
            }
        }
        lemma_join_concat(a, b);
        assert(base + seq!['/'] + join(b) =~= root_of(n) + (join(a) + seq!['/'] + join(b)));
    }
}

/// The join of pieces ends with its last piece.
pub proof fn lemma_join_ends_with_last(parts: Seq<Seq<char>>)
    requires
        parts.len() >= 1,
    ensures
        is_suffix(parts.last(), join(parts)),
{
    let j = join(parts);
    let l = parts.last();
    if parts.len() == 1 {
        assert(j.subrange(j.len() - l.len(), j.len() as int) =~= l);
    } else {
        assert(j == join(parts.drop_last()) + seq!['/'] + l);
        assert(j.subrange(j.len() - l.len(), j.len() as int) =~= l);
    }
}

/// Where classification gives a path into an archive, the path inside the
/// archive is not empty. Without a virtual marker the base path ends in
/// `.zip` and is more than that extension; with one, the full tail and the
/// resolved tail end in `.zip`.
pub proof fn classify_zip_shape(p: Seq<char>)
    requires
        classified(p) is Zip,
    ensures
        classified(p)->Zip_zip_path.len() > 0,
        match classified(p)->Zip_virtual_segments {
            None => is_suffix(dot_zip(), classified(p)->Zip_base_path) && classified(
                p,
            )->Zip_base_path.len() > 4,
            Some(tails) => is_suffix(dot_zip(), tails.0) && is_suffix(dot_zip(), tails.1),
        },
{
    let n = normalized(p);
    lemma_zip_boundary_from(n, 0);
    let i = zip_boundary_from(n, 0)->Some_0;
    let archive = archive_path(n);
    assert(archive.subrange(archive.len() - 4, archive.len() as int) =~= n.subrange(i, i + 4));
    let segs = segments(archive);
    lemma_marker_from(segs, 0);
    if marker_from(segs, 0) is Some {
        let j = marker_from(segs, 0)->Some_0;
        let k = least(digits_value(segs[j + 2]) as int, j);
        let b = segs.subrange(j - k, segs.len() as int);
        let rel = unrooted(archive);
        assert(rel.len() >= 4) by {
            if is_rooted(archive) {
                assert(archive[0] == '/');
                assert(n[i - 1] != '/');
            }
        }
        let pre = rel.subrange(0, rel.len() - 4);
        assert(rel =~= pre + dot_zip());
        assert(sep_free(dot_zip(), false));
        lemma_split_append_piece(pre, dot_zip(), false);
        lemma_split_len(pre, false);
        let l = segs.last();
        assert(l == split(pre, false).last() + dot_zip());
        assert(is_suffix(dot_zip(), l)) by {
            assert(l.subrange(l.len() - 4, l.len() as int) =~= dot_zip());
        }
        assert(b.last() == l);
        lemma_join_ends_with_last(b);
        let f = join(b);
        assert(f.subrange(f.len() - 4, f.len() as int) =~= l.subrange(l.len() - 4, l.len() as int));
        let c = segs.subrange(j + 3, segs.len() as int);
        assert(c.last() == l);
        lemma_join_ends_with_last(c);
        let r = join(c);
        assert(r.subrange(r.len() - 4, r.len() as int) =~= l.subrange(l.len() - 4, l.len() as int));
    }
}

} // verus!
