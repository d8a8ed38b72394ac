//! Zip archives: the index of an archive's central directory, and the
//! reading of its entries.

use crate::collections::OrderedMap;
use crate::fs::{Error, FileType};
use crate::text::{chars_of, string_of, string_of_range};
use crate::util::{normalize_chars, normalized};
use byteorder::ByteOrder;
use vstd::prelude::*;
use vstd::slice::slice_subrange;
use vstd::utf8::{decode_utf8, valid_utf8};

verus! {

/// How the bytes of an entry are stored.
#[derive(Clone, Copy, Debug, PartialEq, Eq, Structural)]
pub enum Compression {
    Uncompressed,
    Deflate,
}

/// Where the bytes of a file stand in the archive: `size` bytes from
/// `offset` on.
#[derive(Clone, Copy, Debug, PartialEq, Eq, Structural)]
pub struct Entry {
    pub compression: Compression,
    pub offset: usize,
    pub size: usize,
}

/// The number that two bytes at `at` stand for, lowest byte first.
pub open spec fn le16(b: Seq<u8>, at: int) -> int {
    b[at] as int + 256 * (b[at + 1] as int)
}

/// The number that four bytes at `at` stand for, lowest byte first.
pub open spec fn le32(b: Seq<u8>, at: int) -> int {
    b[at] as int + 256 * (b[at + 1] as int) + 65536 * (b[at + 2] as int) + 16777216 * (b[at
        + 3] as int)
}

/// `byteorder::LittleEndian::read_u16`: the number that the first two bytes
/// of `buf` stand for, lowest byte first.
#[verifier::external_body]
fn read_u16_le(buf: &[u8]) -> (r: u16)
    requires
        buf@.len() >= 2,
    ensures
        r as int == le16(buf@, 0),
{
    byteorder::LittleEndian::read_u16(buf)
}

/// `byteorder::LittleEndian::read_u32`: the number that the first four
/// bytes of `buf` stand for, lowest byte first.
#[verifier::external_body]
fn read_u32_le(buf: &[u8]) -> (r: u32)
    requires
        buf@.len() >= 4,
    ensures
        r as int == le32(buf@, 0),
{
    byteorder::LittleEndian::read_u32(buf)
}

/// What raw deflate data inflates to, if it is sound.
pub uninterp spec fn inflated(data: Seq<u8>) -> Option<Seq<u8>>;

/// `miniz_oxide::inflate::decompress_to_vec`: inflates raw deflate data.
#[verifier::external_body]
fn inflate(data: &[u8]) -> (r: Option<Vec<u8>>)
    ensures
        match r {
            Some(bytes) => inflated(data@) == Some(bytes@),
            None => inflated(data@) is None,
        },
{
    miniz_oxide::inflate::decompress_to_vec(data).ok()
}

/// `String::from_utf8`: the text that bytes encode, if they are UTF-8.
#[verifier::external_body]
fn text_of_bytes(bytes: Vec<u8>) -> (r: Option<String>)
    ensures
        match r {
            Some(text) => valid_utf8(bytes@) && text@ == decode_utf8(bytes@),
            None => !valid_utf8(bytes@),
        },
{
    String::from_utf8(bytes).ok()
}

fn u16_at(data: &Vec<u8>, at: usize) -> (r: u16)
    requires
        at + 2 <= data.len(),
    ensures
        r as int == le16(data@, at as int),
{
    let part = slice_subrange(data.as_slice(), at, at + 2);
    read_u16_le(part)
}

fn u32_at(data: &Vec<u8>, at: usize) -> (r: u32)
    requires
        at + 4 <= data.len(),
    ensures
        r as int == le32(data@, at as int),
{
    let part = slice_subrange(data.as_slice(), at, at + 4);
    read_u32_le(part)
}

fn bytes_of_range(data: &Vec<u8>, from: usize, to: usize) -> (r: Vec<u8>)
    requires
        from <= to <= data.len(),
    ensures
        r@ == data@.subrange(from as int, to as int),
{
    let mut r: Vec<u8> = Vec::new();
    let mut i: usize = from;
    while i < to
        invariant
            from <= i <= to <= data.len(),
            r@ == data@.subrange(from as int, i as int),
        decreases to - i,
    {
        r.push(data[i]);
        assert(data@.subrange(from as int, i as int).push(data@[i as int]) =~= data@.subrange(
            from as int,
            i + 1,
        ));
        i = i + 1;
    }
    r
}

/// The last position at or before `p` at which the record that ends the
/// central directory starts: its signature stands there, and the record's
/// 22 bytes fit.
pub open spec fn end_record_from(b: Seq<u8>, p: int) -> Option<int>
    decreases p + 1,
{
    if p < 0 {
        None
    } else if p + 22 <= b.len() && le32(b, p) == 0x06054b50 {
        Some(p)
    } else {
        end_record_from(b, p - 1)
    }
}

/// Where the central directory starts, as the record at its end tells.
pub open spec fn directory_start(b: Seq<u8>) -> Option<int> {
    match end_record_from(b, b.len() - 22) {
        Some(p) => Some(le32(b, p + 16)),
        None => None,
    }
}

/// Finds the start of the central directory: looks for the record that
/// ends it, from the last place where it fits back to the start of the
/// archive.
pub fn find_central_directory_offset(data: &Vec<u8>) -> (r: Result<usize, Error>)
    ensures
        match r {
            Ok(start) => directory_start(data@) == Some(start as int),
            Err(e) => directory_start(data@) is None && e == Error::MalformedArchive,
        },
{
    if data.len() < 22 {
        return Err(Error::MalformedArchive);
    }
    let mut p: usize = data.len() - 22;
    loop
        invariant
            p + 22 <= data.len(),
            end_record_from(data@, data.len() - 22) == end_record_from(data@, p as int),
        decreases p,
    {
        if u32_at(data, p) == 0x06054b50 {
            return Ok(u32_at(data, p + 16) as usize);
        }
        if p == 0 {
            assert(end_record_from(data@, -1) is None);
            return Err(Error::MalformedArchive);
        }
        p = p - 1;
    }
}

/// What stands at a position of the central directory.
pub enum CentralHeader {
    /// No header: the directory ends here.
    End,
    /// A header that cannot be used.
    Bad(Error),
    /// The header of an entry: its name as written, where its bytes stand
    /// if it is a file, and the position behind the header.
    Item { name: Seq<char>, entry: Option<Entry>, next: int },
}

/// The compression that a method number stands for.
pub open spec fn compression_of(method: int) -> Option<Compression> {
    if method == 0 {
        Some(Compression::Uncompressed)
    } else if method == 8 {
        Some(Compression::Deflate)
    } else {
        None
    }
}

/// Where the bytes of the file whose local header starts at `local` stand,
/// given their number `size`: behind the 30 bytes of the header, the name
/// and the extra field, whose lengths the local header tells.
pub open spec fn file_entry(b: Seq<u8>, compression: Compression, local: int, size: int) -> Option<
    Entry,
> {
    if local + 30 > b.len() {
        None
    } else {
        let offset = local + 30 + le16(b, local + 26) + le16(b, local + 28);
        if offset > usize::MAX {
            None
        } else {
            Some(Entry { compression, offset: offset as usize, size: size as usize })
        }
    }
}

/// The header at position `p` of the central directory. The header, its
/// name, its extra field and its comment have to fit in the archive. A name
/// that ends in a slash is a directory; any other is a file.
pub open spec fn central_header(b: Seq<u8>, p: int) -> CentralHeader {
    if p < 0 || p + 4 > b.len() {
        CentralHeader::Bad(Error::MalformedArchive)
    } else if le32(b, p) != 0x02014b50 {
        CentralHeader::End
    } else if p + 46 > b.len() {
        CentralHeader::Bad(Error::MalformedArchive)
    } else {
        let name_end = p + 46 + le16(b, p + 28);
        let next = name_end + le16(b, p + 30) + le16(b, p + 32);
        match compression_of(le16(b, p + 10)) {
            None => CentralHeader::Bad(Error::UnsupportedCompression),
            Some(compression) => if next > b.len() {
                CentralHeader::Bad(Error::MalformedArchive)
            } else if !valid_utf8(b.subrange(p + 46, name_end)) {
                CentralHeader::Bad(Error::Utf8Error)
            } else {
                let name = decode_utf8(b.subrange(p + 46, name_end));
                if name.len() > 0 && name.last() == '/' {
                    CentralHeader::Item { name, entry: None, next }
                } else {
                    match file_entry(b, compression, le32(b, p + 42), le32(b, p + 20)) {
                        Some(entry) => CentralHeader::Item { name, entry: Some(entry), next },
                        None => CentralHeader::Bad(Error::MalformedArchive),
                    }
                }
            },
        }
    }
}

/// The view of a listed entry.
pub open spec fn listed_view(item: (String, Option<Entry>)) -> (Seq<char>, Option<Entry>) {
    (item.0@, item.1)
}

/// The views of listed entries.
pub open spec fn listed_views(items: Seq<(String, Option<Entry>)>) -> Seq<
    (Seq<char>, Option<Entry>),
> {
    Seq::new(items.len(), |i: int| listed_view(items[i]))
}

/// The entries of the central directory from position `p` on, behind
/// those of `seen`, in the order of their headers.
pub open spec fn listed_from(b: Seq<u8>, p: int, seen: Seq<(Seq<char>, Option<Entry>)>) -> Result<
    Seq<(Seq<char>, Option<Entry>)>,
    Error,
>
    decreases b.len() - p,
{
    match central_header(b, p) {
        CentralHeader::End => Ok(seen),
        CentralHeader::Bad(e) => Err(e),
        CentralHeader::Item { name, entry, next } => listed_from(
            b,
            next,
            seen.push((name, entry)),
        ),
    }
}

/// The entries of an archive, in the order of the central directory.
pub open spec fn listed(b: Seq<u8>) -> Result<Seq<(Seq<char>, Option<Entry>)>, Error> {
    match directory_start(b) {
        Some(start) => listed_from(b, start, Seq::<(Seq<char>, Option<Entry>)>::empty()),
        None => Err(Error::MalformedArchive),
    }
}

/// What a step through the central directory gives.
pub enum Step {
    End,
    Item { name: String, entry: Option<Entry>, next: usize },
}

/// Reads the header at position `p` of the central directory.
pub fn read_central_file_header(data: &Vec<u8>, p: usize) -> (r: Result<Step, Error>)
    ensures
        match r {
            Ok(Step::End) => central_header(data@, p as int) is End,
            Ok(Step::Item { name, entry, next }) => central_header(data@, p as int) == (
            CentralHeader::Item { name: name@, entry, next: next as int }) && p < next <= data.len(),
            Err(e) => central_header(data@, p as int) == CentralHeader::Bad(e),
        },
{
    let len = data.len();
    if len < 4 || p > len - 4 {
        return Err(Error::MalformedArchive);
    }
    if u32_at(data, p) != 0x02014b50 {
        return Ok(Step::End);
    }
    if len < 46 || p > len - 46 {
        return Err(Error::MalformedArchive);
    }
    let method = u16_at(data, p + 10);
    let size = u32_at(data, p + 20);
    let name_len = u16_at(data, p + 28);
    let extra_len = u16_at(data, p + 30);
    let comment_len = u16_at(data, p + 32);
    let local = u32_at(data, p + 42);
    let compression = if method == 0 {
        Compression::Uncompressed
    } else if method == 8 {
        Compression::Deflate
    } else {
        return Err(Error::UnsupportedCompression);
    };
    let tail: u64 = name_len as u64 + extra_len as u64 + comment_len as u64;
    if tail > (len - 46 - p) as u64 {
        return Err(Error::MalformedArchive);
    }
    let name_end: usize = p + 46 + name_len as usize;
    let next: usize = p + 46 + tail as usize;
    let raw = bytes_of_range(data, p + 46, name_end);
    let name = match text_of_bytes(raw) {
        Some(name) => name,
        None => {
            return Err(Error::Utf8Error);
        },
    };
    let chars = chars_of(name.as_str());
    if chars.len() > 0 && chars[chars.len() - 1] == '/' {
        return Ok(Step::Item { name, entry: None, next });
    }
    match locate_file(data, compression, local, size) {
        Some(entry) => Ok(Step::Item { name, entry: Some(entry), next }),
        None => Err(Error::MalformedArchive),
    }
}

/// Finds where the bytes of a file stand, from its local header.
fn locate_file(data: &Vec<u8>, compression: Compression, local: u32, size: u32) -> (r: Option<
    Entry,
>)
    ensures
        r == file_entry(data@, compression, local as int, size as int),
{
    let len = data.len();
    if len < 30 || local as usize > len - 30 {
        return None;
    }
    let at = local as usize;
    let name_len = u16_at(data, at + 26);
    let extra_len = u16_at(data, at + 28);
    let offset: u64 = local as u64 + 30 + name_len as u64 + extra_len as u64;
    if offset > usize::MAX as u64 {
        return None;
    }
    Some(Entry { compression, offset: offset as usize, size: size as usize })
}

/// Lists the entries of an archive in the order of its central directory,
/// each with its name as written.
pub fn list_zip_entries(data: &Vec<u8>) -> (r: Result<Vec<(String, Option<Entry>)>, Error>)
    ensures
        match r {
            Ok(items) => listed(data@) == Ok::<Seq<(Seq<char>, Option<Entry>)>, Error>(
                listed_views(items@),
            ),
            Err(e) => listed(data@) == Err::<Seq<(Seq<char>, Option<Entry>)>, Error>(e),
        },
{
    let start = match find_central_directory_offset(data) {
        Ok(start) => start,
        Err(e) => {
            return Err(e);
        },
    };
    let mut items: Vec<(String, Option<Entry>)> = Vec::new();
    let mut p: usize = start;
    assert(listed_views(items@) =~= Seq::<(Seq<char>, Option<Entry>)>::empty());
    loop
        invariant
            listed(data@) == listed_from(data@, p as int, listed_views(items@)),
        decreases data.len() - p,
    {
        match read_central_file_header(data, p) {
            Err(e) => {
                return Err(e);
            },
            Ok(Step::End) => {
                return Ok(items);
            },
            Ok(Step::Item { name, entry, next }) => {
                let ghost before = listed_views(items@);
                items.push((name, entry));
                assert(listed_views(items@) =~= before.push((name@, entry)));
                p = next;
            },
        }
    }
}

/// The index of an archive: where the bytes of each file stand, and which
/// directories there are.
pub struct ZipIndex {
    pub files: Map<Seq<char>, Entry>,
    pub dirs: Set<Seq<char>>,
}

/// Every initial part of `name` that ends in a slash: the directories above
/// an entry, and the entry itself where it is a directory.
pub open spec fn slash_prefixes(name: Seq<char>) -> Set<Seq<char>> {
    Set::new(|d: Seq<char>| exists|i: int| is_slash_prefix(name, d, i))
}

/// Whether `d` is the part of `name` up to the slash at position `i`.
pub open spec fn is_slash_prefix(name: Seq<char>, d: Seq<char>, i: int) -> bool {
    0 <= i < name.len() && name[i] == '/' && d == name.take(i + 1)
}

/// An index with one more entry. The entry goes by the normal form of its
/// name; a file is recorded under it, and every directory above it, or the
/// entry itself where it is one, is known from then on.
pub open spec fn with_entry(index: ZipIndex, raw: Seq<char>, entry: Option<Entry>) -> ZipIndex {
    let name = normalized(raw);
    ZipIndex {
        files: match entry {
            Some(e) => index.files.insert(name, e),
            None => index.files,
        },
        dirs: index.dirs.union(slash_prefixes(name)),
    }
}

/// The index of the listed entries, taken in order: of two files of one
/// name the later one stays.
pub open spec fn index_of(items: Seq<(Seq<char>, Option<Entry>)>) -> ZipIndex
    decreases items.len(),
{
    if items.len() == 0 {
        ZipIndex { files: Map::empty(), dirs: Set::empty() }
    } else {
        with_entry(index_of(items.drop_last()), items.last().0, items.last().1)
    }
}

/// The index of an archive.
pub open spec fn archive_index(b: Seq<u8>) -> Result<ZipIndex, Error> {
    match listed(b) {
        Ok(items) => Ok(index_of(items)),
        Err(e) => Err(e),
    }
}

/// The name under which a directory is known: with a slash at its end.
pub open spec fn dir_name(name: Seq<char>) -> Seq<char> {
    if name.len() > 0 && name.last() == '/' {
        name
    } else {
        name.push('/')
    }
}

/// An opened archive.
#[derive(Debug)]
pub struct Zip {
    storage: Vec<u8>,
    files: OrderedMap<Entry>,
    dirs: OrderedMap<()>,
}

impl Zip {
    /// The bytes of the archive.
    pub closed spec fn bytes(&self) -> Seq<u8> {
        self.storage@
    }

    /// The files of the archive, by name.
    pub closed spec fn files(&self) -> Map<Seq<char>, Entry> {
        self.files@
    }

    /// The directories of the archive.
    pub closed spec fn dirs(&self) -> Set<Seq<char>> {
        self.dirs@.dom()
    }

    /// The names of the files, in the order in which they were met.
    pub closed spec fn file_order(&self) -> Seq<Seq<char>> {
        self.files.keys()
    }

    /// The names of the directories, in the order in which they were met.
    pub closed spec fn dir_order(&self) -> Seq<Seq<char>> {
        self.dirs.keys()
    }

    /// The maps of the archive are well formed.
    pub closed spec fn wf(&self) -> bool {
        self.files.wf() && self.dirs.wf()
    }

    /// Whether `p` names a directory of the archive, with or without a
    /// slash at its end.
    pub open spec fn has_dir(&self, p: Seq<char>) -> bool {
        self.dirs().contains(dir_name(p))
    }

    /// What `p` names in the archive: a file where the archive has a file
    /// of that name, else a directory where it has one of that name, with
    /// or without a slash at the end of `p`.
    pub open spec fn kind_of(&self, p: Seq<char>) -> Result<FileType, Error> {
        if self.files().contains_key(p) {
            Ok(FileType::File)
        } else if self.has_dir(p) {
            Ok(FileType::Directory)
        } else {
            Err(Error::EntryNotFound)
        }
    }

    /// Whether the orders of names hold each name once, the files exactly
    /// those of `files()` and the directories exactly those of `dirs()`.
    pub open spec fn listed_in_order(&self) -> bool {
        &&& self.file_order().no_duplicates()
        &&& self.dir_order().no_duplicates()
        &&& forall|k: Seq<char>| #[trigger]
            self.file_order().contains(k) <==> self.files().contains_key(k)
        &&& forall|k: Seq<char>| #[trigger] self.dir_order().contains(k) <==> self.dirs().contains(k)
    }

    /// The orders of names of a well-formed archive hold each name once,
    /// and exactly the files and directories of the archive.
    pub proof fn lemma_listed_in_order(&self)
        requires
            self.wf(),
        ensures
            self.listed_in_order(),
    {
        self.files.lemma_wf();
        self.dirs.lemma_wf();
    }

    /// The bytes of an entry as they stand in the archive, if they do.
    pub open spec fn stored(&self, entry: Entry) -> Option<Seq<u8>> {
        if entry.offset + entry.size <= self.bytes().len() {
            Some(self.bytes().subrange(entry.offset as int, entry.offset + entry.size))
        } else {
            None
        }
    }

    /// The content of the file `p`, given what its stored bytes inflate to
    /// where they are deflated.
    pub open spec fn content_given(&self, p: Seq<char>, unpacked: Option<Seq<u8>>) -> Result<
        Seq<u8>,
        Error,
    > {
        if !self.files().contains_key(p) {
            Err(Error::EntryNotFound)
        } else {
            match self.stored(self.files()[p]) {
                None => Err(Error::MalformedArchive),
                Some(raw) => match self.files()[p].compression {
                    Compression::Uncompressed => Ok(raw),
                    Compression::Deflate => match unpacked {
                        Some(bytes) => Ok(bytes),
                        None => Err(Error::DecompressionError),
                    },
                },
            }
        }
    }

    /// The content of the file `p`.
    pub open spec fn content(&self, p: Seq<char>) -> Result<Seq<u8>, Error> {
        self.content_given(
            p,
            if self.files().contains_key(p) && self.stored(self.files()[p]) is Some {
                inflated(self.stored(self.files()[p])->Some_0)
            } else {
                None
            },
        )
    }

    /// The content of the file `p` as text.
    pub open spec fn text(&self, p: Seq<char>) -> Result<Seq<char>, Error> {
        match self.content(p) {
            Ok(bytes) => if valid_utf8(bytes) {
                Ok(decode_utf8(bytes))
            } else {
                Err(Error::Utf8Error)
            },
            Err(e) => Err(e),
        }
    }

    /// Opens an archive: indexes the entries of its central directory.
    pub fn new(storage: Vec<u8>) -> (r: Result<Zip, Error>)
        ensures
            match r {
                Ok(zip) => zip.wf() && zip.bytes() == storage@ && archive_index(storage@) == Ok::<
                    ZipIndex,
                    Error,
                >(ZipIndex { files: zip.files(), dirs: zip.dirs() }) && zip.listed_in_order(),
                Err(e) => archive_index(storage@) == Err::<ZipIndex, Error>(e),
            },
    {
        let items = match list_zip_entries(&storage) {
            Ok(items) => items,
            Err(e) => {
                return Err(e);
            },
        };
        let mut files: OrderedMap<Entry> = OrderedMap::new();
        let mut dirs: OrderedMap<()> = OrderedMap::new();
        let ghost all = listed_views(items@);
        let mut k: usize = 0;
        assert(all.take(0) =~= Seq::<(Seq<char>, Option<Entry>)>::empty());
        assert(dirs@.dom() =~= Set::<Seq<char>>::empty());
        while k < items.len()
            invariant
                k <= items.len(),
                all == listed_views(items@),
                files.wf(),
                dirs.wf(),
                index_of(all.take(k as int)) == (ZipIndex { files: files@, dirs: dirs@.dom() }),
            decreases items.len() - k,
        {
            let ghost before = index_of(all.take(k as int));
            assert(all.take(k + 1).drop_last() =~= all.take(k as int));
            assert(all.take(k + 1).last() == all[k as int]);
            let raw = chars_of(items[k].0.as_str());
            let name = normalize_chars(&raw);
            add_dirs(&mut dirs, &name);
            match items[k].1 {
                Some(entry) => {
                    files.insert(string_of(&name), entry);
                },
                None => {},
            }
            k = k + 1;
        }
        assert(all.take(items.len() as int) =~= all);
        let zip = Zip { storage, files, dirs };
        proof {
            zip.lemma_listed_in_order();
        }
        Ok(zip)
    }

    /// The names of the files, in the order in which they were met.
    pub fn file_names(&self) -> (r: Vec<String>)
        requires
            self.wf(),
        ensures
            crate::collections::text_views(r@) == self.file_order(),
    {
        self.files.key_list()
    }

    /// The names of the directories, in the order in which they were met.
    pub fn dir_names(&self) -> (r: Vec<String>)
        requires
            self.wf(),
        ensures
            crate::collections::text_views(r@) == self.dir_order(),
    {
        self.dirs.key_list()
    }

    /// Where the bytes of the file `p` stand.
    pub fn entry(&self, p: &str) -> (r: Option<Entry>)
        requires
            self.wf(),
        ensures
            match r {
                Some(e) => self.files().contains_key(p@) && self.files()[p@] == e,
                None => !self.files().contains_key(p@),
            },
    {
        match self.files.get(p) {
            Some(e) => Some(*e),
            None => None,
        }
    }

    /// Whether `p` names a file of the archive.
    pub fn is_file(&self, p: &str) -> (r: bool)
        requires
            self.wf(),
        ensures
            r == self.files().contains_key(p@),
    {
        self.files.find(p).is_some()
    }

    /// Whether `p` names a directory of the archive, with or without a
    /// slash at its end.
    pub fn is_dir(&self, p: &str) -> (r: bool)
        requires
            self.wf(),
        ensures
            r == self.has_dir(p@),
    {
        let mut name = chars_of(p);
        if name.len() == 0 || name[name.len() - 1] != '/' {
            name.push('/');
        }
        let key = string_of(&name);
        self.dirs.find(key.as_str()).is_some()
    }

    /// What `p` names in the archive: a file, or else a directory, with or
    /// without a slash at the end of `p`.
    pub fn file_type(&self, p: &str) -> (r: Result<FileType, Error>)
        requires
            self.wf(),
        ensures
            r == self.kind_of(p@),
    {
        if self.files.find(p).is_some() {
            Ok(FileType::File)
        } else if self.is_dir(p) {
            Ok(FileType::Directory)
        } else {
            Err(Error::EntryNotFound)
        }
    }

    /// The content of the file `p`: its bytes as stored, inflated where
    /// they are deflated.
    pub fn read(&self, p: &str) -> (r: Result<Vec<u8>, Error>)
        requires
            self.wf(),
        ensures
            match r {
                Ok(bytes) => self.content(p@) == Ok::<Seq<u8>, Error>(bytes@),
                Err(e) => self.content(p@) == Err::<Seq<u8>, Error>(e),
            },
    {
        let entry = match self.files.get(p) {
            Some(entry) => *entry,
            None => {
                return Err(Error::EntryNotFound);
            },
        };
        if entry.offset > self.storage.len() || entry.size > self.storage.len() - entry.offset {
            return Err(Error::MalformedArchive);
        }
        let raw = slice_subrange(self.storage.as_slice(), entry.offset, entry.offset + entry.size);
        match entry.compression {
            Compression::Deflate => Self::unpacked(inflate(raw)),
            Compression::Uncompressed => Ok(
                bytes_of_range(&self.storage, entry.offset, entry.offset + entry.size),
            ),
        }
    }

    /// The content of a deflated file, given what inflating its bytes gave.
    pub fn unpacked(bytes: Option<Vec<u8>>) -> (r: Result<Vec<u8>, Error>)
        ensures
            r == match bytes {
                Some(b) => Ok::<Vec<u8>, Error>(b),
                None => Err::<Vec<u8>, Error>(Error::DecompressionError),
            },
    {
        match bytes {
            Some(b) => Ok(b),
            None => Err(Error::DecompressionError),
        }
    }

    /// The content of the file `p` as text.
    pub fn read_to_string(&self, p: &str) -> (r: Result<String, Error>)
        requires
            self.wf(),
        ensures
            match r {
                Ok(text) => self.text(p@) == Ok::<Seq<char>, Error>(text@),
                Err(e) => self.text(p@) == Err::<Seq<char>, Error>(e),
            },
    {
        match self.read(p) {
            Ok(bytes) => io_bytes_to_str(bytes),
            Err(e) => Err(e),
        }
    }
}

/// The text that bytes encode.
pub fn io_bytes_to_str(bytes: Vec<u8>) -> (r: Result<String, Error>)
    ensures
        match r {
            Ok(text) => valid_utf8(bytes@) && text@ == decode_utf8(bytes@),
            Err(e) => !valid_utf8(bytes@) && e == make_io_utf8_error(),
        },
{
    match text_of_bytes(bytes) {
        Some(text) => Ok(text),
        None => Err(make_io_utf8_error()),
    }
}

/// The failure for content that is no UTF-8.
#[verifier::when_used_as_spec(utf8_error)]
pub fn make_io_utf8_error() -> (e: Error)
    ensures
        e == Error::Utf8Error,
{
    Error::Utf8Error
}

/// The failure for content that is no UTF-8.
pub open spec fn utf8_error() -> Error {
    Error::Utf8Error
}

/// Makes every directory above `name`, and `name` itself where it ends in
/// a slash, known in `dirs`.
fn add_dirs(dirs: &mut OrderedMap<()>, name: &Vec<char>)
    requires
        old(dirs).wf(),
    ensures
        final(dirs).wf(),
        final(dirs)@.dom() == old(dirs)@.dom().union(slash_prefixes(name@)),
{
    let mut i: usize = 0;
    assert(dirs@.dom() =~= old(dirs)@.dom().union(slash_prefixes(name@.take(0))));
    while i < name.len()
        invariant
            i <= name.len(),
            dirs.wf(),
            dirs@.dom() == old(dirs)@.dom().union(slash_prefixes(name@.take(i as int))),
        decreases name.len() - i,
    {
        let ghost before = dirs@.dom();
        let ghost short = name@.take(i as int);
        let ghost long = name@.take(i + 1);
        if name[i] == '/' {
            let key = string_of_range(name, 0, i + 1);
            dirs.insert(key, ());
            assert(name@.subrange(0, i + 1) =~= long);
        }
        proof {
            assert forall|d: Seq<char>| slash_prefixes(long).contains(d) == (slash_prefixes(
                short,
            ).contains(d) || (name@[i as int] == '/' && d == long)) by {
                if slash_prefixes(long).contains(d) {
                    let x = choose|x: int| is_slash_prefix(long, d, x);
                    if x < i {
                        assert(long.take(x + 1) =~= short.take(x + 1));
                        assert(is_slash_prefix(short, d, x));
                    } else {
                        assert(long.take(i + 1) =~= long);
                    }
                }
                if slash_prefixes(short).contains(d) {
                    let x = choose|x: int| is_slash_prefix(short, d, x);
                    assert(long.take(x + 1) =~= short.take(x + 1));
                    assert(is_slash_prefix(long, d, x));
                }
                if name@[i as int] == '/' && d == long {
                    assert(long.take(i + 1) =~= long);
                    assert(is_slash_prefix(long, d, i as int));
                }
            }
            assert(dirs@.dom() =~= old(dirs)@.dom().union(slash_prefixes(long)));
        }
        i = i + 1;
    }
    assert(name@.take(name.len() as int) =~= name@);
}

/// Reading and asking for the kind of a name agree. Where reading gives
/// content, the name is a file. Where reading finds no entry, the name is
/// a directory or is unknown.
pub proof fn read_agrees_with_file_type(zip: Zip, p: Seq<char>)
    ensures
        zip.content(p) is Ok ==> zip.kind_of(p) == Ok::<FileType, Error>(FileType::File),
        zip.content(p) == Err::<Seq<u8>, Error>(Error::EntryNotFound) ==> zip.kind_of(p) == Ok::<
            FileType,
            Error,
        >(FileType::Directory) || zip.kind_of(p) == Err::<FileType, Error>(Error::EntryNotFound),
{
}

/// In the index of any list of entries, every directory's name ends in a
/// slash, and for every file each part of its name that ends in a slash
/// is a directory.
pub proof fn index_dirs_cover_files(items: Seq<(Seq<char>, Option<Entry>)>)
    ensures
        forall|d: Seq<char>| #[trigger]
            index_of(items).dirs.contains(d) ==> d.len() > 0 && d.last() == '/',
        forall|name: Seq<char>, i: int|
            index_of(items).files.contains_key(name) && 0 <= i < name.len() && name[i] == '/'
                ==> index_of(items).dirs.contains(#[trigger] name.take(i + 1)),
    decreases items.len(),
{
    if items.len() > 0 {
        let before = index_of(items.drop_last());
        let after = index_of(items);
        let added = normalized(items.last().0);
        index_dirs_cover_files(items.drop_last());
        assert forall|d: Seq<char>| #[trigger] after.dirs.contains(d) implies d.len() > 0
            && d.last() == '/' by {
            if !before.dirs.contains(d) {
                let x = choose|x: int| is_slash_prefix(added, d, x);
                assert(d.last() == added[x]);
            }
        }
        assert forall|name: Seq<char>, i: int|
            after.files.contains_key(name) && 0 <= i < name.len() && name[i] == '/' implies after.dirs.contains(
            #[trigger] name.take(i + 1),
        ) by {
            if before.files.contains_key(name) {
                assert(before.dirs.contains(name.take(i + 1)));
            } else {
                assert(name == added);
                assert(is_slash_prefix(added, name.take(i + 1), i));
            }
        }
    }
}

} // verus!
