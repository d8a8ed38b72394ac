//! The cache of opened archives.

use crate::fs::{Error, FileType};
use crate::zip::Zip;
use vstd::prelude::*;

verus! {

/// `concurrent_lru::sharded::LruCache`, a cache that threads may share.
#[verifier::external_type_specification]
#[verifier::external_body]
#[verifier::reject_recursive_types(K)]
#[verifier::reject_recursive_types(V)]
#[verifier::reject_recursive_types(S)]
pub struct ExLruCache<K, V, S>(concurrent_lru::sharded::LruCache<K, V, S>);

/// `concurrent_lru::sharded::CacheHandle`, which keeps a value in the cache
/// for as long as the handle lives.
#[verifier::external_type_specification]
#[verifier::external_body]
#[verifier::reject_recursive_types(K)]
#[verifier::reject_recursive_types(V)]
pub struct ExCacheHandle<'a, K: std::hash::Hash + Eq + Clone, V>(
    concurrent_lru::sharded::CacheHandle<'a, K, V>,
);

/// The archive that a handle of the cache keeps in the cache.
pub uninterp spec fn held(handle: concurrent_lru::sharded::CacheHandle<String, Zip>) -> Zip;

/// A cache of opened archives by path. It opens an archive when it is first
/// asked for, and keeps no more than its capacity of those that are not in
/// use.
pub struct LruZipCache<O: Fn(&str) -> Result<Zip, Error>> {
    lru: concurrent_lru::sharded::LruCache<String, Zip>,
    open: O,
}

/// `LruCache::new`: an empty cache for `capacity` archives.
#[verifier::external_body]
fn new_cache(capacity: u64) -> concurrent_lru::sharded::LruCache<String, Zip>
    requires
        capacity <= u64::MAX - 15,
{
    concurrent_lru::sharded::LruCache::new(capacity)
}

/// `LruCache::get_or_try_init`: a handle on the archive that the cache
/// keeps for `path`, which counts for `charge` of the cache's capacity. An
/// archive that the cache keeps is one that its opener gave for that path;
/// where it keeps none the opener is asked, and its failure is handed on
/// and not kept.
#[verifier::external_body]
fn get_or_open<'a, O: Fn(&str) -> Result<Zip, Error>>(
    cache: &'a LruZipCache<O>,
    path: &str,
    charge: u64,
) -> (r: Result<concurrent_lru::sharded::CacheHandle<'a, String, Zip>, Error>)
    requires
        charge > 0,
        forall|p: &str| #[trigger] cache.opener().requires((p,)),
    ensures
        match r {
            Ok(handle) => cache.opened(path@, held(handle)),
            Err(e) => cache.refused(path@, e),
        },
{
    cache.lru.get_or_try_init(path.to_string(), charge, |p| (cache.open)(p.as_str()))
}

/// `CacheHandle::value`: the archive that a handle keeps in the cache.
#[verifier::external_body]
fn value_of<'h, 'a>(handle: &'h concurrent_lru::sharded::CacheHandle<'a, String, Zip>) -> (zip: &'h Zip)
    ensures
        *zip == held(*handle),
{
    handle.value()
}

impl<O: Fn(&str) -> Result<Zip, Error>> LruZipCache<O> {
    /// The function by which the cache opens archives.
    pub closed spec fn opener(&self) -> O {
        self.open
    }

    /// Whether the opener may give `zip` for `path`: its contract allows
    /// that result for a path of that text.
    pub open spec fn opened(&self, path: Seq<char>, zip: Zip) -> bool {
        exists|p: &str| p@ == path && #[trigger] self.opener().ensures((p,), Ok(zip))
    }

    /// Whether the opener may fail with `e` for `path`: its contract allows
    /// that failure for a path of that text.
    pub open spec fn refused(&self, path: Seq<char>, e: Error) -> bool {
        exists|p: &str| p@ == path && #[trigger] self.opener().ensures((p,), Err(e))
    }

    /// The opener can be asked for every path, and the archives that it
    /// gives are well formed.
    pub open spec fn wf(&self) -> bool {
        &&& forall|p: &str| #[trigger] self.opener().requires((p,))
        &&& forall|p: &str, zip: Zip| #[trigger]
            self.opener().ensures((p,), Ok(zip)) ==> zip.wf()
    }
}

/// A cache of opened archives: it shows the archive at a path to whoever
/// asks, and answers for the names inside it.
pub trait ZipCache {
    /// Whether the cache can be asked.
    spec fn ready(&self) -> bool;

    /// Whether `zip` is an archive that the cache may show for `path`.
    spec fn shows(&self, path: Seq<char>, zip: Zip) -> bool;

    /// Whether `e` is a failure that opening `path` may end in.
    spec fn fails(&self, path: Seq<char>, e: Error) -> bool;

    /// What `p` names in the archive at `zip_path`.
    fn file_type(&self, zip_path: &str, p: &str) -> (r: Result<FileType, Error>)
        requires
            self.ready(),
        ensures
            (exists|zip: Zip| #[trigger] self.shows(zip_path@, zip) && r == zip.kind_of(p@)) || (
            r matches Err(e) && self.fails(zip_path@, e)),
    ;

    /// The content of the file `p` of the archive at `zip_path`.
    fn read(&self, zip_path: &str, p: &str) -> (r: Result<Vec<u8>, Error>)
        requires
            self.ready(),
        ensures
            (exists|zip: Zip| #[trigger] self.shows(zip_path@, zip) && bytes_view(r) == zip.content(p@))
                || (r matches Err(e) && self.fails(zip_path@, e)),
    ;

    /// The content of the file `p` of the archive at `zip_path`, as text.
    fn read_to_string(&self, zip_path: &str, p: &str) -> (r: Result<String, Error>)
        requires
            self.ready(),
        ensures
            (exists|zip: Zip| #[trigger] self.shows(zip_path@, zip) && string_view(r) == zip.text(p@))
                || (r matches Err(e) && self.fails(zip_path@, e)),
    ;
}

/// The view of bytes that were read, or of the failure to read them.
pub open spec fn bytes_view(r: Result<Vec<u8>, Error>) -> Result<Seq<u8>, Error> {
    match r {
        Ok(bytes) => Ok(bytes@),
        Err(e) => Err(e),
    }
}

/// The view of a text that was read, or of the failure to read it.
pub open spec fn string_view(r: Result<String, Error>) -> Result<Seq<char>, Error> {
    match r {
        Ok(text) => Ok(text@),
        Err(e) => Err(e),
    }
}

impl<O: Fn(&str) -> Result<Zip, Error>> LruZipCache<O> {
    /// A cache for `n` archives that opens them with `open`.
    pub fn new(n: u64, open: O) -> (cache: Self)
        requires
            n <= u64::MAX - 15,
            forall|p: &str| #[trigger] open.requires((p,)),
            forall|p: &str, zip: Zip| #[trigger] open.ensures((p,), Ok(zip)) ==> zip.wf(),
        ensures
            cache.opener() == open,
            cache.wf(),
    {
        LruZipCache { lru: new_cache(n), open }
    }

    /// Opens the archive at `p` if the cache does not keep it, then calls
    /// `cb` on it while the cache keeps it. The archive that `cb` sees is
    /// one that the opener gave for `p`, now or when it was first asked
    /// for; a failure is the opener's, and `cb` is then not called.
    pub fn act<T, F: FnOnce(&Zip) -> T>(&self, p: &str, cb: F) -> (r: Result<T, Error>)
        requires
            self.wf(),
            forall|zip: &Zip| zip.wf() ==> #[trigger] cb.requires((zip,)),
        ensures
            match r {
                Ok(t) => exists|zip: &Zip|
                    (#[trigger] zip.wf()) && self.opened(p@, *zip) && cb.ensures((zip,), t),
                Err(e) => self.refused(p@, e),
            },
    {
        let handle = match get_or_open(self, p, 1) {
            Ok(handle) => handle,
            Err(e) => {
                return Err(e);
            },
        };
        let zip = value_of(&handle);
        proof {
            self.lemma_opened_wf(p@, *zip);
        }
        let t = cb(zip);
        assert(zip.wf() && self.opened(p@, *zip) && cb.ensures((zip,), t));
        Ok(t)
    }

    /// An archive that the opener gave is well formed.
    pub proof fn lemma_opened_wf(&self, path: Seq<char>, zip: Zip)
        requires
            self.wf(),
            self.opened(path, zip),
        ensures
            zip.wf(),
    {
    }
}

impl<O: Fn(&str) -> Result<Zip, Error>> ZipCache for LruZipCache<O> {
    open spec fn ready(&self) -> bool {
        self.wf()
    }

    open spec fn shows(&self, path: Seq<char>, zip: Zip) -> bool {
        self.opened(path, zip)
    }

    open spec fn fails(&self, path: Seq<char>, e: Error) -> bool {
        self.refused(path, e)
    }

    fn file_type(&self, zip_path: &str, p: &str) -> (r: Result<FileType, Error>) {
        let asked = |zip: &Zip| -> (kind: Result<FileType, Error>)
            requires
                zip.wf(),
            ensures
                kind == zip.kind_of(p@),
            { zip.file_type(p) };
        let found = self.act(zip_path, asked);
        proof {
            if found is Ok {
                let w = choose|zip: &Zip|
                    (#[trigger] zip.wf()) && self.opened(zip_path@, *zip) && asked.ensures(
                        (zip,),
                        found->Ok_0,
                    );
                assert(self.shows(zip_path@, *w));
            }
        }
        match found {
            Ok(kind) => kind,
            Err(e) => Err(e),
        }
    }

    fn read(&self, zip_path: &str, p: &str) -> (r: Result<Vec<u8>, Error>) {
        let asked = |zip: &Zip| -> (content: Result<Vec<u8>, Error>)
            requires
                zip.wf(),
            ensures
                bytes_view(content) == zip.content(p@),
            { zip.read(p) };
        let found = self.act(zip_path, asked);
        proof {
            if found is Ok {
                let w = choose|zip: &Zip|
                    (#[trigger] zip.wf()) && self.opened(zip_path@, *zip) && asked.ensures(
                        (zip,),
                        found->Ok_0,
                    );
                assert(self.shows(zip_path@, *w));
            }
        }
        match found {
            Ok(content) => content,
            Err(e) => Err(e),
        }
    }

    fn read_to_string(&self, zip_path: &str, p: &str) -> (r: Result<String, Error>) {
        let asked = |zip: &Zip| -> (text: Result<String, Error>)
            requires
                zip.wf(),
            ensures
                string_view(text) == zip.text(p@),
            { zip.read_to_string(p) };
        let found = self.act(zip_path, asked);
        proof {
            if found is Ok {
                let w = choose|zip: &Zip|
                    (#[trigger] zip.wf()) && self.opened(zip_path@, *zip) && asked.ensures(
                        (zip,),
                        found->Ok_0,
                    );
                assert(self.shows(zip_path@, *w));
            }
        }
        match found {
            Ok(text) => text,
            Err(e) => Err(e),
        }
    }
}

} // verus!
