use pnp::cache::{LruZipCache, ZipCache};
use pnp::fs::{Error, FileType};
use pnp::zip::Zip;
use std::cell::Cell;

fn put16(out: &mut Vec<u8>, v: usize) {
    out.extend_from_slice(&(v as u16).to_le_bytes());
}

fn put32(out: &mut Vec<u8>, v: usize) {
    out.extend_from_slice(&(v as u32).to_le_bytes());
}

fn archive_of(name: &str, content: &[u8]) -> Vec<u8> {
    let mut out: Vec<u8> = Vec::new();
    put32(&mut out, 0x04034b50);
    out.extend_from_slice(&[0u8; 14]);
    put32(&mut out, content.len());
    put32(&mut out, content.len());
    put16(&mut out, name.len());
    put16(&mut out, 0);
    out.extend_from_slice(name.as_bytes());
    out.extend_from_slice(content);
    let directory = out.len();
    put32(&mut out, 0x02014b50);
    out.extend_from_slice(&[0u8; 16]);
    put32(&mut out, content.len());
    put32(&mut out, content.len());
    put16(&mut out, name.len());
    out.extend_from_slice(&[0u8; 12]);
    put32(&mut out, 0);
    out.extend_from_slice(name.as_bytes());
    let size = out.len() - directory;
    put32(&mut out, 0x06054b50);
    out.extend_from_slice(&[0u8; 8]);
    put32(&mut out, size);
    put32(&mut out, directory);
    put16(&mut out, 0);
    out
}

fn open(path: &str) -> Result<Zip, Error> {
    match path {
        "/a.zip" => Zip::new(archive_of("dir/hello.txt", b"hello")),
        "/b.zip" => Zip::new(archive_of("bin", &[0xff, 0x00])),
        "/broken.zip" => Zip::new(vec![1, 2, 3]),
        other => Err(Error::IOError(format!("no such file: {other}"))),
    }
}

#[test]
fn cache_answers_through_the_archive() {
    let cache = LruZipCache::new(8, open);
    assert_eq!(cache.file_type("/a.zip", "dir").unwrap(), FileType::Directory);
    assert_eq!(cache.file_type("/a.zip", "dir/hello.txt").unwrap(), FileType::File);
    assert_eq!(cache.file_type("/a.zip", "nope"), Err(Error::EntryNotFound));
    assert_eq!(cache.read("/a.zip", "dir/hello.txt").unwrap(), b"hello".to_vec());
    assert_eq!(cache.read_to_string("/a.zip", "dir/hello.txt").unwrap(), "hello");
    assert_eq!(cache.read_to_string("/b.zip", "bin"), Err(Error::Utf8Error));
    assert_eq!(cache.read("/b.zip", "dir/hello.txt"), Err(Error::EntryNotFound));
}

#[test]
fn cache_opens_each_archive_once() {
    let opens = Cell::new(0);
    let counting = |path: &str| {
        opens.set(opens.get() + 1);
        open(path)
    };
    let cache = LruZipCache::new(8, counting);
    for _ in 0..5 {
        assert_eq!(cache.act("/a.zip", |zip| zip.file_names()).unwrap(), vec!["dir/hello.txt"]);
    }
    assert_eq!(opens.get(), 1);
    assert_eq!(cache.act("/b.zip", |zip| zip.file_names().len()).unwrap(), 1);
    assert_eq!(opens.get(), 2);
}

#[test]
fn failed_opens_are_handed_on_and_tried_again() {
    let opens = Cell::new(0);
    let counting = |path: &str| {
        opens.set(opens.get() + 1);
        open(path)
    };
    let cache = LruZipCache::new(8, counting);
    assert_eq!(cache.read("/broken.zip", "x"), Err(Error::MalformedArchive));
    assert_eq!(cache.read("/broken.zip", "x"), Err(Error::MalformedArchive));
    assert_eq!(opens.get(), 2);
    assert_eq!(
        cache.file_type("/missing.zip", "x"),
        Err(Error::IOError("no such file: /missing.zip".to_string()))
    );
}
