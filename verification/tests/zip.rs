use pnp::fs::{Error, FileType};
use pnp::zip::{list_zip_entries, Compression, Entry, Zip};

struct Member {
    name: &'static str,
    content: Vec<u8>,
    method: u16,
    extra: usize,
    comment: usize,
}

fn stored(name: &'static str, content: &str) -> Member {
    Member { name, content: content.as_bytes().to_vec(), method: 0, extra: 0, comment: 0 }
}

fn deflated(name: &'static str, content: &str) -> Member {
    Member {
        name,
        content: miniz_oxide::deflate::compress_to_vec(content.as_bytes(), 6),
        method: 8,
        extra: 0,
        comment: 0,
    }
}

fn dir(name: &'static str) -> Member {
    Member { name, content: Vec::new(), method: 0, extra: 0, comment: 0 }
}

fn put16(out: &mut Vec<u8>, v: usize) {
    out.extend_from_slice(&(v as u16).to_le_bytes());
}

fn put32(out: &mut Vec<u8>, v: usize) {
    out.extend_from_slice(&(v as u32).to_le_bytes());
}

fn archive(members: &[Member]) -> Vec<u8> {
    let mut out: Vec<u8> = Vec::new();
    let mut starts: Vec<usize> = Vec::new();
    for m in members {
        starts.push(out.len());
        put32(&mut out, 0x04034b50);
        put16(&mut out, 20);
        put16(&mut out, 0);
        put16(&mut out, m.method as usize);
        put32(&mut out, 0);
        put32(&mut out, 0);
        put32(&mut out, m.content.len());
        put32(&mut out, m.content.len());
        put16(&mut out, m.name.len());
        put16(&mut out, 3);
        out.extend_from_slice(m.name.as_bytes());
        out.extend_from_slice(&[7, 7, 7]);
        out.extend_from_slice(&m.content);
    }
    let directory = out.len();
    for (m, start) in members.iter().zip(starts.iter()) {
        put32(&mut out, 0x02014b50);
        put16(&mut out, 20);
        put16(&mut out, 20);
        put16(&mut out, 0);
        put16(&mut out, m.method as usize);
        put32(&mut out, 0);
        put32(&mut out, 0);
        put32(&mut out, m.content.len());
        put32(&mut out, m.content.len());
        put16(&mut out, m.name.len());
        put16(&mut out, m.extra);
        put16(&mut out, m.comment);
        put16(&mut out, 0);
        put16(&mut out, 0);
        put32(&mut out, 0);
        put32(&mut out, *start);
        out.extend_from_slice(m.name.as_bytes());
        out.extend(std::iter::repeat(1u8).take(m.extra));
        out.extend(std::iter::repeat(2u8).take(m.comment));
    }
    let size = out.len() - directory;
    put32(&mut out, 0x06054b50);
    put16(&mut out, 0);
    put16(&mut out, 0);
    put16(&mut out, members.len());
    put16(&mut out, members.len());
    put32(&mut out, size);
    put32(&mut out, directory);
    put16(&mut out, 0);
    out
}

const PACKAGE_JSON: &str = "{\n  \"name\": \"@babel/plugin-syntax-dynamic-import\",\n  \"version\": \"7.8.3\",\n  \"description\": \"Allow parsing of import()\",\n  \"repository\": \"https://github.com/babel/babel/tree/master/packages/babel-plugin-syntax-dynamic-import\",\n  \"license\": \"MIT\",\n  \"publishConfig\": {\n    \"access\": \"public\"\n  },\n  \"main\": \"lib/index.js\",\n  \"keywords\": [\n    \"babel-plugin\"\n  ],\n  \"dependencies\": {\n    \"@babel/helper-plugin-utils\": \"^7.8.0\"\n  },\n  \"peerDependencies\": {\n    \"@babel/core\": \"^7.0.0-0\"\n  },\n  \"devDependencies\": {\n    \"@babel/core\": \"^7.8.0\"\n  }\n}\n";

fn babel() -> Zip {
    let members = [
        dir("node_modules/"),
        dir("node_modules/@babel/"),
        dir("node_modules/@babel/plugin-syntax-dynamic-import/"),
        deflated("node_modules/@babel/plugin-syntax-dynamic-import/LICENSE", "MIT License\n"),
        deflated("node_modules/@babel/plugin-syntax-dynamic-import/README.md", "# readme\n"),
        stored("node_modules/@babel/plugin-syntax-dynamic-import/lib/index.js", "exports.x = 1;\n"),
        deflated("node_modules/@babel/plugin-syntax-dynamic-import/package.json", PACKAGE_JSON),
    ];
    Zip::new(archive(&members)).unwrap()
}

#[test]
fn test_zip_type_api() {
    let zip = babel();
    assert_eq!(zip.file_type("node_modules").unwrap(), FileType::Directory);
    assert_eq!(zip.file_type("node_modules/").unwrap(), FileType::Directory);
}

#[test]
fn test_zip_type_api_not_exist_dir_with_slash() {
    let zip = babel();
    assert_eq!(zip.file_type("not_exists/"), Err(Error::EntryNotFound));
}

#[test]
fn test_zip_type_api_not_exist_dir_without_slash() {
    let zip = babel();
    assert_eq!(zip.file_type("not_exists"), Err(Error::EntryNotFound));
}

#[test]
fn fs_test_zip_list() {
    let zip = babel();
    let mut dirs = zip.dir_names();
    let mut files = zip.file_names();
    dirs.sort();
    files.sort();
    assert_eq!(
        dirs,
        vec![
            "node_modules/",
            "node_modules/@babel/",
            "node_modules/@babel/plugin-syntax-dynamic-import/",
            "node_modules/@babel/plugin-syntax-dynamic-import/lib/",
        ]
    );
    assert_eq!(
        files,
        vec![
            "node_modules/@babel/plugin-syntax-dynamic-import/LICENSE",
            "node_modules/@babel/plugin-syntax-dynamic-import/README.md",
            "node_modules/@babel/plugin-syntax-dynamic-import/lib/index.js",
            "node_modules/@babel/plugin-syntax-dynamic-import/package.json",
        ]
    );
}

#[test]
fn pnp_fs_test_zip_list() {
    let zip = babel();

    let mut dirs: Vec<String> = zip.dir_names();
    let mut files: Vec<String> = zip.file_names();

    dirs.sort();
    files.sort();

    assert_eq!(dirs, vec![
        "node_modules/",
        "node_modules/@babel/",
        "node_modules/@babel/plugin-syntax-dynamic-import/",
        "node_modules/@babel/plugin-syntax-dynamic-import/lib/",
    ]);

    assert_eq!(files, vec![
        "node_modules/@babel/plugin-syntax-dynamic-import/LICENSE",
        "node_modules/@babel/plugin-syntax-dynamic-import/README.md",
        "node_modules/@babel/plugin-syntax-dynamic-import/lib/index.js",
        "node_modules/@babel/plugin-syntax-dynamic-import/package.json",
    ]);
}

#[test]
fn test_zip_read() {
    let zip = babel();
    let res = zip
        .read_to_string("node_modules/@babel/plugin-syntax-dynamic-import/package.json")
        .unwrap();
    assert_eq!(res, PACKAGE_JSON);
}

#[test]
fn read_gives_stored_bytes_as_they_are() {
    let zip = babel();
    let name = "node_modules/@babel/plugin-syntax-dynamic-import/lib/index.js";
    assert_eq!(zip.read(name).unwrap(), b"exports.x = 1;\n".to_vec());
    assert_eq!(zip.file_type(name).unwrap(), FileType::File);
    let entry = zip.entry(name).unwrap();
    assert_eq!(entry.compression, Compression::Uncompressed);
    assert_eq!(entry.size, 15);
}

#[test]
fn read_of_unknown_names_finds_nothing() {
    let zip = babel();
    assert_eq!(zip.read("nope"), Err(Error::EntryNotFound));
    assert_eq!(zip.read("node_modules"), Err(Error::EntryNotFound));
    assert_eq!(zip.read_to_string("nope"), Err(Error::EntryNotFound));
    assert_eq!(zip.file_type("node_modules/@babel/plugin-syntax-dynamic-import/LICENSE/"), Err(Error::EntryNotFound));
}

#[test]
fn entry_offsets_follow_the_local_header() {
    let bytes = archive(&[stored("a.txt", "hello")]);
    let items = list_zip_entries(&bytes).unwrap();
    assert_eq!(
        items,
        vec![(
            "a.txt".to_string(),
            Some(Entry { compression: Compression::Uncompressed, offset: 30 + 5 + 3, size: 5 })
        )]
    );
}

#[test]
fn names_are_normalized_and_later_entries_win() {
    let bytes = archive(&[stored("./a//b.txt", "one"), stored("a/b.txt", "two"), stored("x/../c", "c")]);
    let zip = Zip::new(bytes).unwrap();
    assert_eq!(zip.file_names(), vec!["a/b.txt", "c"]);
    assert_eq!(zip.dir_names(), vec!["a/"]);
    assert_eq!(zip.read("a/b.txt").unwrap(), b"two".to_vec());
}

#[test]
fn directories_with_extra_fields_and_comments_are_skipped_whole() {
    let mut d = dir("d/");
    d.extra = 4;
    d.comment = 5;
    let zip = Zip::new(archive(&[d, stored("d/e/f", "f")])).unwrap();
    assert_eq!(zip.dir_names(), vec!["d/", "d/e/"]);
    assert_eq!(zip.file_names(), vec!["d/e/f"]);
}

#[test]
fn a_name_that_can_be_read_is_a_file() {
    let zip = Zip::new(archive(&[stored("foo", "x"), stored("foo/bar", "y")])).unwrap();
    assert_eq!(zip.read("foo").unwrap(), b"x".to_vec());
    assert_eq!(zip.file_type("foo").unwrap(), FileType::File);
    assert_eq!(zip.file_type("foo/").unwrap(), FileType::Directory);
    assert!(zip.is_dir("foo"));
    assert_eq!(zip.file_type("foo/bar").unwrap(), FileType::File);
    for name in zip.file_names() {
        assert!(zip.read(&name).is_ok());
        assert_eq!(zip.file_type(&name).unwrap(), FileType::File);
    }
}

#[test]
fn empty_archive_opens() {
    let zip = Zip::new(archive(&[])).unwrap();
    assert!(zip.file_names().is_empty());
    assert!(zip.dir_names().is_empty());
}

#[test]
fn archives_without_end_record_are_malformed() {
    assert_eq!(Zip::new(Vec::new()).err(), Some(Error::MalformedArchive));
    assert_eq!(Zip::new(vec![0u8; 64]).err(), Some(Error::MalformedArchive));
    assert_eq!(list_zip_entries(&vec![1u8; 21]), Err(Error::MalformedArchive));
}

#[test]
fn truncated_directory_is_malformed() {
    let mut bytes = archive(&[stored("a.txt", "hello")]);
    let at = bytes.len() - 22 + 16;
    let len = bytes.len() as u32;
    bytes[at..at + 4].copy_from_slice(&(len - 2).to_le_bytes());
    assert_eq!(Zip::new(bytes).err(), Some(Error::MalformedArchive));
}

#[test]
fn other_compression_methods_fail_the_open() {
    let mut m = stored("a.txt", "hello");
    m.method = 12;
    assert_eq!(Zip::new(archive(&[m])).err(), Some(Error::UnsupportedCompression));
}

#[test]
fn names_that_are_no_utf8_fail_the_open() {
    let mut bytes = archive(&[stored("a.txt", "hello")]);
    let directory = 30 + 5 + 3 + 5;
    bytes[directory + 46] = 0xff;
    assert_eq!(Zip::new(bytes).err(), Some(Error::Utf8Error));
}

#[test]
fn broken_deflate_data_is_a_decompression_error() {
    let mut m = stored("a.bin", "this is not deflate data at all");
    m.method = 8;
    let zip = Zip::new(archive(&[m])).unwrap();
    assert_eq!(zip.read("a.bin"), Err(Error::DecompressionError));
}

#[test]
fn content_that_is_no_utf8_is_reported() {
    let m = Member { name: "bin", content: vec![0xff, 0xfe], method: 0, extra: 0, comment: 0 };
    let zip = Zip::new(archive(&[m])).unwrap();
    assert_eq!(zip.read("bin").unwrap(), vec![0xff, 0xfe]);
    assert_eq!(zip.read_to_string("bin"), Err(Error::Utf8Error));
}

#[test]
fn entries_beyond_the_archive_are_malformed() {
    let mut bytes = archive(&[stored("a.txt", "hello")]);
    let directory = 30 + 5 + 3 + 5;
    bytes[directory + 20..directory + 24].copy_from_slice(&5000u32.to_le_bytes());
    let zip = Zip::new(bytes).unwrap();
    assert_eq!(zip.read("a.txt"), Err(Error::MalformedArchive));
}

#[test]
fn names_beyond_ascii_are_read() {
    let zip = Zip::new(archive(&[stored("dossier/été.txt", "chaud")])).unwrap();
    assert_eq!(zip.file_names(), vec!["dossier/été.txt"]);
    assert_eq!(zip.dir_names(), vec!["dossier/"]);
    assert_eq!(zip.read_to_string("dossier/été.txt").unwrap(), "chaud");
    assert!(zip.is_file("dossier/été.txt"));
    assert!(!zip.is_file("dossier"));
    assert!(zip.is_dir("dossier"));
}
