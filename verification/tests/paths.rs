//! Paths, attributes and ranges.

use fuse_stripped_notebooks::attr::{
    metadata_to_fileattr, to_system_time, FileKind, SourceMeta, Timestamp,
};
use fuse_stripped_notebooks::fs::Errno;
use fuse_stripped_notebooks::path::{is_notebook, join, PathIndex};
use fuse_stripped_notebooks::transfer::{read_range, ReadEvent, ReadStep, Transfer};

fn meta() -> SourceMeta {
    SourceMeta {
        kind: Some(FileKind::RegularFile),
        len: 12,
        blocks: 8,
        atime: 10,
        atime_nsec: 11,
        mtime: 20,
        mtime_nsec: 21,
        ctime: 30,
        ctime_nsec: 31,
        mode: 0o100644,
        nlink: 1,
        uid: 1000,
        gid: 100,
        rdev: 0,
        blksize: 4096,
    }
}

#[test]
fn notebooks_by_extension() {
    for path in ["a.ipynb", "/x/a.ipynb", "a.b.ipynb", "..ipynb", "x/a.ipynb/", "x/a.ipynb//./"] {
        assert!(is_notebook(path.as_bytes()), "{path}");
        assert_eq!(
            std::path::Path::new(path).extension().map(|e| e == "ipynb"),
            Some(true)
        );
    }
    for path in [
        "", "/", ".", "..", "ipynb", ".ipynb", "x/.ipynb", "a.IPYNB", "a.ipynb.txt", "a.ipynb/b",
        "a.ipynb/..", "a.ipynb ", "aipynb",
    ] {
        assert!(!is_notebook(path.as_bytes()), "{path}");
        assert!(std::path::Path::new(path).extension().map(|e| e == "ipynb") != Some(true));
    }
}

#[test]
fn joining() {
    for (dir, name) in [("a", "b"), ("a/", "b"), ("", "b"), ("/", "b"), ("a", "/b"), ("a", ""), ("a", "..")] {
        let expected = std::path::Path::new(dir).join(name);
        assert_eq!(
            String::from_utf8(join(dir.as_bytes(), name.as_bytes())).unwrap(),
            expected.to_str().unwrap()
        );
    }
}

#[test]
fn index_goes_by_components() {
    let paths = [
        "", "/", ".", "..", "a", "./a", "/a", "a/", "a//", "a/.", "/./a", "a/b", "a//b", "a/./b", "a/../b",
        "ab", "/a/b/", "a/b/c", "./", "//", "a/b/..",
    ];
    for p in paths {
        let mut index = PathIndex::new();
        index.insert(p.as_bytes(), 7);
        for q in paths {
            let same = std::path::Path::new(p) == std::path::Path::new(q);
            assert_eq!(index.get(q.as_bytes()) == Some(7), same, "{p} {q}");
            let parent = std::path::Path::new(q).parent();
            assert_eq!(
                index.get_parent(q.as_bytes()) == Some(7),
                parent == Some(std::path::Path::new(p)),
                "{p} {q}"
            );
        }
    }
}

#[test]
fn index_takes_any_bytes() {
    let mut index = PathIndex::new();
    index.insert(&[0xff, 0x00, 0x2f, 0x80], 1);
    index.insert(&[0xff, 0x2f, 0x80], 2);
    index.insert(&[0xff, 0x00, 0x2f, 0x80], 3);
    assert_eq!(index.get(&[0xff, 0x00, 0x2f, 0x80]), Some(3));
    assert_eq!(index.get(&[0xff, 0x2f, 0x80]), Some(2));
    assert_eq!(index.get(&[0xff]), None);
}

#[test]
fn times() {
    assert_eq!(to_system_time(5, 6), Timestamp { secs: 5, nanos: 6 });
    assert_eq!(to_system_time(-1, 6), Timestamp { secs: 0, nanos: 0 });
    assert_eq!(
        to_system_time(5, 1_000_000_001),
        Timestamp { secs: 6, nanos: 1 }
    );
    assert_eq!(
        to_system_time(0, -1),
        Timestamp { secs: 4, nanos: 294_967_295 }
    );
    assert_eq!(
        to_system_time(i64::MAX, 0),
        Timestamp { secs: i64::MAX as u64, nanos: 0 }
    );
}

#[test]
fn attributes() {
    let attr = metadata_to_fileattr(9, &meta(), 3);
    assert_eq!(attr.ino, 9);
    assert_eq!(attr.size, 3);
    assert_eq!(attr.blocks, 8);
    assert_eq!(attr.kind, FileKind::RegularFile);
    assert_eq!(attr.perm, 0o444);
    assert_eq!(attr.nlink, 1);
    assert_eq!(attr.uid, 1000);
    assert_eq!(attr.gid, 100);
    assert_eq!(attr.atime, Timestamp { secs: 10, nanos: 11 });
    assert_eq!(attr.mtime, Timestamp { secs: 20, nanos: 21 });
    assert_eq!(attr.ctime, Timestamp { secs: 30, nanos: 31 });
    assert_eq!(attr.crtime, attr.ctime);
    assert_eq!(attr.rdev, 0);
    assert_eq!(attr.blksize, 4096);
    assert_eq!(attr.flags, 0);
}

#[test]
fn attributes_of_odd_files() {
    let mut odd = meta();
    odd.kind = None;
    odd.mode = 0o107777;
    odd.nlink = (1 << 32) + 2;
    let attr = metadata_to_fileattr(1, &odd, 0);
    assert_eq!(attr.kind, FileKind::RegularFile);
    assert_eq!(attr.perm, 0o555);
    assert_eq!(attr.nlink, 2);
    odd.kind = Some(FileKind::Symlink);
    assert_eq!(metadata_to_fileattr(1, &odd, 0).kind, FileKind::Symlink);
}

#[test]
fn ranges() {
    let data = b"0123456789";
    assert_eq!(read_range(data, 0, 4), b"0123".to_vec());
    assert_eq!(read_range(data, 8, 4), b"89".to_vec());
    assert_eq!(read_range(data, 10, 4), Vec::<u8>::new());
    assert_eq!(read_range(data, u64::MAX, u32::MAX), Vec::<u8>::new());
    assert_eq!(read_range(data, 3, 0), Vec::<u8>::new());
    let mut both = read_range(data, 0, 7);
    both.extend(read_range(data, 7, 7));
    assert_eq!(both, data.to_vec());
}

#[test]
fn transfer_collects_pieces() {
    let mut t = Transfer::new(5);
    assert_eq!(t.wanted(), 5);
    assert_eq!(t.step(ReadEvent::Got(b"ab".to_vec())), Ok(ReadStep::Again));
    assert_eq!(t.step(ReadEvent::Interrupted), Ok(ReadStep::Again));
    assert_eq!(t.wanted(), 3);
    assert_eq!(t.step(ReadEvent::Got(b"cde".to_vec())), Ok(ReadStep::Again));
    assert_eq!(t.wanted(), 0);
    assert_eq!(t.step(ReadEvent::Got(Vec::new())), Ok(ReadStep::Done));
    assert_eq!(t.finish(), b"abcde".to_vec());
}

#[test]
fn transfer_ends_early_or_fails() {
    let mut t = Transfer::new(5);
    assert_eq!(t.step(ReadEvent::Got(b"ab".to_vec())), Ok(ReadStep::Again));
    assert_eq!(t.step(ReadEvent::Got(Vec::new())), Ok(ReadStep::Done));
    assert_eq!(t.finish(), b"ab".to_vec());
    let mut t = Transfer::new(5);
    assert_eq!(t.step(ReadEvent::Failed), Err(Errno::EIO));
}
