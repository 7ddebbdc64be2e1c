//! Requests to the mount. An open file is stood for by its content.

use fuse_stripped_notebooks::attr::{FileKind, SourceMeta};
use fuse_stripped_notebooks::fs::{
    readlink, Child, DirEntry, Errno, Mode, NotebookFs, OpenPlan, ReadPlan, Reading,
    NOTEBOOK_HANDLE, ROOT,
};
use fuse_stripped_notebooks::session::{next_step, Step};
use fuse_stripped_notebooks::transfer::{ReadEvent, ReadStep, Transfer};

type Mount = NotebookFs<&'static str>;

const SAMPLE: &str = r##"{
 "cells": [
  {
   "cell_type": "markdown",
   "metadata": {},
   "source": ["# Test notebook\n", "Sample for integration tests."]
  },
  {
   "cell_type": "code",
   "execution_count": 7,
   "metadata": {"collapsed": false},
   "outputs": [
    {"name": "stdout", "output_type": "stream", "text": ["hello\n"]}
   ],
   "source": ["msg = \"hello\"\n", "print(msg)"]
  }
 ],
 "metadata": {"kernelspec": {"name": "python3"}},
 "nbformat": 4,
 "nbformat_minor": 5
}
"##;

const EXPECTED_PYTHON_SCRIPT: &str =
    "\"\"\"\n# Test notebook\nSample for integration tests.\n\"\"\"\nmsg = \"hello\"\nprint(msg)\n# ---\n";

const O_RDONLY: i32 = 0;
const O_WRONLY: i32 = 1;
const O_RDWR: i32 = 2;
const EACCES: i32 = 13;
const O_NONBLOCK: i32 = 0o4000;
const O_PATH: i32 = 0o10000000;

fn mount(mode: Mode) -> Mount {
    NotebookFs::new(b"/src".to_vec(), mode)
}

fn meta(kind: FileKind, len: u64) -> SourceMeta {
    SourceMeta {
        kind: Some(kind),
        len,
        blocks: 1,
        atime: 1,
        atime_nsec: 0,
        mtime: 50,
        mtime_nsec: 60,
        ctime: 3,
        ctime_nsec: 0,
        mode: 0o100666,
        nlink: 1,
        uid: 4,
        gid: 5,
        rdev: 0,
        blksize: 512,
    }
}

fn reading(mtime: i64, raw: Option<&[u8]>) -> Reading {
    Reading {
        mtime: Some((mtime, 60)),
        raw: raw.map(|r| r.to_vec()),
    }
}

fn none() -> Reading {
    Reading { mtime: None, raw: None }
}

fn find(fs: &mut Mount, parent: u64, name: &str, kind: FileKind) -> u64 {
    let path = fs.lookup(parent, name.as_bytes()).unwrap();
    fs.lookup_found(path, Some(meta(kind, 5))).unwrap()
}

fn child(name: &str, kind: Option<FileKind>) -> Child {
    Child { name: name.as_bytes().to_vec(), kind }
}

fn names(entries: &[DirEntry]) -> Vec<String> {
    entries
        .iter()
        .map(|e| String::from_utf8(e.name.clone()).unwrap())
        .collect()
}

/// Reads from an open file, two bytes at a time.
fn content(file: &str, offset: usize, size: u32) -> Vec<u8> {
    let mut rest = &file.as_bytes()[offset..];
    let mut transfer = Transfer::new(size);
    loop {
        let (piece, behind) = rest.split_at(rest.len().min(transfer.wanted()).min(2));
        rest = behind;
        if transfer.step(ReadEvent::Got(piece.to_vec())) == Ok(ReadStep::Done) {
            return transfer.finish();
        }
    }
}

#[test]
fn root_is_known() {
    let fs = mount(Mode::StripOutputs);
    assert_eq!(fs.path_of(ROOT), Ok(b"/src".to_vec()));
    assert_eq!(fs.path_of(2), Err(Errno::ENOENT));
    assert_eq!(fs.known_ino(b"/src/"), Some(ROOT));
}

#[test]
fn lookup_gives_numbers_in_order_and_keeps_them() {
    let mut fs = mount(Mode::StripOutputs);
    assert_eq!(fs.lookup(ROOT, b"a.txt"), Ok(b"/src/a.txt".to_vec()));
    assert_eq!(find(&mut fs, ROOT, "a.txt", FileKind::RegularFile), 2);
    assert_eq!(find(&mut fs, ROOT, "sub", FileKind::Directory), 3);
    assert_eq!(find(&mut fs, 3, "a.txt", FileKind::RegularFile), 4);
    assert_eq!(find(&mut fs, ROOT, "a.txt", FileKind::Directory), 2);
    assert_eq!(
        fs.assign_or_lookup_ino(b"/src/./a.txt".to_vec(), None),
        Some((2, FileKind::RegularFile))
    );
    assert_eq!(fs.path_of(4), Ok(b"/src/sub/a.txt".to_vec()));
}

#[test]
fn lookup_errors() {
    let mut fs = mount(Mode::StripOutputs);
    assert_eq!(fs.lookup(17, b"a"), Err(Errno::ENOENT));
    assert_eq!(fs.lookup_found(b"/src/a".to_vec(), None), Err(Errno::ENOENT));
    let mut odd = meta(FileKind::Socket, 0);
    odd.kind = None;
    assert_eq!(fs.lookup_found(b"/src/a".to_vec(), Some(odd)), Err(Errno::EIO));
    assert_eq!(fs.known_ino(b"/src/a"), None);
}

#[test]
fn lists_directory_entries() {
    let mut fs = mount(Mode::StripOutputs);
    let children = vec![
        child("sample.txt", Some(FileKind::RegularFile)),
        child("sample.ipynb", Some(FileKind::RegularFile)),
        child("gone", None),
    ];
    let entries = fs.readdir(ROOT, children, 0).unwrap();
    assert_eq!(names(&entries), vec![".", "..", "sample.txt", "sample.ipynb"]);
    let mut files = names(&entries[2..]);
    files.sort();
    assert_eq!(files, vec!["sample.ipynb", "sample.txt"]);
    assert_eq!(entries.iter().map(|e| e.ino).collect::<Vec<u64>>(), vec![1, 1, 2, 3]);
    assert_eq!(
        entries.iter().map(|e| e.next_offset).collect::<Vec<u64>>(),
        vec![1, 2, 3, 4]
    );
    assert_eq!(entries[1].kind, FileKind::Directory);
    assert_eq!(entries[2].kind, FileKind::RegularFile);
}

#[test]
fn listing_again_needs_no_kinds() {
    let mut fs = mount(Mode::StripOutputs);
    let files = [("a.txt", FileKind::RegularFile), ("sub", FileKind::Directory)];
    let known = files.iter().map(|(name, kind)| child(name, Some(*kind))).collect();
    let first = fs.readdir(ROOT, known, 0).unwrap();
    let again = files.iter().map(|(name, _)| child(name, None)).collect();
    let second = fs.readdir(ROOT, again, 0).unwrap();
    assert_eq!(names(&second), vec![".", "..", "a.txt", "sub"]);
    let shown = |entries: &[DirEntry]| -> Vec<(u64, FileKind)> {
        entries.iter().map(|e| (e.ino, e.kind)).collect()
    };
    assert_eq!(shown(&first), shown(&second));
    assert_eq!(shown(&second)[3], (3, FileKind::Directory));
}

#[test]
fn listing_goes_on_at_an_offset() {
    let mut fs = mount(Mode::StripOutputs);
    let children = || vec![child("a", Some(FileKind::Symlink)), child("b", None)];
    let b = find(&mut fs, ROOT, "b", FileKind::Socket);
    let rest = fs.readdir(ROOT, children(), 2).unwrap();
    assert_eq!(names(&rest), vec!["a", "b"]);
    assert_eq!(rest[0].next_offset, 3);
    assert_eq!(rest[1].ino, b);
    assert_eq!(rest[1].kind, FileKind::Socket);
    let again = fs.readdir(ROOT, children(), 3).unwrap();
    assert_eq!(names(&again), vec!["b"]);
    assert!(fs.readdir(ROOT, children(), 4).unwrap().is_empty());
    assert!(fs.readdir(ROOT, children(), u64::MAX).unwrap().is_empty());
    assert!(matches!(fs.readdir(40, children(), 0), Err(Errno::ENOENT)));
}

#[test]
fn the_parent_directory_is_listed() {
    let mut fs = mount(Mode::StripOutputs);
    let sub = find(&mut fs, ROOT, "sub", FileKind::Directory);
    let inner = find(&mut fs, sub, "inner", FileKind::Directory);
    let entries = fs.readdir(inner, Vec::new(), 0).unwrap();
    assert_eq!(entries.iter().map(|e| e.ino).collect::<Vec<u64>>(), vec![inner, sub]);
    let entries = fs.readdir(sub, Vec::new(), 0).unwrap();
    assert_eq!(entries.iter().map(|e| e.ino).collect::<Vec<u64>>(), vec![sub, ROOT]);
}

#[test]
fn txt_size_and_content_unchanged() {
    let mut fs = mount(Mode::StripOutputs);
    let ino = find(&mut fs, ROOT, "sample.txt", FileKind::RegularFile);
    let attr = fs
        .getattr(ino, Some(meta(FileKind::RegularFile, 5)), none())
        .unwrap();
    assert_eq!(attr.size, 5);
    assert_eq!(attr.ino, ino);
    assert_eq!(attr.perm, 0o444);
    assert!(matches!(
        fs.open(ino, O_RDONLY),
        Ok(OpenPlan::Passthrough(path)) if path == b"/src/sample.txt"
    ));
    let fh = fs.open_file(Ok("hello")).unwrap();
    let file = match fs.read(ino, fh) {
        Ok(ReadPlan::Passthrough(file)) => *file,
        _ => panic!("a text file is read as it is"),
    };
    assert_eq!(content(file, 0, 4096), b"hello".to_vec());
    assert_eq!(content(file, 1, 3), b"ell".to_vec());
}

#[test]
fn preserves_uid_gid_and_timestamps() {
    let mut fs = mount(Mode::StripOutputs);
    for name in ["sample.txt", "sample.ipynb"] {
        let ino = find(&mut fs, ROOT, name, FileKind::RegularFile);
        let source = meta(FileKind::RegularFile, 5);
        let attr = fs
            .getattr(ino, Some(source), reading(50, Some(SAMPLE.as_bytes())))
            .unwrap();
        assert_eq!(source.uid, attr.uid, "uid mismatch for {name}");
        assert_eq!(source.gid, attr.gid, "gid mismatch for {name}");
        assert_eq!(source.mtime as u64, attr.mtime.secs, "mtime mismatch for {name}");
        assert_eq!(
            source.mtime_nsec as u32, attr.mtime.nanos,
            "mtime nsec mismatch for {name}"
        );
        assert_eq!(source.ctime as u64, attr.ctime.secs, "ctime mismatch for {name}");
        assert_eq!(attr.ctime, attr.crtime);
    }
}

#[test]
fn getattr_errors() {
    let mut fs = mount(Mode::StripOutputs);
    let m = meta(FileKind::RegularFile, 5);
    assert_eq!(fs.getattr(8, Some(m), none()), Err(Errno::ENOENT));
    assert_eq!(fs.getattr(ROOT, None, none()), Err(Errno::EIO));
    let ino = find(&mut fs, ROOT, "a.ipynb", FileKind::RegularFile);
    assert_eq!(fs.getattr(ino, Some(m), none()), Err(Errno::EIO));
    assert_eq!(fs.getattr(ino, Some(m), reading(1, None)), Err(Errno::EIO));
    assert_eq!(fs.getattr(ino, Some(m), reading(1, Some(b"{"))), Err(Errno::EIO));
    assert_eq!(fs.getattr(ino, Some(m), reading(1, Some(b"[]"))), Err(Errno::EIO));
}

#[test]
fn ipynb_strip_size_matches_read_and_drops_outputs() {
    let mut fs = mount(Mode::StripOutputs);
    let ino = find(&mut fs, ROOT, "sample.ipynb", FileKind::RegularFile);
    let source_size = SAMPLE.len() as u64;
    let attr = fs
        .getattr(
            ino,
            Some(meta(FileKind::RegularFile, source_size)),
            reading(50, Some(SAMPLE.as_bytes())),
        )
        .unwrap();
    let bytes = fs.read_notebook(ino, reading(50, None), 0, 4096).unwrap();
    assert_eq!(
        attr.size,
        bytes.len() as u64,
        "size reported by stat must match bytes actually returned"
    );
    assert!(attr.size < source_size);
    let json: serde_json::Value =
        serde_json::from_slice(&bytes).expect("stripped ipynb is valid JSON");
    let cells = json["cells"].as_array().expect("cells is an array");
    let mut saw_code_cell = false;
    for cell in cells {
        if cell["cell_type"] == "code" {
            saw_code_cell = true;
            assert_eq!(
                cell["outputs"],
                serde_json::Value::Array(Vec::new()),
                "code-cell outputs must be empty after strip"
            );
            assert!(
                cell["execution_count"].is_null(),
                "code-cell execution_count must be null after strip"
            );
        }
    }
    assert!(saw_code_cell, "fixture should include at least one code cell");
}

#[test]
fn ipynb_python_script_mode_produces_expected_bytes() {
    let mut fs = mount(Mode::PythonScript);
    let ino = find(&mut fs, ROOT, "sample.ipynb", FileKind::RegularFile);
    let attr = fs
        .getattr(
            ino,
            Some(meta(FileKind::RegularFile, SAMPLE.len() as u64)),
            reading(50, Some(SAMPLE.as_bytes())),
        )
        .unwrap();
    let bytes = fs.read_notebook(ino, reading(50, None), 0, 4096).unwrap();
    assert_eq!(attr.size, bytes.len() as u64);
    let actual = std::str::from_utf8(&bytes).expect("python script is UTF-8");
    assert_eq!(actual, EXPECTED_PYTHON_SCRIPT);
    assert_eq!(fs.read_notebook(ino, reading(50, None), 4, 6), Ok(b"# Test".to_vec()));
    assert_eq!(fs.read_notebook(ino, reading(50, None), 999, 3), Ok(Vec::new()));
}

#[test]
fn content_is_kept_until_the_source_is_modified() {
    let mut fs = mount(Mode::PythonScript);
    let ino = find(&mut fs, ROOT, "a.ipynb", FileKind::RegularFile);
    assert!(fs.needs_raw(ino, (1, 60)));
    assert_eq!(fs.get_or_transform(ino, reading(1, Some(SAMPLE.as_bytes()))), Ok(&EXPECTED_PYTHON_SCRIPT.as_bytes().to_vec()));
    assert!(!fs.needs_raw(ino, (1, 60)));
    assert!(fs.needs_raw(ino, (1, 61)));
    assert!(fs.needs_raw(ino, (2, 60)));
    assert_eq!(fs.get_or_transform(ino, reading(1, Some(b"{}"))), Ok(&EXPECTED_PYTHON_SCRIPT.as_bytes().to_vec()));
    assert_eq!(fs.get_or_transform(ino, none()), Err(Errno::EIO));
    assert!(!fs.needs_raw(ino, (1, 60)));
    assert_eq!(fs.get_or_transform(ino, reading(2, Some(b"{}"))), Ok(&Vec::new()));
    assert_eq!(fs.get_or_transform(ino, reading(3, None)), Err(Errno::EIO));
    assert!(fs.needs_raw(ino, (2, 60)));
}

#[test]
fn write_to_txt_is_rejected() {
    let mut fs = mount(Mode::StripOutputs);
    let ino = find(&mut fs, ROOT, "sample.txt", FileKind::RegularFile);
    assert!(matches!(fs.open(ino, O_WRONLY), Err(Errno::EROFS)));
    assert!(matches!(fs.open(ino, O_RDWR | O_NONBLOCK), Err(Errno::EROFS)));
    assert!(matches!(fs.open(77, O_WRONLY), Err(Errno::EROFS)));
    assert!(matches!(fs.open(ino, O_RDONLY | O_NONBLOCK), Ok(OpenPlan::Passthrough(_))));
    assert!(matches!(fs.open(ino, O_WRONLY | O_RDWR), Ok(OpenPlan::Passthrough(_))));
}

#[test]
fn write_to_ipynb_is_rejected() {
    let mut fs = mount(Mode::StripOutputs);
    let ino = find(&mut fs, ROOT, "sample.ipynb", FileKind::RegularFile);
    assert!(matches!(fs.open(ino, O_WRONLY), Err(Errno::EROFS)));
    assert!(matches!(fs.open(ino, O_RDWR), Err(Errno::EROFS)));
}

#[test]
fn opening_a_notebook() {
    let mut fs = mount(Mode::StripOutputs);
    let ino = find(&mut fs, ROOT, "a.ipynb", FileKind::RegularFile);
    assert!(matches!(
        fs.open(ino, O_RDONLY),
        Ok(OpenPlan::Notebook(path)) if path == b"/src/a.ipynb"
    ));
    assert!(matches!(fs.open(77, O_RDONLY), Err(Errno::ENOENT)));
    assert_eq!(fs.open_notebook(ino, reading(1, Some(SAMPLE.as_bytes()))), Ok(NOTEBOOK_HANDLE));
    assert_eq!(fs.open_notebook(ino, none()), Err(Errno::EIO));
    assert!(matches!(
        fs.read(ino, NOTEBOOK_HANDLE),
        Ok(ReadPlan::Notebook(path)) if path == b"/src/a.ipynb"
    ));
    assert_eq!(fs.read_notebook(ino, reading(9, Some(b"x")), 0, 9), Err(Errno::EIO));
}

#[test]
fn unreadable_source_stays_unreadable_through_the_mount() {
    let mut fs = mount(Mode::StripOutputs);
    let ino = find(&mut fs, ROOT, "secret.txt", FileKind::RegularFile);
    assert!(matches!(
        fs.open(ino, O_RDONLY),
        Ok(OpenPlan::Passthrough(path)) if path == b"/src/secret.txt"
    ));
    assert_eq!(fs.open_file(Err(Errno::Os(EACCES))), Err(Errno::Os(EACCES)));
    assert_eq!(fs.open_file(Ok("f")), Ok(1));
}

#[test]
fn handles() {
    let mut fs = mount(Mode::StripOutputs);
    let ino = find(&mut fs, ROOT, "a", FileKind::RegularFile);
    let one = fs.open_file(Ok("one")).unwrap();
    let two = fs.open_file(Ok("two")).unwrap();
    assert_eq!((one, two), (1, 2));
    fs.release(one);
    fs.release(99);
    assert!(matches!(fs.read(ino, one), Err(Errno::EBADF)));
    assert!(matches!(fs.read(ino, two), Ok(ReadPlan::Passthrough(&"two"))));
    assert!(matches!(fs.read(50, two), Err(Errno::ENOENT)));
    assert_eq!(fs.open_file(Ok("three")), Ok(3));
}

#[test]
fn links() {
    assert_eq!(readlink(Some(b"../x".to_vec())), Ok(b"../x".to_vec()));
    assert_eq!(readlink(None), Err(Errno::EIO));
}

#[test]
fn a_place_in_the_file_system_is_opened_by_its_access() {
    let mut fs = mount(Mode::StripOutputs);
    let ino = find(&mut fs, ROOT, "a.txt", FileKind::RegularFile);
    assert!(matches!(fs.open(ino, O_PATH | O_RDONLY), Ok(OpenPlan::Passthrough(_))));
    assert!(matches!(fs.open(ino, O_PATH | O_WRONLY), Err(Errno::EROFS)));
    assert!(matches!(fs.open(ino, O_PATH | O_RDWR), Err(Errno::EROFS)));
}

#[test]
fn pages_give_every_entry_once() {
    let mut fs = mount(Mode::StripOutputs);
    let files = ["a.txt", "b.ipynb", "c.txt"];
    let listing = |kind: Option<FileKind>| -> Vec<Child> {
        files.iter().map(|name| child(name, kind)).collect()
    };
    let mut seen: Vec<(u64, Vec<u8>)> = Vec::new();
    let mut offset = 0;
    let mut kind = Some(FileKind::RegularFile);
    loop {
        let entries = fs.readdir(ROOT, listing(kind), offset).unwrap();
        kind = None;
        if entries.is_empty() {
            break;
        }
        for entry in entries.into_iter().take(2) {
            offset = entry.next_offset;
            seen.push((entry.ino, entry.name));
        }
        find(&mut fs, ROOT, &format!("new{offset}"), FileKind::RegularFile);
    }
    let whole = fs.readdir(ROOT, listing(None), 0).unwrap();
    let whole: Vec<(u64, Vec<u8>)> = whole.into_iter().map(|e| (e.ino, e.name)).collect();
    assert_eq!(seen, whole);
    assert_eq!(seen.len(), 5);
    assert_eq!(seen[4], (4, b"c.txt".to_vec()));
}

#[test]
fn a_handle_is_not_given_again() {
    let mut fs = mount(Mode::StripOutputs);
    let first = fs.open_file(Ok("a")).unwrap();
    let second = fs.open_file(Ok("b")).unwrap();
    fs.release(first);
    let third = fs.open_file(Ok("c")).unwrap();
    assert_eq!((first, second, third), (1, 2, 3));
}

#[test]
fn the_program_waits_for_a_signal_or_the_end_of_the_mount() {
    assert_eq!(next_step(0, false), Step::Wait);
    assert_eq!(next_step(0, true), Step::Leave);
    assert_eq!(next_step(15, false), Step::Unmount);
    assert_eq!(next_step(2, true), Step::Unmount);
}
