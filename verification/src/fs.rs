//! The state of the mount, and what it answers to each request.
//!
//! The mount itself touches no file. A request that needs the source is answered in steps: a
//! method says which path is to be looked at, the caller looks, and another method takes in
//! what was found.

use std::collections::HashMap;

use fuser::{OpenAccMode, OpenFlags};
use vstd::prelude::*;
use vstd::utf8::*;

use crate::attr;
use crate::attr::{FileAttr, FileKind, SourceMeta};
use crate::json;
use crate::path;
use crate::path::{Components, PathIndex};
use crate::text;
use crate::transfer;
use crate::transform;

verus! {

broadcast use vstd::std_specs::hash::group_hash_axioms;

/// How notebooks are transformed.
#[derive(Clone, Copy, Debug, PartialEq, Eq, Structural)]
pub enum Mode {
    /// The notebook without output cells and execution counts.
    StripOutputs,
    /// The content of code and prose cells, as a Python script.
    PythonScript,
}

/// Why a request is refused.
#[derive(Clone, Copy, Debug, PartialEq, Eq, Structural)]
pub enum Errno {
    /// There is no such file.
    ENOENT,
    /// The source could not be read, or not be transformed.
    EIO,
    /// The mount cannot be written to.
    EROFS,
    /// No file is open under this handle.
    EBADF,
    /// What the operating system reported.
    Os(i32),
}

/// The inode number of the source directory.
pub const ROOT: u64 = 1;

/// The handle under which every notebook is open.
pub const NOTEBOOK_HANDLE: u64 = 0;

/// A file of the source that has an inode number.
struct InodeEntry {
    real_path: Vec<u8>,
    kind: FileKind,
}

/// A transformed notebook, and when its source was last modified.
struct CachedContent {
    data: Vec<u8>,
    mtime_sec: i64,
    mtime_nsec: i64,
}

/// What was found of a notebook on disk.
#[derive(Debug)]
pub struct Reading {
    /// When the file was last modified, in seconds and nanoseconds; `None` if that could not
    /// be found out.
    pub mtime: Option<(i64, i64)>,
    /// The content of the file; `None` if it was not read, or could not be.
    pub raw: Option<Vec<u8>>,
}

/// A file in a directory of the source.
#[derive(Debug)]
pub struct Child {
    pub name: Vec<u8>,
    /// The kind of the file, if it has no inode number yet; `None` if it could not be found out.
    pub kind: Option<FileKind>,
}

/// An entry of a directory of the mount.
#[derive(Debug)]
pub struct DirEntry {
    pub ino: u64,
    /// Where to go on reading the directory behind this entry.
    pub next_offset: u64,
    pub kind: FileKind,
    pub name: Vec<u8>,
}

/// What a request opens.
#[derive(Debug)]
pub enum OpenPlan {
    /// A notebook at this path.
    Notebook(Vec<u8>),
    /// The file at this path, as it is.
    Passthrough(Vec<u8>),
}

/// What a request reads from.
pub enum ReadPlan<'a, F> {
    /// A notebook at this path.
    Notebook(Vec<u8>),
    /// The open file, as it is.
    Passthrough(&'a F),
}

/// What a file is opened for.
#[derive(Clone, Copy, Debug, PartialEq, Eq, Structural)]
pub enum Access {
    Read,
    Write,
    ReadWrite,
}

/// The mount. `F` is an open file of the source.
#[verifier::reject_recursive_types(F)]
pub struct NotebookFs<F> {
    source: Vec<u8>,
    mode: Mode,
    next_ino: u64,
    inodes: HashMap<u64, InodeEntry>,
    path_index: PathIndex,
    content_cache: HashMap<u64, CachedContent>,
    open_files: HashMap<u64, F>,
    next_fh: u64,
}

/// A file with an inode number.
#[verifier::ext_equal]
pub struct Inode {
    pub path: Seq<u8>,
    pub kind: FileKind,
}

/// A transformed notebook that is kept.
#[verifier::ext_equal]
pub struct Cached {
    pub data: Seq<u8>,
    pub mtime: (i64, i64),
}

/// The state of the mount.
#[verifier::ext_equal]
#[verifier::reject_recursive_types(F)]
pub struct FsView<F> {
    pub source: Seq<u8>,
    pub mode: Mode,
    pub inodes: Map<u64, Inode>,
    pub next_ino: u64,
    pub cache: Map<u64, Cached>,
    pub open_files: Map<u64, F>,
    pub next_fh: u64,
}

/// What the flags of `open` say that the file is opened for: their lowest two bits.
pub open spec fn access(flags: i32) -> Access {
    if flags & 3 == 1 {
        Access::Write
    } else if flags & 3 == 2 {
        Access::ReadWrite
    } else {
        Access::Read
    }
}

/// The flag of `open` that asks for a place in the file system and not for the file.
pub const O_PATH: i32 = 0o10000000;

/// `fuser::OpenFlags::acc_mode`: it looks at the bits of `O_ACCMODE`, and takes a combination that
/// has no meaning for reading. These are the lowest two bits, and where libc is that of musl the
/// bit of `O_PATH` too, which is not to be set here.
#[verifier::external_body]
fn access_of(flags: i32) -> (r: Access)
    requires
        flags & O_PATH == 0,
    ensures
        r == access(flags),
{
    match OpenFlags(flags).acc_mode() {
        OpenAccMode::O_RDONLY => Access::Read,
        OpenAccMode::O_WRONLY => Access::Write,
        OpenAccMode::O_RDWR => Access::ReadWrite,
    }
}

/// An entry of a directory: a file and its name there.
#[verifier::ext_equal]
pub struct Entry {
    pub ino: u64,
    pub kind: FileKind,
    pub name: Seq<u8>,
}

/// What the mount shows for a notebook with the content `raw`; `None` if it cannot be
/// transformed.
pub open spec fn transformed(mode: Mode, raw: Seq<u8>) -> Option<Seq<u8>> {
    match mode {
        Mode::StripOutputs => transform::stripped_text(raw),
        Mode::PythonScript => match json::parsed_json(raw) {
            Some(notebook) => Some(encode_utf8(transform::script(notebook))),
            None => None,
        },
    }
}

/// The data is free of outputs: it is the text, or the script, of a notebook that has none.
pub open spec fn is_clean(mode: Mode, data: Seq<u8>) -> bool {
    match mode {
        Mode::StripOutputs => json::parsed_json(data) matches Some(notebook)
            && transform::outputs_cleared(notebook),
        Mode::PythonScript => exists|notebook: json::JsonTree| #[trigger]
            transform::outputs_cleared(notebook) && data == encode_utf8(
                transform::script(notebook),
            ),
    }
}

/// The data is what the mount shows for some notebook.
pub open spec fn is_shown(mode: Mode, data: Seq<u8>) -> bool {
    (exists|raw: Seq<u8>| #[trigger] transformed(mode, raw) == Some(data)) && is_clean(mode, data)
}

impl<F> FsView<F> {
    /// Inode numbers are given out one after the other, the source directory has the first, and
    /// no two belong to the same path. Handles are given out one after the other.
    pub open spec fn numbered(self) -> bool {
        &&& self.inodes.contains_key(ROOT)
        &&& self.inodes[ROOT] == (Inode { path: self.source, kind: FileKind::Directory })
        &&& forall|ino: u64| #[trigger]
            self.inodes.contains_key(ino) <==> ROOT <= ino < self.next_ino
        &&& forall|a: u64, b: u64|
            #![trigger self.inodes.contains_key(a), self.inodes.contains_key(b)]
            self.inodes.contains_key(a) && self.inodes.contains_key(b) && path::components(
                self.inodes[a].path,
            ) == path::components(self.inodes[b].path) ==> a == b
        &&& forall|fh: u64| #[trigger]
            self.open_files.contains_key(fh) ==> NOTEBOOK_HANDLE < fh < self.next_fh
        &&& NOTEBOOK_HANDLE < self.next_fh
    }

    /// Inode numbers and handles are as they should be, and what is kept of notebooks is
    /// transformed.
    pub open spec fn consistent(self) -> bool {
        &&& self.numbered()
        &&& forall|ino: u64| #[trigger]
            self.cache.contains_key(ino) ==> is_shown(self.mode, self.cache[ino].data)
    }

    /// The inode `ino` belongs to the path with these components.
    pub open spec fn is_ino_of(self, ino: u64, c: Components) -> bool {
        self.inodes.contains_key(ino) && path::components(self.inodes[ino].path) == c
    }

    /// The inode number of the path with these components.
    pub open spec fn ino_of(self, c: Components) -> Option<u64> {
        if exists|ino: u64| self.is_ino_of(ino, c) {
            Some(choose|ino: u64| self.is_ino_of(ino, c))
        } else {
            None
        }
    }

    /// The inode number and kind of the file at `path`, which `kind` tells if it is new. A new
    /// file whose kind is unknown gets no number, and neither does any when they run out.
    pub open spec fn assign(self, path: Seq<u8>, kind: Option<FileKind>) -> (
        FsView<F>,
        Option<(u64, FileKind)>,
    ) {
        match self.ino_of(path::components(path)) {
            Some(ino) => (self, Some((ino, self.inodes[ino].kind))),
            None => match kind {
                Some(kind) => if self.next_ino < u64::MAX {
                    (
                        FsView {
                            inodes: self.inodes.insert(self.next_ino, Inode { path, kind }),
                            next_ino: (self.next_ino + 1) as u64,
                            ..self
                        },
                        Some((self.next_ino, kind)),
                    )
                } else {
                    (self, None)
                },
                None => (self, None),
            },
        }
    }

    /// The inode number of the directory that the file `ino` is in. That of the source
    /// directory, and of a directory that has no number, is the source directory.
    pub open spec fn parent_ino(self, ino: u64) -> u64 {
        if ino == ROOT {
            ROOT
        } else {
            match path::parent(path::components(self.inodes[ino].path)) {
                Some(c) => match self.ino_of(c) {
                    Some(parent) => parent,
                    None => ROOT,
                },
                None => ROOT,
            }
        }
    }

    /// The entries of the files `children` in the directory `dir`, which get inode numbers if
    /// they have none. A file that gets none has no entry.
    pub open spec fn list(self, dir: Seq<u8>, children: Seq<Child>) -> (FsView<F>, Seq<Entry>)
        decreases children.len(),
    {
        if children.len() == 0 {
            (self, seq![])
        } else {
            let (state, entries) = self.list(dir, children.drop_last());
            let child = children.last();
            let (next, found) = state.assign(path::joined(dir, child.name@), child.kind);
            match found {
                Some((ino, kind)) => (next, entries.push(Entry { ino, kind, name: child.name@ })),
                None => (next, entries),
            }
        }
    }

    /// All entries of the directory `ino` with the files `children`: itself, the directory that
    /// it is in, and the files.
    pub open spec fn entries(self, ino: u64, children: Seq<Child>) -> (FsView<F>, Seq<Entry>) {
        let (state, files) = self.list(self.inodes[ino].path, children);
        let own = Entry { ino, kind: FileKind::Directory, name: encode_utf8("."@) };
        let up = Entry {
            ino: self.parent_ino(ino),
            kind: FileKind::Directory,
            name: encode_utf8(".."@),
        };
        (state, seq![own, up] + files)
    }

    /// The handle under which `file` is open from now on. There is an error when the handles run
    /// out.
    pub open spec fn hold(self, file: F) -> (FsView<F>, Result<u64, Errno>) {
        if self.next_fh < u64::MAX {
            (
                FsView {
                    open_files: self.open_files.insert(self.next_fh, file),
                    next_fh: (self.next_fh + 1) as u64,
                    ..self
                },
                Ok(self.next_fh),
            )
        } else {
            (self, Err(Errno::EIO))
        }
    }

    /// The state in which no file is open under the handle `fh`.
    pub open spec fn close(self, fh: u64) -> FsView<F> {
        FsView { open_files: self.open_files.remove(fh), ..self }
    }

    /// What is kept of the notebook `ino` is from a source last modified at `mtime`.
    pub open spec fn is_fresh(self, ino: u64, mtime: (i64, i64)) -> bool {
        self.cache.contains_key(ino) && self.cache[ino].mtime == mtime
    }

    /// The state in which nothing is kept of the notebook `ino`.
    pub open spec fn forget(self, ino: u64) -> FsView<F> {
        FsView { cache: self.cache.remove(ino), ..self }
    }

    /// What the mount shows for the notebook `ino`: what is kept of it, if its source has not
    /// been modified since, and else its source transformed, which is then kept. Nothing if the
    /// source cannot be read or transformed; what is kept of an older source is then gone.
    pub open spec fn fetch(self, ino: u64, reading: Reading) -> (
        FsView<F>,
        Result<Seq<u8>, Errno>,
    ) {
        match reading.mtime {
            None => (self, Err(Errno::EIO)),
            Some(mtime) => if self.is_fresh(ino, mtime) {
                (self, Ok(self.cache[ino].data))
            } else {
                match reading.raw {
                    None => (self.forget(ino), Err(Errno::EIO)),
                    Some(raw) => match transformed(self.mode, raw@) {
                        None => (self.forget(ino), Err(Errno::EIO)),
                        Some(data) => (
                            FsView {
                                cache: self.cache.insert(ino, Cached { data, mtime }),
                                ..self
                            },
                            Ok(data),
                        ),
                    },
                }
            },
        }
    }
}

impl<F> View for NotebookFs<F> {
    type V = FsView<F>;

    closed spec fn view(&self) -> FsView<F> {
        FsView {
            source: self.source@,
            mode: self.mode,
            inodes: self.inodes@.map_values(
                |e: InodeEntry| Inode { path: e.real_path@, kind: e.kind },
            ),
            next_ino: self.next_ino,
            cache: self.content_cache@.map_values(
                |c: CachedContent|
                    Cached { data: c.data@, mtime: (c.mtime_sec, c.mtime_nsec) },
            ),
            open_files: self.open_files@,
            next_fh: self.next_fh,
        }
    }
}

/// The bytes of `bytes`, once more.
fn copy_of(bytes: &Vec<u8>) -> (r: Vec<u8>)
    ensures
        r@ == bytes@,
{
    let r = bytes.clone();
    assert(r@ =~= bytes@);
    r
}

/// Transforms a notebook with the content `raw`.
pub fn transform_notebook(mode: Mode, raw: &[u8]) -> (r: Result<
    Vec<u8>,
    transform::TransformError,
>)
    ensures
        match r {
            Ok(data) => transformed(mode, raw@) == Some(data@) && is_clean(mode, data@),
            Err(_) => transformed(mode, raw@) is None,
        },
        match (json::parsed_json(raw@), mode) {
            (Some(t), Mode::StripOutputs) => if t is Object || t is Null {
                transform::stripped(t) is Some && r is Ok && r->Ok_0@ == json::written_json(
                    transform::stripped(t)->Some_0,
                )
            } else {
                r is Err
            },
            (Some(t), Mode::PythonScript) => r is Ok && r->Ok_0@ == encode_utf8(
                transform::script(t),
            ),
            (None, _) => r is Err,
        },
{
    match mode {
        Mode::StripOutputs => transform::strip_outputs(raw),
        Mode::PythonScript => {
            let r = transform::to_python_script(raw);
            proof {
                if let Some(notebook) = json::parsed_json(raw@) {
                    transform::law_strip_clears_outputs(notebook);
                    transform::law_script_ignores_outputs(notebook);
                    let clean = match transform::stripped(notebook) {
                        Some(s) => s,
                        None => notebook,
                    };
                    assert(transform::outputs_cleared(clean));
                }
            }
            r
        },
    }
}

impl<F> NotebookFs<F> {
    /// The state is consistent, and the index has the inode number of every path that has one.
    pub closed spec fn wf(self) -> bool {
        &&& self@.consistent()
        &&& forall|ino: u64| #[trigger]
            self@.inodes.contains_key(ino) ==> {
                let c = path::components(self@.inodes[ino].path);
                self.path_index@.contains_key(c) && self.path_index@[c] == ino
            }
        &&& forall|c: Components| #[trigger]
            self.path_index@.contains_key(c) ==> self@.is_ino_of(self.path_index@[c], c)
    }

    /// Every mount is in a consistent state, whatever it has been asked.
    pub proof fn law_state_is_consistent(self)
        requires
            self.wf(),
        ensures
            self@.consistent(),
    {
    }

    /// A mount of the directory `source` of which nothing but that directory is known.
    pub fn new(source: Vec<u8>, mode: Mode) -> (fs: NotebookFs<F>)
        ensures
            fs.wf(),
            fs@ == (FsView::<F> {
                source: source@,
                mode,
                inodes: map![ROOT => Inode { path: source@, kind: FileKind::Directory }],
                next_ino: 2,
                cache: Map::empty(),
                open_files: Map::empty(),
                next_fh: 1,
            }),
    {
        let mut inodes: HashMap<u64, InodeEntry> = HashMap::new();
        let mut path_index = PathIndex::new();
        inodes.insert(
            ROOT,
            InodeEntry { real_path: copy_of(&source), kind: FileKind::Directory },
        );
        path_index.insert(source.as_slice(), ROOT);
        let fs = NotebookFs {
            source,
            mode,
            next_ino: 2,
            inodes,
            path_index,
            content_cache: HashMap::new(),
            open_files: HashMap::new(),
            next_fh: 1,
        };
        proof {
            assert(fs@.inodes =~= map![ROOT => Inode { path: source@, kind: FileKind::Directory }]);
            assert(fs@.cache =~= Map::empty());
            assert(fs@.open_files =~= Map::empty());
        }
        fs
    }

    /// The inode number of `path`.
    pub fn known_ino(&self, path: &[u8]) -> (r: Option<u64>)
        requires
            self.wf(),
        ensures
            r == self@.ino_of(path::components(path@)),
    {
        let r = self.path_index.get(path);
        proof {
            let c = path::components(path@);
            if let Some(ino) = r {
                assert(self@.is_ino_of(ino, c));
            }
        }
        r
    }

    /// The inode number and kind of the file at `real_path`. A file that has none gets the next
    /// one and is of the kind given, which is `None` if it could not be found out.
    #[verifier::spinoff_prover]
    pub fn assign_or_lookup_ino(&mut self, real_path: Vec<u8>, kind: Option<FileKind>) -> (r: Option<
        (u64, FileKind),
    >)
        requires
            old(self).wf(),
        ensures
            final(self).wf(),
            (final(self)@, r) == old(self)@.assign(real_path@, kind),
    {
        if let Some(ino) = self.known_ino(real_path.as_slice()) {
            assert(self@.is_ino_of(ino, path::components(real_path@)));
            return match self.inodes.get(&ino) {
                Some(entry) => Some((ino, entry.kind)),
                None => None,
            };
        }
        let kind: FileKind = match kind {
            Some(kind) => kind,
            None => {
                return None;
            },
        };
        if self.next_ino == u64::MAX {
            return None;
        }
        let ino: u64 = self.next_ino;
        self.next_ino = ino + 1;
        self.path_index.insert(real_path.as_slice(), ino);
        self.inodes.insert(ino, InodeEntry { real_path, kind });
        proof {
            let c = path::components(real_path@);
            assert(self@.inodes =~= old(self)@.inodes.insert(ino, Inode { path: real_path@, kind }));
            assert forall|a: u64| #[trigger] self@.inodes.contains_key(a) && a != ino implies path::components(
                self@.inodes[a].path,
            ) != c by {
                if path::components(self@.inodes[a].path) == c {
                    assert(old(self)@.is_ino_of(a, c));
                }
            }
            assert(self@.cache == old(self)@.cache && self@.open_files == old(self)@.open_files);
            assert(self@.numbered());
            assert(self@.consistent());
            assert forall|a: u64| #[trigger] self@.inodes.contains_key(a) implies {
                let d = path::components(self@.inodes[a].path);
                self.path_index@.contains_key(d) && self.path_index@[d] == a
            } by {
                if a != ino {
                    assert(old(self)@.inodes.contains_key(a));
                }
            }
            assert forall|d: Components| #[trigger]
                self.path_index@.contains_key(d) implies self@.is_ino_of(self.path_index@[d], d) by {
                if d != c {
                    assert(old(self).path_index@.contains_key(d));
                }
            }
            assert(self.wf());
        }
        Some((ino, kind))
    }

    /// The content of the notebook `ino` has to be read: what is kept of it is not from a source
    /// last modified at `mtime`.
    pub fn needs_raw(&self, ino: u64, mtime: (i64, i64)) -> (r: bool)
        ensures
            r == !self@.is_fresh(ino, mtime),
            r <==> !self@.cache.contains_key(ino) || self@.cache[ino].mtime.0 != mtime.0
                || self@.cache[ino].mtime.1 != mtime.1,
    {
        match self.content_cache.get(&ino) {
            Some(cached) => cached.mtime_sec != mtime.0 || cached.mtime_nsec != mtime.1,
            None => true,
        }
    }

    /// What the mount shows for the notebook `ino`.
    pub fn get_or_transform(&mut self, ino: u64, reading: Reading) -> (r: Result<&Vec<u8>, Errno>)
        requires
            old(self).wf(),
        ensures
            final(self).wf(),
            final(self)@ == old(self)@.fetch(ino, reading).0,
            match r {
                Ok(data) => old(self)@.fetch(ino, reading).1 == Ok::<Seq<u8>, Errno>(data@)
                    && is_shown(old(self)@.mode, data@),
                Err(e) => old(self)@.fetch(ino, reading).1 == Err::<Seq<u8>, Errno>(e),
            },
            reading.mtime matches Some(mtime) ==> reading.raw matches Some(raw) ==> (!old(
                self,
            )@.cache.contains_key(ino) || old(self)@.cache[ino].mtime.0 != mtime.0 || old(
                self,
            )@.cache[ino].mtime.1 != mtime.1) ==> match (
                json::parsed_json(raw@),
                old(self)@.mode,
            ) {
                (Some(t), Mode::StripOutputs) => if t is Object || t is Null {
                    transform::stripped(t) is Some && r is Ok && r->Ok_0@ == json::written_json(
                        transform::stripped(t)->Some_0,
                    )
                } else {
                    r is Err && r->Err_0 == Errno::EIO
                },
                (Some(t), Mode::PythonScript) => r is Ok && r->Ok_0@ == encode_utf8(
                    transform::script(t),
                ),
                (None, _) => r is Err && r->Err_0 == Errno::EIO,
            },
            reading.mtime matches Some(mtime) ==> old(self)@.cache.contains_key(ino) && old(
                self,
            )@.cache[ino].mtime.0 == mtime.0 && old(self)@.cache[ino].mtime.1 == mtime.1 ==> r is Ok
                && r->Ok_0@ == old(self)@.cache[ino].data,
    {
        let mtime: (i64, i64) = match reading.mtime {
            Some(mtime) => mtime,
            None => {
                return Err(Errno::EIO);
            },
        };
        if self.needs_raw(ino, mtime) {
            self.content_cache.remove(&ino);
            assert(self@.cache =~= old(self)@.cache.remove(ino));
            let raw: Vec<u8> = match reading.raw {
                Some(raw) => raw,
                None => {
                    return Err(Errno::EIO);
                },
            };
            let data: Vec<u8> = match transform_notebook(self.mode, raw.as_slice()) {
                Ok(data) => data,
                Err(_) => {
                    return Err(Errno::EIO);
                },
            };
            self.content_cache.insert(
                ino,
                CachedContent { data, mtime_sec: mtime.0, mtime_nsec: mtime.1 },
            );
            assert(self@.cache =~= old(self)@.cache.insert(ino, Cached { data: data@, mtime }));
        }
        match self.content_cache.get(&ino) {
            Some(cached) => Ok(&cached.data),
            None => Err(Errno::EIO),
        }
    }

    /// The path of the file `ino`.
    pub fn path_of(&self, ino: u64) -> (r: Result<Vec<u8>, Errno>)
        ensures
            match r {
                Ok(path) => self@.inodes.contains_key(ino) && path@ == self@.inodes[ino].path,
                Err(e) => !self@.inodes.contains_key(ino) && e == Errno::ENOENT,
            },
    {
        match self.inodes.get(&ino) {
            Some(entry) => Ok(copy_of(&entry.real_path)),
            None => Err(Errno::ENOENT),
        }
    }

    /// The path at which the file `name` in the directory `parent` is to be looked for.
    pub fn lookup(&self, parent: u64, name: &[u8]) -> (r: Result<Vec<u8>, Errno>)
        ensures
            match r {
                Ok(path) => self@.inodes.contains_key(parent) && path@ == path::joined(
                    self@.inodes[parent].path,
                    name@,
                ),
                Err(e) => !self@.inodes.contains_key(parent) && e == Errno::ENOENT,
            },
    {
        match self.inodes.get(&parent) {
            Some(entry) => Ok(path::join(entry.real_path.as_slice(), name)),
            None => Err(Errno::ENOENT),
        }
    }

    /// The inode number of the file that was looked for at `child`, of which `meta` was found.
    pub fn lookup_found(&mut self, child: Vec<u8>, meta: Option<SourceMeta>) -> (r: Result<
        u64,
        Errno,
    >)
        requires
            old(self).wf(),
        ensures
            final(self).wf(),
            match meta {
                None => final(self)@ == old(self)@ && r == Err::<u64, Errno>(Errno::ENOENT),
                Some(meta) => {
                    let (state, found) = old(self)@.assign(child@, meta.kind);
                    &&& final(self)@ == state
                    &&& r == match found {
                        Some((ino, _)) => Ok::<u64, Errno>(ino),
                        None => Err(Errno::EIO),
                    }
                },
            },
    {
        match meta {
            None => Err(Errno::ENOENT),
            Some(meta) => match self.assign_or_lookup_ino(child, meta.kind) {
                Some((ino, _)) => Ok(ino),
                None => Err(Errno::EIO),
            },
        }
    }

    /// The attributes of the file `ino`, of which `meta` was found. The size of a notebook is
    /// that of what the mount shows for it.
    pub fn getattr(&mut self, ino: u64, meta: Option<SourceMeta>, reading: Reading) -> (r: Result<
        FileAttr,
        Errno,
    >)
        requires
            old(self).wf(),
        ensures
            final(self).wf(),
            final(self)@ == if old(self)@.inodes.contains_key(ino) && meta is Some
                && path::names_notebook(old(self)@.inodes[ino].path) {
                old(self)@.fetch(ino, reading).0
            } else {
                old(self)@
            },
            r == if !old(self)@.inodes.contains_key(ino) {
                Err::<FileAttr, Errno>(Errno::ENOENT)
            } else {
                match meta {
                    None => Err(Errno::EIO),
                    Some(meta) => if path::names_notebook(old(self)@.inodes[ino].path) {
                        match old(self)@.fetch(ino, reading).1 {
                            Ok(data) => Ok(attr::attr_of(ino, meta, data.len() as u64)),
                            Err(e) => Err(e),
                        }
                    } else {
                        Ok(attr::attr_of(ino, meta, meta.len))
                    },
                }
            },
    {
        let notebook: bool = match self.inodes.get(&ino) {
            Some(entry) => path::is_notebook(entry.real_path.as_slice()),
            None => {
                return Err(Errno::ENOENT);
            },
        };
        let meta: SourceMeta = match meta {
            Some(meta) => meta,
            None => {
                return Err(Errno::EIO);
            },
        };
        let size: u64 = if notebook {
            match self.get_or_transform(ino, reading) {
                Ok(data) => data.len() as u64,
                Err(e) => {
                    return Err(e);
                },
            }
        } else {
            meta.len
        };
        Ok(attr::metadata_to_fileattr(ino, &meta, size))
    }

    /// The entries of the directory `ino`, in which the files `children` were found, from the
    /// entry `offset` on.
    pub fn readdir(&mut self, ino: u64, children: Vec<Child>, offset: u64) -> (r: Result<
        Vec<DirEntry>,
        Errno,
    >)
        requires
            old(self).wf(),
        ensures
            final(self).wf(),
            match r {
                Ok(entries) => {
                    let (state, all) = old(self)@.entries(ino, children@);
                    &&& old(self)@.inodes.contains_key(ino)
                    &&& final(self)@ == state
                    &&& entries@.len() == if offset <= all.len() {
                        all.len() - offset
                    } else {
                        0
                    }
                    &&& forall|i: int|
                        0 <= i < entries@.len() ==> {
                            let entry = #[trigger] entries@[i];
                            &&& entry.ino == all[offset + i].ino
                            &&& entry.kind == all[offset + i].kind
                            &&& entry.name@ == all[offset + i].name
                            &&& entry.next_offset == offset + i + 1
                        }
                },
                Err(e) => {
                    &&& !old(self)@.inodes.contains_key(ino)
                    &&& final(self)@ == old(self)@
                    &&& e == Errno::ENOENT
                },
            },
    {
        let dir: Vec<u8> = match self.path_of(ino) {
            Ok(path) => path,
            Err(e) => {
                return Err(e);
            },
        };
        let parent: u64 = self.parent_of(ino, dir.as_slice());
        let ghost all_children = children@;
        let mut all: Vec<(u64, FileKind, Vec<u8>)> = Vec::new();
        all.push((ino, FileKind::Directory, text_bytes(".")));
        all.push((parent, FileKind::Directory, text_bytes("..")));
        let mut n: usize = 0;
        assert(all_children.take(0) =~= seq![]);
        while n < children.len()
            invariant
                self.wf(),
                n <= children@.len(),
                children@ == all_children,
                self@ == old(self)@.list(dir@, all_children.take(n as int)).0,
                all@.len() == 2 + old(self)@.list(dir@, all_children.take(n as int)).1.len(),
                all@[0].0 == ino && all@[0].1 == FileKind::Directory && all@[0].2@ == encode_utf8(
                    "."@,
                ),
                all@[1].0 == parent && all@[1].1 == FileKind::Directory && all@[1].2@
                    == encode_utf8(".."@),
                forall|k: int|
                    2 <= k < all@.len() ==> {
                        let entry = old(self)@.list(dir@, all_children.take(n as int)).1[k - 2];
                        (#[trigger] all@[k]).0 == entry.ino && all@[k].1 == entry.kind
                            && all@[k].2@ == entry.name
                    },
            decreases children@.len() - n,
        {
            let name = copy_of(&children[n].name);
            let child_path = path::join(dir.as_slice(), name.as_slice());
            assert(all_children.take(n + 1).drop_last() =~= all_children.take(n as int));
            if let Some((child_ino, child_kind)) = self.assign_or_lookup_ino(
                child_path,
                children[n].kind,
            ) {
                all.push((child_ino, child_kind, name));
            }
            n += 1;
        }
        assert(all_children.take(n as int) =~= all_children);
        let ghost listed = old(self)@.entries(ino, all_children).1;
        let mut entries: Vec<DirEntry> = Vec::new();
        if offset >= all.len() as u64 {
            return Ok(entries);
        }
        let mut i: usize = offset as usize;
        while i < all.len()
            invariant
                offset <= i <= all@.len(),
                entries@.len() == i - offset,
                listed.len() == all@.len(),
                forall|k: int|
                    0 <= k < all@.len() ==> (#[trigger] all@[k]).0 == listed[k].ino && all@[k].1
                        == listed[k].kind && all@[k].2@ == listed[k].name,
                forall|k: int|
                    0 <= k < entries@.len() ==> {
                        let entry = #[trigger] entries@[k];
                        &&& entry.ino == listed[offset + k].ino
                        &&& entry.kind == listed[offset + k].kind
                        &&& entry.name@ == listed[offset + k].name
                        &&& entry.next_offset == offset + k + 1
                    },
            decreases all@.len() - i,
        {
            entries.push(
                DirEntry {
                    ino: all[i].0,
                    next_offset: (i + 1) as u64,
                    kind: all[i].1,
                    name: copy_of(&all[i].2),
                },
            );
            i += 1;
        }
        Ok(entries)
    }

    /// The inode number of the directory that the file `ino` at `path` is in.
    fn parent_of(&self, ino: u64, path: &[u8]) -> (r: u64)
        requires
            self.wf(),
            self@.inodes.contains_key(ino),
            path@ == self@.inodes[ino].path,
        ensures
            r == self@.parent_ino(ino),
    {
        if ino == ROOT {
            return ROOT;
        }
        let found = self.path_index.get_parent(path);
        proof {
            if let Some(c) = path::parent(path::components(path@)) {
                if let Some(parent) = found {
                    assert(self@.is_ino_of(parent, c));
                }
            }
        }
        match found {
            Some(parent) => parent,
            None => ROOT,
        }
    }

    /// What opening the file `ino` with these flags opens. Nothing is opened to be written to.
    pub fn open(&self, ino: u64, flags: i32) -> (r: Result<OpenPlan, Errno>)
        ensures
            if access(flags) != Access::Read {
                r matches Err(e) && e == Errno::EROFS
            } else if !self@.inodes.contains_key(ino) {
                r matches Err(e) && e == Errno::ENOENT
            } else if path::names_notebook(self@.inodes[ino].path) {
                r matches Ok(OpenPlan::Notebook(path)) && path@ == self@.inodes[ino].path
            } else {
                r matches Ok(OpenPlan::Passthrough(path)) && path@ == self@.inodes[ino].path
            },
    {
        let bits: i32 = flags & !O_PATH;
        proof {
            assert((flags & !0o10000000i32) & 0o10000000 == 0) by (bit_vector);
            assert((flags & !0o10000000i32) & 3 == flags & 3) by (bit_vector);
        }
        match access_of(bits) {
            Access::Read => {},
            _ => {
                return Err(Errno::EROFS);
            },
        }
        match self.path_of(ino) {
            Ok(path) => if path::is_notebook(path.as_slice()) {
                Ok(OpenPlan::Notebook(path))
            } else {
                Ok(OpenPlan::Passthrough(path))
            },
            Err(e) => Err(e),
        }
    }

    /// The handle of the notebook `ino`, which is transformed if need be.
    pub fn open_notebook(&mut self, ino: u64, reading: Reading) -> (r: Result<u64, Errno>)
        requires
            old(self).wf(),
        ensures
            final(self).wf(),
            final(self)@ == old(self)@.fetch(ino, reading).0,
            r == match old(self)@.fetch(ino, reading).1 {
                Ok(_) => Ok::<u64, Errno>(NOTEBOOK_HANDLE),
                Err(e) => Err(e),
            },
    {
        match self.get_or_transform(ino, reading) {
            Ok(_) => Ok(NOTEBOOK_HANDLE),
            Err(e) => Err(e),
        }
    }

    /// The handle of a file that was opened, or the error that opening it came to. The handle is
    /// the next one; there is an error when they run out.
    #[verifier::spinoff_prover]
    pub fn open_file(&mut self, opened: Result<F, Errno>) -> (r: Result<u64, Errno>)
        requires
            old(self).wf(),
        ensures
            final(self).wf(),
            match opened {
                Err(e) => final(self)@ == old(self)@ && r == Err::<u64, Errno>(e),
                Ok(file) => (final(self)@, r) == old(self)@.hold(file),
            },
    {
        let file: F = match opened {
            Ok(file) => file,
            Err(e) => {
                return Err(e);
            },
        };
        if self.next_fh == u64::MAX {
            return Err(Errno::EIO);
        }
        let fh: u64 = self.next_fh;
        self.next_fh = fh + 1;
        self.open_files.insert(fh, file);
        proof {
            assert(self@.inodes == old(self)@.inodes);
            assert(self@.cache == old(self)@.cache);
            assert(self@.open_files == old(self)@.open_files.insert(fh, file));
            assert(self@.consistent());
        }
        Ok(fh)
    }

    /// What reading the file `ino` under the handle `fh` reads from.
    pub fn read(&self, ino: u64, fh: u64) -> (r: Result<ReadPlan<'_, F>, Errno>)
        ensures
            if !self@.inodes.contains_key(ino) {
                r matches Err(e) && e == Errno::ENOENT
            } else if path::names_notebook(self@.inodes[ino].path) {
                r matches Ok(ReadPlan::Notebook(path)) && path@ == self@.inodes[ino].path
            } else if self@.open_files.contains_key(fh) {
                r matches Ok(ReadPlan::Passthrough(file)) && *file == self@.open_files[fh]
            } else {
                r matches Err(e) && e == Errno::EBADF
            },
    {
        match self.path_of(ino) {
            Ok(path) => if path::is_notebook(path.as_slice()) {
                Ok(ReadPlan::Notebook(path))
            } else {
                match self.open_files.get(&fh) {
                    Some(file) => Ok(ReadPlan::Passthrough(file)),
                    None => Err(Errno::EBADF),
                }
            },
            Err(e) => Err(e),
        }
    }

    /// The bytes from `offset` on, at most `size` of them, of what the mount shows for the
    /// notebook `ino`.
    pub fn read_notebook(&mut self, ino: u64, reading: Reading, offset: u64, size: u32) -> (r: Result<
        Vec<u8>,
        Errno,
    >)
        requires
            old(self).wf(),
        ensures
            final(self).wf(),
            final(self)@ == old(self)@.fetch(ino, reading).0,
            match old(self)@.fetch(ino, reading).1 {
                Ok(data) => r matches Ok(bytes) && bytes@ == transfer::range_of(
                    data,
                    offset as int,
                    size as int,
                ),
                Err(e) => r == Err::<Vec<u8>, Errno>(e),
            },
    {
        match self.get_or_transform(ino, reading) {
            Ok(data) => Ok(transfer::read_range(data.as_slice(), offset, size)),
            Err(e) => Err(e),
        }
    }

    /// Closes the file that is open under the handle `fh`, if there is one.
    pub fn release(&mut self, fh: u64)
        requires
            old(self).wf(),
        ensures
            final(self).wf(),
            final(self)@ == old(self)@.close(fh),
    {
        self.open_files.remove(&fh);
    }
}

/// The bytes of `s`.
fn text_bytes(s: &str) -> (r: Vec<u8>)
    ensures
        r@ == encode_utf8(s@),
{
    let mut r: Vec<u8> = Vec::new();
    text::push_text(&mut r, s);
    assert(r@ =~= encode_utf8(s@));
    r
}

/// The target of a symbolic link, which is `None` if it could not be read.
pub fn readlink(target: Option<Vec<u8>>) -> (r: Result<Vec<u8>, Errno>)
    ensures
        r == match target {
            Some(target) => Ok::<Vec<u8>, Errno>(target),
            None => Err(Errno::EIO),
        },
{
    match target {
        Some(target) => Ok(target),
        None => Err(Errno::EIO),
    }
}

} // verus!
