//! What holds of the mount across requests.

use vstd::prelude::*;
use vstd::utf8::*;

use crate::attr::FileKind;
use crate::fs;
use crate::fs::{Child, Entry, Errno, FsView, Mode, Reading, NOTEBOOK_HANDLE, ROOT};
use crate::json;
use crate::path;
use crate::path::Components;
use crate::transfer;
use crate::transform;

verus! {

proof fn lemma_ino_of<F>(state: FsView<F>, ino: u64, c: Components)
    requires
        state.numbered(),
        state.is_ino_of(ino, c),
    ensures
        state.ino_of(c) == Some(ino),
{
    let found = choose|ino: u64| state.is_ino_of(ino, c);
    assert(state.is_ino_of(found, c));
}

/// What is kept of notebooks, the open files, the mode and the source are the same.
pub open spec fn same_but_inodes<F>(a: FsView<F>, b: FsView<F>) -> bool {
    &&& a.cache == b.cache
    &&& a.open_files == b.open_files
    &&& a.next_fh == b.next_fh
    &&& a.mode == b.mode
    &&& a.source == b.source
}

/// Giving a path an inode number keeps the numbers in order, and leaves every file that has one,
/// and everything else, as it is.
pub proof fn law_assign_keeps_inodes<F>(state: FsView<F>, path: Seq<u8>, kind: Option<FileKind>)
    requires
        state.numbered(),
    ensures
        state.assign(path, kind).0.numbered(),
        same_but_inodes(state, state.assign(path, kind).0),
        forall|ino: u64| #[trigger]
            state.inodes.contains_key(ino) ==> state.assign(path, kind).0.inodes.contains_key(ino)
                && state.assign(path, kind).0.inodes[ino] == state.inodes[ino],
        state.assign(path, kind).0.next_ino >= state.next_ino,
{
    let next = state.assign(path, kind).0;
    let c = path::components(path);
    if state.ino_of(c) is None {
        assert forall|a: u64| #[trigger] state.inodes.contains_key(a) implies path::components(
            state.inodes[a].path,
        ) != c by {
            if path::components(state.inodes[a].path) == c {
                assert(state.is_ino_of(a, c));
            }
        }
    }
}

/// The directory that the file `ino` is in has an inode number, if there is one above it.
pub open spec fn parent_is_known<F>(state: FsView<F>, ino: u64) -> bool {
    ino == ROOT || match path::parent(path::components(state.inodes[ino].path)) {
        Some(c) => state.ino_of(c) is Some,
        None => true,
    }
}

/// The directory that a file is in is the one that it was found in.
pub proof fn law_parent_of_child<F>(state: FsView<F>, dir: u64, name: Seq<u8>, child: u64)
    requires
        state.numbered(),
        state.inodes.contains_key(dir),
        state.is_ino_of(child, path::components(path::joined(state.inodes[dir].path, name))),
        child != ROOT,
        path::is_name(name),
        name != seq![path::DOT],
    ensures
        state.parent_ino(child) == dir,
        parent_is_known(state, child),
{
    path::law_join_adds_a_name(state.inodes[dir].path, name);
    let c = path::components(state.inodes[dir].path);
    assert(state.is_ino_of(dir, c));
    lemma_ino_of(state, dir, c);
}

/// What is shown of every text: in one mode the notebook without outputs and execution counts, for
/// every object and for null, of whatever size; in the other its script, for every JSON. There is
/// nothing to show of a text that is no JSON.
pub proof fn law_transformed(raw: Seq<u8>)
    ensures
        match json::parsed_json(raw) {
            Some(t) => {
                &&& t is Object || t is Null ==> transform::stripped(t) is Some && fs::transformed(
                    Mode::StripOutputs,
                    raw,
                ) == Some(json::written_json(transform::stripped(t)->Some_0))
                &&& !(t is Object || t is Null) ==> fs::transformed(Mode::StripOutputs, raw) is None
                &&& fs::transformed(Mode::PythonScript, raw) == Some(
                    encode_utf8(transform::script(t)),
                )
            },
            None => fs::transformed(Mode::StripOutputs, raw) is None && fs::transformed(
                Mode::PythonScript,
                raw,
            ) is None,
        },
{
}

/// What is kept of a notebook is shown exactly if the source was last modified at the very same
/// second and nanosecond; it then stays as it is. Otherwise the source is transformed, and what
/// comes of it is kept with that time. Where there is no content, or none that can be
/// transformed, the request fails and nothing is kept.
pub proof fn law_show<F>(state: FsView<F>, ino: u64, reading: Reading, secs: i64, nanos: i64)
    requires
        reading.mtime == Some((secs, nanos)),
    ensures
        ({
            let (next, r) = state.fetch(ino, reading);
            let same = state.cache.contains_key(ino) && state.cache[ino].mtime.0 == secs
                && state.cache[ino].mtime.1 == nanos;
            &&& same ==> next == state && r == Ok::<Seq<u8>, Errno>(state.cache[ino].data)
            &&& !same ==> match reading.raw {
                None => r == Err::<Seq<u8>, Errno>(Errno::EIO) && !next.cache.contains_key(ino),
                Some(raw) => match fs::transformed(state.mode, raw@) {
                    Some(data) => {
                        &&& r == Ok::<Seq<u8>, Errno>(data)
                        &&& next.cache.contains_key(ino)
                        &&& next.cache[ino].data == data
                        &&& next.cache[ino].mtime.0 == secs
                        &&& next.cache[ino].mtime.1 == nanos
                    },
                    None => r == Err::<Seq<u8>, Errno>(Errno::EIO) && !next.cache.contains_key(ino),
                },
            }
        }),
{
}

/// A notebook whose time of modification cannot be found out is not shown, and the mount stays as
/// it is.
pub proof fn law_no_time_no_show<F>(state: FsView<F>, ino: u64, reading: Reading)
    requires
        reading.mtime is None,
    ensures
        state.fetch(ino, reading).0 == state,
        state.fetch(ino, reading).1 == Err::<Seq<u8>, Errno>(Errno::EIO),
{
}

/// A notebook whose source has been modified is shown as the source now is.
pub proof fn law_modified_notebook_is_transformed<F>(state: FsView<F>, ino: u64, reading: Reading)
    requires
        reading.mtime matches Some(mtime) && (state.cache.contains_key(ino)
            ==> state.cache[ino].mtime.0 != mtime.0 || state.cache[ino].mtime.1 != mtime.1),
        reading.raw is Some,
    ensures
        match fs::transformed(state.mode, reading.raw->Some_0@) {
            Some(data) => state.fetch(ino, reading).1 == Ok::<Seq<u8>, Errno>(data),
            None => state.fetch(ino, reading).1 == Err::<Seq<u8>, Errno>(Errno::EIO),
        },
{
}

/// Showing one notebook leaves what is kept of the others, the inode numbers and the open files
/// as they are.
pub proof fn law_fetch_touches_one_notebook<F>(
    state: FsView<F>,
    ino: u64,
    reading: Reading,
    other: u64,
)
    requires
        other != ino,
    ensures
        ({
            let next = state.fetch(ino, reading).0;
            &&& next.cache.contains_key(other) == state.cache.contains_key(other)
            &&& next.cache.contains_key(other) ==> next.cache[other] == state.cache[other]
            &&& next.inodes == state.inodes && next.next_ino == state.next_ino
            &&& next.open_files == state.open_files && next.next_fh == state.next_fh
            &&& next.mode == state.mode && next.source == state.source
        }),
{
}

/// A file that is opened gets a handle that no file had before and that is no notebook's, and
/// is found under it until it is closed, whatever becomes of other handles.
pub proof fn law_handle_finds_its_file<F>(state: FsView<F>, file: F, other: u64)
    requires
        state.numbered(),
        state.hold(file).1 is Ok,
    ensures
        ({
            let (next, r) = state.hold(file);
            let fh = r->Ok_0;
            &&& next.numbered()
            &&& fh != NOTEBOOK_HANDLE && !state.open_files.contains_key(fh)
            &&& next.open_files.contains_key(fh) && next.open_files[fh] == file
            &&& other != fh ==> next.close(other).open_files.contains_key(fh) && next.close(
                other,
            ).open_files[fh] == file
            &&& !next.close(fh).open_files.contains_key(fh)
            &&& next.close(fh).open_files == state.open_files
            &&& next.close(fh).next_fh > fh
        }),
{
    let (next, r) = state.hold(file);
    assert(next.close(r->Ok_0).open_files =~= state.open_files);
}

/// Opening a file for writing is opening it for something else than reading.
pub proof fn law_write_access_is_no_read_access(flags: i32)
    requires
        flags & 3 == 1 || flags & 3 == 2,
    ensures
        fs::access(flags) != fs::Access::Read,
{
}

/// Listing a directory keeps the numbers in order, and leaves every file that has an inode
/// number, and everything else, as it is.
pub proof fn law_list_keeps_inodes<F>(state: FsView<F>, dir: Seq<u8>, children: Seq<Child>)
    requires
        state.numbered(),
    ensures
        state.list(dir, children).0.numbered(),
        same_but_inodes(state, state.list(dir, children).0),
        forall|ino: u64| #[trigger]
            state.inodes.contains_key(ino) ==> state.list(dir, children).0.inodes.contains_key(ino)
                && state.list(dir, children).0.inodes[ino] == state.inodes[ino],
        state.next_ino <= state.list(dir, children).0.next_ino <= state.next_ino + children.len(),
    decreases children.len(),
{
    if children.len() > 0 {
        law_list_keeps_inodes(state, dir, children.drop_last());
        let child = children.last();
        law_assign_keeps_inodes(
            state.list(dir, children.drop_last()).0,
            path::joined(dir, child.name@),
            child.kind,
        );
    }
}

/// The file `child` of the directory `dir` has an inode number already, or its kind is known.
pub open spec fn can_be_listed<F>(state: FsView<F>, dir: Seq<u8>, child: Child) -> bool {
    child.kind is Some || state.ino_of(path::components(path::joined(dir, child.name@))) is Some
}

/// Every file of a directory is listed, under its name and in order, as long as its kind is
/// known or it has an inode number already, and inode numbers are left.
pub proof fn law_every_file_is_listed<F>(state: FsView<F>, dir: Seq<u8>, children: Seq<Child>)
    requires
        state.numbered(),
        forall|i: int|
            0 <= i < children.len() ==> can_be_listed(state, dir, #[trigger] children[i]),
        state.next_ino + children.len() <= u64::MAX,
    ensures
        state.list(dir, children).1.len() == children.len(),
        forall|i: int|
            0 <= i < children.len() ==> {
                let entry = #[trigger] state.list(dir, children).1[i];
                &&& entry.name == children[i].name@
                &&& state.list(dir, children).0.is_ino_of(
                    entry.ino,
                    path::components(path::joined(dir, children[i].name@)),
                )
                &&& entry.kind == state.list(dir, children).0.inodes[entry.ino].kind
            },
    decreases children.len(),
{
    if children.len() > 0 {
        let rest = children.drop_last();
        assert forall|i: int| 0 <= i < rest.len() implies can_be_listed(
            state,
            dir,
            #[trigger] rest[i],
        ) by {
            assert(can_be_listed(state, dir, children[i]));
        }
        law_every_file_is_listed(state, dir, rest);
        law_list_keeps_inodes(state, dir, rest);
        let (before, entries) = state.list(dir, rest);
        let child = children.last();
        let path = path::joined(dir, child.name@);
        law_assign_keeps_inodes(before, path, child.kind);
        let (next, found) = before.assign(path, child.kind);
        assert(can_be_listed(state, dir, child));
        if let Some(ino) = state.ino_of(path::components(path)) {
            assert(state.is_ino_of(ino, path::components(path)));
            assert(before.is_ino_of(ino, path::components(path)));
        }
        if before.ino_of(path::components(path)) is Some {
            assert(before.is_ino_of(found->Some_0.0, path::components(path)));
        }
        assert(next.is_ino_of(found->Some_0.0, path::components(path)));
        assert forall|i: int| 0 <= i < children.len() implies {
            let entry = #[trigger] state.list(dir, children).1[i];
            &&& entry.name == children[i].name@
            &&& state.list(dir, children).0.is_ino_of(
                entry.ino,
                path::components(path::joined(dir, children[i].name@)),
            )
            &&& entry.kind == state.list(dir, children).0.inodes[entry.ino].kind
        } by {
            if i < rest.len() {
                assert(state.list(dir, children).1[i] == entries[i]);
                assert(rest[i] == children[i]);
                assert(before.inodes.contains_key(entries[i].ino));
            }
        }
    }
}

/// A request, as far as it changes the state of the mount.
pub enum Request<F> {
    /// A file was found at `path`.
    Lookup { path: Seq<u8>, kind: Option<FileKind> },
    /// These files were found in the directory `dir`.
    List { dir: Seq<u8>, children: Seq<Child> },
    /// The notebook `ino` is shown: its attributes, or its content when it is opened or read.
    Show { ino: u64, reading: Reading },
    /// A file that is no notebook is opened.
    Open { file: F },
    /// What is open under a handle is closed.
    Release { fh: u64 },
}

/// The state after a request.
pub open spec fn after<F>(state: FsView<F>, request: Request<F>) -> FsView<F> {
    match request {
        Request::Lookup { path, kind } => state.assign(path, kind).0,
        Request::List { dir, children } => state.list(dir, children).0,
        Request::Show { ino, reading } => state.fetch(ino, reading).0,
        Request::Open { file } => state.hold(file).0,
        Request::Release { fh } => state.close(fh),
    }
}

/// The state after requests, one after the other.
pub open spec fn run<F>(state: FsView<F>, requests: Seq<Request<F>>) -> FsView<F>
    decreases requests.len(),
{
    if requests.len() == 0 {
        state
    } else {
        after(run(state, requests.drop_last()), requests.last())
    }
}

/// `next` can come after `state`: numbers are in order, every file has kept its inode number and
/// kind, no handle that was given out has been given out again, and mode and source are the same.
pub open spec fn grows<F>(state: FsView<F>, next: FsView<F>) -> bool {
    &&& next.numbered()
    &&& forall|ino: u64| #[trigger]
        state.inodes.contains_key(ino) ==> next.inodes.contains_key(ino) && next.inodes[ino]
            == state.inodes[ino]
    &&& state.next_ino <= next.next_ino
    &&& state.next_fh <= next.next_fh
    &&& forall|fh: u64|
        fh < state.next_fh && #[trigger] next.open_files.contains_key(fh)
            ==> state.open_files.contains_key(fh) && next.open_files[fh] == state.open_files[fh]
    &&& next.mode == state.mode
    &&& next.source == state.source
}

/// Whatever the mount is asked, files keep their inode numbers and kinds, and handles are not
/// given out again.
pub proof fn law_requests_keep_numbers<F>(state: FsView<F>, requests: Seq<Request<F>>)
    requires
        state.numbered(),
    ensures
        grows(state, run(state, requests)),
    decreases requests.len(),
{
    if requests.len() > 0 {
        law_requests_keep_numbers(state, requests.drop_last());
        let before = run(state, requests.drop_last());
        match requests.last() {
            Request::Lookup { path, kind } => {
                law_assign_keeps_inodes(before, path, kind);
            },
            Request::List { dir, children } => {
                law_list_keeps_inodes(before, dir, children);
            },
            _ => {},
        }
    }
}

/// A path that has an inode number keeps it and its kind, whatever the mount is asked in between.
pub proof fn law_inode_is_stable<F>(
    state: FsView<F>,
    path: Seq<u8>,
    kind: Option<FileKind>,
    between: Seq<Request<F>>,
    again: Seq<u8>,
    later: Option<FileKind>,
)
    requires
        state.numbered(),
        path::components(again) == path::components(path),
        state.assign(path, kind).1 is Some,
    ensures
        ({
            let end = run(state.assign(path, kind).0, between);
            end.assign(again, later) == (end, state.assign(path, kind).1)
        }),
{
    let (next, found) = state.assign(path, kind);
    let end = run(next, between);
    let ino = found->Some_0.0;
    let c = path::components(path);
    law_assign_keeps_inodes(state, path, kind);
    if state.ino_of(c) is Some {
        assert(state.is_ino_of(ino, c));
    }
    assert(next.is_ino_of(ino, c));
    law_requests_keep_numbers(next, between);
    assert(end.is_ino_of(ino, c));
    lemma_ino_of(end, ino, c);
}

/// Two paths have the same inode number exactly if they have the same components, whatever the
/// mount is asked in between.
pub proof fn law_one_inode_per_path<F>(
    state: FsView<F>,
    path: Seq<u8>,
    kind: Option<FileKind>,
    between: Seq<Request<F>>,
    other: Seq<u8>,
    other_kind: Option<FileKind>,
)
    requires
        state.numbered(),
        state.assign(path, kind).1 is Some,
        run(state.assign(path, kind).0, between).assign(other, other_kind).1 is Some,
    ensures
        state.assign(path, kind).1->Some_0.0 == run(state.assign(path, kind).0, between).assign(
            other,
            other_kind,
        ).1->Some_0.0 <==> path::components(path) == path::components(other),
{
    let (next, found) = state.assign(path, kind);
    let later = run(next, between);
    let (end, found2) = later.assign(other, other_kind);
    let ino = found->Some_0.0;
    let ino2 = found2->Some_0.0;
    law_assign_keeps_inodes(state, path, kind);
    law_requests_keep_numbers(next, between);
    law_assign_keeps_inodes(later, other, other_kind);
    if path::components(path) == path::components(other) {
        law_inode_is_stable(state, path, kind, between, other, other_kind);
    }
    if state.ino_of(path::components(path)) is Some {
        assert(state.is_ino_of(ino, path::components(path)));
    }
    assert(next.is_ino_of(ino, path::components(path)));
    assert(later.is_ino_of(ino, path::components(path)));
    if later.ino_of(path::components(other)) is Some {
        assert(later.is_ino_of(ino2, path::components(other)));
    }
    assert(end.is_ino_of(ino2, path::components(other)));
}

/// No request finds the notebook `ino` modified at another time than `mtime`.
pub open spec fn unmodified<F>(
    requests: Seq<Request<F>>,
    ino: u64,
    mtime: Option<(i64, i64)>,
) -> bool {
    forall|i: int|
        0 <= i < requests.len() ==> ((#[trigger] requests[i]) matches Request::Show {
            ino: other,
            reading,
        } ==> other == ino ==> reading.mtime is None || reading.mtime == mtime)
}

/// What is shown for a notebook stays the same, whatever the mount is asked in between, until the
/// mount finds its source modified: it is shown again without the source being read.
pub proof fn law_content_is_stable<F>(
    state: FsView<F>,
    ino: u64,
    reading: Reading,
    between: Seq<Request<F>>,
    again: Reading,
)
    requires
        state.fetch(ino, reading).1 is Ok,
        unmodified(between, ino, reading.mtime),
        again.mtime == reading.mtime,
    ensures
        ({
            let end = run(state.fetch(ino, reading).0, between);
            end.fetch(ino, again) == (end, state.fetch(ino, reading).1)
        }),
{
    lemma_kept(state.fetch(ino, reading).0, ino, reading.mtime->Some_0, between);
}

/// The size that is shown for a notebook is the number of bytes that reading it gives, whatever
/// the mount is asked in between, as long as it does not find the source modified.
pub proof fn law_size_matches_content<F>(
    state: FsView<F>,
    ino: u64,
    reading: Reading,
    between: Seq<Request<F>>,
    again: Reading,
    size: int,
)
    requires
        state.fetch(ino, reading).1 is Ok,
        unmodified(between, ino, reading.mtime),
        again.mtime == reading.mtime,
        state.fetch(ino, reading).1->Ok_0.len() <= size,
    ensures
        run(state.fetch(ino, reading).0, between).fetch(ino, again).1 matches Ok(data)
            && transfer::range_of(data, 0, size).len() == state.fetch(ino, reading).1->Ok_0.len(),
{
    law_content_is_stable(state, ino, reading, between, again);
}

/// What is kept of a notebook is not touched by requests that find its source unmodified.
proof fn lemma_kept<F>(state: FsView<F>, ino: u64, mtime: (i64, i64), requests: Seq<Request<F>>)
    requires
        state.is_fresh(ino, mtime),
        unmodified(requests, ino, Some(mtime)),
    ensures
        run(state, requests).cache.contains_key(ino),
        run(state, requests).cache[ino] == state.cache[ino],
    decreases requests.len(),
{
    if requests.len() > 0 {
        let rest = requests.drop_last();
        assert forall|i: int| 0 <= i < rest.len() implies ((#[trigger] rest[i]) matches Request::Show {
            ino: other,
            reading,
        } ==> other == ino ==> reading.mtime is None || reading.mtime == Some(mtime)) by {
            assert(rest[i] == requests[i]);
        }
        lemma_kept(state, ino, mtime, rest);
        let before = run(state, rest);
        let request = requests[requests.len() - 1];
        match request {
            Request::List { dir, children } => {
                lemma_list_keeps_cache(before, dir, children);
            },
            _ => {},
        }
    }
}

proof fn lemma_list_keeps_cache<F>(state: FsView<F>, dir: Seq<u8>, children: Seq<Child>)
    ensures
        state.list(dir, children).0.cache == state.cache,
    decreases children.len(),
{
    if children.len() > 0 {
        lemma_list_keeps_cache(state, dir, children.drop_last());
    }
}

/// None of the requests releases the handle `fh`.
pub open spec fn keeps_open<F>(requests: Seq<Request<F>>, fh: u64) -> bool {
    forall|i: int|
        0 <= i < requests.len() ==> (#[trigger] requests[i]) != (Request::<F>::Release { fh })
}

/// A file that is opened is found under its handle, whatever the mount is asked in between, until
/// the handle is released; and no file that is opened later gets the same handle.
pub proof fn law_handle_is_stable<F>(
    state: FsView<F>,
    file: F,
    between: Seq<Request<F>>,
    other: F,
)
    requires
        state.numbered(),
        state.hold(file).1 is Ok,
    ensures
        ({
            let fh = state.hold(file).1->Ok_0;
            let end = run(state.hold(file).0, between);
            &&& keeps_open(between, fh) ==> end.open_files.contains_key(fh) && end.open_files[fh]
                == file
            &&& end.hold(other).1 matches Ok(n) ==> n != fh
        }),
    decreases between.len(),
{
    let fh = state.hold(file).1->Ok_0;
    let start = state.hold(file).0;
    law_requests_keep_numbers(start, between);
    if between.len() > 0 {
        let rest = between.drop_last();
        law_handle_is_stable(state, file, rest, other);
        let before = run(start, rest);
        law_requests_keep_numbers(start, rest);
        if keeps_open(between, fh) {
            assert forall|i: int| 0 <= i < rest.len() implies (#[trigger] rest[i]) != (
            Request::<F>::Release { fh }) by {
                assert(rest[i] == between[i]);
            }
            let request = between[between.len() - 1];
            match request {
                Request::Lookup { path, kind } => {
                    law_assign_keeps_inodes(before, path, kind);
                },
                Request::List { dir, children } => {
                    law_list_keeps_inodes(before, dir, children);
                },
                _ => {},
            }
        }
    }
}

/// The lists name the same files in the same order.
pub open spec fn same_names(a: Seq<Child>, b: Seq<Child>) -> bool {
    a.len() == b.len() && forall|i: int|
        0 <= i < a.len() ==> (#[trigger] a[i]).name@ == b[i].name@
}

/// The entries are those of `children` in `dir`, all of which have inode numbers.
spec fn listed<F>(
    state: FsView<F>,
    dir: Seq<u8>,
    children: Seq<Child>,
    entries: Seq<Entry>,
) -> bool {
    entries.len() == children.len() && forall|i: int|
        0 <= i < children.len() ==> {
            let entry = #[trigger] entries[i];
            &&& entry.name == children[i].name@
            &&& state.is_ino_of(
                entry.ino,
                path::components(path::joined(dir, children[i].name@)),
            )
            &&& entry.kind == state.inodes[entry.ino].kind
        }
}

proof fn lemma_list_known<F>(
    state: FsView<F>,
    dir: Seq<u8>,
    children: Seq<Child>,
    entries: Seq<Entry>,
)
    requires
        state.numbered(),
        listed(state, dir, children, entries),
    ensures
        state.list(dir, children) == (state, entries),
    decreases children.len(),
{
    if children.len() > 0 {
        let rest = children.drop_last();
        assert forall|i: int| 0 <= i < rest.len() implies {
            let entry = #[trigger] entries.drop_last()[i];
            &&& entry.name == rest[i].name@
            &&& state.is_ino_of(entry.ino, path::components(path::joined(dir, rest[i].name@)))
            &&& entry.kind == state.inodes[entry.ino].kind
        } by {
            assert(entries.drop_last()[i] == entries[i]);
        }
        lemma_list_known(state, dir, rest, entries.drop_last());
        let child = children.last();
        let entry = entries[children.len() - 1];
        lemma_ino_of(state, entry.ino, path::components(path::joined(dir, child.name@)));
        assert(entries.drop_last().push(entry) =~= entries);
        assert(state.list(dir, children).1 =~= entries);
    } else {
        assert(entries =~= seq![]);
    }
}

/// What is listed stays listed, and so does what has the same names.
proof fn lemma_listed_grows<F>(
    state: FsView<F>,
    next: FsView<F>,
    dir: Seq<u8>,
    children: Seq<Child>,
    again: Seq<Child>,
    entries: Seq<Entry>,
)
    requires
        listed(state, dir, children, entries),
        grows(state, next),
        same_names(again, children),
    ensures
        listed(next, dir, again, entries),
{
    assert forall|i: int| 0 <= i < again.len() implies {
        let entry = #[trigger] entries[i];
        &&& entry.name == again[i].name@
        &&& next.is_ino_of(entry.ino, path::components(path::joined(dir, again[i].name@)))
        &&& entry.kind == next.inodes[entry.ino].kind
    } by {
        assert(again[i].name@ == children[i].name@);
        assert(state.inodes.contains_key(entries[i].ino));
    }
}

/// A directory that is listed again, with the same files, has the same entries, whatever the
/// mount is asked in between, and the mount stays as it is. The kinds of the files need not be
/// found out again.
pub proof fn law_listing_again_changes_nothing<F>(
    state: FsView<F>,
    dir: Seq<u8>,
    children: Seq<Child>,
    between: Seq<Request<F>>,
    again: Seq<Child>,
)
    requires
        state.numbered(),
        forall|i: int|
            0 <= i < children.len() ==> can_be_listed(state, dir, #[trigger] children[i]),
        state.next_ino + children.len() <= u64::MAX,
        same_names(again, children),
    ensures
        ({
            let end = run(state.list(dir, children).0, between);
            end.list(dir, again) == (end, state.list(dir, children).1)
        }),
{
    law_every_file_is_listed(state, dir, children);
    law_list_keeps_inodes(state, dir, children);
    let (next, entries) = state.list(dir, children);
    law_requests_keep_numbers(next, between);
    lemma_listed_grows(next, run(next, between), dir, children, again, entries);
    lemma_list_known(run(next, between), dir, again, entries);
}

/// A call that reads a part of a directory.
pub struct Page<F> {
    /// What the mount is asked before the call.
    pub before: Seq<Request<F>>,
    /// The files that are found in the directory.
    pub children: Seq<Child>,
    /// How many entries the caller takes at most.
    pub room: nat,
}

/// The entries that calls give, each of which goes on at the offset of the last entry that was
/// taken before.
pub open spec fn read_pages<F>(
    state: FsView<F>,
    ino: u64,
    pages: Seq<Page<F>>,
    offset: int,
) -> Seq<Entry>
    decreases pages.len(),
{
    if pages.len() == 0 {
        seq![]
    } else {
        let (next, all) = run(state, pages[0].before).entries(ino, pages[0].children);
        let from = transfer::min(offset, all.len() as int);
        let to = transfer::min(offset + pages[0].room, all.len() as int);
        all.subrange(from, to) + read_pages(next, ino, pages.drop_first(), offset + (to - from))
    }
}

/// How many entries the caller takes at most in all calls.
pub open spec fn total_room<F>(pages: Seq<Page<F>>) -> nat
    decreases pages.len(),
{
    if pages.len() == 0 {
        0
    } else {
        pages[0].room + total_room(pages.drop_first())
    }
}

/// The entries `all` are those of the directory `ino`, and the files in it have inode numbers.
spec fn directory_listed<F>(
    state: FsView<F>,
    ino: u64,
    children: Seq<Child>,
    all: Seq<Entry>,
) -> bool {
    &&& state.numbered()
    &&& state.inodes.contains_key(ino)
    &&& parent_is_known(state, ino)
    &&& listed(state, state.inodes[ino].path, children, all.skip(2))
    &&& all == state.entries(ino, children).1
}

proof fn lemma_directory_grows<F>(
    state: FsView<F>,
    next: FsView<F>,
    ino: u64,
    children: Seq<Child>,
    again: Seq<Child>,
    all: Seq<Entry>,
)
    requires
        directory_listed(state, ino, children, all),
        grows(state, next),
        same_names(again, children),
    ensures
        next.entries(ino, again) == (next, all),
        directory_listed(next, ino, again, all),
{
    let dir = state.inodes[ino].path;
    lemma_listed_grows(state, next, dir, children, again, all.skip(2));
    lemma_list_known(next, dir, again, all.skip(2));
    lemma_list_known(state, dir, children, all.skip(2));
    lemma_parent_grows(state, next, ino);
    assert(next.entries(ino, again).1 =~= all);
}

proof fn lemma_parent_grows<F>(state: FsView<F>, next: FsView<F>, ino: u64)
    requires
        state.numbered(),
        state.inodes.contains_key(ino),
        parent_is_known(state, ino),
        grows(state, next),
    ensures
        next.parent_ino(ino) == state.parent_ino(ino),
        parent_is_known(next, ino),
{
    if ino != ROOT {
        if let Some(c) = path::parent(path::components(state.inodes[ino].path)) {
            let parent = state.ino_of(c)->Some_0;
            assert(state.is_ino_of(parent, c));
            assert(next.is_ino_of(parent, c));
            lemma_ino_of(next, parent, c);
        }
    }
}

proof fn lemma_pages<F>(
    state: FsView<F>,
    ino: u64,
    children: Seq<Child>,
    all: Seq<Entry>,
    pages: Seq<Page<F>>,
    offset: int,
)
    requires
        directory_listed(state, ino, children, all),
        forall|i: int|
            0 <= i < pages.len() ==> same_names((#[trigger] pages[i]).children, children),
        0 <= offset <= all.len(),
    ensures
        read_pages(state, ino, pages, offset) == all.subrange(
            offset,
            transfer::min(offset + total_room(pages), all.len() as int),
        ),
    decreases pages.len(),
{
    if pages.len() > 0 {
        let page = pages[0];
        let next = run(state, page.before);
        law_requests_keep_numbers(state, page.before);
        assert(same_names(page.children, children));
        lemma_directory_grows(state, next, ino, children, page.children, all);
        let rest = pages.drop_first();
        assert forall|i: int| 0 <= i < rest.len() implies same_names(
            (#[trigger] rest[i]).children,
            page.children,
        ) by {
            assert(same_names(pages[i + 1].children, children));
            assert forall|k: int| 0 <= k < children.len() implies (#[trigger] rest[i].children[k]).name@
                == page.children[k].name@ by {
                assert(pages[i + 1].children[k].name@ == children[k].name@);
                assert(page.children[k].name@ == children[k].name@);
            }
        }
        let to = transfer::min(offset + page.room, all.len() as int);
        lemma_pages(next, ino, page.children, all, rest, to);
        assert(read_pages(state, ino, pages, offset) =~= all.subrange(
            offset,
            transfer::min(offset + total_room(pages), all.len() as int),
        ));
    } else {
        assert(all.subrange(offset, offset) =~= seq![]);
    }
}

/// A directory that is read in several calls, each of which goes on where the one before ended,
/// gives the entries of one call with room for all, each once and in order, whatever the mount is
/// asked in between, as long as the files in it stay the same.
pub proof fn law_pages_give_the_directory<F>(state: FsView<F>, ino: u64, pages: Seq<Page<F>>)
    requires
        state.numbered(),
        state.inodes.contains_key(ino),
        parent_is_known(state, ino),
        pages.len() > 0,
        pages[0].before.len() == 0,
        forall|i: int|
            0 <= i < pages[0].children.len() ==> can_be_listed(
                state,
                state.inodes[ino].path,
                #[trigger] pages[0].children[i],
            ),
        state.next_ino + pages[0].children.len() <= u64::MAX,
        forall|i: int|
            0 <= i < pages.len() ==> same_names((#[trigger] pages[i]).children, pages[0].children),
    ensures
        ({
            let all = state.entries(ino, pages[0].children).1;
            &&& read_pages(state, ino, pages, 0) == all.take(
                transfer::min(total_room(pages) as int, all.len() as int),
            )
            &&& all.len() <= total_room(pages) ==> read_pages(state, ino, pages, 0) == all
        }),
{
    let dir = state.inodes[ino].path;
    let children = pages[0].children;
    let (next, all) = state.entries(ino, children);
    let files = state.list(dir, children).1;
    law_every_file_is_listed(state, dir, children);
    law_list_keeps_inodes(state, dir, children);
    assert(all.skip(2) =~= files);
    assert(grows(state, next));
    lemma_parent_grows(state, next, ino);
    lemma_list_known(next, dir, children, files);
    assert(next.entries(ino, children).1 =~= all);
    let to = transfer::min(pages[0].room as int, all.len() as int);
    let rest = pages.drop_first();
    assert forall|i: int| 0 <= i < rest.len() implies same_names(
        (#[trigger] rest[i]).children,
        children,
    ) by {
        assert(same_names(pages[i + 1].children, pages[0].children));
    }
    lemma_pages(next, ino, children, all, rest, to);
    assert(read_pages(state, ino, pages, 0) =~= all.take(
        transfer::min(total_room(pages) as int, all.len() as int),
    ));
    assert(all.take(all.len() as int) =~= all);
}

/// Two notebooks that are the same but for outputs and execution counts of code cells show as the
/// same bytes.
pub proof fn law_outputs_do_not_show(mode: Mode, a: Seq<u8>, b: Seq<u8>)
    ensures
        match (json::parsed_json(a), json::parsed_json(b)) {
            (Some(s), Some(t)) => transform::same_input(s, t) ==> fs::transformed(mode, a)
                == fs::transformed(mode, b),
            _ => true,
        },
{
    if let (Some(s), Some(t)) = (json::parsed_json(a), json::parsed_json(b)) {
        if transform::same_input(s, t) {
            transform::law_outputs_make_no_difference(s, t);
        }
    }
}

/// A notebook that has been shown and is then saved again, at another second or another
/// nanosecond, is shown as it is now, whatever the mount is asked in between.
pub proof fn law_saved_again_is_shown<F>(
    state: FsView<F>,
    ino: u64,
    first: Reading,
    between: Seq<Request<F>>,
    second: Reading,
)
    requires
        state.fetch(ino, first).1 is Ok,
        unmodified(between, ino, first.mtime),
        first.mtime is Some,
        second.mtime is Some,
        second.raw is Some,
        second.mtime->Some_0.0 != first.mtime->Some_0.0 || second.mtime->Some_0.1
            != first.mtime->Some_0.1,
    ensures
        run(state.fetch(ino, first).0, between).fetch(ino, second).1 == match fs::transformed(
            state.mode,
            second.raw->Some_0@,
        ) {
            Some(data) => Ok::<Seq<u8>, Errno>(data),
            None => Err(Errno::EIO),
        },
{
    let start = state.fetch(ino, first).0;
    let mtime = first.mtime->Some_0;
    law_show(state, ino, first, mtime.0, mtime.1);
    lemma_kept(start, ino, mtime, between);
    lemma_run_keeps_mode(start, between);
    law_show(
        run(start, between),
        ino,
        second,
        second.mtime->Some_0.0,
        second.mtime->Some_0.1,
    );
}

proof fn lemma_run_keeps_mode<F>(state: FsView<F>, requests: Seq<Request<F>>)
    ensures
        run(state, requests).mode == state.mode,
    decreases requests.len(),
{
    if requests.len() > 0 {
        lemma_run_keeps_mode(state, requests.drop_last());
        if let Request::List { dir, children } = requests.last() {
            lemma_list_keeps_mode(run(state, requests.drop_last()), dir, children);
        }
    }
}

proof fn lemma_list_keeps_mode<F>(state: FsView<F>, dir: Seq<u8>, children: Seq<Child>)
    ensures
        state.list(dir, children).0.mode == state.mode,
    decreases children.len(),
{
    if children.len() > 0 {
        lemma_list_keeps_mode(state, dir, children.drop_last());
    }
}

/// The inode number of a path is the one under which a file with its components is known, if any
/// is.
pub proof fn law_inode_of_path<F>(state: FsView<F>, ino: u64, c: Components)
    requires
        state.numbered(),
    ensures
        state.ino_of(c) == Some(ino) <==> state.inodes.contains_key(ino) && path::components(
            state.inodes[ino].path,
        ) == c,
{
    if state.ino_of(c) is Some {
        let found = choose|ino: u64| state.is_ino_of(ino, c);
        assert(state.is_ino_of(found, c));
    }
    if state.inodes.contains_key(ino) && path::components(state.inodes[ino].path) == c {
        assert(state.is_ino_of(ino, c));
        lemma_ino_of(state, ino, c);
    }
}

/// The source directory is inode 1, a directory; numbers belong to one path each; and no file is
/// open under handle 0.
pub proof fn law_numbers<F>(state: FsView<F>, a: u64, b: u64)
    requires
        state.numbered(),
    ensures
        state.inodes.contains_key(1),
        state.inodes[1].path == state.source,
        state.inodes[1].kind == FileKind::Directory,
        state.inodes.contains_key(a) <==> 1 <= a < state.next_ino,
        state.inodes.contains_key(a) && state.inodes.contains_key(b) && path::components(
            state.inodes[a].path,
        ) == path::components(state.inodes[b].path) ==> a == b,
        !state.open_files.contains_key(0),
        state.open_files.contains_key(a) ==> a < state.next_fh,
{
}

/// A file that is known keeps its number and its kind, whatever is now found of it, and the mount
/// stays as it is.
pub proof fn law_known_file<F>(
    state: FsView<F>,
    path: Seq<u8>,
    kind: Option<FileKind>,
    ino: u64,
)
    requires
        state.numbered(),
        state.inodes.contains_key(ino),
        path::components(state.inodes[ino].path) == path::components(path),
    ensures
        state.assign(path, kind).0 == state,
        state.assign(path, kind).1 == Some((ino, state.inodes[ino].kind)),
{
    law_inode_of_path(state, ino, path::components(path));
}

/// A file that is not known gets the next number, and is kept under it with its path and the very
/// kind that was found for it. Without a kind, or without a number left, it gets none, and the
/// mount stays as it is.
pub proof fn law_new_file<F>(state: FsView<F>, path: Seq<u8>, kind: Option<FileKind>)
    requires
        forall|ino: u64| #[trigger]
            state.inodes.contains_key(ino) ==> path::components(state.inodes[ino].path)
                != path::components(path),
    ensures
        kind is None || state.next_ino == u64::MAX ==> state.assign(path, kind).0 == state
            && state.assign(path, kind).1 is None,
        kind is Some && state.next_ino < u64::MAX ==> ({
            let (next, found) = state.assign(path, kind);
            &&& found == Some((state.next_ino, kind->Some_0))
            &&& next.next_ino == state.next_ino + 1
            &&& next.inodes.dom() == state.inodes.dom().insert(state.next_ino)
            &&& next.inodes[state.next_ino].path == path
            &&& next.inodes[state.next_ino].kind == kind->Some_0
            &&& forall|ino: u64|
                ino != state.next_ino && state.inodes.contains_key(ino)
                    ==> #[trigger] next.inodes[ino] == state.inodes[ino]
            &&& same_but_inodes(state, next)
        }),
{
    let c = path::components(path);
    if exists|ino: u64| state.is_ino_of(ino, c) {
        let found = choose|ino: u64| state.is_ino_of(ino, c);
        assert(state.inodes.contains_key(found));
    }
    assert(state.ino_of(c) is None);
    if kind is Some && state.next_ino < u64::MAX {
        assert(state.assign(path, kind).0.inodes.dom() =~= state.inodes.dom().insert(
            state.next_ino,
        ));
    }
}

/// Files are listed one after the other: each is looked up at its name in the directory, and has
/// an entry with the number and kind that it got and the name that it was found under, unless it
/// got none.
pub proof fn law_list_goes_file_by_file<F>(
    state: FsView<F>,
    dir: Seq<u8>,
    children: Seq<Child>,
    child: Child,
)
    ensures
        state.list(dir, seq![]).0 == state,
        state.list(dir, seq![]).1 == Seq::<Entry>::empty(),
        ({
            let (before, entries) = state.list(dir, children);
            let (next, found) = before.assign(path::joined(dir, child.name@), child.kind);
            let (end, more) = state.list(dir, children.push(child));
            &&& end == next
            &&& found is None ==> more == entries
            &&& found is Some ==> more.len() == entries.len() + 1 && more.drop_last() == entries
                && more.last().ino == found->Some_0.0 && more.last().kind == found->Some_0.1
                && more.last().name == child.name@
        }),
{
    assert(children.push(child).drop_last() =~= children);
    let (before, entries) = state.list(dir, children);
    let (_, found) = before.assign(path::joined(dir, child.name@), child.kind);
    if let Some((ino, kind)) = found {
        assert(entries.push(Entry { ino, kind, name: child.name@ }).drop_last() =~= entries);
    }
}

/// A file that listing a directory gives a number to is one of the files in it.
proof fn lemma_list_adds_its_files<F>(
    state: FsView<F>,
    dir: Seq<u8>,
    children: Seq<Child>,
    ino: u64,
)
    requires
        state.numbered(),
        state.list(dir, children).0.inodes.contains_key(ino),
        !state.inodes.contains_key(ino),
    ensures
        exists|j: int|
            0 <= j < children.len() && path::components(
                path::joined(dir, (#[trigger] children[j]).name@),
            ) == path::components(state.list(dir, children).0.inodes[ino].path),
    decreases children.len(),
{
    if children.len() > 0 {
        let rest = children.drop_last();
        let before = state.list(dir, rest).0;
        let child = children[children.len() - 1];
        law_list_keeps_inodes(state, dir, rest);
        law_assign_keeps_inodes(before, path::joined(dir, child.name@), child.kind);
        if before.inodes.contains_key(ino) {
            lemma_list_adds_its_files(state, dir, rest, ino);
            let j = choose|j: int|
                0 <= j < rest.len() && path::components(
                    path::joined(dir, (#[trigger] rest[j]).name@),
                ) == path::components(before.inodes[ino].path);
            assert(rest[j] == children[j]);
        } else {
            assert(children[children.len() - 1].name@ == child.name@);
        }
    }
}

/// A file that is listed and was known before is listed with the number and the kind that it had;
/// one that was not is listed with the kind that was found for it.
pub proof fn law_listed_kinds<F>(state: FsView<F>, dir: Seq<u8>, children: Seq<Child>, i: int)
    requires
        state.numbered(),
        forall|k: int|
            0 <= k < children.len() ==> can_be_listed(state, dir, #[trigger] children[k]),
        state.next_ino + children.len() <= u64::MAX,
        0 <= i < children.len(),
    ensures
        state.list(dir, children).1.len() == children.len(),
        state.list(dir, children).1[i].name == children[i].name@,
        forall|ino: u64| #[trigger]
            state.inodes.contains_key(ino) && path::components(state.inodes[ino].path)
                == path::components(path::joined(dir, children[i].name@)) ==> state.list(
                dir,
                children,
            ).1[i].ino == ino && state.list(dir, children).1[i].kind == state.inodes[ino].kind,
        (forall|ino: u64| #[trigger]
            state.inodes.contains_key(ino) ==> path::components(state.inodes[ino].path)
                != path::components(path::joined(dir, children[i].name@))) && (forall|j: int|
            0 <= j < i ==> path::components(path::joined(dir, (#[trigger] children[j]).name@))
                != path::components(path::joined(dir, children[i].name@))) ==> children[i].kind
            == Some(state.list(dir, children).1[i].kind) && state.list(
            dir,
            children,
        ).1[i].ino >= state.next_ino,
    decreases children.len(),
{
    let rest = children.drop_last();
    let (before, entries) = state.list(dir, rest);
    let child = children[children.len() - 1];
    let path = path::joined(dir, child.name@);
    assert forall|k: int| 0 <= k < rest.len() implies can_be_listed(state, dir, #[trigger] rest[k]) by {
        assert(can_be_listed(state, dir, children[k]));
    }
    law_every_file_is_listed(state, dir, children);
    law_every_file_is_listed(state, dir, rest);
    law_list_keeps_inodes(state, dir, rest);
    if i < rest.len() {
        law_listed_kinds(state, dir, rest, i);
        assert(state.list(dir, children).1[i] == entries[i]);
        assert(rest[i] == children[i]);
        assert forall|j: int| 0 <= j < i implies #[trigger] rest[j] == children[j] by {}
        if forall|j: int|
            0 <= j < i ==> path::components(path::joined(dir, (#[trigger] children[j]).name@))
                != path::components(path::joined(dir, children[i].name@)) {
            assert forall|j: int| 0 <= j < i implies path::components(
                path::joined(dir, (#[trigger] rest[j]).name@),
            ) != path::components(path::joined(dir, rest[i].name@)) by {
                assert(rest[j] == children[j]);
            }
        }
    } else {
        let c = path::components(path);
        let found = before.assign(path, child.kind).1;
        assert(state.list(dir, children).1[i].ino == found->Some_0.0);
        assert(state.list(dir, children).1[i].kind == found->Some_0.1);
        assert forall|ino: u64| #[trigger]
            state.inodes.contains_key(ino) && path::components(state.inodes[ino].path)
                == c implies found == Some((ino, state.inodes[ino].kind)) by {
            law_known_file(before, path, child.kind, ino);
        }
        if (forall|ino: u64| #[trigger]
            state.inodes.contains_key(ino) ==> path::components(state.inodes[ino].path) != c) && (
        forall|j: int|
            0 <= j < i ==> path::components(path::joined(dir, (#[trigger] children[j]).name@))
                != c) {
            assert forall|ino: u64| #[trigger]
                before.inodes.contains_key(ino) implies path::components(before.inodes[ino].path)
                != c by {
                if !state.inodes.contains_key(ino) {
                    lemma_list_adds_its_files(state, dir, rest, ino);
                    let j = choose|j: int|
                        0 <= j < rest.len() && path::components(
                            path::joined(dir, (#[trigger] rest[j]).name@),
                        ) == path::components(before.inodes[ino].path);
                    assert(rest[j] == children[j]);
                }
            }
            assert(can_be_listed(state, dir, children[i]));
            if state.ino_of(c) is Some {
                let ino = choose|ino: u64| state.is_ino_of(ino, c);
                assert(state.inodes.contains_key(ino));
            }
            law_new_file(before, path, child.kind);
        }
    }
}

/// The entries of a directory are itself under the name `.`, the directory that it is in under
/// the name `..`, and then its files.
pub proof fn law_entries<F>(state: FsView<F>, ino: u64, children: Seq<Child>)
    ensures
        ({
            let (next, all) = state.entries(ino, children);
            let (end, files) = state.list(state.inodes[ino].path, children);
            &&& next == end
            &&& all.len() == files.len() + 2
            &&& all[0].ino == ino && all[0].kind == FileKind::Directory && all[0].name == seq![46u8]
            &&& all[1].ino == state.parent_ino(ino) && all[1].kind == FileKind::Directory
                && all[1].name == seq![46u8, 46u8]
            &&& forall|i: int| 0 <= i < files.len() ==> #[trigger] files[i] == all[i + 2]
        }),
{
    reveal_strlit(".");
    reveal_strlit("..");
    reveal_with_fuel(encode_utf8, 3);
    let dot = '.' as u32;
    assert(leading_byte_width_1(46u32) == 46u8) by (bit_vector);
    assert(encode_scalar(dot) =~= seq![46u8]);
    assert(encode_utf8("."@) =~= seq![46u8]);
    assert(encode_utf8(".."@) =~= seq![46u8, 46u8]);
}

/// Above a file is the directory whose path is that of the file less its last name. Above the
/// source directory, and above a file with nothing known above it, is the source directory.
pub proof fn law_parent_directory<F>(state: FsView<F>, ino: u64, dir: u64)
    requires
        state.numbered(),
        state.inodes.contains_key(ino),
    ensures
        state.parent_ino(1) == 1,
        ino != 1 && state.inodes.contains_key(dir) && path::parent(
            path::components(state.inodes[ino].path),
        ) == Some(path::components(state.inodes[dir].path)) ==> state.parent_ino(ino) == dir,
        (forall|d: u64| #[trigger]
            state.inodes.contains_key(d) ==> path::parent(
                path::components(state.inodes[ino].path),
            ) != Some(path::components(state.inodes[d].path))) ==> state.parent_ino(ino) == 1,
{
    if let Some(c) = path::parent(path::components(state.inodes[ino].path)) {
        law_inode_of_path(state, dir, c);
        if let Some(found) = state.ino_of(c) {
            law_inode_of_path(state, found, c);
        }
    }
}

/// A file that is opened is open under the next handle, and nothing else changes. It is refused
/// only when no handle is left.
pub proof fn law_open<F>(state: FsView<F>, file: F)
    ensures
        state.next_fh < u64::MAX ==> ({
            let (next, r) = state.hold(file);
            &&& r == Ok::<u64, Errno>(state.next_fh)
            &&& next.next_fh == state.next_fh + 1
            &&& next.open_files == state.open_files.insert(state.next_fh, file)
            &&& next.inodes == state.inodes && next.next_ino == state.next_ino
            &&& next.cache == state.cache
            &&& next.mode == state.mode && next.source == state.source
        }),
        state.next_fh == u64::MAX ==> state.hold(file).0 == state && state.hold(file).1 == Err::<
            u64,
            Errno,
        >(Errno::EIO),
{
}

/// Releasing a handle closes what is open under it and nothing else, and no handle becomes free.
pub proof fn law_release<F>(state: FsView<F>, fh: u64, other: u64)
    ensures
        !state.close(fh).open_files.contains_key(fh),
        other != fh ==> (state.close(fh).open_files.contains_key(other)
            <==> state.open_files.contains_key(other)),
        other != fh && state.open_files.contains_key(other) ==> state.close(fh).open_files[other]
            == state.open_files[other],
        state.close(fh).next_fh == state.next_fh,
        state.close(fh).inodes == state.inodes && state.close(fh).next_ino == state.next_ino,
        state.close(fh).cache == state.cache,
        state.close(fh).mode == state.mode && state.close(fh).source == state.source,
{
}

/// A file is opened for reading exactly if neither of the two bits for writing stands alone.
pub proof fn law_access(flags: i32)
    ensures
        fs::access(flags) == fs::Access::Write <==> flags & 3 == 1,
        fs::access(flags) == fs::Access::ReadWrite <==> flags & 3 == 2,
        fs::access(flags) == fs::Access::Read <==> flags & 3 == 0 || flags & 3 == 3,
{
    assert(0 <= flags & 3 <= 3) by (bit_vector);
}

/// What is clean is the text of a notebook in which the outputs are cleared, or the script of one.
pub proof fn law_clean(data: Seq<u8>)
    ensures
        fs::is_clean(Mode::StripOutputs, data) <==> json::parsed_json(data) is Some
            && transform::outputs_cleared(json::parsed_json(data)->Some_0),
        fs::is_clean(Mode::PythonScript, data) <==> exists|notebook: json::JsonTree| #[trigger]
            transform::outputs_cleared(notebook) && data == encode_utf8(
                transform::script(notebook),
            ),
{
}

/// What is shown for some notebook is what the transformation of some text gives, and is clean.
pub proof fn law_shown(mode: Mode, data: Seq<u8>)
    ensures
        fs::is_shown(mode, data) <==> fs::is_clean(mode, data) && exists|raw: Seq<u8>| #[trigger]
            fs::transformed(mode, raw) == Some(data),
{
}

} // verus!
