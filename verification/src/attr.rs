//! The attributes of a file, as the source has them and as the mount shows them.

use vstd::prelude::*;

verus! {

/// What sort of file a file is.
#[derive(Clone, Copy, Debug, PartialEq, Eq, Structural)]
pub enum FileKind {
    NamedPipe,
    CharDevice,
    BlockDevice,
    Directory,
    RegularFile,
    Symlink,
    Socket,
}

/// A point in time at or after the epoch.
#[derive(Clone, Copy, Debug, PartialEq, Eq, Structural)]
pub struct Timestamp {
    pub secs: u64,
    pub nanos: u32,
}

/// What the file system says of a file of the source.
#[derive(Clone, Copy, Debug, PartialEq, Eq, Structural)]
pub struct SourceMeta {
    /// `None` for a sort of file that has no name.
    pub kind: Option<FileKind>,
    pub len: u64,
    pub blocks: u64,
    pub atime: i64,
    pub atime_nsec: i64,
    pub mtime: i64,
    pub mtime_nsec: i64,
    pub ctime: i64,
    pub ctime_nsec: i64,
    pub mode: u32,
    pub nlink: u64,
    pub uid: u32,
    pub gid: u32,
    pub rdev: u64,
    pub blksize: u64,
}

/// What the mount says of a file.
#[derive(Clone, Copy, Debug, PartialEq, Eq, Structural)]
pub struct FileAttr {
    pub ino: u64,
    pub size: u64,
    pub blocks: u64,
    pub atime: Timestamp,
    pub mtime: Timestamp,
    pub ctime: Timestamp,
    pub crtime: Timestamp,
    pub kind: FileKind,
    pub perm: u16,
    pub nlink: u32,
    pub uid: u32,
    pub gid: u32,
    pub rdev: u32,
    pub blksize: u32,
    pub flags: u32,
}

/// The permission to read and to execute, for everyone.
pub const READ_EXECUTE: u16 = 0o555;

/// The permission to write, for everyone.
pub const WRITE: u16 = 0o222;

/// The nanoseconds of a second.
pub const SECOND: u32 = 1_000_000_000;

/// The point in time `secs` seconds and `nsecs` nanoseconds after the epoch. The nanoseconds
/// are taken as 32 bits without a sign, and full seconds among them count as seconds. A point
/// before the epoch becomes the epoch.
pub open spec fn timestamp(secs: i64, nsecs: i64) -> Timestamp {
    if secs >= 0 {
        Timestamp {
            secs: (secs + (nsecs as u32) / SECOND) as u64,
            nanos: (nsecs as u32) % SECOND,
        }
    } else {
        Timestamp { secs: 0, nanos: 0 }
    }
}

/// The point in time that a file system states as seconds and nanoseconds.
pub fn to_system_time(secs: i64, nsecs: i64) -> (t: Timestamp)
    ensures
        t == timestamp(secs, nsecs),
{
    if secs >= 0 {
        let nanos: u32 = nsecs as u32;
        Timestamp { secs: secs as u64 + (nanos / SECOND) as u64, nanos: nanos % SECOND }
    } else {
        Timestamp { secs: 0, nanos: 0 }
    }
}

/// The attributes of the file `ino`, which shows `size` bytes, from those of its source. Nobody
/// may write, a file of no known sort shows as a regular one, and the time of creation is that
/// of the last change.
pub open spec fn attr_of(ino: u64, meta: SourceMeta, size: u64) -> FileAttr {
    FileAttr {
        ino,
        size,
        blocks: meta.blocks,
        atime: timestamp(meta.atime, meta.atime_nsec),
        mtime: timestamp(meta.mtime, meta.mtime_nsec),
        ctime: timestamp(meta.ctime, meta.ctime_nsec),
        crtime: timestamp(meta.ctime, meta.ctime_nsec),
        kind: match meta.kind {
            Some(kind) => kind,
            None => FileKind::RegularFile,
        },
        perm: (meta.mode as u16) & READ_EXECUTE,
        nlink: meta.nlink as u32,
        uid: meta.uid,
        gid: meta.gid,
        rdev: meta.rdev as u32,
        blksize: meta.blksize as u32,
        flags: 0,
    }
}

/// The attributes that the mount shows for the file `ino` with `size` bytes.
pub fn metadata_to_fileattr(ino: u64, meta: &SourceMeta, size: u64) -> (attr: FileAttr)
    ensures
        attr == attr_of(ino, *meta, size),
{
    let ctime = to_system_time(meta.ctime, meta.ctime_nsec);
    FileAttr {
        ino,
        size,
        blocks: meta.blocks,
        atime: to_system_time(meta.atime, meta.atime_nsec),
        mtime: to_system_time(meta.mtime, meta.mtime_nsec),
        ctime,
        crtime: ctime,
        kind: match meta.kind {
            Some(kind) => kind,
            None => FileKind::RegularFile,
        },
        perm: (meta.mode as u16) & READ_EXECUTE,
        nlink: meta.nlink as u32,
        uid: meta.uid,
        gid: meta.gid,
        rdev: meta.rdev as u32,
        blksize: meta.blksize as u32,
        flags: 0,
    }
}

/// A point in time at or after the epoch shows as the source states it.
pub proof fn law_times_are_kept(secs: i64, nsecs: i64)
    requires
        secs >= 0,
        0 <= nsecs < SECOND,
    ensures
        timestamp(secs, nsecs).secs == secs,
        timestamp(secs, nsecs).nanos == nsecs,
{
}

/// Full seconds among the nanoseconds count as seconds, and nothing of a time is lost.
pub proof fn law_time_is_normalised(secs: i64, nsecs: i64)
    requires
        secs >= 0,
    ensures
        timestamp(secs, nsecs).nanos < 1_000_000_000,
        timestamp(secs, nsecs).secs * 1_000_000_000 + timestamp(secs, nsecs).nanos == secs
            * 1_000_000_000 + (nsecs as u32),
        0 <= nsecs <= u32::MAX ==> timestamp(secs, nsecs).secs * 1_000_000_000 + timestamp(
            secs,
            nsecs,
        ).nanos == secs * 1_000_000_000 + nsecs,
{
}

/// A point in time before the epoch shows as the epoch.
pub proof fn law_time_before_the_epoch(secs: i64, nsecs: i64)
    requires
        secs < 0,
    ensures
        timestamp(secs, nsecs).secs == 0,
        timestamp(secs, nsecs).nanos == 0,
{
}

/// A file shows under its inode number, with the size and of the kind given, on as many blocks
/// as the source has. A file of no known kind shows as a regular one.
pub proof fn law_identity_is_kept(ino: u64, meta: SourceMeta, size: u64)
    ensures
        attr_of(ino, meta, size).ino == ino,
        attr_of(ino, meta, size).size == size,
        attr_of(ino, meta, size).blocks == meta.blocks,
        attr_of(ino, meta, size).flags == 0,
        forall|kind: FileKind|
            meta.kind == Some(kind) ==> #[trigger] attr_of(ino, meta, size).kind == kind,
        meta.kind is None ==> attr_of(ino, meta, size).kind == FileKind::RegularFile,
{
}

/// The number of links, the device and the block size show as the source has them, as far as
/// they fit in 32 bits; of larger ones the lowest 32 bits show.
pub proof fn law_numbers_are_kept(ino: u64, meta: SourceMeta, size: u64)
    ensures
        meta.nlink <= u32::MAX ==> attr_of(ino, meta, size).nlink == meta.nlink,
        meta.rdev <= u32::MAX ==> attr_of(ino, meta, size).rdev == meta.rdev,
        meta.blksize <= u32::MAX ==> attr_of(ino, meta, size).blksize == meta.blksize,
        attr_of(ino, meta, size).nlink == meta.nlink & 0xffff_ffff,
        attr_of(ino, meta, size).rdev == meta.rdev & 0xffff_ffff,
        attr_of(ino, meta, size).blksize == meta.blksize & 0xffff_ffff,
{
    let (a, b, c) = (meta.nlink, meta.rdev, meta.blksize);
    assert(a as u32 == a & 0xffff_ffff) by (bit_vector);
    assert(b as u32 == b & 0xffff_ffff) by (bit_vector);
    assert(c as u32 == c & 0xffff_ffff) by (bit_vector);
}

/// The permissions that show are those of the source, less the permission to write and what is
/// no permission to read or to execute.
pub proof fn law_permissions(ino: u64, meta: SourceMeta, size: u64)
    ensures
        attr_of(ino, meta, size).perm & 0o222 == 0,
        attr_of(ino, meta, size).perm & 0o555 == (meta.mode as u16) & 0o555,
        attr_of(ino, meta, size).perm <= 0o555,
        attr_of(ino, meta, size).perm == meta.mode & 0o555,
{
    let mode = meta.mode;
    let bits = mode as u16;
    assert((bits & 0o555) & 0o222 == 0) by (bit_vector);
    assert((bits & 0o555) & 0o555 == bits & 0o555) by (bit_vector);
    assert(bits & 0o555 <= 0o555) by (bit_vector);
    assert((mode as u16) & 0o555 == mode & 0o555) by (bit_vector);
}

/// The mount shows nobody the permission to write.
pub proof fn law_no_write_permission(ino: u64, meta: SourceMeta, size: u64)
    ensures
        attr_of(ino, meta, size).perm & WRITE == 0,
{
    let bits = meta.mode as u16;
    assert((bits & 0o555) & 0o222 == 0) by (bit_vector);
}

/// The mount shows the permissions to read and to execute as the source has them.
pub proof fn law_other_permissions_are_kept(ino: u64, meta: SourceMeta, size: u64)
    ensures
        attr_of(ino, meta, size).perm & READ_EXECUTE == (meta.mode as u16) & READ_EXECUTE,
{
    let bits = meta.mode as u16;
    assert((bits & 0o555) & 0o555 == bits & 0o555) by (bit_vector);
}

/// Owner, group and times show as the source has them, whatever the size.
pub proof fn law_owner_and_times_are_kept(ino: u64, meta: SourceMeta, size: u64)
    requires
        meta.atime >= 0 && 0 <= meta.atime_nsec < SECOND,
        meta.mtime >= 0 && 0 <= meta.mtime_nsec < SECOND,
        meta.ctime >= 0 && 0 <= meta.ctime_nsec < SECOND,
    ensures
        attr_of(ino, meta, size).uid == meta.uid,
        attr_of(ino, meta, size).gid == meta.gid,
        attr_of(ino, meta, size).atime.secs == meta.atime,
        attr_of(ino, meta, size).atime.nanos == meta.atime_nsec,
        attr_of(ino, meta, size).mtime.secs == meta.mtime,
        attr_of(ino, meta, size).mtime.nanos == meta.mtime_nsec,
        attr_of(ino, meta, size).ctime.secs == meta.ctime,
        attr_of(ino, meta, size).ctime.nanos == meta.ctime_nsec,
        attr_of(ino, meta, size).crtime == attr_of(ino, meta, size).ctime,
{
    law_times_are_kept(meta.atime, meta.atime_nsec);
    law_times_are_kept(meta.mtime, meta.mtime_nsec);
    law_times_are_kept(meta.ctime, meta.ctime_nsec);
}

/// The times show as the source has them, one by one: each attribute is the time that the source
/// states under the same name, and the time of creation is that of the last change.
pub proof fn law_each_time_has_its_place(ino: u64, meta: SourceMeta, size: u64)
    ensures
        attr_of(ino, meta, size).atime == timestamp(meta.atime, meta.atime_nsec),
        attr_of(ino, meta, size).mtime == timestamp(meta.mtime, meta.mtime_nsec),
        attr_of(ino, meta, size).ctime == timestamp(meta.ctime, meta.ctime_nsec),
        attr_of(ino, meta, size).crtime == timestamp(meta.ctime, meta.ctime_nsec),
        attr_of(ino, meta, size).uid == meta.uid,
        attr_of(ino, meta, size).gid == meta.gid,
{
}

} // verus!
