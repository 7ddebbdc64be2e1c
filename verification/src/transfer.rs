//! Reading a range of bytes, from memory or piece by piece from a file.

use vstd::prelude::*;

use crate::fs::Errno;

verus! {

/// The smaller of `a` and `b`.
pub open spec fn min(a: int, b: int) -> int {
    if a <= b {
        a
    } else {
        b
    }
}

/// The bytes of `data` from `offset` on, at most `size` of them.
pub open spec fn range_of(data: Seq<u8>, offset: int, size: int) -> Seq<u8> {
    data.subrange(min(offset, data.len() as int), min(offset + size, data.len() as int))
}

/// The bytes of `data` from `offset` on, at most `size` of them.
pub fn read_range(data: &[u8], offset: u64, size: u32) -> (r: Vec<u8>)
    ensures
        r@ == range_of(data@, offset as int, size as int),
{
    let len: u64 = data.len() as u64;
    let start: u64 = if offset < len {
        offset
    } else {
        len
    };
    let end: u64 = if (size as u64) < len - start {
        start + size as u64
    } else {
        len
    };
    let mut r: Vec<u8> = Vec::new();
    let mut i: usize = start as usize;
    while i < end as usize
        invariant
            start <= i <= end <= data@.len(),
            r@ == data@.subrange(start as int, i as int),
        decreases end - i,
    {
        r.push(data[i]);
        assert(data@.subrange(start as int, i + 1) =~= data@.subrange(start as int, i as int).push(
            data@[i as int],
        ));
        i += 1;
    }
    r
}

/// Reading from the beginning with room for everything gives everything.
pub proof fn law_ranges_cover_the_data(data: Seq<u8>, size: int)
    requires
        data.len() <= size,
    ensures
        range_of(data, 0, size) == data,
{
    assert(range_of(data, 0, size) =~= data);
}

/// Reading in two goes, the second from where the first was to end, gives what one go gives.
pub proof fn law_ranges_join(data: Seq<u8>, offset: int, first: int, second: int)
    requires
        0 <= offset,
        0 <= first,
        0 <= second,
    ensures
        range_of(data, offset, first) + range_of(data, offset + first, second) == range_of(
            data,
            offset,
            first + second,
        ),
{
    assert(range_of(data, offset, first) + range_of(data, offset + first, second) =~= range_of(
        data,
        offset,
        first + second,
    ));
}

/// A range has the size asked for, unless the data ends before.
pub proof fn law_range_size(data: Seq<u8>, offset: int, size: int)
    requires
        0 <= offset,
        0 <= size,
    ensures
        offset + size <= data.len() ==> range_of(data, offset, size).len() == size,
        offset <= data.len() <= offset + size ==> range_of(data, offset, size).len() == data.len()
            - offset,
        data.len() <= offset ==> range_of(data, offset, size).len() == 0,
{
}

/// Byte `i` of a range is byte `i` behind the offset, and there are bytes as long as the data and
/// the size last.
pub proof fn law_range_bytes(data: Seq<u8>, offset: int, size: int, i: int)
    requires
        0 <= offset,
        0 <= size,
        0 <= i,
    ensures
        i < range_of(data, offset, size).len() <==> i < size && offset + i < data.len(),
        i < range_of(data, offset, size).len() ==> range_of(data, offset, size)[i] == data[offset
            + i],
{
}

/// What an attempt to read from a file, or to go to the offset in it, came to.
#[derive(Debug)]
pub enum ReadEvent {
    /// These bytes, none at the end of the file.
    Got(Vec<u8>),
    /// Nothing, because a signal came in.
    Interrupted,
    /// An error.
    Failed,
}

/// What is to be done after an attempt.
#[derive(Clone, Copy, Debug, PartialEq, Eq, Structural)]
pub enum ReadStep {
    /// Another attempt.
    Again,
    /// The transfer is complete.
    Done,
}

/// A transfer of at most `size` bytes from a file.
pub struct Transfer {
    size: u32,
    data: Vec<u8>,
}

impl Transfer {
    /// The bytes transferred so far are no more than asked for.
    pub closed spec fn wf(self) -> bool {
        self.data@.len() <= self.size
    }

    /// How many bytes are asked for.
    pub closed spec fn size(self) -> u32 {
        self.size
    }

    /// The bytes transferred so far.
    pub closed spec fn data(self) -> Seq<u8> {
        self.data@
    }

    /// A transfer of `size` bytes of which none has come.
    pub fn new(size: u32) -> (t: Transfer)
        ensures
            t.wf(),
            t.size() == size,
            t.data() == Seq::<u8>::empty(),
    {
        Transfer { size, data: Vec::new() }
    }

    /// How many bytes the next attempt may get.
    pub fn wanted(&self) -> (n: usize)
        requires
            self.wf(),
        ensures
            n == self.size() - self.data().len(),
    {
        self.size as usize - self.data.len()
    }

    /// Takes in what an attempt came to. Bytes go behind those that came before; at the end of
    /// the file, or with all bytes there, nothing more comes. An error ends the transfer.
    pub fn step(&mut self, event: ReadEvent) -> (r: Result<ReadStep, Errno>)
        requires
            old(self).wf(),
            event matches ReadEvent::Got(bytes) ==> old(self).data().len() + bytes@.len() <= old(
                self,
            ).size(),
        ensures
            final(self).wf(),
            final(self).size() == old(self).size(),
            match event {
                ReadEvent::Got(bytes) => {
                    &&& final(self).data() == old(self).data() + bytes@
                    &&& r == Ok::<ReadStep, Errno>(
                        if bytes@.len() == 0 {
                            ReadStep::Done
                        } else {
                            ReadStep::Again
                        },
                    )
                },
                ReadEvent::Interrupted => *final(self) == *old(self) && r == Ok::<ReadStep, Errno>(
                    ReadStep::Again,
                ),
                ReadEvent::Failed => *final(self) == *old(self) && r == Err::<ReadStep, Errno>(
                    Errno::EIO,
                ),
            },
    {
        match event {
            ReadEvent::Got(bytes) => {
                let done: bool = bytes.len() == 0;
                let mut bytes = bytes;
                self.data.append(&mut bytes);
                if done {
                    Ok(ReadStep::Done)
                } else {
                    Ok(ReadStep::Again)
                }
            },
            ReadEvent::Interrupted => Ok(ReadStep::Again),
            ReadEvent::Failed => Err(Errno::EIO),
        }
    }

    /// The bytes transferred.
    pub fn finish(self) -> (r: Vec<u8>)
        ensures
            r@ == self.data(),
    {
        self.data
    }
}

/// The pieces, one behind the other.
pub open spec fn concat(pieces: Seq<Seq<u8>>) -> Seq<u8>
    decreases pieces.len(),
{
    if pieces.len() == 0 {
        seq![]
    } else {
        concat(pieces.drop_last()) + pieces.last()
    }
}

/// Each piece is what a file with this content has behind the pieces before it, from `offset`
/// on.
pub open spec fn read_from(pieces: Seq<Seq<u8>>, content: Seq<u8>, offset: int) -> bool
    decreases pieces.len(),
{
    pieces.len() > 0 ==> {
        &&& read_from(pieces.drop_last(), content, offset)
        &&& pieces.last() == range_of(
            content,
            offset + concat(pieces.drop_last()).len(),
            pieces.last().len() as int,
        )
    }
}

/// A transfer gives the bytes of the file unchanged: once as many have come as were asked for,
/// or the file has ended, they are the range that was asked for.
pub proof fn law_transfer_gives_the_file(
    pieces: Seq<Seq<u8>>,
    content: Seq<u8>,
    offset: int,
    size: int,
)
    requires
        0 <= offset,
        read_from(pieces, content, offset),
        concat(pieces).len() <= size,
        concat(pieces).len() == size || content.len() <= offset + concat(pieces).len(),
    ensures
        concat(pieces) == range_of(content, offset, size),
{
    lemma_pieces(pieces, content, offset);
    assert(range_of(content, offset, concat(pieces).len() as int) =~= range_of(
        content,
        offset,
        size,
    ));
}

proof fn lemma_pieces(pieces: Seq<Seq<u8>>, content: Seq<u8>, offset: int)
    requires
        0 <= offset,
        read_from(pieces, content, offset),
    ensures
        concat(pieces) == range_of(content, offset, concat(pieces).len() as int),
    decreases pieces.len(),
{
    if pieces.len() > 0 {
        lemma_pieces(pieces.drop_last(), content, offset);
    }
    assert(concat(pieces) =~= range_of(content, offset, concat(pieces).len() as int));
}

} // verus!
