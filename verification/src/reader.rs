//! The raw stream reader's accumulation step and its end-of-stream
//! heuristic.
//!
//! The reader drains a connection without any declared length: it reads
//! into a fixed-size chunk of [`READ_CHUNK`] bytes and stops as soon as a
//! read returns fewer bytes than a full chunk, keeping only the bytes
//! actually read. The I/O loop lives with the caller; [`reader_step`]
//! is the verified step it runs on every chunk. The heuristic is not
//! length-aware: [`reader_outcome`] models that a payload whose length is
//! an exact multiple of the chunk size leaves the reader waiting for one
//! more read that never comes.

use vstd::prelude::*;
use vstd::arithmetic::div_mod::lemma_mod_sub_multiples_vanish;

verus! {

/// Size of one read chunk, in bytes.
pub const READ_CHUNK: usize = 128;

/// What the reader returns for a peer that sends `data` and then stops:
/// the reads deliver full chunks while they can and a final short chunk
/// of the rest. When the length is an exact multiple of the chunk size
/// there is no short read before the stream is exhausted, so the reader
/// keeps waiting and returns nothing.
pub open spec fn reader_outcome(data: Seq<u8>) -> Option<Seq<u8>>
    decreases data.len(),
{
    if (data.len() as int) % (READ_CHUNK as int) == 0 {
        None
    } else if data.len() < READ_CHUNK {
        Some(data)
    } else {
        match reader_outcome(data.skip(READ_CHUNK as int)) {
            Some(rest) => Some(data.take(READ_CHUNK as int) + rest),
            None => None,
        }
    }
}

/// For every payload whose length is not an exact multiple of the chunk
/// size, the reader returns exactly the bytes sent, byte for byte.
pub proof fn lemma_reader_exact(data: Seq<u8>)
    requires
        (data.len() as int) % (READ_CHUNK as int) != 0,
    ensures
        reader_outcome(data) == Some(data),
    decreases data.len(),
{
    if data.len() >= READ_CHUNK {
        lemma_mod_sub_multiples_vanish(data.len() as int, READ_CHUNK as int);
        assert(data.skip(READ_CHUNK as int).len() == data.len() - READ_CHUNK);
        lemma_reader_exact(data.skip(READ_CHUNK as int));
        assert(data.take(READ_CHUNK as int) + data.skip(READ_CHUNK as int) =~= data);
    }
}

/// One step of the read loop: appends the bytes one read delivered and
/// says whether the loop must read again (the chunk was full). The
/// caller stops on the first short chunk.
pub fn reader_step(acc: &mut Vec<u8>, chunk: &[u8]) -> (more: bool)
    requires
        chunk@.len() <= READ_CHUNK,
    ensures
        final(acc)@ == old(acc)@ + chunk@,
        more == (chunk@.len() == READ_CHUNK),
{
    acc.extend_from_slice(chunk);
    chunk.len() == READ_CHUNK
}

} // verus!
