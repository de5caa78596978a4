//! Copying a file from an SSH knot piece by piece: ranges are read from the
//! source and written at the same offsets into a temporary file on the other
//! knot until a read comes back empty; the temporary file then takes the
//! target's place. The reads and writes are the program's; the library
//! decides each step.
use vstd::prelude::*;

use crate::error::KnotError;

verus! {

/// The bytes asked for by one read of a copy.
pub const TRANSFER_CHUNK: u64 = 131072;

/// The range read next, from where the copy stands.
pub fn next_range(offset: u64) -> (r: (u64, u64))
    requires
        offset + 131072 <= u64::MAX,
    ensures
        r == (offset, (offset + 131072) as u64),
{
    (offset, offset + TRANSFER_CHUNK)
}

/// What a copy does with the bytes a read gave.
#[derive(Debug, Clone, Copy, PartialEq, Eq, Structural)]
pub enum CopyStep {
    /// The read came back empty: the temporary file is renamed into place.
    Finish,
    /// The bytes are written at `offset`; the copy goes on from `next`.
    WriteAt { offset: u64, next: u64 },
}

pub open spec fn copy_step_spec(offset: nat, chunk_len: nat) -> CopyStep {
    if chunk_len == 0 {
        CopyStep::Finish
    } else {
        CopyStep::WriteAt { offset: offset as u64, next: (offset + chunk_len) as u64 }
    }
}

pub fn copy_step(offset: u64, chunk_len: usize) -> (r: CopyStep)
    requires
        offset + chunk_len <= u64::MAX,
    ensures
        r == copy_step_spec(offset as nat, chunk_len as nat),
{
    if chunk_len == 0 {
        CopyStep::Finish
    } else {
        CopyStep::WriteAt { offset, next: offset + chunk_len as u64 }
    }
}

/// The offsets the steps of a copy write its chunks at, one step after the
/// other from `start`, until a chunk is empty.
pub open spec fn write_offsets(start: nat, lens: Seq<nat>) -> Seq<nat>
    decreases lens.len(),
{
    if lens.len() == 0 {
        Seq::<nat>::empty()
    } else {
        match copy_step_spec(start, lens[0]) {
            CopyStep::Finish => Seq::<nat>::empty(),
            CopyStep::WriteAt { offset, next } => seq![offset as nat] + write_offsets(
                next as nat,
                lens.drop_first(),
            ),
        }
    }
}

pub open spec fn total(lens: Seq<nat>) -> nat
    decreases lens.len(),
{
    if lens.len() == 0 {
        0
    } else {
        lens[0] + total(lens.drop_first())
    }
}

/// Law: a copy leaves no gap and writes nothing twice: with chunks that are
/// not empty, each chunk is written right where the chunks before it end.
pub proof fn lemma_copy_is_contiguous(start: nat, lens: Seq<nat>)
    requires
        forall|i: int| 0 <= i < lens.len() ==> #[trigger] lens[i] > 0,
        start + total(lens) <= u64::MAX,
    ensures
        write_offsets(start, lens).len() == lens.len(),
        forall|i: int|
            0 <= i < lens.len() ==> #[trigger] write_offsets(start, lens)[i] == start + total(
                lens.take(i),
            ),
    decreases lens.len(),
{
    if lens.len() > 0 {
        let rest = lens.drop_first();
        assert forall|i: int| 0 <= i < rest.len() implies #[trigger] rest[i] > 0 by {
            assert(rest[i] == lens[i + 1]);
        }
        lemma_copy_is_contiguous(start + lens[0], rest);
        let w = write_offsets(start, lens);
        assert forall|i: int| 0 <= i < lens.len() implies #[trigger] w[i] == start + total(
            lens.take(i),
        ) by {
            if i == 0 {
                assert(lens.take(0) =~= Seq::<nat>::empty());
            } else {
                assert(w[i] == write_offsets(start + lens[0], rest)[i - 1]);
                assert(lens.take(i).drop_first() =~= rest.take(i - 1));
                assert(lens.take(i)[0] == lens[0]);
            }
        }
    }
}

/// How a streamed read of a remote file ended: it succeeded when the
/// command exited with 0.
pub fn stream_read_outcome(exit_code: Option<u32>) -> (r: Result<(), KnotError>)
    ensures
        match exit_code {
            Some(c) => if c == 0 {
                r is Ok
            } else {
                r matches Err(KnotError::RemoteCommandFailed { code, .. }) && code == c
            },
            None => r matches Err(KnotError::NoExitStatus { .. }),
        },
{
    match exit_code {
        Some(0) => Ok(()),
        Some(c) => Err(KnotError::RemoteCommandFailed { code: c, stderr: String::new() }),
        None => Err(KnotError::NoExitStatus { stderr: String::new() }),
    }
}

} // verus!
