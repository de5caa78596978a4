//! Moving many files at once between a local and an SSH knot: the command
//! that starts the remote side, the tar stream (each entry padded to blocks
//! of 512 bytes, long paths in a GNU long-name entry, two zero blocks at the
//! end), the buffer that hands received chunks to the unpacker, and what the
//! exit status means.
use vstd::prelude::*;

use crate::cli::dashboard::drawing::append_chars;
use crate::configuration::strings_view;
use crate::error::KnotError;
use crate::text::string_of;

verus! {

/// Size of a tar block.
pub const TAR_BLOCK: u64 = 512;

/// Paths longer than this (in bytes) go in a long-name entry.
pub const TAR_NAME_LIMIT: usize = 100;

/// The raw stream is sent once it holds this many bytes.
pub const FLUSH_THRESHOLD: usize = 262144;

/// The zero bytes that fill `len` bytes up to a whole number of blocks.
pub open spec fn tar_padding_spec(len: nat) -> nat {
    ((512 - len % 512) % 512) as nat
}

pub fn tar_padding(len: u64) -> (r: u64)
    ensures
        r == tar_padding_spec(len as nat),
{
    (TAR_BLOCK - len % TAR_BLOCK) % TAR_BLOCK
}

/// Law: the padding completes the last block and is less than a block.
pub proof fn lemma_tar_padding(len: nat)
    ensures
        (len + tar_padding_spec(len)) % 512 == 0,
        tar_padding_spec(len) < 512,
        len % 512 == 0 ==> tar_padding_spec(len) == 0,
{
    assert((len + tar_padding_spec(len)) % 512 == 0) by (nonlinear_arith);
}

/// `n` zero bytes.
pub open spec fn zeros(n: nat) -> Seq<u8> {
    Seq::new(n, |i: int| 0u8)
}

/// Appends `data` and the zeros that complete its last block.
pub fn append_padded(buf: &mut Vec<u8>, data: &[u8])
    requires
        old(buf)@.len() + data@.len() + 512 <= usize::MAX,
    ensures
        final(buf)@ == old(buf)@ + data@ + zeros(tar_padding_spec(data@.len())),
{
    let ghost start = buf@;
    let mut i: usize = 0;
    while i < data.len()
        invariant
            i <= data@.len(),
            buf@ == start + data@.take(i as int),
        decreases data@.len() - i,
    {
        buf.push(data[i]);
        proof {
            assert(data@.take(i + 1) =~= data@.take(i as int).push(data@[i as int]));
        }
        i = i + 1;
    }
    proof {
        assert(data@.take(data@.len() as int) =~= data@);
    }
    let pad = tar_padding(data.len() as u64) as usize;
    let ghost mid = buf@;
    let mut k: usize = 0;
    while k < pad
        invariant
            k <= pad,
            buf@ == mid + zeros(k as nat),
        decreases pad - k,
    {
        buf.push(0u8);
        proof {
            assert(zeros((k + 1) as nat) =~= zeros(k as nat).push(0u8));
        }
        k = k + 1;
    }
}

/// Appends the end of a tar stream: two zero blocks.
pub fn append_end_blocks(buf: &mut Vec<u8>)
    requires
        old(buf)@.len() + 1024 <= usize::MAX,
    ensures
        final(buf)@ == old(buf)@ + zeros(1024),
{
    let ghost start = buf@;
    let mut k: usize = 0;
    while k < 1024
        invariant
            k <= 1024,
            buf@ == start + zeros(k as nat),
        decreases 1024 - k,
    {
        buf.push(0u8);
        proof {
            assert(zeros((k + 1) as nat) =~= zeros(k as nat).push(0u8));
        }
        k = k + 1;
    }
}

/// A relative path needs a long-name entry when its UTF-8 bytes are more
/// than a hundred.
pub fn needs_long_name(relative_path: &str) -> (r: bool)
    ensures
        r == (relative_path.len() > 100),
{
    relative_path.len() > TAR_NAME_LIMIT
}

/// The name the main header of an entry carries: the relative path itself,
/// or `longpath` when a long-name entry before it holds the path.
pub fn entry_header_name(relative_path: &str) -> (r: String)
    ensures
        r@ == (if relative_path.len() > 100 {
            "longpath"@
        } else {
            relative_path@
        }),
{
    if needs_long_name(relative_path) {
        "longpath".to_string()
    } else {
        relative_path.to_string()
    }
}

/// Whether the buffered bytes of a batch stream are sent now.
pub fn should_flush(buffered: usize) -> (r: bool)
    ensures
        r == (buffered >= 256 * 1024),
{
    buffered >= FLUSH_THRESHOLD
}

/// The command that starts the remote side of a batch: `write` receives a
/// tar stream into `root`, `read` sends one from it; zstd compression when
/// asked.
pub open spec fn batch_command_spec(bin: Seq<char>, write: bool, compress: bool, root: Seq<char>) -> Seq<char> {
    bin + (if write {
        " file write-batch-stream "@
    } else {
        " file read-batch-stream "@
    }) + (if compress {
        "--compression zstd "@
    } else {
        Seq::<char>::empty()
    }) + "--root-path "@ + seq!['\''] + root + seq!['\'']
}

/// The words that name the direction of a batch.
pub open spec fn batch_verb(write: bool) -> Seq<char> {
    if write {
        " file write-batch-stream "@
    } else {
        " file read-batch-stream "@
    }
}

/// Law: the write and read commands of a batch differ only in the words
/// `write-batch-stream` / `read-batch-stream`; asking for compression adds
/// exactly `--compression zstd ` right after them, in both directions.
pub proof fn lemma_batch_command_shape(bin: Seq<char>, compress: bool, root: Seq<char>)
    ensures
        ({
            let pw: int = (bin.len() + batch_verb(true).len()) as int;
            let pr: int = (bin.len() + batch_verb(false).len()) as int;
            let w = batch_command_spec(bin, true, compress, root);
            let r = batch_command_spec(bin, false, compress, root);
            &&& w.len() >= pw && r.len() >= pr
            &&& w.take(pw) == bin + batch_verb(true)
            &&& r.take(pr) == bin + batch_verb(false)
            &&& w.skip(pw) == r.skip(pr)
            &&& batch_command_spec(bin, true, true, root).skip(pw) == "--compression zstd "@
                + batch_command_spec(bin, true, false, root).skip(pw)
            &&& batch_command_spec(bin, false, true, root).skip(pr) == "--compression zstd "@
                + batch_command_spec(bin, false, false, root).skip(pr)
        }),
{
    let tail_plain = "--root-path "@ + seq!['\''] + root + seq!['\''];
    let tail = (if compress {
        "--compression zstd "@
    } else {
        Seq::<char>::empty()
    }) + tail_plain;
    let pw: int = (bin.len() + batch_verb(true).len()) as int;
    let pr: int = (bin.len() + batch_verb(false).len()) as int;
    assert(batch_command_spec(bin, true, compress, root) =~= bin + batch_verb(true) + tail);
    assert(batch_command_spec(bin, false, compress, root) =~= bin + batch_verb(false) + tail);
    assert((bin + batch_verb(true) + tail).take(pw) =~= bin + batch_verb(true));
    assert((bin + batch_verb(false) + tail).take(pr) =~= bin + batch_verb(false));
    assert((bin + batch_verb(true) + tail).skip(pw) =~= tail);
    assert((bin + batch_verb(false) + tail).skip(pr) =~= tail);
    assert(batch_command_spec(bin, true, true, root).skip(pw) =~= "--compression zstd "@ + tail_plain);
    assert(batch_command_spec(bin, true, false, root).skip(pw) =~= tail_plain);
    assert(batch_command_spec(bin, false, true, root).skip(pr) =~= "--compression zstd "@ + tail_plain);
    assert(batch_command_spec(bin, false, false, root).skip(pr) =~= tail_plain);
}

pub fn batch_command(bin: &str, write: bool, compress: bool, root: &str) -> (r: String)
    ensures
        r@ == batch_command_spec(bin@, write, compress, root@),
{
    let mut out: Vec<char> = Vec::new();
    append_chars(&mut out, bin);
    if write {
        append_chars(&mut out, " file write-batch-stream ");
    } else {
        append_chars(&mut out, " file read-batch-stream ");
    }
    if compress {
        append_chars(&mut out, "--compression zstd ");
    }
    append_chars(&mut out, "--root-path ");
    out.push('\'');
    append_chars(&mut out, root);
    out.push('\'');
    proof {
        assert(out@ =~= batch_command_spec(bin@, write, compress, root@));
    }
    string_of(out.as_slice())
}

/// The request of a download: each relative path on a line of its own.
pub open spec fn path_lines(ps: Seq<Seq<char>>) -> Seq<char>
    decreases ps.len(),
{
    if ps.len() == 0 {
        Seq::<char>::empty()
    } else {
        path_lines(ps.drop_last()) + ps.last() + seq!['\n']
    }
}

pub fn download_request(relative_paths: &Vec<String>) -> (r: String)
    ensures
        r@ == path_lines(strings_view(relative_paths@)),
{
    let mut out: Vec<char> = Vec::new();
    let mut i: usize = 0;
    while i < relative_paths.len()
        invariant
            i <= relative_paths@.len(),
            out@ == path_lines(strings_view(relative_paths@).take(i as int)),
        decreases relative_paths@.len() - i,
    {
        append_chars(&mut out, relative_paths[i].as_str());
        out.push('\n');
        proof {
            let t = strings_view(relative_paths@).take(i + 1);
            assert(t.drop_last() =~= strings_view(relative_paths@).take(i as int));
            assert(t.last() == relative_paths@[i as int]@);
            assert(out@ =~= path_lines(t));
        }
        i = i + 1;
    }
    proof {
        assert(strings_view(relative_paths@).take(relative_paths@.len() as int) =~= strings_view(
            relative_paths@,
        ));
    }
    string_of(out.as_slice())
}

/// What a batch comes to: the number of files when the remote side ended
/// with 0, its code and error output otherwise, and an error when the
/// channel closed without a status.
pub fn batch_outcome(exit_code: Option<u32>, file_count: usize, stderr: String) -> (r: Result<
    usize,
    KnotError,
>)
    ensures
        match exit_code {
            Some(0) => r == Ok::<usize, KnotError>(file_count),
            Some(code) => r matches Err(KnotError::RemoteCommandFailed { code: c, stderr: e }) && c
                == code && e == stderr,
            None => r matches Err(KnotError::NoExitStatus { stderr: e }) && e == stderr,
        },
{
    match exit_code {
        Some(0) => Ok(file_count),
        Some(code) => Err(KnotError::RemoteCommandFailed { code, stderr }),
        None => Err(KnotError::NoExitStatus { stderr }),
    }
}

/// The chunks received from a channel, handed out in pieces of any size.
pub struct ChunkBuffer {
    pub buffer: Vec<u8>,
    pub offset: usize,
}

impl ChunkBuffer {
    /// What is still to be handed out.
    pub open spec fn pending(&self) -> Seq<u8> {
        self.buffer@.skip(self.offset as int)
    }

    pub open spec fn wf(&self) -> bool {
        self.offset <= self.buffer@.len()
    }

    pub fn new() -> (r: Self)
        ensures
            r.wf(),
            r.pending().len() == 0,
    {
        ChunkBuffer { buffer: Vec::new(), offset: 0 }
    }

    /// Whether everything received has been handed out (a new chunk is
    /// needed).
    pub fn is_drained(&self) -> (r: bool)
        requires
            self.wf(),
        ensures
            r == (self.pending().len() == 0),
    {
        self.offset >= self.buffer.len()
    }

    /// Takes a received chunk when all before it has been handed out; an
    /// empty chunk changes nothing.
    pub fn refill(&mut self, chunk: Vec<u8>)
        requires
            old(self).wf(),
            old(self).pending().len() == 0,
        ensures
            final(self).wf(),
            final(self).pending() == chunk@,
    {
        if chunk.len() > 0 {
            self.buffer = chunk;
            self.offset = 0;
            proof {
                assert(self.buffer@.skip(0) =~= chunk@);
            }
        } else {
            proof {
                assert(self.pending() =~= chunk@);
            }
        }
    }

    /// Hands out up to `max` of the pending bytes, in order.
    pub fn read(&mut self, max: usize) -> (r: Vec<u8>)
        requires
            old(self).wf(),
        ensures
            final(self).wf(),
            r@.len() == (if max < old(self).pending().len() {
                max as nat
            } else {
                old(self).pending().len()
            }),
            old(self).pending() == r@ + final(self).pending(),
    {
        let off = self.offset;
        let len = self.buffer.len();
        let remaining = len - off;
        let n = if max < remaining {
            max
        } else {
            remaining
        };
        let mut out: Vec<u8> = Vec::new();
        let ghost p = self.pending();
        let mut i: usize = 0;
        while i < n
            invariant
                i <= n <= remaining,
                remaining == len - off,
                len == self.buffer@.len(),
                off <= len,
                p == self.buffer@.skip(off as int),
                out@ == p.take(i as int),
            decreases n - i,
        {
            out.push(self.buffer[off + i]);
            proof {
                assert(p.take(i + 1) =~= p.take(i as int).push(p[i as int]));
            }
            i = i + 1;
        }
        self.offset = self.offset + n;
        proof {
            assert(p =~= out@ + self.buffer@.skip(self.offset as int));
        }
        out
    }
}

/// The name of the folder where a download is unpacked before it is moved
/// into place: `.staging_`, the random number in sixteen hexadecimal digits,
/// and the suffix of temporary files.
pub open spec fn staging_name_spec(random: u64) -> Seq<char> {
    ".staging_"@ + hex16(random as nat) + crate::TEMPORAL_SUFFIX@
}

pub open spec fn hex_digit(d: nat) -> char {
    if d < 10 {
        ((d + 48) as u32) as char
    } else {
        ((d + 87) as u32) as char
    }
}

/// The lowest `k` hexadecimal digits of `n`, most significant first.
pub open spec fn hex_digits(n: nat, k: nat) -> Seq<char>
    decreases k,
{
    if k == 0 {
        Seq::<char>::empty()
    } else {
        hex_digits(n / 16, (k - 1) as nat).push(hex_digit(n % 16))
    }
}

pub open spec fn hex16(n: nat) -> Seq<char> {
    hex_digits(n, 16)
}

pub fn staging_name(random: u64) -> (r: String)
    ensures
        r@ == staging_name_spec(random),
{
    let mut rev: Vec<char> = Vec::new();
    let mut m: u64 = random;
    let mut k: usize = 0;
    while k < 16
        invariant
            k <= 16,
            hex_digits(random as nat, 16) == hex_digits(m as nat, (16 - k) as nat) + rev@.reverse(),
        decreases 16 - k,
    {
        let d = (m % 16) as u8;
        let c = if d < 10 {
            (d + 48u8) as char
        } else {
            (d + 87u8) as char
        };
        proof {
            assert(c == hex_digit((m % 16) as nat));
            assert(rev@.push(c).reverse() =~= seq![c] + rev@.reverse());
            assert(hex_digits(m as nat, (16 - k) as nat) == hex_digits((m / 16) as nat, (16 - k - 1) as nat).push(c));
        }
        rev.push(c);
        m = m / 16;
        k = k + 1;
    }
    let mut out: Vec<char> = Vec::new();
    append_chars(&mut out, ".staging_");
    let ghost digits = rev@.reverse();
    proof {
        assert(hex_digits(m as nat, 0) =~= Seq::<char>::empty());
        assert(hex16(random as nat) =~= digits);
    }
    let ghost base = out@;
    let mut i: usize = rev.len();
    while i > 0
        invariant
            i <= rev@.len(),
            digits == rev@.reverse(),
            out@ == base + digits.take(rev@.len() - i),
        decreases i,
    {
        i = i - 1;
        out.push(rev[i]);
        proof {
            assert(digits[rev@.len() - i - 1] == rev@[i as int]);
            assert(digits.take(rev@.len() - i) =~= digits.take(rev@.len() - i - 1).push(rev@[i as int]));
        }
    }
    proof {
        assert(digits.take(rev@.len() as int) =~= digits);
    }
    append_chars(&mut out, crate::TEMPORAL_SUFFIX);
    proof {
        assert(out@ =~= staging_name_spec(random));
    }
    string_of(out.as_slice())
}

} // verus!
