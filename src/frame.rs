//! Request framing: command, checksum and terminator, cut into fixed-width
//! transport blocks with a leading report identifier of zero.
use vstd::prelude::*;
use crate::checksum::{checksum_of, frame_checksum, lemma_checksum_deterministic, TERMINATOR};

verus! {

/// Data bytes carried by one transport block.
pub const BLOCK_DATA_LEN: usize = 8;

/// Bytes written per block: the report identifier, then the data.
pub const BLOCK_LEN: usize = 9;

/// The bytes of a framed command: command, checksum high, checksum low,
/// terminator.
pub open spec fn frame_of(cmd: Seq<u8>) -> Seq<u8> {
    let c = checksum_of(cmd);
    cmd + seq![c.high, c.low, TERMINATOR]
}

/// Number of blocks that carry `n` bytes.
pub open spec fn block_count(n: nat) -> nat {
    (n + 7) / 8
}

/// Block `k` of a frame: a zero report identifier, then the frame bytes
/// `8k .. 8k+7`, zero-padded past the end of the frame.
pub open spec fn block_of(frame: Seq<u8>, k: int) -> Seq<u8> {
    Seq::new(
        BLOCK_LEN as nat,
        |j: int|
            if j >= 1 && 8 * k + j - 1 < frame.len() {
                frame[8 * k + j - 1]
            } else {
                0u8
            },
    )
}

/// Appends the checksum and the terminator to a command.
pub fn frame_command(cmd: &[u8]) -> (r: Vec<u8>)
    ensures
        r@ == frame_of(cmd@),
{
    let c = frame_checksum(cmd);
    let mut out: Vec<u8> = Vec::new();
    let mut i: usize = 0;
    while i < cmd.len()
        invariant
            i <= cmd@.len(),
            out@ == cmd@.subrange(0, i as int),
        decreases cmd.len() - i,
    {
        out.push(cmd[i]);
        assert(cmd@.subrange(0, i + 1) =~= cmd@.subrange(0, i as int).push(cmd@[i as int]));
        i = i + 1;
    }
    assert(cmd@.subrange(0, i as int) =~= cmd@);
    out.push(c.high);
    out.push(c.low);
    out.push(TERMINATOR);
    assert(out@ =~= frame_of(cmd@));
    out
}

/// Cuts a frame into transport blocks, in order.
pub fn frame_blocks(frame: &[u8]) -> (r: Vec<Vec<u8>>)
    ensures
        r@.len() == block_count(frame@.len()),
        forall|k: int| 0 <= k < r@.len() ==> (#[trigger] r@[k])@ == block_of(frame@, k),
{
    let mut blocks: Vec<Vec<u8>> = Vec::new();
    let len: usize = frame.len();
    let n: usize = if frame.len() % 8 == 0 { frame.len() / 8 } else { frame.len() / 8 + 1 };
    assert(n == block_count(frame@.len()));
    let mut k: usize = 0;
    while k < n
        invariant
            n == block_count(frame@.len()),
            len == frame@.len(),
            k <= n,
            blocks@.len() == k,
            forall|m: int| 0 <= m < k ==> (#[trigger] blocks@[m])@ == block_of(frame@, m),
        decreases n - k,
    {
        assert(8 * k < frame@.len()) by (nonlinear_arith)
            requires
                k < n,
                n == (frame@.len() + 7) / 8,
        ;
        let start: usize = 8 * k;
        let mut block: Vec<u8> = Vec::with_capacity(BLOCK_LEN);
        block.push(0u8);
        let mut j: usize = 1;
        while j < BLOCK_LEN
            invariant
                1 <= j <= BLOCK_LEN,
                start == 8 * k,
                start < frame@.len(),
                block@.len() == j,
                forall|i: int| 0 <= i < j ==> block@[i] == #[trigger] block_of(frame@, k as int)[i],
            decreases BLOCK_LEN - j,
        {
            if j - 1 < frame.len() - start {
                block.push(frame[start + j - 1]);
            } else {
                block.push(0u8);
            }
            j = j + 1;
        }
        assert(block@ =~= block_of(frame@, k as int));
        blocks.push(block);
        k = k + 1;
    }
    blocks
}

/// The transport blocks that carry a command: framed, then cut.
pub fn request_blocks(cmd: &[u8]) -> (r: Vec<Vec<u8>>)
    ensures
        r@.len() == block_count(frame_of(cmd@).len()),
        forall|k: int| 0 <= k < r@.len() ==> (#[trigger] r@[k])@ == block_of(frame_of(cmd@), k),
{
    let frame = frame_command(cmd);
    frame_blocks(frame.as_slice())
}

/// Framing depends on the command bytes alone: equal commands give equal
/// checksums, equal frames and equal blocks, whatever the device or the
/// time.
pub proof fn lemma_framing_deterministic(a: Seq<u8>, b: Seq<u8>)
    requires
        a == b,
    ensures
        checksum_of(a) == checksum_of(b),
        frame_of(a) == frame_of(b),
        block_count(frame_of(a).len()) == block_count(frame_of(b).len()),
        forall|k: int| #[trigger] block_of(frame_of(a), k) == block_of(frame_of(b), k),
{
    lemma_checksum_deterministic(a, b);
}

} // verus!
