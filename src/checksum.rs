//! The frame check value: a nibble-wise CRC-16 (polynomial 0x1021, initial
//! value zero) whose two output bytes are escaped away from the protocol's
//! reserved bytes.
use vstd::prelude::*;

verus! {

/// Start of a response payload, `(`.
pub const FRAME_START: u8 = 0x28;

/// End of every frame, carriage return.
pub const TERMINATOR: u8 = 0x0D;

/// Line feed, also kept out of checksum bytes.
pub const LINE_FEED: u8 = 0x0A;

/// The sixteen precomputed constants of the nibble table.
pub open spec fn crc_table(i: u16) -> u16 {
    if i == 0 { 0x0000 }
    else if i == 1 { 0x1021 }
    else if i == 2 { 0x2042 }
    else if i == 3 { 0x3063 }
    else if i == 4 { 0x4084 }
    else if i == 5 { 0x50a5 }
    else if i == 6 { 0x60c6 }
    else if i == 7 { 0x70e7 }
    else if i == 8 { 0x8108 }
    else if i == 9 { 0x9129 }
    else if i == 10 { 0xa14a }
    else if i == 11 { 0xb16b }
    else if i == 12 { 0xc18c }
    else if i == 13 { 0xd1ad }
    else if i == 14 { 0xe1ce }
    else { 0xf1ef }
}

/// One 4-bit update of the accumulator.
pub open spec fn crc_nibble(crc: u16, nibble: u8) -> u16 {
    ((crc << 4u16) ^ crc_table((((crc >> 12u16) as u8) ^ nibble) as u16)) as u16
}

/// One input byte: high nibble first, then low nibble.
pub open spec fn crc_byte(crc: u16, b: u8) -> u16 {
    crc_nibble(crc_nibble(crc, b >> 4u8), b & 0x0fu8)
}

/// The accumulator after all of `s`, starting from zero.
pub open spec fn crc_of(s: Seq<u8>) -> u16
    decreases s.len(),
{
    if s.len() == 0 {
        0
    } else {
        crc_byte(crc_of(s.drop_last()), s.last())
    }
}

/// Bytes that may never appear as a checksum byte.
pub open spec fn is_reserved(b: u8) -> bool {
    b == FRAME_START || b == TERMINATOR || b == LINE_FEED
}

/// A reserved byte is moved up by one; any other byte is kept.
pub open spec fn escaped(b: u8) -> u8 {
    if is_reserved(b) {
        (b + 1) as u8
    } else {
        b
    }
}

/// The two checksum bytes that follow a command on the wire.
#[derive(Clone, Copy, Debug, PartialEq, Eq, Structural)]
pub struct FrameChecksum {
    pub high: u8,
    pub low: u8,
}

/// The escaped checksum of a command.
pub open spec fn checksum_of(cmd: Seq<u8>) -> FrameChecksum {
    let c = crc_of(cmd);
    FrameChecksum { high: escaped((c >> 8u16) as u8), low: escaped((c & 0xffu16) as u8) }
}

fn table_entry(i: u16) -> (r: u16)
    requires
        i < 16,
    ensures
        r == crc_table(i),
{
    match i {
        0 => 0x0000,
        1 => 0x1021,
        2 => 0x2042,
        3 => 0x3063,
        4 => 0x4084,
        5 => 0x50a5,
        6 => 0x60c6,
        7 => 0x70e7,
        8 => 0x8108,
        9 => 0x9129,
        10 => 0xa14a,
        11 => 0xb16b,
        12 => 0xc18c,
        13 => 0xd1ad,
        14 => 0xe1ce,
        _ => 0xf1ef,
    }
}

fn crc_step(crc: u16, nibble: u8) -> (r: u16)
    requires
        nibble < 16,
    ensures
        r == crc_nibble(crc, nibble),
{
    let da: u8 = ((crc >> 12u16) as u8) ^ nibble;
    assert((((crc >> 12u16) as u8) ^ nibble) < 16) by (bit_vector)
        requires
            nibble < 16,
    ;
    (crc << 4u16) ^ table_entry(da as u16)
}

/// The unescaped 16-bit accumulator over the command bytes.
pub fn crc16(cmd: &[u8]) -> (r: u16)
    ensures
        r == crc_of(cmd@),
{
    let mut crc: u16 = 0;
    let mut i: usize = 0;
    while i < cmd.len()
        invariant
            i <= cmd@.len(),
            crc == crc_of(cmd@.subrange(0, i as int)),
        decreases cmd.len() - i,
    {
        let b = cmd[i];
        assert((b >> 4u8) < 16 && (b & 0x0fu8) < 16) by (bit_vector);
        crc = crc_step(crc, b >> 4u8);
        crc = crc_step(crc, b & 0x0fu8);
        assert(cmd@.subrange(0, i + 1).drop_last() =~= cmd@.subrange(0, i as int));
        i = i + 1;
    }
    assert(cmd@.subrange(0, i as int) =~= cmd@);
    crc
}

/// Moves a reserved byte up by one.
pub fn escape_byte(b: u8) -> (r: u8)
    ensures
        r == escaped(b),
        !is_reserved(r),
{
    if b == FRAME_START || b == TERMINATOR || b == LINE_FEED {
        b + 1
    } else {
        b
    }
}

/// The checksum bytes of a command, escaped.
pub fn frame_checksum(cmd: &[u8]) -> (r: FrameChecksum)
    ensures
        r == checksum_of(cmd@),
        !is_reserved(r.high),
        !is_reserved(r.low),
{
    let c = crc16(cmd);
    FrameChecksum { high: escape_byte((c >> 8u16) as u8), low: escape_byte((c & 0xffu16) as u8) }
}

/// The checksum depends on the command bytes alone: equal commands give
/// equal checksums.
pub proof fn lemma_checksum_deterministic(a: Seq<u8>, b: Seq<u8>)
    requires
        a == b,
    ensures
        checksum_of(a) == checksum_of(b),
{
}

/// Escaping never yields a reserved byte, so neither checksum byte of any
/// command can be mistaken for a frame start, a terminator or a line feed.
pub proof fn lemma_checksum_avoids_reserved(cmd: Seq<u8>)
    ensures
        !is_reserved(checksum_of(cmd).high),
        !is_reserved(checksum_of(cmd).low),
{
}

} // verus!
