//! Fixed-width scalars and the rule that assembles them from bytes.

use vstd::prelude::*;
use crate::errors::ErrorKind;

verus! {

/// Why reading an item stopped, and how many bytes had been read by then.
/// A read either takes all its bytes or none, so `used` counts the bytes
/// of the reads that went well before the one that did not.
pub struct Failure {
    pub kind: ErrorKind,
    pub used: nat,
}

/// Outcome of reading one item at a position: the item and the number of
/// bytes it took, or the reason why there is none.
pub type Parse<T> = Result<(T, nat), Failure>;

/// The failure `kind` after `used` bytes.
pub open spec fn failure<T>(kind: ErrorKind, used: nat) -> Parse<T> {
    Err(Failure { kind, used })
}

/// Number of bytes that were read, whether or not an item came of it.
pub open spec fn taken<T>(r: Parse<T>) -> nat {
    match r {
        Ok((_, n)) => n,
        Err(f) => f.used,
    }
}

/// The bytes `s[pos .. pos + n]`, if the input holds them. Where it does
/// not, none of them is read.
pub open spec fn window(s: Seq<u8>, pos: int, n: int) -> Parse<Seq<u8>> {
    if 0 <= pos && 0 <= n && pos + n <= s.len() {
        Ok((s.subrange(pos, pos + n), n as nat))
    } else {
        failure(ErrorKind::TruncatedInput, 0)
    }
}

/// Value of four bytes, least significant first.
pub open spec fn le32(b: Seq<u8>) -> int {
    b[0] + 0x100 * b[1] + 0x1_0000 * b[2] + 0x100_0000 * b[3]
}

/// The two's-complement reading of a value below 2^32.
pub open spec fn signed32(v: int) -> int {
    if v >= 0x8000_0000 {
        v - 0x1_0000_0000
    } else {
        v
    }
}

/// The two's-complement reading of a value below 2^64.
pub open spec fn signed64(v: int) -> int {
    if v >= 0x8000_0000_0000_0000 {
        v - 0x1_0000_0000_0000_0000
    } else {
        v
    }
}

/// Value of eight bytes, least significant first.
pub open spec fn le64(b: Seq<u8>) -> int {
    le32(b.subrange(0, 4)) + 0x1_0000_0000 * le32(b.subrange(4, 8))
}

/// A scalar of the dump format: a fixed number of bytes and the value they
/// stand for.
pub trait Primitive: Sized {
    /// Number of bytes of one value.
    spec fn width() -> nat;

    /// The value that `bytes` stand for.
    spec fn assemble(bytes: Seq<u8>) -> Self;

    fn size() -> (n: usize)
        ensures
            n == Self::width(),
    ;

    fn from_bytes(bytes: &Vec<u8>) -> (v: Self)
        requires
            bytes@.len() == Self::width(),
        ensures
            v == Self::assemble(bytes@),
    ;
}

/// Assembles four bytes, least significant first.
pub fn read_le32(bytes: &Vec<u8>) -> (v: u32)
    requires
        bytes@.len() == 4,
    ensures
        v == le32(bytes@),
{
    let b0: u32 = bytes[0] as u32;
    let b1: u32 = bytes[1] as u32;
    let b2: u32 = bytes[2] as u32;
    let b3: u32 = bytes[3] as u32;
    assert(b0 | (b1 << 8) | (b2 << 16) | (b3 << 24) == b0 + 0x100 * b1 + 0x1_0000 * b2 + 0x100_0000
        * b3) by (bit_vector)
        requires
            b0 < 256,
            b1 < 256,
            b2 < 256,
            b3 < 256,
    ;
    b0 | (b1 << 8) | (b2 << 16) | (b3 << 24)
}

/// Assembles eight bytes, least significant first.
pub fn read_le64(bytes: &Vec<u8>) -> (v: u64)
    requires
        bytes@.len() == 8,
    ensures
        v == le64(bytes@),
{
    let b0: u64 = bytes[0] as u64;
    let b1: u64 = bytes[1] as u64;
    let b2: u64 = bytes[2] as u64;
    let b3: u64 = bytes[3] as u64;
    let b4: u64 = bytes[4] as u64;
    let b5: u64 = bytes[5] as u64;
    let b6: u64 = bytes[6] as u64;
    let b7: u64 = bytes[7] as u64;
    let low: u64 = b0 | (b1 << 8) | (b2 << 16) | (b3 << 24);
    let high: u64 = b4 | (b5 << 8) | (b6 << 16) | (b7 << 24);
    assert(low == b0 + 0x100 * b1 + 0x1_0000 * b2 + 0x100_0000 * b3 && low < 0x1_0000_0000)
        by (bit_vector)
        requires
            low == b0 | (b1 << 8) | (b2 << 16) | (b3 << 24),
            b0 < 256,
            b1 < 256,
            b2 < 256,
            b3 < 256,
    ;
    assert(high == b4 + 0x100 * b5 + 0x1_0000 * b6 + 0x100_0000 * b7 && high < 0x1_0000_0000)
        by (bit_vector)
        requires
            high == b4 | (b5 << 8) | (b6 << 16) | (b7 << 24),
            b4 < 256,
            b5 < 256,
            b6 < 256,
            b7 < 256,
    ;
    assert(low | (high << 32) == low + 0x1_0000_0000 * high) by (bit_vector)
        requires
            low < 0x1_0000_0000,
            high < 0x1_0000_0000,
    ;
    proof {
        let b = bytes@;
        assert(b.subrange(0, 4)[0] == b[0] && b.subrange(0, 4)[1] == b[1] && b.subrange(0, 4)[2]
            == b[2] && b.subrange(0, 4)[3] == b[3]);
        assert(b.subrange(4, 8)[0] == b[4] && b.subrange(4, 8)[1] == b[5] && b.subrange(4, 8)[2]
            == b[6] && b.subrange(4, 8)[3] == b[7]);
    }
    low | (high << 32)
}

impl Primitive for u8 {
    open spec fn width() -> nat {
        1
    }

    open spec fn assemble(bytes: Seq<u8>) -> u8 {
        bytes[0]
    }

    fn size() -> (n: usize) {
        1
    }

    fn from_bytes(bytes: &Vec<u8>) -> (v: u8) {
        bytes[0]
    }
}

impl Primitive for u32 {
    open spec fn width() -> nat {
        4
    }

    open spec fn assemble(bytes: Seq<u8>) -> u32 {
        le32(bytes) as u32
    }

    fn size() -> (n: usize) {
        4
    }

    fn from_bytes(bytes: &Vec<u8>) -> (v: u32) {
        read_le32(bytes)
    }
}

impl Primitive for i32 {
    open spec fn width() -> nat {
        4
    }

    open spec fn assemble(bytes: Seq<u8>) -> i32 {
        signed32(le32(bytes)) as i32
    }

    fn size() -> (n: usize) {
        4
    }

    fn from_bytes(bytes: &Vec<u8>) -> (v: i32) {
        let u: u32 = read_le32(bytes);
        if u >= 0x8000_0000 {
            let below: u32 = u32::MAX - u;
            -(below as i32) - 1
        } else {
            u as i32
        }
    }
}

impl Primitive for u64 {
    open spec fn width() -> nat {
        8
    }

    open spec fn assemble(bytes: Seq<u8>) -> u64 {
        le64(bytes) as u64
    }

    fn size() -> (n: usize) {
        8
    }

    fn from_bytes(bytes: &Vec<u8>) -> (v: u64) {
        read_le64(bytes)
    }
}

impl Primitive for i64 {
    open spec fn width() -> nat {
        8
    }

    open spec fn assemble(bytes: Seq<u8>) -> i64 {
        signed64(le64(bytes)) as i64
    }

    fn size() -> (n: usize) {
        8
    }

    fn from_bytes(bytes: &Vec<u8>) -> (v: i64) {
        let u: u64 = read_le64(bytes);
        if u >= 0x8000_0000_0000_0000 {
            let below: u64 = u64::MAX - u;
            -(below as i64) - 1
        } else {
            u as i64
        }
    }
}

/// One scalar at `pos`.
pub open spec fn scalar<T: Primitive>(s: Seq<u8>, pos: int) -> Parse<T> {
    match window(s, pos, T::width() as int) {
        Ok((bytes, n)) => Ok((T::assemble(bytes), n)),
        Err(e) => Err(e),
    }
}

} // verus!
