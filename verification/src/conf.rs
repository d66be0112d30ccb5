//! The values that a dump must carry in its header, and the tags of its
//! constants.

use vstd::prelude::*;

verus! {

/// Version of the format: major number in the high half, minor in the low.
pub const SYX_VERSION: u8 = 0x53;

/// Tag of the official format.
pub const SYX_FORMAT: u8 = 0;

/// The integer that follows the size bytes. A dump written with another
/// byte order carries another value here.
pub const SYX_INT: i64 = 0x5678;

/// Bits of the float that follows the integer: the double 370.5.
pub const SYX_NUM: u64 = 0x4077_2800_0000_0000;

/// Width in bytes of a count, a line or an instruction index.
pub const SIZE_INT: u8 = 4;

/// Width in bytes of the size of a long string.
pub const SIZE_SIZE: u8 = 8;

/// Width in bytes of an instruction word.
pub const SIZE_INSTRUCTION: u8 = 4;

/// Width in bytes of an integer constant.
pub const SIZE_INTEGER: u8 = 8;

/// Width in bytes of a float constant.
pub const SIZE_NUMBER: u8 = 8;

/// Tag of the constant nil.
pub const TNIL: u8 = 0;

/// Tag of a boolean constant.
pub const TBOOLEAN: u8 = 1;

/// Tag of a float constant.
pub const TNUMFLT: u8 = 3;

/// Tag of an integer constant.
pub const TNUMINT: u8 = 19;

/// Tag of a short string constant.
pub const TSHRSTR: u8 = 4;

/// Tag of a long string constant.
pub const TLNGSTR: u8 = 20;

/// Longest string constant that an encoder tags as short.
pub const SYX_MAXSHORTLEN: usize = 40;

/// First byte of a string whose size follows in eight bytes.
pub const LONG_SIZE: u8 = 0xff;

/// The signature that opens a dump: escape, then "Lua".
pub open spec fn syx_header() -> Seq<u8> {
    seq![0x1bu8, 0x4cu8, 0x75u8, 0x61u8]
}

/// The literal after version and format. It holds a carriage return, line
/// feeds and a control-Z, which a transfer in text mode would change.
pub open spec fn syx_data() -> Seq<u8> {
    seq![0x19u8, 0x93u8, 0x0du8, 0x0au8, 0x1au8, 0x0au8]
}

/// The signature as bytes.
pub fn header_literal() -> (v: Vec<u8>)
    ensures
        v@ == syx_header(),
{
    let mut v: Vec<u8> = Vec::new();
    v.push(0x1b);
    v.push(0x4c);
    v.push(0x75);
    v.push(0x61);
    assert(v@ =~= syx_header());
    v
}

/// The transport literal as bytes.
pub fn data_literal() -> (v: Vec<u8>)
    ensures
        v@ == syx_data(),
{
    let mut v: Vec<u8> = Vec::new();
    v.push(0x19);
    v.push(0x93);
    v.push(0x0d);
    v.push(0x0a);
    v.push(0x1a);
    v.push(0x0a);
    assert(v@ =~= syx_data());
    v
}

} // verus!
