//! What can go wrong while a dump is loaded.

use vstd::prelude::*;

verus! {

/// One check of the format verifier, in the order in which the header is
/// read.
#[derive(Clone, Copy, Debug, PartialEq, Eq, Structural)]
pub enum Check {
    /// The signature that opens every dump.
    Header,
    /// The version byte.
    Version,
    /// The format tag.
    Format,
    /// The literal that detects a dump mangled in transport.
    LoadOrder,
    /// Width of a 32-bit integer.
    SizeInt,
    /// Width of a string size.
    SizeSize,
    /// Width of an instruction word.
    SizeInstruction,
    /// Width of an integer constant.
    SizeInteger,
    /// Width of a float constant.
    SizeNumber,
    /// The integer written with a known value.
    Endianness,
    /// The float written with a known bit pattern.
    FloatFormat,
}

impl Check {
    /// What is said of a dump that fails this check.
    pub open spec fn message(self) -> Seq<char> {
        match self {
            Check::Header => "literal mismatch: header"@,
            Check::Version => "version mismatch"@,
            Check::Format => "format mismatch"@,
            Check::LoadOrder => "literal mismatch: load order verification"@,
            Check::SizeInt => "size mismatch: i32"@,
            Check::SizeSize => "size mismatch: usize"@,
            Check::SizeInstruction => "size mismatch: Word"@,
            Check::SizeInteger => "size mismatch: SyxInteger"@,
            Check::SizeNumber => "size mismatch: SyxNumber"@,
            Check::Endianness => "endianness mismatch"@,
            Check::FloatFormat => "float format mismatch"@,
        }
    }

    /// What to say of a dump that fails this check.
    pub fn describe(self) -> (text: &'static str)
        ensures
            text@ == self.message(),
    {
        match self {
            Check::Header => "literal mismatch: header",
            Check::Version => "version mismatch",
            Check::Format => "format mismatch",
            Check::LoadOrder => "literal mismatch: load order verification",
            Check::SizeInt => "size mismatch: i32",
            Check::SizeSize => "size mismatch: usize",
            Check::SizeInstruction => "size mismatch: Word",
            Check::SizeInteger => "size mismatch: SyxInteger",
            Check::SizeNumber => "size mismatch: SyxNumber",
            Check::Endianness => "endianness mismatch",
            Check::FloatFormat => "float format mismatch",
        }
    }
}

/// Why a dump was refused.
#[derive(Clone, Copy, Debug, PartialEq, Eq, Structural)]
pub enum ErrorKind {
    /// The bytes of the dump could not be read in full.
    SourceUnreadable,
    /// A check of the format verifier failed.
    InvalidVerification(Check),
    /// A read ran past the end of the input.
    TruncatedInput,
    /// An instruction word names no operation.
    InvalidInstruction(u32),
    /// A constant carries a tag outside the known ones.
    InvalidConstantType(u8),
    /// The debug block names an upvalue that the function does not have.
    InvalidUpvalueIndex(usize),
    /// The bytes of a source name are not UTF-8.
    InvalidSourceName,
    /// Bytes are left after the root function.
    TrailingData,
}

/// A refusal, together with the name under which the dump was loaded.
#[derive(Clone, Debug, PartialEq, Eq)]
pub struct LoadError {
    pub kind: ErrorKind,
    pub name: String,
}

} // verus!
