//! Instruction words and the fields they are made of.

use vstd::prelude::*;

verus! {

/// An instruction as it stands in a dump.
pub type Word = u32;

/// Number of operations of the instruction set. Operation codes run from
/// zero up to, but not including, this number.
pub const NUM_OPCODES: u8 = 47;

/// One instruction, split into its fields.
///
/// A word holds, from its least significant bit upwards, six bits of
/// operation code, eight bits of `a`, nine bits of `c` and nine bits of `b`.
#[derive(Clone, Copy, Debug, PartialEq, Eq, Structural)]
pub struct Instruction {
    pub opcode: u8,
    pub a: u8,
    pub b: u16,
    pub c: u16,
}

/// The fields of `word`, whether or not its operation code is known.
pub open spec fn fields_of(word: Word) -> Instruction {
    Instruction {
        opcode: (word % 0x40) as u8,
        a: (word / 0x40 % 0x100) as u8,
        b: (word / 0x80_0000) as u16,
        c: (word / 0x4000 % 0x200) as u16,
    }
}

/// The instruction that `word` encodes, if its operation code is one of the
/// instruction set.
pub open spec fn decode_word(word: Word) -> Option<Instruction> {
    if word % 0x40 < NUM_OPCODES {
        Some(fields_of(word))
    } else {
        None
    }
}

impl Instruction {
    /// The fields fit the widths that a word gives them, and the operation
    /// code is one of the instruction set.
    pub open spec fn wf(self) -> bool {
        &&& self.opcode < NUM_OPCODES
        &&& self.b < 0x200
        &&& self.c < 0x200
    }

    /// The word that holds these fields.
    pub open spec fn word(self) -> int {
        self.opcode + 0x40 * self.a + 0x4000 * self.c + 0x80_0000 * self.b
    }

    /// Splits `word` into its fields; `None` where the operation code is
    /// not one of the instruction set.
    pub fn from_word(word: Word) -> (r: Option<Instruction>)
        ensures
            r == decode_word(word),
    {
        let opcode: u8 = (word & 0x3f) as u8;
        let a: u8 = ((word >> 6) & 0xff) as u8;
        let c: u16 = ((word >> 14) & 0x1ff) as u16;
        let b: u16 = (word >> 23) as u16;
        assert(word & 0x3f == word % 0x40) by (bit_vector);
        assert((word >> 6) & 0xff == word / 0x40 % 0x100) by (bit_vector);
        assert((word >> 14) & 0x1ff == word / 0x4000 % 0x200) by (bit_vector);
        assert(word >> 23 == word / 0x80_0000) by (bit_vector);
        if opcode < NUM_OPCODES {
            Some(Instruction { opcode, a, b, c })
        } else {
            None
        }
    }
}

/// Every word with a known operation code is the word of the instruction it
/// decodes to, and that instruction is well formed.
pub proof fn decoded_word_is_kept(word: Word)
    requires
        decode_word(word) is Some,
    ensures
        decode_word(word).unwrap().wf(),
        decode_word(word).unwrap().word() == word,
{
}

/// A well-formed instruction is what its own word decodes to.
pub proof fn word_of_instruction_decodes(i: Instruction)
    requires
        i.wf(),
    ensures
        0 <= i.word() <= u32::MAX,
        decode_word(i.word() as u32) == Some(i),
{
    let op: u32 = i.opcode as u32;
    let a: u32 = i.a as u32;
    let b: u32 = i.b as u32;
    let c: u32 = i.c as u32;
    let w: u32 = (op + 0x40 * a + 0x4000 * c + 0x80_0000 * b) as u32;
    assert(w % 0x40 == op && w / 0x40 % 0x100 == a && w / 0x4000 % 0x200 == c && w / 0x80_0000
        == b) by (bit_vector)
        requires
            op < 0x40,
            a < 0x100,
            b < 0x200,
            c < 0x200,
            w == op + 0x40 * a + 0x4000 * c + 0x80_0000 * b,
    ;
}

} // verus!
