//! The loader: a cursor over the bytes of a dump and the readers that
//! rebuild the tree of prototypes from them.

use vstd::prelude::*;
use vstd::utf8::{decode_utf8, valid_utf8};
use crate::conf::{
    data_literal, header_literal, LONG_SIZE, SIZE_INSTRUCTION, SIZE_INT, SIZE_INTEGER,
    SIZE_NUMBER, SIZE_SIZE, SYX_FORMAT, SYX_INT, SYX_NUM, SYX_VERSION, TBOOLEAN, TLNGSTR, TNIL,
    TNUMFLT, TNUMINT, TSHRSTR,
};
use crate::errors::{Check, ErrorKind, LoadError};
use crate::grammar::{
    after, byte_at, chunk_at, constant_at, constant_item, counted, debug_at, debug_left, decode,
    frame_at, function_at, header_at, instruction_item, left, line_item, literal_at, locvar_item,
    named_at, named_left, names_at, names_left, nested_at, pools_at, protos_at, protos_end,
    protos_step, repeat, repeat_end, repeat_step, shift, string_at, upvalue_item,
};
use crate::object::{
    nested_views, views, views_empty, views_push, views_update, LocVar, Proto, ProtoView, SyxInt,
    SyxInteger, SyxValue, Upvalue,
};
use crate::opcodes::{Instruction, Word};
use crate::primitives::{scalar, window, Failure, Primitive};

verus! {

/// The bytes of a dump, how far they have been read, and the name under
/// which errors report the dump.
pub struct LoadState {
    input: Vec<u8>,
    pos: usize,
    name: String,
}

/// The text that `bytes` encode in UTF-8, or `None` where they encode none.
///
/// Calls `String::from_utf8`, which accepts exactly the byte strings that
/// are well-formed UTF-8 and returns the characters they encode.
#[verifier::external_body]
fn text_from_utf8(bytes: Vec<u8>) -> (text: Option<String>)
    ensures
        text is Some <==> valid_utf8(bytes@),
        text matches Some(t) ==> t@ == decode_utf8(bytes@),
{
    String::from_utf8(bytes).ok()
}

/// `after` is `before` but for the names of its upvalues: every other
/// field is the same, and the upvalues are as many, with the same flags
/// and indices.
pub open spec fn renamed(before: ProtoView, after: ProtoView) -> bool {
    &&& after == (ProtoView { upvalues: after.upvalues, ..before })
    &&& after.upvalues.len() == before.upvalues.len()
    &&& forall|i: int|
        0 <= i < before.upvalues.len() ==> (#[trigger] after.upvalues[i]).instack
            == before.upvalues[i].instack && after.upvalues[i].idx == before.upvalues[i].idx
}

impl LoadState {
    /// The bytes of the dump.
    pub closed spec fn input(&self) -> Seq<u8> {
        self.input@
    }

    /// Number of bytes read so far.
    pub closed spec fn position(&self) -> int {
        self.pos as int
    }

    /// The name of the dump.
    pub closed spec fn name(&self) -> Seq<char> {
        self.name@
    }

    /// `self` is `before` after some reading: the same dump, read no less
    /// far.
    pub open spec fn follows(&self, before: &LoadState) -> bool {
        &&& self.input() == before.input()
        &&& self.name() == before.name()
        &&& self.position() >= before.position()
        &&& before.position() <= before.input().len() ==> self.position() <= self.input().len()
    }

    /// `r` is the error `kind`, reported under the name of this dump.
    pub open spec fn fails<T>(&self, r: Result<T, LoadError>, kind: ErrorKind) -> bool {
        r matches Err(e) && e.kind == kind && e.name@ == self.name()
    }

    /// `r` is the failure `f` of a reader that started at `self` and left
    /// the cursor as `after`: the error of `f` under the name of this
    /// dump, with the cursor behind the bytes that `f` says were read.
    pub open spec fn stops<T>(&self, after: &LoadState, r: Result<T, LoadError>, f: Failure) -> bool {
        &&& self.fails(r, f.kind)
        &&& after.position() == self.position() + f.used
    }

    /// Number of bytes that are still to be read.
    pub fn remaining(&self) -> (n: usize)
        ensures
            n == left(self.input(), self.position()),
    {
        if self.pos <= self.input.len() {
            self.input.len() - self.pos
        } else {
            0
        }
    }

    /// A cursor at the start of `buffer`.
    pub fn new(buffer: Vec<u8>, name: String) -> (state: LoadState)
        ensures
            state.input() == buffer@,
            state.position() == 0,
            state.name() == name@,
    {
        LoadState { input: buffer, pos: 0, name }
    }

    /// The error `kind` for this dump.
    fn fail<T>(&self, kind: ErrorKind) -> (r: Result<T, LoadError>)
        ensures
            self.fails(r, kind),
    {
        Err(LoadError { kind, name: self.name.clone() })
    }

    /// `Ok` where `val` holds; else the failure of the check `err`.
    pub fn assert_verification(&self, val: bool, err: Check) -> (r: Result<(), LoadError>)
        ensures
            val ==> r is Ok,
            !val ==> self.fails(r, ErrorKind::InvalidVerification(err)),
    {
        if !val {
            self.raise_from_verification(err)
        } else {
            Ok(())
        }
    }

    /// The failure of the check `err`.
    pub fn raise_from_verification(&self, err: Check) -> (r: Result<(), LoadError>)
        ensures
            self.fails(r, ErrorKind::InvalidVerification(err)),
    {
        self.fail(ErrorKind::InvalidVerification(err))
    }

    /// Reads the next `range` bytes. Where fewer are left, nothing is read
    /// and the input counts as truncated.
    pub fn load_range(&mut self, range: usize) -> (r: Result<Vec<u8>, LoadError>)
        ensures
            final(self).follows(old(self)),
            match window(old(self).input(), old(self).position(), range as int) {
                Ok((bytes, n)) => r matches Ok(v) && v@ == bytes && final(self).position() == old(
                    self,
                ).position() + n,
                Err(f) => old(self).stops(final(self), r, f),
            },
    {
        let len = self.input.len();
        if self.pos > len || range > len - self.pos {
            return self.fail(ErrorKind::TruncatedInput);
        }
        let start = self.pos;
        let mut v: Vec<u8> = Vec::new();
        let mut i: usize = 0;
        while i < range
            invariant
                i <= range,
                start + range <= self.input.len(),
                v@ == self.input@.subrange(start as int, start + i),
            decreases range - i,
        {
            v.push(self.input[start + i]);
            i += 1;
            assert(v@ =~= self.input@.subrange(start as int, start + i));
        }
        self.pos = start + range;
        Ok(v)
    }

    /// Reads one scalar.
    pub fn load<T: Primitive>(&mut self) -> (r: Result<T, LoadError>)
        ensures
            final(self).follows(old(self)),
            match scalar::<T>(old(self).input(), old(self).position()) {
                Ok((value, n)) => r == Ok::<T, LoadError>(value) && final(self).position() == old(
                    self,
                ).position() + n,
                Err(f) => old(self).stops(final(self), r, f),
            },
    {
        let size = T::size();
        let bytes = self.load_range(size)?;
        Ok(T::from_bytes(&bytes))
    }

    /// Reads one string: its size, then its content. A size of zero stands
    /// for a string that is not there and reads as the empty string.
    pub fn load_string(&mut self) -> (r: Result<Vec<u8>, LoadError>)
        ensures
            final(self).follows(old(self)),
            match string_at(old(self).input(), old(self).position()) {
                Ok((bytes, n)) => r matches Ok(v) && v@ == bytes && final(self).position() == old(
                    self,
                ).position() + n,
                Err(f) => old(self).stops(final(self), r, f),
            },
    {
        let first = self.load::<u8>()?;
        let mut size: u64 = first as u64;
        if first == LONG_SIZE {
            size = self.load::<u64>()?;
        }
        if size == 0 {
            Ok(Vec::new())
        } else {
            size -= 1;
            if size > usize::MAX as u64 {
                assert(self.input@.len() == self.input.len());
                return self.fail(ErrorKind::TruncatedInput);
            }
            self.load_range(size as usize)
        }
    }

    /// Reads one byte and holds it against the width `size`.
    pub fn check_size(&mut self, size: u8, which: Check) -> (r: Result<(), LoadError>)
        ensures
            final(self).follows(old(self)),
            match byte_at(old(self).input(), old(self).position(), size, which) {
                Ok((_, n)) => r is Ok && final(self).position() == old(self).position() + n,
                Err(f) => old(self).stops(final(self), r, f),
            },
    {
        let found = self.load::<u8>()?;
        self.assert_verification(found == size, which)
    }

    /// Reads as many bytes as `value` has and holds them against it.
    pub fn check_literal(&mut self, value: Vec<u8>, which: Check) -> (r: Result<(), LoadError>)
        ensures
            final(self).follows(old(self)),
            match literal_at(old(self).input(), old(self).position(), value@, which) {
                Ok((_, n)) => r is Ok && final(self).position() == old(self).position() + n,
                Err(f) => old(self).stops(final(self), r, f),
            },
    {
        let literal = self.load_range(value.len())?;
        let mut same = true;
        let mut i: usize = 0;
        assert(literal@.subrange(0, 0) =~= value@.subrange(0, 0));
        while i < value.len()
            invariant
                i <= value.len(),
                literal.len() == value.len(),
                same <==> literal@.subrange(0, i as int) == value@.subrange(0, i as int),
            decreases value.len() - i,
        {
            if literal[i] != value[i] {
                same = false;
            }
            i += 1;
            proof {
                let a = literal@.subrange(0, i as int);
                let b = value@.subrange(0, i as int);
                if same {
                    assert(a.drop_last() == literal@.subrange(0, i - 1));
                    assert(b.drop_last() == value@.subrange(0, i - 1));
                    assert(a =~= a.drop_last().push(a.last()));
                    assert(b =~= b.drop_last().push(b.last()));
                } else if a == b {
                    assert(literal@.subrange(0, i - 1) =~= a.subrange(0, i - 1));
                    assert(value@.subrange(0, i - 1) =~= b.subrange(0, i - 1));
                    assert(a[i - 1] == b[i - 1]);
                }
            }
        }
        proof {
            assert(literal@.subrange(0, i as int) =~= literal@);
            assert(value@.subrange(0, i as int) =~= value@);
        }
        self.assert_verification(same, which)
    }

    /// Reads the header and holds each part against what this loader
    /// accepts, in the order in which the parts stand.
    pub fn check_header(&mut self) -> (r: Result<(), LoadError>)
        ensures
            final(self).follows(old(self)),
            match header_at(old(self).input(), old(self).position()) {
                Ok((_, n)) => r is Ok && final(self).position() == old(self).position() + n,
                Err(f) => old(self).stops(final(self), r, f),
            },
    {
        proof {
            reveal(header_at);
        }
        self.check_literal(header_literal(), Check::Header)?;
        let bt = self.load::<u8>()?;
        self.assert_verification(bt == SYX_VERSION, Check::Version)?;
        let bt = self.load::<u8>()?;
        self.assert_verification(bt == SYX_FORMAT, Check::Format)?;
        self.check_literal(data_literal(), Check::LoadOrder)?;
        self.check_size(SIZE_INT, Check::SizeInt)?;
        self.check_size(SIZE_SIZE, Check::SizeSize)?;
        self.check_size(SIZE_INSTRUCTION, Check::SizeInstruction)?;
        self.check_size(SIZE_INTEGER, Check::SizeInteger)?;
        self.check_size(SIZE_NUMBER, Check::SizeNumber)?;
        let integer = self.load::<i64>()?;
        self.assert_verification(integer == SYX_INT, Check::Endianness)?;
        let float = self.load::<u64>()?;
        self.assert_verification(float == SYX_NUM, Check::FloatFormat)?;
        Ok(())
    }

    /// Reads the instructions of a function: a count, then that many
    /// words. `proto` gets them as its instructions.
    pub fn load_code(&mut self, proto: &mut Proto) -> (r: Result<(), LoadError>)
        ensures
            final(self).follows(old(self)),
            match counted(instruction_item(), old(self).input(), old(self).position()) {
                Ok((code, n)) => r is Ok && final(proto)@ == (ProtoView {
                    instructions: code,
                    ..old(proto)@
                }) && final(self).position() == old(self).position() + n,
                Err(f) => old(self).stops(final(self), r, f) && *final(proto) == *old(proto),
            },
    {
        let ghost s = self.input();
        let count = self.load::<SyxInt>()?;
        let ghost start = self.position();
        let ghost goal = repeat(instruction_item(), s, start, count as int);
        let mut code: Vec<Instruction> = Vec::new();
        let mut i: SyxInt = 0;
        proof {
            assert(Seq::<Instruction>::empty() + (goal->Ok_0).0 =~= (goal->Ok_0).0);
        }
        while i < count
            invariant
                self.follows(old(self)),
                *proto == *old(proto),
                s == self.input(),
                0 <= i,
                start == old(self).position() + 4,
                start <= self.position(),
                counted(instruction_item(), old(self).input(), old(self).position()) == shift(
                    goal,
                    4,
                ),
                goal == after(
                    code@,
                    (self.position() - start) as nat,
                    repeat(instruction_item(), s, self.position(), count - i),
                ),
            ensures
                i >= count,
            decreases count - i,
        {
            proof {
                repeat_step(
                    instruction_item(),
                    s,
                    self.position(),
                    count - i,
                    code@,
                    (self.position() - start) as nat,
                );
            }
            let word = self.load::<Word>()?;
            match Instruction::from_word(word) {
                Some(instruction) => code.push(instruction),
                None => {
                    return self.fail(ErrorKind::InvalidInstruction(word));
                },
            }
            i += 1;
        }
        proof {
            repeat_end(
                instruction_item(),
                s,
                self.position(),
                count - i,
                code@,
                (self.position() - start) as nat,
            );
        }
        proto.instructions = code;
        Ok(())
    }

    /// Reads one constant: its tag, then what the tag calls for.
    fn load_constant(&mut self) -> (r: Result<SyxValue, LoadError>)
        ensures
            final(self).follows(old(self)),
            match constant_at(old(self).input(), old(self).position()) {
                Ok((value, n)) => r matches Ok(v) && v@ == value && final(self).position() == old(
                    self,
                ).position() + n,
                Err(f) => old(self).stops(final(self), r, f),
            },
    {
        // get type from byte
        let tag = self.load::<u8>()?;
        let value = if tag == TNIL {
            SyxValue::Nil
        } else if tag == TBOOLEAN {
            SyxValue::Bool(self.load::<u8>()? == 1)
        } else if tag == TNUMFLT {
            SyxValue::Number(self.load::<u64>()?)
        } else if tag == TNUMINT {
            SyxValue::Integer(self.load::<SyxInteger>()?)
        } else if tag == TSHRSTR || tag == TLNGSTR {
            SyxValue::String(self.load_string()?)
        } else {
            return self.fail(ErrorKind::InvalidConstantType(tag));
        };
        Ok(value)
    }

    /// Reads the constants of a function: a count, then that many tagged
    /// values. `proto` gets them as its constants.
    pub fn load_constants(&mut self, proto: &mut Proto) -> (r: Result<(), LoadError>)
        ensures
            final(self).follows(old(self)),
            match counted(constant_item(), old(self).input(), old(self).position()) {
                Ok((constants, n)) => r is Ok && final(proto)@ == (ProtoView {
                    constants,
                    ..old(proto)@
                }) && final(self).position() == old(self).position() + n,
                Err(f) => old(self).stops(final(self), r, f) && *final(proto) == *old(proto),
            },
    {
        let ghost s = self.input();
        let constant_count = self.load::<i32>()?;
        let ghost start = self.position();
        let ghost goal = repeat(constant_item(), s, start, constant_count as int);
        let mut constants: Vec<SyxValue> = Vec::new();
        let mut i: i32 = 0;
        proof {
            views_empty::<SyxValue>();
            assert(views(constants@) + (goal->Ok_0).0 =~= (goal->Ok_0).0);
        }
        while i < constant_count
            invariant
                self.follows(old(self)),
                *proto == *old(proto),
                s == self.input(),
                0 <= i,
                start == old(self).position() + 4,
                start <= self.position(),
                counted(constant_item(), old(self).input(), old(self).position()) == shift(goal, 4),
                goal == after(
                    views(constants@),
                    (self.position() - start) as nat,
                    repeat(constant_item(), s, self.position(), constant_count - i),
                ),
            ensures
                i >= constant_count,
            decreases constant_count - i,
        {
            proof {
                repeat_step(
                    constant_item(),
                    s,
                    self.position(),
                    constant_count - i,
                    views(constants@),
                    (self.position() - start) as nat,
                );
            }
            let value = self.load_constant()?;
            proof {
                views_push(constants@, value);
            }
            constants.push(value);
            i += 1;
        }
        proof {
            repeat_end(
                constant_item(),
                s,
                self.position(),
                constant_count - i,
                views(constants@),
                (self.position() - start) as nat,
            );
        }
        proto.constants = constants;
        Ok(())
    }

    /// Reads the upvalue descriptors of a function: a count, then that
    /// many pairs of bytes. `proto` gets them as its upvalues, without
    /// names.
    pub fn load_upvalues(&mut self, proto: &mut Proto) -> (r: Result<(), LoadError>)
        ensures
            final(self).follows(old(self)),
            match counted(upvalue_item(), old(self).input(), old(self).position()) {
                Ok((upvalues, n)) => r is Ok && final(proto)@ == (ProtoView {
                    upvalues,
                    ..old(proto)@
                }) && final(self).position() == old(self).position() + n,
                Err(f) => old(self).stops(final(self), r, f) && *final(proto) == *old(proto),
            },
    {
        let ghost s = self.input();
        let upvalues_count = self.load::<SyxInt>()?;
        let ghost start = self.position();
        let ghost goal = repeat(upvalue_item(), s, start, upvalues_count as int);
        let mut upvalues: Vec<Upvalue> = Vec::new();
        let mut i: SyxInt = 0;
        proof {
            views_empty::<Upvalue>();
            assert(views(upvalues@) + (goal->Ok_0).0 =~= (goal->Ok_0).0);
        }
        while i < upvalues_count
            invariant
                self.follows(old(self)),
                *proto == *old(proto),
                s == self.input(),
                0 <= i,
                start == old(self).position() + 4,
                start <= self.position(),
                counted(upvalue_item(), old(self).input(), old(self).position()) == shift(goal, 4),
                goal == after(
                    views(upvalues@),
                    (self.position() - start) as nat,
                    repeat(upvalue_item(), s, self.position(), upvalues_count - i),
                ),
            ensures
                i >= upvalues_count,
            decreases upvalues_count - i,
        {
            proof {
                repeat_step(
                    upvalue_item(),
                    s,
                    self.position(),
                    upvalues_count - i,
                    views(upvalues@),
                    (self.position() - start) as nat,
                );
            }
            let instack = self.load::<u8>()?;
            let idx = self.load::<u8>()?;
            let upvalue = Upvalue { name: Vec::new(), instack, idx };
            proof {
                views_push(upvalues@, upvalue);
            }
            upvalues.push(upvalue);
            i += 1;
        }
        proof {
            repeat_end(
                upvalue_item(),
                s,
                self.position(),
                upvalues_count - i,
                views(upvalues@),
                (self.position() - start) as nat,
            );
        }
        proto.upvalues = upvalues;
        Ok(())
    }

    /// Reads the line numbers of a function: a count, then that many
    /// integers.
    fn load_lines(&mut self) -> (r: Result<Vec<SyxInt>, LoadError>)
        ensures
            final(self).follows(old(self)),
            match counted(line_item(), old(self).input(), old(self).position()) {
                Ok((lines, n)) => r matches Ok(v) && v@ == lines && final(self).position() == old(
                    self,
                ).position() + n,
                Err(f) => old(self).stops(final(self), r, f),
            },
    {
        let ghost s = self.input();
        let lines = self.load::<SyxInt>()?;
        let ghost start = self.position();
        let ghost goal = repeat(line_item(), s, start, lines as int);
        let mut lineinfo: Vec<SyxInt> = Vec::new();
        let mut i: SyxInt = 0;
        proof {
            assert(lineinfo@ + (goal->Ok_0).0 =~= (goal->Ok_0).0);
        }
        while i < lines
            invariant
                self.follows(old(self)),
                s == self.input(),
                0 <= i,
                start == old(self).position() + 4,
                start <= self.position(),
                counted(line_item(), old(self).input(), old(self).position()) == shift(goal, 4),
                goal == after(
                    lineinfo@,
                    (self.position() - start) as nat,
                    repeat(line_item(), s, self.position(), lines - i),
                ),
            ensures
                i >= lines,
            decreases lines - i,
        {
            proof {
                repeat_step(
                    line_item(),
                    s,
                    self.position(),
                    lines - i,
                    lineinfo@,
                    (self.position() - start) as nat,
                );
            }
            let line = self.load::<SyxInt>()?;
            lineinfo.push(line);
            i += 1;
        }
        proof {
            repeat_end(
                line_item(),
                s,
                self.position(),
                lines - i,
                lineinfo@,
                (self.position() - start) as nat,
            );
        }
        Ok(lineinfo)
    }

    /// Reads the local-variable records of a function: a count, then that
    /// many records.
    fn load_locvars(&mut self) -> (r: Result<Vec<LocVar>, LoadError>)
        ensures
            final(self).follows(old(self)),
            match counted(locvar_item(), old(self).input(), old(self).position()) {
                Ok((locvars, n)) => r matches Ok(v) && views(v@) == locvars && final(self).position() == old(self).position() + n,
                Err(f) => old(self).stops(final(self), r, f),
            },
    {
        let ghost s = self.input();
        let size = self.load::<SyxInt>()?;
        let ghost start = self.position();
        let ghost goal = repeat(locvar_item(), s, start, size as int);
        let mut locvars: Vec<LocVar> = Vec::new();
        let mut i: SyxInt = 0;
        proof {
            views_empty::<LocVar>();
            assert(views(locvars@) + (goal->Ok_0).0 =~= (goal->Ok_0).0);
        }
        // load locvars
        while i < size
            invariant
                self.follows(old(self)),
                s == self.input(),
                0 <= i,
                start == old(self).position() + 4,
                start <= self.position(),
                counted(locvar_item(), old(self).input(), old(self).position()) == shift(goal, 4),
                goal == after(
                    views(locvars@),
                    (self.position() - start) as nat,
                    repeat(locvar_item(), s, self.position(), size - i),
                ),
            ensures
                i >= size,
            decreases size - i,
        {
            proof {
                repeat_step(
                    locvar_item(),
                    s,
                    self.position(),
                    size - i,
                    views(locvars@),
                    (self.position() - start) as nat,
                );
            }
            let varname = self.load_string()?;
            let startpc = self.load::<SyxInt>()?;
            let endpc = self.load::<SyxInt>()?;
            let locvar = LocVar { varname, startpc, endpc };
            proof {
                views_push(locvars@, locvar);
            }
            locvars.push(locvar);
            i += 1;
        }
        proof {
            repeat_end(
                locvar_item(),
                s,
                self.position(),
                size - i,
                views(locvars@),
                (self.position() - start) as nat,
            );
        }
        Ok(locvars)
    }

    /// Reads the names of upvalues: a count, then that many strings. Each
    /// goes to the upvalue of `proto` at its position; a name for an
    /// upvalue that `proto` does not have is an error. Nothing of `proto`
    /// changes but names of upvalues, whatever the outcome.
    fn load_names(&mut self, proto: &mut Proto) -> (r: Result<(), LoadError>)
        ensures
            final(self).follows(old(self)),
            renamed(old(proto)@, final(proto)@),
            final(proto)@.upvalues == named_left(
                old(self).input(),
                old(self).position(),
                old(proto)@.upvalues,
            ),
            match named_at(old(self).input(), old(self).position(), old(proto)@.upvalues) {
                Ok((named, n)) => r is Ok && final(proto)@.upvalues == named && final(self).position()
                    == old(self).position() + n,
                Err(f) => old(self).stops(final(self), r, f),
            },
    {
        let ghost s = self.input();
        let upvalue_count = self.load::<SyxInt>()?;
        let ghost start = self.position();
        let ghost goal = names_at(s, start, upvalue_count as int, 0, proto@.upvalues);
        let mut i: SyxInt = 0;
        while i < upvalue_count
            invariant
                self.follows(old(self)),
                renamed(old(proto)@, proto@),
                s == self.input(),
                0 <= i,
                start == old(self).position() + 4,
                start <= self.position(),
                named_at(old(self).input(), old(self).position(), old(proto)@.upvalues) == shift(
                    goal,
                    4,
                ),
                goal == shift(
                    names_at(s, self.position(), upvalue_count as int, i as int, proto@.upvalues),
                    (self.position() - start) as nat,
                ),
                named_left(old(self).input(), old(self).position(), old(proto)@.upvalues)
                    == names_left(
                    s,
                    self.position(),
                    upvalue_count as int,
                    i as int,
                    proto@.upvalues,
                ),
            ensures
                i >= upvalue_count,
            decreases upvalue_count - i,
        {
            let at = i as usize;
            if at >= proto.upvalues.len() {
                return self.fail(ErrorKind::InvalidUpvalueIndex(at));
            }
            let name = self.load_string()?;
            let named = Upvalue {
                name,
                instack: proto.upvalues[at].instack,
                idx: proto.upvalues[at].idx,
            };
            proof {
                views_update(proto.upvalues@, at as int, named);
            }
            proto.upvalues[at] = named;
            i += 1;
        }
        Ok(())
    }

    /// Reads the debug block of a function: line numbers, local-variable
    /// records and upvalue names, each behind its count. The names go to
    /// the upvalues that `proto` has, by position; a name for an upvalue
    /// that `proto` does not have is an error. A block that fails changes
    /// nothing of `proto` but the names that were read before it failed.
    pub fn load_debug(&mut self, proto: &mut Proto) -> (r: Result<(), LoadError>)
        ensures
            final(self).follows(old(self)),
            match debug_at(old(self).input(), old(self).position(), old(proto)@.upvalues) {
                Ok((debug, n)) => r is Ok && final(proto)@ == (ProtoView {
                    lineinfo: debug.lineinfo,
                    locvars: debug.locvars,
                    upvalues: debug.upvalues,
                    ..old(proto)@
                }) && final(self).position() == old(self).position() + n,
                Err(f) => old(self).stops(final(self), r, f) && renamed(old(proto)@, final(proto)@)
                    && final(proto)@.upvalues == debug_left(
                    old(self).input(),
                    old(self).position(),
                    old(proto)@.upvalues,
                ),
            },
    {
        proof {
            reveal(debug_at);
        }
        let lineinfo = self.load_lines()?;
        let locvars = self.load_locvars()?;
        self.load_names(proto)?;
        proto.lineinfo = lineinfo;
        proto.locvars = locvars;
        Ok(())
    }

    /// Reads the functions nested in a function: a count, then that many
    /// function blocks. Each inherits the source name of `proto`, which
    /// gets them as its nested prototypes.
    pub fn load_protos(&mut self, proto: &mut Proto) -> (r: Result<(), LoadError>)
        ensures
            final(self).follows(old(self)),
            match nested_at(old(self).input(), old(self).position(), old(proto)@.source) {
                Ok((protos, n)) => r is Ok && final(proto)@ == (ProtoView {
                    protos,
                    ..old(proto)@
                }) && final(self).position() == old(self).position() + n,
                Err(f) => old(self).stops(final(self), r, f) && *final(proto) == *old(proto),
            },
        decreases left(old(self).input(), old(self).position()),
    {
        let ghost s = self.input();
        let ghost inherited = proto@.source;
        let count = self.load::<SyxInt>()?;
        let ghost start = self.position();
        let ghost goal = protos_at(s, start, count as int, inherited);
        let mut protos: Vec<Proto> = Vec::new();
        let mut i: SyxInt = 0;
        proof {
            views_empty::<Proto>();
            assert(views(protos@) + (goal->Ok_0).0 =~= (goal->Ok_0).0);
        }
        while i < count
            invariant
                self.follows(old(self)),
                *proto == *old(proto),
                s == self.input(),
                inherited == proto.source@,
                0 <= i,
                start == old(self).position() + 4,
                start <= self.position(),
                start <= s.len(),
                nested_at(old(self).input(), old(self).position(), old(proto)@.source) == shift(
                    goal,
                    4,
                ),
                goal == after(
                    views(protos@),
                    (self.position() - start) as nat,
                    protos_at(s, self.position(), count - i, inherited),
                ),
            ensures
                i >= count,
            decreases count - i,
        {
            proof {
                protos_step(
                    s,
                    self.position(),
                    count - i,
                    inherited,
                    views(protos@),
                    (self.position() - start) as nat,
                );
            }
            let mut new_proto = Proto::new();
            self.load_function(&mut new_proto, proto.source.clone())?;
            proof {
                views_push(protos@, new_proto);
            }
            protos.push(new_proto);
            i += 1;
        }
        proof {
            protos_end(
                s,
                self.position(),
                count - i,
                inherited,
                views(protos@),
                (self.position() - start) as nat,
            );
        }
        proto.protos = protos;
        proof {
            nested_views(*proto);
        }
        Ok(())
    }

    /// Reads the fields of fixed width of a function block into `proto`:
    /// the two lines, the number of parameters, the vararg flag and the
    /// stack size.
    fn load_frame(&mut self, proto: &mut Proto) -> (r: Result<(), LoadError>)
        ensures
            final(self).follows(old(self)),
            match frame_at(old(self).input(), old(self).position()) {
                Ok((frame, n)) => r is Ok && final(proto)@ == (ProtoView {
                    linedefined: frame.linedefined,
                    lastlinedefined: frame.lastlinedefined,
                    numparams: frame.numparams,
                    is_vararg: frame.is_vararg,
                    maxstacksize: frame.maxstacksize,
                    ..old(proto)@
                }) && final(self).position() == old(self).position() + n,
                Err(f) => old(self).stops(final(self), r, f),
            },
    {
        proto.linedefined = self.load::<SyxInt>()?;
        proto.lastlinedefined = self.load::<SyxInt>()?;
        proto.numparams = self.load::<u8>()?;
        proto.is_vararg = self.load::<u8>()? != 0;
        proto.maxstacksize = self.load::<u8>()?;
        Ok(())
    }

    /// Reads the three pools of a function block into `proto`:
    /// instructions, constants and upvalue descriptors.
    fn load_pools(&mut self, proto: &mut Proto) -> (r: Result<(), LoadError>)
        ensures
            final(self).follows(old(self)),
            match pools_at(old(self).input(), old(self).position()) {
                Ok((pools, n)) => r is Ok && final(proto)@ == (ProtoView {
                    instructions: pools.instructions,
                    constants: pools.constants,
                    upvalues: pools.upvalues,
                    ..old(proto)@
                }) && final(self).position() == old(self).position() + n,
                Err(f) => old(self).stops(final(self), r, f),
            },
    {
        proof {
            reveal(pools_at);
        }
        self.load_code(proto)?;
        self.load_constants(proto)?;
        self.load_upvalues(proto)?;
        Ok(())
    }

    /// Reads one function block into `proto`: source name, lines,
    /// parameters, instructions, constants, upvalues, nested functions and
    /// debug block, in this order. Where the block carries no source name,
    /// `proto` takes `source`. A block that fails leaves `proto` as it
    /// was: what had been built of it is dropped.
    pub fn load_function(&mut self, proto: &mut Proto, source: String) -> (r: Result<
        (),
        LoadError,
    >)
        ensures
            final(self).follows(old(self)),
            match function_at(old(self).input(), old(self).position(), source@) {
                Ok((p, n)) => r is Ok && final(proto)@ == p && final(self).position() == old(
                    self,
                ).position() + n,
                Err(f) => old(self).stops(final(self), r, f) && *final(proto) == *old(proto),
            },
        decreases left(old(self).input(), old(self).position()),
    {
        let mut fresh = Proto::new();
        let loaded_source = self.load_string()?;
        fresh.source = if !loaded_source.is_empty() {
            match text_from_utf8(loaded_source) {
                Some(text) => text,
                None => {
                    return self.fail(ErrorKind::InvalidSourceName);
                },
            }
        } else {
            source
        };
        self.load_frame(&mut fresh)?;
        self.load_pools(&mut fresh)?;
        self.load_protos(&mut fresh)?;
        self.load_debug(&mut fresh)?;
        *proto = fresh;
        Ok(())
    }

    /// Reads a chunk: the header, one byte that is passed over, and the
    /// root function.
    pub fn load_chunk(&mut self) -> (r: Result<Proto, LoadError>)
        ensures
            final(self).follows(old(self)),
            match chunk_at(old(self).input(), old(self).position()) {
                Ok((p, n)) => r matches Ok(proto) && proto@ == p && final(self).position() == old(
                    self,
                ).position() + n,
                Err(f) => old(self).stops(final(self), r, f),
            },
    {
        self.check_header()?;
        let mut proto = Proto::new();
        let _upvals = self.load::<u8>()?;
        self.load_function(&mut proto, String::new())?;
        Ok(proto)
    }

    /// `r` is what loading the dump `buffer` under the name `name` gives:
    /// the prototype that the bytes decode to, or the first error that
    /// decoding them meets, reported under `name`.
    pub open spec fn loads(buffer: Seq<u8>, name: Seq<char>, r: Result<Proto, LoadError>) -> bool {
        match decode(buffer) {
            Ok(p) => r matches Ok(proto) && proto@ == p,
            Err(kind) => r matches Err(e) && e.kind == kind && e.name@ == name,
        }
    }

    /// Loads the dump that `buffer` holds. Errors carry `name`.
    pub fn from_u8(buffer: Vec<u8>, name: String) -> (r: Result<Proto, LoadError>)
        ensures
            Self::loads(buffer@, name@, r),
    {
        let mut state = LoadState::new(buffer, name);
        let proto = state.load_chunk()?;
        match state.load::<u8>() {
            Err(_) => Ok(proto),
            Ok(_) => state.fail(ErrorKind::TrailingData),
        }
    }

    /// Loads the dump that was read from a source: `input` holds its bytes,
    /// or nothing where reading the source failed. Errors carry `name`.
    pub fn from_read(input: Option<Vec<u8>>, name: String) -> (r: Result<Proto, LoadError>)
        ensures
            match input {
                Some(buffer) => Self::loads(buffer@, name@, r),
                None => r matches Err(e) && e.kind == ErrorKind::SourceUnreadable && e.name@
                    == name@,
            },
    {
        match input {
            Some(buffer) => LoadState::from_u8(buffer, name),
            None => Err(LoadError { kind: ErrorKind::SourceUnreadable, name }),
        }
    }
}

} // verus!
