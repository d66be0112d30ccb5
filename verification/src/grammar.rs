//! The dump format, as functions from bytes to the values they encode.
//!
//! Every function here reads one item at a position of the input and gives
//! the item together with the number of bytes it takes, or the first error
//! that reading it meets together with the number of bytes read before it.
//! All integers are little-endian.

use vstd::prelude::*;
use vstd::utf8::{decode_utf8, valid_utf8};
use crate::conf::{
    syx_data, syx_header, LONG_SIZE, SIZE_INSTRUCTION, SIZE_INT, SIZE_INTEGER, SIZE_NUMBER,
    SIZE_SIZE, SYX_FORMAT, SYX_INT, SYX_NUM, SYX_VERSION, TBOOLEAN, TLNGSTR, TNIL, TNUMFLT,
    TNUMINT, TSHRSTR,
};
use crate::errors::{Check, ErrorKind};
use crate::object::{ConstantView, LocVarView, ProtoView, UpvalueView};
use crate::opcodes::{decode_word, Instruction};
use crate::primitives::{failure, scalar, window, Failure, Parse};

verus! {

/// A reader of one item.
pub type Item<T> = spec_fn(Seq<u8>, int) -> Parse<T>;

/// `r`, counted from `n` bytes earlier.
pub open spec fn shift<T>(r: Parse<T>, n: nat) -> Parse<T> {
    match r {
        Ok((v, used)) => Ok((v, n + used)),
        Err(e) => later(e, n),
    }
}

/// The failure `e`, counted from `n` bytes earlier.
pub open spec fn later<T>(e: Failure, n: nat) -> Parse<T> {
    failure(e.kind, n + e.used)
}

/// Bytes of the input that lie at or after `pos`.
pub open spec fn left(s: Seq<u8>, pos: int) -> nat {
    if pos <= s.len() {
        (s.len() - pos) as nat
    } else {
        0
    }
}

/// The bytes `literal` at `pos`; anything else there fails the check
/// `which`.
pub open spec fn literal_at(s: Seq<u8>, pos: int, literal: Seq<u8>, which: Check) -> Parse<()> {
    match window(s, pos, literal.len() as int) {
        Ok((bytes, n)) => if bytes == literal {
            Ok(((), n))
        } else {
            failure(ErrorKind::InvalidVerification(which), n)
        },
        Err(e) => Err(e),
    }
}

/// The byte `value` at `pos`; any other byte there fails the check
/// `which`.
pub open spec fn byte_at(s: Seq<u8>, pos: int, value: u8, which: Check) -> Parse<()> {
    match scalar::<u8>(s, pos) {
        Ok((b, n)) => if b == value {
            Ok(((), n))
        } else {
            failure(ErrorKind::InvalidVerification(which), n)
        },
        Err(e) => Err(e),
    }
}

/// The integer of known value at `pos`.
pub open spec fn int_canary_at(s: Seq<u8>, pos: int) -> Parse<()> {
    match scalar::<i64>(s, pos) {
        Ok((v, n)) => if v == SYX_INT {
            Ok(((), n))
        } else {
            failure(ErrorKind::InvalidVerification(Check::Endianness), n)
        },
        Err(e) => Err(e),
    }
}

/// The float of known bits at `pos`.
pub open spec fn float_canary_at(s: Seq<u8>, pos: int) -> Parse<()> {
    match scalar::<u64>(s, pos) {
        Ok((bits, n)) => if bits == SYX_NUM {
            Ok(((), n))
        } else {
            failure(ErrorKind::InvalidVerification(Check::FloatFormat), n)
        },
        Err(e) => Err(e),
    }
}

/// Length of the header in bytes.
pub const HEADER_LEN: usize = 33;

/// The header: signature, version, format, transport literal, five widths
/// and two known values, each checked in this order.
#[verifier::opaque]
pub open spec fn header_at(s: Seq<u8>, pos: int) -> Parse<()> {
    let signature = literal_at(s, pos, syx_header(), Check::Header);
    let version = byte_at(s, pos + 4, SYX_VERSION, Check::Version);
    let format = byte_at(s, pos + 5, SYX_FORMAT, Check::Format);
    let data = literal_at(s, pos + 6, syx_data(), Check::LoadOrder);
    let size_int = byte_at(s, pos + 12, SIZE_INT, Check::SizeInt);
    let size_size = byte_at(s, pos + 13, SIZE_SIZE, Check::SizeSize);
    let size_word = byte_at(s, pos + 14, SIZE_INSTRUCTION, Check::SizeInstruction);
    let size_integer = byte_at(s, pos + 15, SIZE_INTEGER, Check::SizeInteger);
    let size_number = byte_at(s, pos + 16, SIZE_NUMBER, Check::SizeNumber);
    let integer = int_canary_at(s, pos + 17);
    let float = float_canary_at(s, pos + 25);
    if signature is Err {
        signature
    } else if version is Err {
        shift(version, 4)
    } else if format is Err {
        shift(format, 5)
    } else if data is Err {
        shift(data, 6)
    } else if size_int is Err {
        shift(size_int, 12)
    } else if size_size is Err {
        shift(size_size, 13)
    } else if size_word is Err {
        shift(size_word, 14)
    } else if size_integer is Err {
        shift(size_integer, 15)
    } else if size_number is Err {
        shift(size_number, 16)
    } else if integer is Err {
        shift(integer, 17)
    } else if float is Err {
        shift(float, 25)
    } else {
        Ok(((), HEADER_LEN as nat))
    }
}

/// What follows the size of a string: nothing where the size is zero, else
/// one byte less than the size says.
pub open spec fn string_body(s: Seq<u8>, pos: int, size: int) -> Parse<Seq<u8>> {
    if size == 0 {
        Ok((Seq::empty(), 0))
    } else {
        window(s, pos, size - 1)
    }
}

/// A string: its size in one byte, or the escape byte and the size in
/// eight bytes, then the content.
pub open spec fn string_at(s: Seq<u8>, pos: int) -> Parse<Seq<u8>> {
    match scalar::<u8>(s, pos) {
        Ok((first, _)) => if first == LONG_SIZE {
            match scalar::<u64>(s, pos + 1) {
                Ok((size, _)) => shift(string_body(s, pos + 9, size as int), 9),
                Err(e) => later(e, 1),
            }
        } else {
            shift(string_body(s, pos + 1, first as int), 1)
        },
        Err(e) => Err(e),
    }
}

/// An instruction: one word with a known operation code.
pub open spec fn instruction_at(s: Seq<u8>, pos: int) -> Parse<Instruction> {
    match scalar::<u32>(s, pos) {
        Ok((word, n)) => match decode_word(word) {
            Some(i) => Ok((i, n)),
            None => failure(ErrorKind::InvalidInstruction(word), n),
        },
        Err(e) => Err(e),
    }
}

/// A constant: its tag, then what the tag calls for.
pub open spec fn constant_at(s: Seq<u8>, pos: int) -> Parse<ConstantView> {
    match scalar::<u8>(s, pos) {
        Ok((tag, _)) => if tag == TNIL {
            Ok((ConstantView::Nil, 1))
        } else if tag == TBOOLEAN {
            match scalar::<u8>(s, pos + 1) {
                Ok((b, _)) => Ok((ConstantView::Bool(b == 1), 2)),
                Err(e) => later(e, 1),
            }
        } else if tag == TNUMFLT {
            match scalar::<u64>(s, pos + 1) {
                Ok((bits, _)) => Ok((ConstantView::Number(bits), 9)),
                Err(e) => later(e, 1),
            }
        } else if tag == TNUMINT {
            match scalar::<i64>(s, pos + 1) {
                Ok((i, _)) => Ok((ConstantView::Integer(i), 9)),
                Err(e) => later(e, 1),
            }
        } else if tag == TSHRSTR || tag == TLNGSTR {
            match string_at(s, pos + 1) {
                Ok((v, n)) => Ok((ConstantView::String(v), 1 + n)),
                Err(e) => later(e, 1),
            }
        } else {
            failure(ErrorKind::InvalidConstantType(tag), 1)
        },
        Err(e) => Err(e),
    }
}

/// An upvalue descriptor: two bytes. Its name is empty.
pub open spec fn upvalue_at(s: Seq<u8>, pos: int) -> Parse<UpvalueView> {
    match scalar::<u8>(s, pos) {
        Ok((instack, _)) => match scalar::<u8>(s, pos + 1) {
            Ok((idx, _)) => Ok((UpvalueView { name: Seq::empty(), instack, idx }, 2)),
            Err(e) => later(e, 1),
        },
        Err(e) => Err(e),
    }
}

/// A local-variable record: a name and two instruction indices.
pub open spec fn locvar_at(s: Seq<u8>, pos: int) -> Parse<LocVarView> {
    match string_at(s, pos) {
        Ok((varname, n)) => match scalar::<i32>(s, pos + n) {
            Ok((startpc, _)) => match scalar::<i32>(s, pos + n + 4) {
                Ok((endpc, _)) => Ok((LocVarView { varname, startpc, endpc }, n + 8)),
                Err(e) => later(e, n + 4),
            },
            Err(e) => later(e, n),
        },
        Err(e) => Err(e),
    }
}

/// The reader of instructions.
pub open spec fn instruction_item() -> Item<Instruction> {
    |s: Seq<u8>, pos: int| instruction_at(s, pos)
}

/// The reader of constants.
pub open spec fn constant_item() -> Item<ConstantView> {
    |s: Seq<u8>, pos: int| constant_at(s, pos)
}

/// The reader of upvalue descriptors.
pub open spec fn upvalue_item() -> Item<UpvalueView> {
    |s: Seq<u8>, pos: int| upvalue_at(s, pos)
}

/// The reader of line numbers.
pub open spec fn line_item() -> Item<i32> {
    |s: Seq<u8>, pos: int| scalar::<i32>(s, pos)
}

/// The reader of local-variable records.
pub open spec fn locvar_item() -> Item<LocVarView> {
    |s: Seq<u8>, pos: int| locvar_at(s, pos)
}

/// `n` items one after the other. A count below one stands for no item.
pub open spec fn repeat<T>(item: Item<T>, s: Seq<u8>, pos: int, n: int) -> Parse<Seq<T>>
    decreases n,
{
    if n <= 0 {
        Ok((Seq::empty(), 0))
    } else {
        match item(s, pos) {
            Ok((x, used)) => match repeat(item, s, pos + used, n - 1) {
                Ok((xs, more)) => Ok((seq![x] + xs, used + more)),
                Err(e) => later(e, used),
            },
            Err(e) => Err(e),
        }
    }
}

/// A count in four bytes, then that many items.
pub open spec fn counted<T>(item: Item<T>, s: Seq<u8>, pos: int) -> Parse<Seq<T>> {
    match scalar::<i32>(s, pos) {
        Ok((n, _)) => shift(repeat(item, s, pos + 4, n as int), 4),
        Err(e) => Err(e),
    }
}

/// The names of the upvalues from the `i`-th to the `n`-th, written into
/// `upvalues` by position. A name for a position that `upvalues` does not
/// have is an error, met before the name is read.
pub open spec fn names_at(
    s: Seq<u8>,
    pos: int,
    n: int,
    i: int,
    upvalues: Seq<UpvalueView>,
) -> Parse<Seq<UpvalueView>>
    decreases n - i,
{
    if i >= n {
        Ok((upvalues, 0))
    } else if !(0 <= i < upvalues.len()) {
        failure(ErrorKind::InvalidUpvalueIndex(i as usize), 0)
    } else {
        match string_at(s, pos) {
            Ok((name, used)) => shift(
                names_at(
                    s,
                    pos + used,
                    n,
                    i + 1,
                    upvalues.update(i, UpvalueView { name, ..upvalues[i] }),
                ),
                used,
            ),
            Err(e) => Err(e),
        }
    }
}

/// `upvalues` as reading the names from the `i`-th to the `n`-th leaves
/// them, whether or not all names are read: with the names that were read
/// before reading ended.
pub open spec fn names_left(
    s: Seq<u8>,
    pos: int,
    n: int,
    i: int,
    upvalues: Seq<UpvalueView>,
) -> Seq<UpvalueView>
    decreases n - i,
{
    if i >= n || !(0 <= i < upvalues.len()) {
        upvalues
    } else {
        match string_at(s, pos) {
            Ok((name, used)) => names_left(
                s,
                pos + used,
                n,
                i + 1,
                upvalues.update(i, UpvalueView { name, ..upvalues[i] }),
            ),
            Err(_) => upvalues,
        }
    }
}

/// `upvalues` as reading their names behind the count leaves them.
pub open spec fn named_left(s: Seq<u8>, pos: int, upvalues: Seq<UpvalueView>) -> Seq<UpvalueView> {
    match scalar::<i32>(s, pos) {
        Ok((count, _)) => names_left(s, pos + 4, count as int, 0, upvalues),
        Err(_) => upvalues,
    }
}

/// `upvalues` as reading the debug block leaves them: untouched where the
/// block fails before the names.
pub open spec fn debug_left(s: Seq<u8>, pos: int, upvalues: Seq<UpvalueView>) -> Seq<UpvalueView> {
    match counted(line_item(), s, pos) {
        Ok((_, n0)) => match counted(locvar_item(), s, pos + n0) {
            Ok((_, n1)) => named_left(s, pos + n0 + n1, upvalues),
            Err(_) => upvalues,
        },
        Err(_) => upvalues,
    }
}

/// The names of upvalues behind their count, written into `upvalues` by
/// position. A count below one stands for no name.
pub open spec fn named_at(s: Seq<u8>, pos: int, upvalues: Seq<UpvalueView>) -> Parse<
    Seq<UpvalueView>,
> {
    match scalar::<i32>(s, pos) {
        Ok((count, _)) => shift(names_at(s, pos + 4, count as int, 0, upvalues), 4),
        Err(e) => Err(e),
    }
}

/// What the debug block of a function holds.
pub struct DebugView {
    pub lineinfo: Seq<i32>,
    pub locvars: Seq<LocVarView>,
    pub upvalues: Seq<UpvalueView>,
}

/// The debug block: line numbers, local-variable records, and the names of
/// `upvalues`, each behind its count.
#[verifier::opaque]
pub open spec fn debug_at(s: Seq<u8>, pos: int, upvalues: Seq<UpvalueView>) -> Parse<DebugView> {
    match counted(line_item(), s, pos) {
        Ok((lineinfo, n0)) => match counted(locvar_item(), s, pos + n0) {
            Ok((locvars, n1)) => match named_at(s, pos + n0 + n1, upvalues) {
                Ok((named, n2)) => Ok(
                    (DebugView { lineinfo, locvars, upvalues: named }, n0 + n1 + n2),
                ),
                Err(e) => later(e, n0 + n1),
            },
            Err(e) => later(e, n0),
        },
        Err(e) => Err(e),
    }
}

/// The source name of a function: the string at `pos` read as UTF-8, or
/// `inherited` where that string is empty.
pub open spec fn source_at(s: Seq<u8>, pos: int, inherited: Seq<char>) -> Parse<Seq<char>> {
    match string_at(s, pos) {
        Ok((bytes, n)) => if bytes.len() == 0 {
            Ok((inherited, n))
        } else if valid_utf8(bytes) {
            Ok((decode_utf8(bytes), n))
        } else {
            failure(ErrorKind::InvalidSourceName, n)
        },
        Err(e) => Err(e),
    }
}

/// The fields of fixed width that follow the source name.
pub struct FrameView {
    pub linedefined: i32,
    pub lastlinedefined: i32,
    pub numparams: u8,
    pub is_vararg: bool,
    pub maxstacksize: u8,
}

/// Two lines, the number of parameters, the vararg flag and the stack
/// size, read one after the other: eleven bytes.
pub open spec fn frame_at(s: Seq<u8>, pos: int) -> Parse<FrameView> {
    let linedefined = scalar::<i32>(s, pos);
    let lastlinedefined = scalar::<i32>(s, pos + 4);
    let numparams = scalar::<u8>(s, pos + 8);
    let is_vararg = scalar::<u8>(s, pos + 9);
    let maxstacksize = scalar::<u8>(s, pos + 10);
    if linedefined is Err {
        later(linedefined->Err_0, 0)
    } else if lastlinedefined is Err {
        later(lastlinedefined->Err_0, 4)
    } else if numparams is Err {
        later(numparams->Err_0, 8)
    } else if is_vararg is Err {
        later(is_vararg->Err_0, 9)
    } else if maxstacksize is Err {
        later(maxstacksize->Err_0, 10)
    } else {
        Ok(
            (
                FrameView {
                    linedefined: (linedefined->Ok_0).0,
                    lastlinedefined: (lastlinedefined->Ok_0).0,
                    numparams: (numparams->Ok_0).0,
                    is_vararg: (is_vararg->Ok_0).0 != 0,
                    maxstacksize: (maxstacksize->Ok_0).0,
                },
                11,
            ),
        )
    }
}

/// The three pools of a function.
pub struct PoolsView {
    pub instructions: Seq<Instruction>,
    pub constants: Seq<ConstantView>,
    pub upvalues: Seq<UpvalueView>,
}

/// Instructions, constants and upvalue descriptors, each behind its
/// count.
#[verifier::opaque]
pub open spec fn pools_at(s: Seq<u8>, pos: int) -> Parse<PoolsView> {
    match counted(instruction_item(), s, pos) {
        Ok((instructions, n0)) => match counted(constant_item(), s, pos + n0) {
            Ok((constants, n1)) => match counted(upvalue_item(), s, pos + n0 + n1) {
                Ok((upvalues, n2)) => Ok(
                    (PoolsView { instructions, constants, upvalues }, n0 + n1 + n2),
                ),
                Err(e) => later(e, n0 + n1),
            },
            Err(e) => later(e, n0),
        },
        Err(e) => Err(e),
    }
}

/// One function block. A nested function inherits the source name of the
/// function that holds it.
pub open spec fn function_at(s: Seq<u8>, pos: int, inherited: Seq<char>) -> Parse<ProtoView>
    decreases left(s, pos), 3int,
{
    match source_at(s, pos, inherited) {
        Ok((source, n)) => shift(body_at(s, pos + n, source), n),
        Err(e) => Err(e),
    }
}

/// What follows the source name in a function block: the fields of fixed
/// width, the three pools, the nested functions, which inherit `source`,
/// and the debug block, which names the upvalues.
pub open spec fn body_at(s: Seq<u8>, pos: int, source: Seq<char>) -> Parse<ProtoView>
    decreases left(s, pos), 2int,
{
    match frame_at(s, pos) {
        Ok((frame, n0)) => match pools_at(s, pos + n0) {
            Ok((pools, n1)) => match nested_at(s, pos + n0 + n1, source) {
                Ok((protos, n2)) => match debug_at(s, pos + n0 + n1 + n2, pools.upvalues) {
                    Ok((debug, n3)) => Ok(
                        (
                            ProtoView {
                                source,
                                linedefined: frame.linedefined,
                                lastlinedefined: frame.lastlinedefined,
                                numparams: frame.numparams,
                                is_vararg: frame.is_vararg,
                                maxstacksize: frame.maxstacksize,
                                instructions: pools.instructions,
                                constants: pools.constants,
                                upvalues: debug.upvalues,
                                protos,
                                lineinfo: debug.lineinfo,
                                locvars: debug.locvars,
                            },
                            n0 + n1 + n2 + n3,
                        ),
                    ),
                    Err(e) => later(e, n0 + n1 + n2),
                },
                Err(e) => later(e, n0 + n1),
            },
            Err(e) => later(e, n0),
        },
        Err(e) => Err(e),
    }
}

/// The functions nested in a function: a count in four bytes, then that
/// many function blocks, each inheriting `inherited`.
pub open spec fn nested_at(s: Seq<u8>, pos: int, inherited: Seq<char>) -> Parse<Seq<ProtoView>>
    decreases left(s, pos), 1int,
{
    match scalar::<i32>(s, pos) {
        Ok((n, _)) => shift(protos_at(s, pos + 4, n as int, inherited), 4),
        Err(e) => Err(e),
    }
}

/// `n` function blocks one after the other, each inheriting `inherited`.
/// A count below one stands for no function.
pub open spec fn protos_at(s: Seq<u8>, pos: int, n: int, inherited: Seq<char>) -> Parse<
    Seq<ProtoView>,
>
    decreases left(s, pos), n + 4,
{
    if n <= 0 {
        Ok((Seq::empty(), 0))
    } else {
        match function_at(s, pos, inherited) {
            Ok((p, used)) => match protos_at(s, pos + used, n - 1, inherited) {
                Ok((ps, more)) => Ok((seq![p] + ps, used + more)),
                Err(e) => later(e, used),
            },
            Err(e) => Err(e),
        }
    }
}

/// A chunk: the header, one byte that is passed over, and the root
/// function, which inherits the empty name.
pub open spec fn chunk_at(s: Seq<u8>, pos: int) -> Parse<ProtoView> {
    match header_at(s, pos) {
        Ok((_, n0)) => match scalar::<u8>(s, pos + n0) {
            Ok((_, n1)) => shift(function_at(s, pos + n0 + n1, Seq::empty()), n0 + n1),
            Err(e) => later(e, n0),
        },
        Err(e) => Err(e),
    }
}

/// What a whole dump decodes to: its chunk, if the chunk ends where the
/// dump ends.
pub open spec fn decode(s: Seq<u8>) -> Result<ProtoView, ErrorKind> {
    match chunk_at(s, 0) {
        Ok((p, n)) => if n == s.len() {
            Ok(p)
        } else {
            Err(ErrorKind::TrailingData)
        },
        Err(e) => Err(e.kind),
    }
}

/// `rest`, read behind the items `done` that took `used` bytes.
pub open spec fn after<T>(done: Seq<T>, used: nat, rest: Parse<Seq<T>>) -> Parse<Seq<T>> {
    match rest {
        Ok((xs, more)) => Ok((done + xs, used + more)),
        Err(e) => later(e, used),
    }
}

/// Reading `n` items is reading one and then the others.
pub proof fn repeat_step<T>(item: Item<T>, s: Seq<u8>, pos: int, n: int, done: Seq<T>, used: nat)
    requires
        n > 0,
    ensures
        after(done, used, repeat(item, s, pos, n)) == (match item(s, pos) {
            Ok((x, u)) => after(done.push(x), used + u, repeat(item, s, pos + u, n - 1)),
            Err(e) => later(e, used),
        }),
{
    match item(s, pos) {
        Ok((x, u)) => match repeat(item, s, pos + u, n - 1) {
            Ok((xs, more)) => {
                assert(done + (seq![x] + xs) =~= done.push(x) + xs);
            },
            Err(e) => {},
        },
        Err(e) => {},
    }
}

/// Reading no item takes nothing.
pub proof fn repeat_end<T>(item: Item<T>, s: Seq<u8>, pos: int, n: int, done: Seq<T>, used: nat)
    requires
        n <= 0,
    ensures
        after(done, used, repeat(item, s, pos, n)) == Ok::<(Seq<T>, nat), Failure>((done, used)),
{
    assert(done + Seq::<T>::empty() =~= done);
}

/// Reading `n` functions is reading one and then the others.
pub proof fn protos_step(
    s: Seq<u8>,
    pos: int,
    n: int,
    inherited: Seq<char>,
    done: Seq<ProtoView>,
    used: nat,
)
    requires
        n > 0,
    ensures
        after(done, used, protos_at(s, pos, n, inherited)) == (match function_at(
            s,
            pos,
            inherited,
        ) {
            Ok((p, u)) => after(done.push(p), used + u, protos_at(s, pos + u, n - 1, inherited)),
            Err(e) => later(e, used),
        }),
{
    match function_at(s, pos, inherited) {
        Ok((p, u)) => match protos_at(s, pos + u, n - 1, inherited) {
            Ok((ps, more)) => {
                assert(done + (seq![p] + ps) =~= done.push(p) + ps);
            },
            Err(e) => {},
        },
        Err(e) => {},
    }
}

/// Reading no function takes nothing.
pub proof fn protos_end(
    s: Seq<u8>,
    pos: int,
    n: int,
    inherited: Seq<char>,
    done: Seq<ProtoView>,
    used: nat,
)
    requires
        n <= 0,
    ensures
        after(done, used, protos_at(s, pos, n, inherited)) == Ok::<(Seq<ProtoView>, nat), Failure>(
            (done, used),
        ),
{
    assert(done + Seq::<ProtoView>::empty() =~= done);
}

} // verus!
