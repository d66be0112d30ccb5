//! What a compatible encoder writes. Nothing here runs: the functions say
//! which bytes stand for a value, so that the laws can speak of every dump
//! that such an encoder produces.

use vstd::prelude::*;
use vstd::utf8::{encode_utf8, encode_utf8_decode_utf8, encode_utf8_valid_utf8};
use crate::conf::{
    syx_data, syx_header, LONG_SIZE, SIZE_INSTRUCTION, SIZE_INT, SIZE_INTEGER, SIZE_NUMBER,
    SIZE_SIZE, SYX_FORMAT, SYX_INT, SYX_MAXSHORTLEN, SYX_NUM, SYX_VERSION, TBOOLEAN, TLNGSTR,
    TNIL, TNUMFLT, TNUMINT, TSHRSTR,
};
use crate::errors::ErrorKind;
use crate::grammar::{
    body_at, constant_at, constant_item, counted, debug_at, decode, frame_at, function_at,
    header_at, instruction_at, instruction_item, line_item, locvar_at, locvar_item, names_at,
    nested_at, pools_at, protos_at, repeat, source_at, string_at, upvalue_at, upvalue_item,
    DebugView, FrameView, Item, PoolsView,
};
use crate::object::{ConstantView, LocVarView, ProtoView, UpvalueView};
use crate::opcodes::{word_of_instruction_decodes, Instruction};
use crate::primitives::{le32, le64, scalar, window, Failure};

verus! {

/// The four bytes of a value below 2^32, least significant first.
pub open spec fn le32_bytes(v: int) -> Seq<u8> {
    seq![
        (v % 0x100) as u8,
        (v / 0x100 % 0x100) as u8,
        (v / 0x1_0000 % 0x100) as u8,
        (v / 0x100_0000 % 0x100) as u8,
    ]
}

/// The eight bytes of a value below 2^64, least significant first.
pub open spec fn le64_bytes(v: int) -> Seq<u8> {
    le32_bytes(v % 0x1_0000_0000) + le32_bytes(v / 0x1_0000_0000)
}

/// The bytes of a count, a line or an instruction index.
pub open spec fn int_bytes(v: i32) -> Seq<u8> {
    le32_bytes(
        if v < 0 {
            v + 0x1_0000_0000
        } else {
            v as int
        },
    )
}

/// The bytes of an integer constant.
pub open spec fn integer_bytes(v: i64) -> Seq<u8> {
    le64_bytes(
        if v < 0 {
            v + 0x1_0000_0000_0000_0000
        } else {
            v as int
        },
    )
}

/// A string with its size in one byte. The size counts one more than the
/// content, so it fits for contents of up to 253 bytes.
pub open spec fn short_form(content: Seq<u8>) -> Seq<u8> {
    seq![(content.len() + 1) as u8] + content
}

/// A string with its size in eight bytes behind the escape byte.
pub open spec fn long_form(content: Seq<u8>) -> Seq<u8> {
    seq![LONG_SIZE] + le64_bytes(content.len() as int + 1) + content
}

/// A string as an encoder writes it: in the short form where the size
/// fits one byte, else in the long form.
pub open spec fn string_bytes(content: Seq<u8>) -> Seq<u8> {
    if content.len() + 1 < LONG_SIZE {
        short_form(content)
    } else {
        long_form(content)
    }
}

/// The bytes `part` stand in `s` at `pos`.
#[verifier::opaque]
pub open spec fn occurs(s: Seq<u8>, pos: int, part: Seq<u8>) -> bool {
    &&& 0 <= pos
    &&& pos + part.len() <= s.len()
    &&& s.subrange(pos, pos + part.len()) == part
}

/// Where two parts stand one after the other, each of them stands at its
/// place.
pub proof fn occurs_split(s: Seq<u8>, pos: int, a: Seq<u8>, b: Seq<u8>)
    requires
        occurs(s, pos, a + b),
    ensures
        occurs(s, pos, a),
        occurs(s, pos + a.len(), b),
{
    reveal(occurs);
    let whole = s.subrange(pos, pos + (a + b).len());
    assert(s.subrange(pos, pos + a.len()) =~= whole.subrange(0, a.len() as int));
    assert((a + b).subrange(0, a.len() as int) =~= a);
    assert(s.subrange(pos + a.len(), pos + a.len() + b.len()) =~= whole.subrange(
        a.len() as int,
        (a + b).len() as int,
    ));
    assert((a + b).subrange(a.len() as int, (a + b).len() as int) =~= b);
}

/// Four bytes written for a value below 2^32 read as that value.
pub proof fn le32_round_trip(v: int)
    requires
        0 <= v < 0x1_0000_0000,
    ensures
        le32_bytes(v).len() == 4,
        le32(le32_bytes(v)) == v,
{
}

/// Eight bytes written for a value below 2^64 read as that value.
pub proof fn le64_round_trip(v: int)
    requires
        0 <= v < 0x1_0000_0000_0000_0000,
    ensures
        le64_bytes(v).len() == 8,
        le64(le64_bytes(v)) == v,
{
    let low = le32_bytes(v % 0x1_0000_0000);
    let high = le32_bytes(v / 0x1_0000_0000);
    le32_round_trip(v % 0x1_0000_0000);
    le32_round_trip(v / 0x1_0000_0000);
    assert(le64_bytes(v).subrange(0, 4) =~= low);
    assert(le64_bytes(v).subrange(4, 8) =~= high);
}

/// Bytes that stand in the input are there to be read.
pub proof fn window_round_trip(s: Seq<u8>, pos: int, part: Seq<u8>)
    requires
        occurs(s, pos, part),
    ensures
        window(s, pos, part.len() as int) == Ok::<(Seq<u8>, nat), Failure>((part, part.len())),
{
    reveal(occurs);
}

/// A byte that stands in the input is read as it stands.
pub proof fn byte_round_trip(s: Seq<u8>, pos: int, v: u8)
    requires
        occurs(s, pos, seq![v]),
    ensures
        scalar::<u8>(s, pos) == Ok::<(u8, nat), Failure>((v, 1)),
{
    reveal(occurs);
    assert(s.subrange(pos, pos + 1)[0] == v);
}

/// The bytes of a 32-bit integer read as that integer.
pub proof fn int_round_trip(s: Seq<u8>, pos: int, v: i32)
    requires
        occurs(s, pos, int_bytes(v)),
    ensures
        scalar::<i32>(s, pos) == Ok::<(i32, nat), Failure>((v, 4)),
{
    reveal(occurs);
    le32_round_trip(
        if v < 0 {
            v + 0x1_0000_0000
        } else {
            v as int
        },
    );
}

/// The bytes of an unsigned 32-bit value read as that value.
pub proof fn word_round_trip(s: Seq<u8>, pos: int, v: u32)
    requires
        occurs(s, pos, le32_bytes(v as int)),
    ensures
        scalar::<u32>(s, pos) == Ok::<(u32, nat), Failure>((v, 4)),
{
    reveal(occurs);
    le32_round_trip(v as int);
}

/// The bytes of an unsigned 64-bit value read as that value.
pub proof fn size_round_trip(s: Seq<u8>, pos: int, v: u64)
    requires
        occurs(s, pos, le64_bytes(v as int)),
    ensures
        scalar::<u64>(s, pos) == Ok::<(u64, nat), Failure>((v, 8)),
{
    reveal(occurs);
    le64_round_trip(v as int);
}

/// The bytes of an integer constant read as that integer.
pub proof fn integer_round_trip(s: Seq<u8>, pos: int, v: i64)
    requires
        occurs(s, pos, integer_bytes(v)),
    ensures
        scalar::<i64>(s, pos) == Ok::<(i64, nat), Failure>((v, 8)),
{
    reveal(occurs);
    le64_round_trip(
        if v < 0 {
            v + 0x1_0000_0000_0000_0000
        } else {
            v as int
        },
    );
}

/// A string in the short form reads as its content.
pub proof fn short_form_round_trip(s: Seq<u8>, pos: int, content: Seq<u8>)
    requires
        content.len() + 1 < LONG_SIZE,
        occurs(s, pos, short_form(content)),
    ensures
        string_at(s, pos) == Ok::<(Seq<u8>, nat), Failure>(
            (content, short_form(content).len()),
        ),
{
    occurs_split(s, pos, seq![(content.len() + 1) as u8], content);
    byte_round_trip(s, pos, (content.len() + 1) as u8);
    window_round_trip(s, pos + 1, content);
}

/// A string in the long form reads as its content, whatever its length.
pub proof fn long_form_round_trip(s: Seq<u8>, pos: int, content: Seq<u8>)
    requires
        content.len() + 1 <= u64::MAX,
        occurs(s, pos, long_form(content)),
    ensures
        string_at(s, pos) == Ok::<(Seq<u8>, nat), Failure>((content, long_form(content).len())),
{
    let size = le64_bytes(content.len() as int + 1);
    le64_round_trip(content.len() as int + 1);
    occurs_split(s, pos, seq![LONG_SIZE] + size, content);
    occurs_split(s, pos, seq![LONG_SIZE], size);
    byte_round_trip(s, pos, LONG_SIZE);
    size_round_trip(s, pos + 1, (content.len() + 1) as u64);
    window_round_trip(s, pos + 9, content);
}

/// A string that fits the short form reads alike from both forms: the
/// form changes how the size is written and nothing of the content.
pub proof fn both_forms_read_alike(a: Seq<u8>, at: int, b: Seq<u8>, bt: int, content: Seq<u8>)
    requires
        content.len() + 1 < LONG_SIZE,
        occurs(a, at, short_form(content)),
        occurs(b, bt, long_form(content)),
    ensures
        string_at(a, at) matches Ok((x, _)) && string_at(b, bt) matches Ok((y, _)) && x == content
            && y == content,
{
    short_form_round_trip(a, at, content);
    long_form_round_trip(b, bt, content);
}

/// A string as an encoder writes it reads as its content.
pub proof fn string_round_trip(s: Seq<u8>, pos: int, content: Seq<u8>)
    requires
        content.len() + 1 <= u64::MAX,
        occurs(s, pos, string_bytes(content)),
    ensures
        string_at(s, pos) == Ok::<(Seq<u8>, nat), Failure>(
            (content, string_bytes(content).len()),
        ),
{
    if content.len() + 1 < LONG_SIZE {
        short_form_round_trip(s, pos, content);
    } else {
        long_form_round_trip(s, pos, content);
    }
}

/// A function from a value to the bytes that stand for it.
pub type Writer<T> = spec_fn(T) -> Seq<u8>;

/// The set of values that an encoder can write.
pub type Admits<T> = spec_fn(T) -> bool;

/// The bytes of an instruction: its word.
pub open spec fn instruction_bytes(i: Instruction) -> Seq<u8> {
    le32_bytes(i.word())
}

/// The bytes of a constant: its tag, then its value. A string is tagged
/// as short or long by its length.
pub open spec fn constant_bytes(c: ConstantView) -> Seq<u8> {
    match c {
        ConstantView::Nil => seq![TNIL],
        ConstantView::Bool(b) => seq![
            TBOOLEAN,
            if b {
                1u8
            } else {
                0u8
            },
        ],
        ConstantView::Number(bits) => seq![TNUMFLT] + le64_bytes(bits as int),
        ConstantView::Integer(i) => seq![TNUMINT] + integer_bytes(i),
        ConstantView::String(v) => seq![
            if v.len() <= SYX_MAXSHORTLEN {
                TSHRSTR
            } else {
                TLNGSTR
            },
        ] + string_bytes(v),
    }
}

/// A constant that can be written: a string constant has a size that
/// eight bytes hold.
pub open spec fn constant_fits(c: ConstantView) -> bool {
    c matches ConstantView::String(v) ==> v.len() + 1 <= u64::MAX
}

/// The bytes of an upvalue descriptor. The name is written elsewhere.
pub open spec fn upvalue_bytes(u: UpvalueView) -> Seq<u8> {
    seq![u.instack, u.idx]
}

/// The bytes of a local-variable record.
pub open spec fn locvar_bytes(l: LocVarView) -> Seq<u8> {
    string_bytes(l.varname) + int_bytes(l.startpc) + int_bytes(l.endpc)
}

/// The bytes of the items of `items`, one after the other.
pub open spec fn all_bytes<T>(items: Seq<T>, enc: Writer<T>) -> Seq<u8>
    decreases items.len(),
{
    if items.len() == 0 {
        Seq::empty()
    } else {
        enc(items.first()) + all_bytes(items.drop_first(), enc)
    }
}

/// The number of items, then the items.
pub open spec fn counted_bytes<T>(items: Seq<T>, enc: Writer<T>) -> Seq<u8> {
    int_bytes(items.len() as i32) + all_bytes(items, enc)
}

/// Wherever in `s` the bytes of a value that `admits` admits stand,
/// `item` reads that value there and takes exactly those bytes.
pub open spec fn reads_back<T>(item: Item<T>, enc: Writer<T>, admits: Admits<T>, s: Seq<u8>) -> bool {
    forall|x: T, p: int|
        admits(x) && #[trigger] occurs(s, p, enc(x)) ==> item(s, p) == Ok::<(T, nat), Failure>(
            (x, enc(x).len()),
        )
}

/// Items written one after the other are read back one after the other.
pub proof fn repeat_round_trip<T>(
    item: Item<T>,
    enc: Writer<T>,
    admits: Admits<T>,
    s: Seq<u8>,
    pos: int,
    items: Seq<T>,
)
    requires
        reads_back(item, enc, admits, s),
        forall|i: int| 0 <= i < items.len() ==> admits(#[trigger] items[i]),
        occurs(s, pos, all_bytes(items, enc)),
    ensures
        repeat(item, s, pos, items.len() as int) == Ok::<(Seq<T>, nat), Failure>(
            (items, all_bytes(items, enc).len()),
        ),
    decreases items.len(),
{
    if items.len() == 0 {
        assert(items =~= Seq::empty());
    } else {
        let first = items.first();
        let rest = items.drop_first();
        occurs_split(s, pos, enc(first), all_bytes(rest, enc));
        assert(admits(items[0]));
        assert forall|i: int| 0 <= i < rest.len() implies admits(#[trigger] rest[i]) by {
            assert(rest[i] == items[i + 1]);
        }
        repeat_round_trip(item, enc, admits, s, pos + enc(first).len(), rest);
        assert(seq![first] + rest =~= items);
    }
}

/// A count and the items behind it are read back as the items.
pub proof fn counted_round_trip<T>(
    item: Item<T>,
    enc: Writer<T>,
    admits: Admits<T>,
    s: Seq<u8>,
    pos: int,
    items: Seq<T>,
)
    requires
        reads_back(item, enc, admits, s),
        forall|i: int| 0 <= i < items.len() ==> admits(#[trigger] items[i]),
        items.len() <= i32::MAX,
        occurs(s, pos, counted_bytes(items, enc)),
    ensures
        counted(item, s, pos) == Ok::<(Seq<T>, nat), Failure>(
            (items, counted_bytes(items, enc).len()),
        ),
{
    let count = int_bytes(items.len() as i32);
    occurs_split(s, pos, count, all_bytes(items, enc));
    int_round_trip(s, pos, items.len() as i32);
    repeat_round_trip(item, enc, admits, s, pos + 4, items);
}

/// The writer of instructions.
pub open spec fn instruction_writer() -> Writer<Instruction> {
    |i: Instruction| instruction_bytes(i)
}

/// The writer of constants.
pub open spec fn constant_writer() -> Writer<ConstantView> {
    |c: ConstantView| constant_bytes(c)
}

/// The writer of upvalue descriptors.
pub open spec fn upvalue_writer() -> Writer<UpvalueView> {
    |u: UpvalueView| upvalue_bytes(u)
}

/// The writer of line numbers.
pub open spec fn line_writer() -> Writer<i32> {
    |v: i32| int_bytes(v)
}

/// The writer of local-variable records.
pub open spec fn locvar_writer() -> Writer<LocVarView> {
    |l: LocVarView| locvar_bytes(l)
}

/// The instructions that can be written: the well-formed ones.
pub open spec fn instruction_admits() -> Admits<Instruction> {
    |i: Instruction| i.wf()
}

/// The constants that can be written.
pub open spec fn constant_admits() -> Admits<ConstantView> {
    |c: ConstantView| constant_fits(c)
}

/// The upvalue descriptors that can be written: those without a name.
pub open spec fn upvalue_admits() -> Admits<UpvalueView> {
    |u: UpvalueView| u.name == Seq::<u8>::empty()
}

/// Every line number can be written.
pub open spec fn line_admits() -> Admits<i32> {
    |v: i32| true
}

/// The local-variable records that can be written.
pub open spec fn locvar_admits() -> Admits<LocVarView> {
    |l: LocVarView| l.varname.len() + 1 <= u64::MAX
}

/// The bytes of a well-formed instruction read as that instruction.
pub proof fn instruction_round_trip(s: Seq<u8>, pos: int, i: Instruction)
    requires
        i.wf(),
        occurs(s, pos, instruction_bytes(i)),
    ensures
        instruction_at(s, pos) == Ok::<(Instruction, nat), Failure>(
            (i, instruction_bytes(i).len()),
        ),
{
    word_of_instruction_decodes(i);
    word_round_trip(s, pos, i.word() as u32);
}

/// The bytes of a constant read as that constant.
pub proof fn constant_round_trip(s: Seq<u8>, pos: int, c: ConstantView)
    requires
        constant_fits(c),
        occurs(s, pos, constant_bytes(c)),
    ensures
        constant_at(s, pos) == Ok::<(ConstantView, nat), Failure>((c, constant_bytes(c).len())),
{
    match c {
        ConstantView::Nil => {
            byte_round_trip(s, pos, TNIL);
        },
        ConstantView::Bool(b) => {
            let payload = if b {
                1u8
            } else {
                0u8
            };
            assert(constant_bytes(c) =~= seq![TBOOLEAN] + seq![payload]);
            occurs_split(s, pos, seq![TBOOLEAN], seq![payload]);
            byte_round_trip(s, pos, TBOOLEAN);
            byte_round_trip(s, pos + 1, payload);
        },
        ConstantView::Number(bits) => {
            occurs_split(s, pos, seq![TNUMFLT], le64_bytes(bits as int));
            byte_round_trip(s, pos, TNUMFLT);
            size_round_trip(s, pos + 1, bits);
        },
        ConstantView::Integer(i) => {
            occurs_split(s, pos, seq![TNUMINT], integer_bytes(i));
            byte_round_trip(s, pos, TNUMINT);
            integer_round_trip(s, pos + 1, i);
        },
        ConstantView::String(v) => {
            let tag = if v.len() <= SYX_MAXSHORTLEN {
                TSHRSTR
            } else {
                TLNGSTR
            };
            occurs_split(s, pos, seq![tag], string_bytes(v));
            byte_round_trip(s, pos, tag);
            string_round_trip(s, pos + 1, v);
        },
    }
}

/// The bytes of a nameless upvalue descriptor read as that descriptor.
pub proof fn upvalue_round_trip(s: Seq<u8>, pos: int, u: UpvalueView)
    requires
        u.name == Seq::<u8>::empty(),
        occurs(s, pos, upvalue_bytes(u)),
    ensures
        upvalue_at(s, pos) == Ok::<(UpvalueView, nat), Failure>((u, upvalue_bytes(u).len())),
{
    assert(upvalue_bytes(u) =~= seq![u.instack] + seq![u.idx]);
    occurs_split(s, pos, seq![u.instack], seq![u.idx]);
    byte_round_trip(s, pos, u.instack);
    byte_round_trip(s, pos + 1, u.idx);
}

/// The bytes of a local-variable record read as that record.
pub proof fn locvar_round_trip(s: Seq<u8>, pos: int, l: LocVarView)
    requires
        l.varname.len() + 1 <= u64::MAX,
        occurs(s, pos, locvar_bytes(l)),
    ensures
        locvar_at(s, pos) == Ok::<(LocVarView, nat), Failure>((l, locvar_bytes(l).len())),
{
    let name = string_bytes(l.varname);
    occurs_split(s, pos, name + int_bytes(l.startpc), int_bytes(l.endpc));
    occurs_split(s, pos, name, int_bytes(l.startpc));
    string_round_trip(s, pos, l.varname);
    int_round_trip(s, pos + name.len(), l.startpc);
    int_round_trip(s, pos + name.len() + 4, l.endpc);
}

/// The reader of instructions reads back what their writer writes.
pub proof fn instructions_read_back(s: Seq<u8>)
    ensures
        reads_back(instruction_item(), instruction_writer(), instruction_admits(), s),
{
    assert forall|x: Instruction, p: int|
        instruction_admits()(x) && #[trigger] occurs(
            s,
            p,
            instruction_writer()(x),
        ) implies instruction_item()(s, p) == Ok::<(Instruction, nat), Failure>(
        (x, instruction_writer()(x).len()),
    ) by {
        instruction_round_trip(s, p, x);
    }
}

/// The reader of constants reads back what their writer writes.
pub proof fn constants_read_back(s: Seq<u8>)
    ensures
        reads_back(constant_item(), constant_writer(), constant_admits(), s),
{
    assert forall|x: ConstantView, p: int|
        constant_admits()(x) && #[trigger] occurs(
            s,
            p,
            constant_writer()(x),
        ) implies constant_item()(s, p) == Ok::<(ConstantView, nat), Failure>(
        (x, constant_writer()(x).len()),
    ) by {
        constant_round_trip(s, p, x);
    }
}

/// The reader of upvalue descriptors reads back what their writer writes.
pub proof fn upvalues_read_back(s: Seq<u8>)
    ensures
        reads_back(upvalue_item(), upvalue_writer(), upvalue_admits(), s),
{
    assert forall|x: UpvalueView, p: int|
        upvalue_admits()(x) && #[trigger] occurs(
            s,
            p,
            upvalue_writer()(x),
        ) implies upvalue_item()(s, p) == Ok::<(UpvalueView, nat), Failure>(
        (x, upvalue_writer()(x).len()),
    ) by {
        upvalue_round_trip(s, p, x);
    }
}

/// The reader of line numbers reads back what their writer writes.
pub proof fn lines_read_back(s: Seq<u8>)
    ensures
        reads_back(line_item(), line_writer(), line_admits(), s),
{
    assert forall|x: i32, p: int|
        line_admits()(x) && #[trigger] occurs(s, p, line_writer()(x)) implies line_item()(s, p)
        == Ok::<(i32, nat), Failure>((x, line_writer()(x).len())) by {
        int_round_trip(s, p, x);
    }
}

/// The reader of local-variable records reads back what their writer
/// writes.
pub proof fn locvars_read_back(s: Seq<u8>)
    ensures
        reads_back(locvar_item(), locvar_writer(), locvar_admits(), s),
{
    assert forall|x: LocVarView, p: int|
        locvar_admits()(x) && #[trigger] occurs(
            s,
            p,
            locvar_writer()(x),
        ) implies locvar_item()(s, p) == Ok::<(LocVarView, nat), Failure>(
        (x, locvar_writer()(x).len()),
    ) by {
        locvar_round_trip(s, p, x);
    }
}

/// The instructions of a function behind their count read back.
pub proof fn code_round_trip(s: Seq<u8>, pos: int, items: Seq<Instruction>)
    requires
        items.len() <= i32::MAX,
        forall|i: int| 0 <= i < items.len() ==> (#[trigger] items[i]).wf(),
        occurs(s, pos, counted_bytes(items, instruction_writer())),
    ensures
        counted(instruction_item(), s, pos) == Ok::<(Seq<Instruction>, nat), Failure>(
            (items, counted_bytes(items, instruction_writer()).len()),
        ),
{
    instructions_read_back(s);
    counted_round_trip(instruction_item(), instruction_writer(), instruction_admits(), s, pos, items);
}

/// The constants of a function behind their count read back.
pub proof fn constants_round_trip(s: Seq<u8>, pos: int, items: Seq<ConstantView>)
    requires
        items.len() <= i32::MAX,
        forall|i: int| 0 <= i < items.len() ==> constant_fits(#[trigger] items[i]),
        occurs(s, pos, counted_bytes(items, constant_writer())),
    ensures
        counted(constant_item(), s, pos) == Ok::<(Seq<ConstantView>, nat), Failure>(
            (items, counted_bytes(items, constant_writer()).len()),
        ),
{
    constants_read_back(s);
    counted_round_trip(constant_item(), constant_writer(), constant_admits(), s, pos, items);
}

/// Nameless upvalue descriptors behind their count read back.
pub proof fn descriptors_round_trip(s: Seq<u8>, pos: int, items: Seq<UpvalueView>)
    requires
        items.len() <= i32::MAX,
        forall|i: int| 0 <= i < items.len() ==> (#[trigger] items[i]).name == Seq::<u8>::empty(),
        occurs(s, pos, counted_bytes(items, upvalue_writer())),
    ensures
        counted(upvalue_item(), s, pos) == Ok::<(Seq<UpvalueView>, nat), Failure>(
            (items, counted_bytes(items, upvalue_writer()).len()),
        ),
{
    upvalues_read_back(s);
    counted_round_trip(upvalue_item(), upvalue_writer(), upvalue_admits(), s, pos, items);
}

/// Line numbers behind their count read back.
pub proof fn lines_round_trip(s: Seq<u8>, pos: int, items: Seq<i32>)
    requires
        items.len() <= i32::MAX,
        occurs(s, pos, counted_bytes(items, line_writer())),
    ensures
        counted(line_item(), s, pos) == Ok::<(Seq<i32>, nat), Failure>(
            (items, counted_bytes(items, line_writer()).len()),
        ),
{
    lines_read_back(s);
    counted_round_trip(line_item(), line_writer(), line_admits(), s, pos, items);
}

/// Local-variable records behind their count read back.
pub proof fn locvars_round_trip(s: Seq<u8>, pos: int, items: Seq<LocVarView>)
    requires
        items.len() <= i32::MAX,
        forall|i: int| 0 <= i < items.len() ==> (#[trigger] items[i]).varname.len() + 1 <= u64::MAX,
        occurs(s, pos, counted_bytes(items, locvar_writer())),
    ensures
        counted(locvar_item(), s, pos) == Ok::<(Seq<LocVarView>, nat), Failure>(
            (items, counted_bytes(items, locvar_writer()).len()),
        ),
{
    locvars_read_back(s);
    counted_round_trip(locvar_item(), locvar_writer(), locvar_admits(), s, pos, items);
}

/// The writer of upvalue names.
pub open spec fn name_writer() -> Writer<UpvalueView> {
    |u: UpvalueView| string_bytes(u.name)
}

/// `upvalues` as they stand once the names before the `i`-th are read:
/// those have their names, the others have none yet.
pub open spec fn named_up_to(upvalues: Seq<UpvalueView>, i: int) -> Seq<UpvalueView> {
    Seq::new(
        upvalues.len(),
        |j: int|
            if j < i {
                upvalues[j]
            } else {
                UpvalueView { name: Seq::empty(), ..upvalues[j] }
            },
    )
}

/// The names of the upvalues from the `i`-th on are read back into their
/// places.
pub proof fn names_round_trip(s: Seq<u8>, pos: int, upvalues: Seq<UpvalueView>, i: int)
    requires
        0 <= i <= upvalues.len() <= i32::MAX,
        forall|j: int| 0 <= j < upvalues.len() ==> (#[trigger] upvalues[j]).name.len() + 1 <= u64::MAX,
        occurs(s, pos, all_bytes(upvalues.skip(i), name_writer())),
    ensures
        names_at(s, pos, upvalues.len() as int, i, named_up_to(upvalues, i)) == Ok::<
            (Seq<UpvalueView>, nat),
            Failure,
        >((upvalues, all_bytes(upvalues.skip(i), name_writer()).len())),
    decreases upvalues.len() - i,
{
    let current = named_up_to(upvalues, i);
    if i == upvalues.len() {
        assert(current =~= upvalues);
        assert(upvalues.skip(i) =~= Seq::empty());
    } else {
        let tail = upvalues.skip(i);
        assert(tail.first() == upvalues[i]);
        assert(tail.drop_first() =~= upvalues.skip(i + 1));
        let name = upvalues[i].name;
        occurs_split(s, pos, string_bytes(name), all_bytes(upvalues.skip(i + 1), name_writer()));
        string_round_trip(s, pos, name);
        assert(current.update(i, UpvalueView { name, ..current[i] }) =~= named_up_to(
            upvalues,
            i + 1,
        ));
        names_round_trip(s, pos + string_bytes(name).len(), upvalues, i + 1);
    }
}

/// The bytes of the debug block of `p`.
pub open spec fn debug_bytes(p: ProtoView) -> Seq<u8> {
    counted_bytes(p.lineinfo, line_writer()) + counted_bytes(p.locvars, locvar_writer())
        + counted_bytes(p.upvalues, name_writer())
}

/// The bytes of the source name of a function: nothing but a size of zero
/// where the function has the name that it would inherit.
pub open spec fn source_bytes(source: Seq<char>, inherited: Seq<char>) -> Seq<u8> {
    if source == inherited {
        seq![0u8]
    } else {
        string_bytes(encode_utf8(source))
    }
}

/// The bytes of the fields of fixed width.
pub open spec fn frame_bytes(p: ProtoView) -> Seq<u8> {
    int_bytes(p.linedefined) + int_bytes(p.lastlinedefined) + seq![
        p.numparams,
        if p.is_vararg {
            1u8
        } else {
            0u8
        },
        p.maxstacksize,
    ]
}

/// The bytes of the three pools. Of the upvalues only the descriptors
/// stand here.
pub open spec fn pools_bytes(p: ProtoView) -> Seq<u8> {
    counted_bytes(p.instructions, instruction_writer()) + counted_bytes(
        p.constants,
        constant_writer(),
    ) + counted_bytes(named_up_to(p.upvalues, 0), upvalue_writer())
}

/// The bytes of a function block, written for a function that would
/// inherit the name `inherited`.
pub open spec fn function_bytes(p: ProtoView, inherited: Seq<char>) -> Seq<u8>
    decreases p, 1int,
{
    source_bytes(p.source, inherited) + body_bytes(p)
}

/// The bytes of what follows the source name.
pub open spec fn body_bytes(p: ProtoView) -> Seq<u8>
    decreases p, 0int,
{
    frame_bytes(p) + pools_bytes(p) + (int_bytes(p.protos.len() as i32) + protos_bytes(
        p.protos,
        0,
        p.source,
    )) + debug_bytes(p)
}

/// The bytes of the functions of `protos` from the `from`-th on.
pub open spec fn protos_bytes(protos: Seq<ProtoView>, from: int, inherited: Seq<char>) -> Seq<u8>
    decreases protos, protos.len() - from,
{
    if 0 <= from < protos.len() {
        function_bytes(protos[from], inherited) + protos_bytes(protos, from + 1, inherited)
    } else {
        Seq::empty()
    }
}

/// What of a prototype itself must hold for an encoder to write it: its
/// counts fit 32 bits, its instructions are well formed, and its strings
/// have sizes that fit eight bytes.
pub open spec fn fits(p: ProtoView) -> bool {
    &&& p.instructions.len() <= i32::MAX
    &&& p.constants.len() <= i32::MAX
    &&& p.upvalues.len() <= i32::MAX
    &&& p.protos.len() <= i32::MAX
    &&& p.lineinfo.len() <= i32::MAX
    &&& p.locvars.len() <= i32::MAX
    &&& forall|i: int| 0 <= i < p.instructions.len() ==> (#[trigger] p.instructions[i]).wf()
    &&& forall|i: int| 0 <= i < p.constants.len() ==> constant_fits(#[trigger] p.constants[i])
    &&& forall|i: int|
        0 <= i < p.upvalues.len() ==> (#[trigger] p.upvalues[i]).name.len() + 1 <= u64::MAX
    &&& forall|i: int|
        0 <= i < p.locvars.len() ==> (#[trigger] p.locvars[i]).varname.len() + 1 <= u64::MAX
}

/// The source name can be written for a function that would inherit
/// `inherited`: it is that name, or it has bytes of its own.
pub open spec fn source_fits(source: Seq<char>, inherited: Seq<char>) -> bool {
    source == inherited || 0 < encode_utf8(source).len() < u64::MAX
}

/// An encoder can write the tree below `p`, for a function that would
/// inherit the name `inherited`.
pub open spec fn encodable(p: ProtoView, inherited: Seq<char>) -> bool
    decreases p,
{
    &&& fits(p)
    &&& source_fits(p.source, inherited)
    &&& forall|i: int|
        0 <= i < p.protos.len() ==> encodable(#[trigger] p.protos[i], p.source)
}

/// The bytes of a source name read as that name.
pub proof fn source_round_trip(s: Seq<u8>, pos: int, source: Seq<char>, inherited: Seq<char>)
    requires
        source_fits(source, inherited),
        occurs(s, pos, source_bytes(source, inherited)),
    ensures
        source_at(s, pos, inherited) == Ok::<(Seq<char>, nat), Failure>(
            (source, source_bytes(source, inherited).len()),
        ),
{
    if source == inherited {
        byte_round_trip(s, pos, 0u8);
    } else {
        encode_utf8_valid_utf8(source);
        encode_utf8_decode_utf8(source);
        string_round_trip(s, pos, encode_utf8(source));
    }
}

/// The bytes of the fields of fixed width read as those fields.
pub proof fn frame_round_trip(s: Seq<u8>, pos: int, p: ProtoView)
    requires
        occurs(s, pos, frame_bytes(p)),
    ensures
        frame_at(s, pos) == Ok::<(FrameView, nat), Failure>(
            (
                FrameView {
                    linedefined: p.linedefined,
                    lastlinedefined: p.lastlinedefined,
                    numparams: p.numparams,
                    is_vararg: p.is_vararg,
                    maxstacksize: p.maxstacksize,
                },
                frame_bytes(p).len(),
            ),
        ),
{
    let vararg = if p.is_vararg {
        1u8
    } else {
        0u8
    };
    let lines = int_bytes(p.linedefined) + int_bytes(p.lastlinedefined);
    assert(frame_bytes(p) =~= lines + (seq![p.numparams] + (seq![vararg] + seq![p.maxstacksize])));
    occurs_split(s, pos, lines, seq![p.numparams] + (seq![vararg] + seq![p.maxstacksize]));
    occurs_split(s, pos, int_bytes(p.linedefined), int_bytes(p.lastlinedefined));
    occurs_split(s, pos + 8, seq![p.numparams], seq![vararg] + seq![p.maxstacksize]);
    occurs_split(s, pos + 9, seq![vararg], seq![p.maxstacksize]);
    int_round_trip(s, pos, p.linedefined);
    int_round_trip(s, pos + 4, p.lastlinedefined);
    byte_round_trip(s, pos + 8, p.numparams);
    byte_round_trip(s, pos + 9, vararg);
    byte_round_trip(s, pos + 10, p.maxstacksize);
}

/// The bytes of the three pools read as the pools, the upvalues without
/// their names.
pub proof fn pools_round_trip(s: Seq<u8>, pos: int, p: ProtoView)
    requires
        fits(p),
        occurs(s, pos, pools_bytes(p)),
    ensures
        pools_at(s, pos) == Ok::<(PoolsView, nat), Failure>(
            (
                PoolsView {
                    instructions: p.instructions,
                    constants: p.constants,
                    upvalues: named_up_to(p.upvalues, 0),
                },
                pools_bytes(p).len(),
            ),
        ),
{
    let code = counted_bytes(p.instructions, instruction_writer());
    let constants = counted_bytes(p.constants, constant_writer());
    let upvalues = counted_bytes(named_up_to(p.upvalues, 0), upvalue_writer());
    occurs_split(s, pos, code + constants, upvalues);
    occurs_split(s, pos, code, constants);
    code_round_trip(s, pos, p.instructions);
    constants_round_trip(s, pos + code.len(), p.constants);
    descriptors_round_trip(s, pos + code.len() + constants.len(), named_up_to(p.upvalues, 0));
    reveal(pools_at);
}

/// The bytes of the debug block read as line numbers and local
/// variables, and put the names of the upvalues in place.
pub proof fn debug_round_trip(s: Seq<u8>, pos: int, p: ProtoView)
    requires
        fits(p),
        occurs(s, pos, debug_bytes(p)),
    ensures
        debug_at(s, pos, named_up_to(p.upvalues, 0)) == Ok::<(DebugView, nat), Failure>(
            (
                DebugView { lineinfo: p.lineinfo, locvars: p.locvars, upvalues: p.upvalues },
                debug_bytes(p).len(),
            ),
        ),
{
    let lines = counted_bytes(p.lineinfo, line_writer());
    let locvars = counted_bytes(p.locvars, locvar_writer());
    let count = int_bytes(p.upvalues.len() as i32);
    let names = all_bytes(p.upvalues, name_writer());
    occurs_split(s, pos, lines + locvars, count + names);
    occurs_split(s, pos, lines, locvars);
    occurs_split(s, pos + lines.len() + locvars.len(), count, names);
    lines_round_trip(s, pos, p.lineinfo);
    locvars_round_trip(s, pos + lines.len(), p.locvars);
    int_round_trip(s, pos + lines.len() + locvars.len(), p.upvalues.len() as i32);
    assert(p.upvalues.skip(0) =~= p.upvalues);
    names_round_trip(s, pos + lines.len() + locvars.len() + 4, p.upvalues, 0);
    reveal(debug_at);
}

/// The bytes of a function block read as the function.
pub proof fn function_round_trip(s: Seq<u8>, pos: int, p: ProtoView, inherited: Seq<char>)
    requires
        encodable(p, inherited),
        occurs(s, pos, function_bytes(p, inherited)),
    ensures
        function_at(s, pos, inherited) == Ok::<(ProtoView, nat), Failure>(
            (p, function_bytes(p, inherited).len()),
        ),
    decreases p, 1int,
{
    let name = source_bytes(p.source, inherited);
    occurs_split(s, pos, name, body_bytes(p));
    source_round_trip(s, pos, p.source, inherited);
    body_round_trip(s, pos + name.len(), p);
}

/// A function body whose four parts read as the parts of `p` reads as
/// `p`.
pub proof fn body_assembles(s: Seq<u8>, pos: int, p: ProtoView, n0: nat, n1: nat, n2: nat, n3: nat)
    requires
        frame_at(s, pos) == Ok::<(FrameView, nat), Failure>(
            (
                FrameView {
                    linedefined: p.linedefined,
                    lastlinedefined: p.lastlinedefined,
                    numparams: p.numparams,
                    is_vararg: p.is_vararg,
                    maxstacksize: p.maxstacksize,
                },
                n0,
            ),
        ),
        pools_at(s, pos + n0) == Ok::<(PoolsView, nat), Failure>(
            (
                PoolsView {
                    instructions: p.instructions,
                    constants: p.constants,
                    upvalues: named_up_to(p.upvalues, 0),
                },
                n1,
            ),
        ),
        nested_at(s, pos + n0 + n1, p.source) == Ok::<(Seq<ProtoView>, nat), Failure>(
            (p.protos, n2),
        ),
        debug_at(s, pos + n0 + n1 + n2, named_up_to(p.upvalues, 0)) == Ok::<
            (DebugView, nat),
            Failure,
        >((DebugView { lineinfo: p.lineinfo, locvars: p.locvars, upvalues: p.upvalues }, n3)),
    ensures
        body_at(s, pos, p.source) == Ok::<(ProtoView, nat), Failure>((p, n0 + n1 + n2 + n3)),
{
}

/// The bytes behind the source name read as the rest of the function.
pub proof fn body_round_trip(s: Seq<u8>, pos: int, p: ProtoView)
    requires
        fits(p),
        forall|i: int| 0 <= i < p.protos.len() ==> encodable(#[trigger] p.protos[i], p.source),
        occurs(s, pos, body_bytes(p)),
    ensures
        body_at(s, pos, p.source) == Ok::<(ProtoView, nat), Failure>((p, body_bytes(p).len())),
    decreases p, 0int,
{
    let frame = frame_bytes(p);
    let pools = pools_bytes(p);
    let count = int_bytes(p.protos.len() as i32);
    let nested = protos_bytes(p.protos, 0, p.source);
    let debug = debug_bytes(p);
    occurs_split(s, pos, frame + pools + (count + nested), debug);
    occurs_split(s, pos, frame + pools, count + nested);
    occurs_split(s, pos, frame, pools);
    let at = pos + frame.len() + pools.len();
    occurs_split(s, at, count, nested);
    frame_round_trip(s, pos, p);
    pools_round_trip(s, pos + frame.len(), p);
    int_round_trip(s, at, p.protos.len() as i32);
    protos_round_trip(s, at + 4, p.protos, 0, p.source);
    assert(p.protos.skip(0) =~= p.protos);
    debug_round_trip(s, at + 4 + nested.len(), p);
    body_assembles(s, pos, p, frame.len(), pools.len(), 4 + nested.len(), debug.len());
}

/// The bytes of the functions from the `from`-th on read as those
/// functions.
pub proof fn protos_round_trip(
    s: Seq<u8>,
    pos: int,
    protos: Seq<ProtoView>,
    from: int,
    inherited: Seq<char>,
)
    requires
        0 <= from <= protos.len(),
        forall|i: int| 0 <= i < protos.len() ==> encodable(#[trigger] protos[i], inherited),
        occurs(s, pos, protos_bytes(protos, from, inherited)),
    ensures
        protos_at(s, pos, protos.len() - from, inherited) == Ok::<
            (Seq<ProtoView>, nat),
            Failure,
        >((protos.skip(from), protos_bytes(protos, from, inherited).len())),
    decreases protos, protos.len() - from,
{
    if from < protos.len() {
        let first = function_bytes(protos[from], inherited);
        occurs_split(s, pos, first, protos_bytes(protos, from + 1, inherited));
        function_round_trip(s, pos, protos[from], inherited);
        protos_round_trip(s, pos + first.len(), protos, from + 1, inherited);
        assert(seq![protos[from]] + protos.skip(from + 1) =~= protos.skip(from));
    } else {
        assert(protos.skip(from) =~= Seq::empty());
    }
}

/// The bytes of the header that this loader accepts.
pub open spec fn header_bytes() -> Seq<u8> {
    syx_header() + seq![SYX_VERSION, SYX_FORMAT] + syx_data() + seq![
        SIZE_INT,
        SIZE_SIZE,
        SIZE_INSTRUCTION,
        SIZE_INTEGER,
        SIZE_NUMBER,
    ] + integer_bytes(SYX_INT) + le64_bytes(SYX_NUM as int)
}

/// The bytes of a whole dump: the header, the number of upvalues of the
/// root function in one byte, and the root function.
pub open spec fn dump_bytes(p: ProtoView) -> Seq<u8> {
    header_bytes() + seq![(p.upvalues.len() % 0x100) as u8] + function_bytes(p, Seq::empty())
}

/// The header of an encoder passes every check.
pub proof fn header_round_trip(s: Seq<u8>, pos: int)
    requires
        occurs(s, pos, header_bytes()),
    ensures
        header_at(s, pos) == Ok::<((), nat), Failure>(((), header_bytes().len())),
        header_bytes().len() == 33,
{
    reveal(header_at);
    let tags = seq![SYX_VERSION] + seq![SYX_FORMAT];
    let sizes = seq![SIZE_INT] + (seq![SIZE_SIZE] + (seq![SIZE_INSTRUCTION] + (seq![SIZE_INTEGER]
        + seq![SIZE_NUMBER])));
    let integer = integer_bytes(SYX_INT);
    let float = le64_bytes(SYX_NUM as int);
    le64_round_trip(SYX_INT as int);
    le64_round_trip(SYX_NUM as int);
    assert(header_bytes() =~= syx_header() + tags + syx_data() + sizes + integer + float);
    occurs_split(s, pos, syx_header() + tags + syx_data() + sizes + integer, float);
    occurs_split(s, pos, syx_header() + tags + syx_data() + sizes, integer);
    occurs_split(s, pos, syx_header() + tags + syx_data(), sizes);
    occurs_split(s, pos, syx_header() + tags, syx_data());
    occurs_split(s, pos, syx_header(), tags);
    occurs_split(s, pos + 4, seq![SYX_VERSION], seq![SYX_FORMAT]);
    occurs_split(
        s,
        pos + 12,
        seq![SIZE_INT],
        seq![SIZE_SIZE] + (seq![SIZE_INSTRUCTION] + (seq![SIZE_INTEGER] + seq![SIZE_NUMBER])),
    );
    occurs_split(
        s,
        pos + 13,
        seq![SIZE_SIZE],
        seq![SIZE_INSTRUCTION] + (seq![SIZE_INTEGER] + seq![SIZE_NUMBER]),
    );
    occurs_split(s, pos + 14, seq![SIZE_INSTRUCTION], seq![SIZE_INTEGER] + seq![SIZE_NUMBER]);
    occurs_split(s, pos + 15, seq![SIZE_INTEGER], seq![SIZE_NUMBER]);
    window_round_trip(s, pos, syx_header());
    window_round_trip(s, pos + 6, syx_data());
    byte_round_trip(s, pos + 4, SYX_VERSION);
    byte_round_trip(s, pos + 5, SYX_FORMAT);
    byte_round_trip(s, pos + 12, SIZE_INT);
    byte_round_trip(s, pos + 13, SIZE_SIZE);
    byte_round_trip(s, pos + 14, SIZE_INSTRUCTION);
    byte_round_trip(s, pos + 15, SIZE_INTEGER);
    byte_round_trip(s, pos + 16, SIZE_NUMBER);
    integer_round_trip(s, pos + 17, SYX_INT);
    size_round_trip(s, pos + 25, SYX_NUM);
}

/// Every dump of a compatible encoder decodes, and to the very tree that
/// was written: each pool and each list of nested functions has the items
/// that went in, as many and in their order.
pub proof fn encoded_dump_decodes(p: ProtoView)
    requires
        encodable(p, Seq::empty()),
    ensures
        decode(dump_bytes(p)) == Ok::<ProtoView, ErrorKind>(p),
{
    let s = dump_bytes(p);
    let count = seq![(p.upvalues.len() % 0x100) as u8];
    let root = function_bytes(p, Seq::empty());
    assert(occurs(s, 0, s)) by {
        reveal(occurs);
        assert(s.subrange(0, s.len() as int) =~= s);
    }
    occurs_split(s, 0, header_bytes() + count, root);
    occurs_split(s, 0, header_bytes(), count);
    header_round_trip(s, 0);
    byte_round_trip(s, 33, (p.upvalues.len() % 0x100) as u8);
    function_round_trip(s, 34, p, Seq::empty());
}

} // verus!
