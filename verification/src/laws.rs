//! What holds of the format whatever the input: how decoding a dump
//! relates to decoding a shorter or a longer one, and what the single
//! readers do at their edges.

use vstd::prelude::*;
use crate::conf::{
    syx_data, syx_header, LONG_SIZE, SIZE_INSTRUCTION, SIZE_INT, SIZE_INTEGER, SIZE_NUMBER,
    SIZE_SIZE, SYX_FORMAT, SYX_INT, SYX_VERSION, TBOOLEAN, TLNGSTR, TNIL, TNUMFLT, TNUMINT,
    TSHRSTR,
};
use crate::errors::{Check, ErrorKind, LoadError};
use crate::grammar::{
    body_at, byte_at, chunk_at, constant_at, constant_item, counted, debug_at, decode, frame_at,
    function_at, header_at, instruction_at, instruction_item, left, line_item, literal_at,
    locvar_at, locvar_item, named_at, names_at, nested_at, pools_at, protos_at, repeat, source_at,
    string_at, upvalue_at, upvalue_item, Item,
};
use crate::object::{ConstantView, Proto, ProtoView, UpvalueView};
use crate::primitives::{failure, scalar, window, Failure, Parse, Primitive};
use crate::undump::LoadState;

verus! {

/// How reading an item from the first `k` bytes of an input (`short`)
/// relates to reading it from the whole input (`full`), both at `pos`:
/// an item that ends within the `k` bytes is read alike, one that does not
/// is truncated, and an error stays or gives way to truncation.
pub open spec fn cut<T>(full: Parse<T>, short: Parse<T>, pos: int, k: int) -> bool {
    match full {
        Ok((_, n)) => if pos + n <= k {
            short == full
        } else {
            short matches Err(f) && f.kind == ErrorKind::TruncatedInput
        },
        Err(e) => short matches Err(f) && (f.kind == e.kind || f.kind
            == ErrorKind::TruncatedInput),
    }
}

/// The reader `item` obeys `cut` at every position from `from` to `k`.
pub open spec fn item_cuts<T>(item: Item<T>, s: Seq<u8>, k: int, from: int) -> bool {
    forall|p: int| from <= p <= k ==> cut(#[trigger] item(s, p), item(s.take(k), p), p, k)
}

/// Bytes read from the first `k` bytes of an input are the bytes read from
/// the whole input, where they end within the `k`.
pub proof fn window_cut(s: Seq<u8>, k: int, pos: int, n: int)
    requires
        0 <= pos <= k <= s.len(),
    ensures
        cut(window(s, pos, n), window(s.take(k), pos, n), pos, k),
{
    if 0 <= n && pos + n <= k {
        assert(s.take(k).subrange(pos, pos + n) =~= s.subrange(pos, pos + n));
    }
}

/// A scalar obeys `cut`.
pub proof fn scalar_cut<T: Primitive>(s: Seq<u8>, k: int, pos: int)
    requires
        0 <= pos <= k <= s.len(),
    ensures
        cut(scalar::<T>(s, pos), scalar::<T>(s.take(k), pos), pos, k),
{
    window_cut(s, k, pos, T::width() as int);
}

/// A literal of the header obeys `cut`.
pub proof fn literal_cut(s: Seq<u8>, k: int, pos: int, literal: Seq<u8>, which: Check)
    requires
        0 <= pos <= k <= s.len(),
    ensures
        cut(literal_at(s, pos, literal, which), literal_at(s.take(k), pos, literal, which), pos, k),
{
    window_cut(s, k, pos, literal.len() as int);
}

/// A byte of the header obeys `cut`.
pub proof fn byte_cut(s: Seq<u8>, k: int, pos: int, value: u8, which: Check)
    requires
        0 <= pos <= k <= s.len(),
    ensures
        cut(byte_at(s, pos, value, which), byte_at(s.take(k), pos, value, which), pos, k),
{
    scalar_cut::<u8>(s, k, pos);
}

/// The header obeys `cut`: cut short, it fails with the first failure of
/// the whole header or as truncated.
pub proof fn header_cut(s: Seq<u8>, k: int, pos: int)
    requires
        0 <= pos <= k <= s.len(),
    ensures
        cut(header_at(s, pos), header_at(s.take(k), pos), pos, k),
{
    reveal(header_at);
    literal_cut(s, k, pos, syx_header(), Check::Header);
    if pos + 4 <= k {
        byte_cut(s, k, pos + 4, SYX_VERSION, Check::Version);
    }
    if pos + 5 <= k {
        byte_cut(s, k, pos + 5, SYX_FORMAT, Check::Format);
    }
    if pos + 6 <= k {
        literal_cut(s, k, pos + 6, syx_data(), Check::LoadOrder);
    }
    if pos + 12 <= k {
        byte_cut(s, k, pos + 12, SIZE_INT, Check::SizeInt);
    }
    if pos + 13 <= k {
        byte_cut(s, k, pos + 13, SIZE_SIZE, Check::SizeSize);
    }
    if pos + 14 <= k {
        byte_cut(s, k, pos + 14, SIZE_INSTRUCTION, Check::SizeInstruction);
    }
    if pos + 15 <= k {
        byte_cut(s, k, pos + 15, SIZE_INTEGER, Check::SizeInteger);
    }
    if pos + 16 <= k {
        byte_cut(s, k, pos + 16, SIZE_NUMBER, Check::SizeNumber);
    }
    if pos + 17 <= k {
        scalar_cut::<i64>(s, k, pos + 17);
    }
    if pos + 25 <= k {
        scalar_cut::<u64>(s, k, pos + 25);
    }
}

/// A string obeys `cut`.
pub proof fn string_cut(s: Seq<u8>, k: int, pos: int)
    requires
        0 <= pos <= k <= s.len(),
    ensures
        cut(string_at(s, pos), string_at(s.take(k), pos), pos, k),
{
    scalar_cut::<u8>(s, k, pos);
    if pos + 1 <= k {
        scalar_cut::<u64>(s, k, pos + 1);
        match scalar::<u8>(s, pos) {
            Ok((first, _)) => {
                window_cut(s, k, pos + 1, first - 1);
            },
            Err(_) => {},
        }
    }
    if pos + 9 <= k {
        match scalar::<u64>(s, pos + 1) {
            Ok((size, _)) => {
                window_cut(s, k, pos + 9, size - 1);
            },
            Err(_) => {},
        }
    }
}

/// An instruction obeys `cut`.
pub proof fn instruction_cut(s: Seq<u8>, k: int, pos: int)
    requires
        0 <= pos <= k <= s.len(),
    ensures
        cut(instruction_at(s, pos), instruction_at(s.take(k), pos), pos, k),
{
    scalar_cut::<u32>(s, k, pos);
}

/// A constant obeys `cut`.
pub proof fn constant_cut(s: Seq<u8>, k: int, pos: int)
    requires
        0 <= pos <= k <= s.len(),
    ensures
        cut(constant_at(s, pos), constant_at(s.take(k), pos), pos, k),
{
    scalar_cut::<u8>(s, k, pos);
    if pos + 1 <= k {
        scalar_cut::<u8>(s, k, pos + 1);
        scalar_cut::<u64>(s, k, pos + 1);
        scalar_cut::<i64>(s, k, pos + 1);
        string_cut(s, k, pos + 1);
    }
}

/// An upvalue descriptor obeys `cut`.
pub proof fn upvalue_cut(s: Seq<u8>, k: int, pos: int)
    requires
        0 <= pos <= k <= s.len(),
    ensures
        cut(upvalue_at(s, pos), upvalue_at(s.take(k), pos), pos, k),
{
    scalar_cut::<u8>(s, k, pos);
    if pos + 1 <= k {
        scalar_cut::<u8>(s, k, pos + 1);
    }
}

/// A local-variable record obeys `cut`.
pub proof fn locvar_cut(s: Seq<u8>, k: int, pos: int)
    requires
        0 <= pos <= k <= s.len(),
    ensures
        cut(locvar_at(s, pos), locvar_at(s.take(k), pos), pos, k),
{
    string_cut(s, k, pos);
    match string_at(s, pos) {
        Ok((_, n)) => {
            if pos + n <= k {
                scalar_cut::<i32>(s, k, pos + n);
            }
            if pos + n + 4 <= k {
                scalar_cut::<i32>(s, k, pos + n + 4);
            }
        },
        Err(_) => {},
    }
}

/// Items read one after the other obey `cut` where each of them does.
pub proof fn repeat_cut<T>(item: Item<T>, s: Seq<u8>, k: int, pos: int, n: int)
    requires
        0 <= pos <= k <= s.len(),
        item_cuts(item, s, k, pos),
    ensures
        cut(repeat(item, s, pos, n), repeat(item, s.take(k), pos, n), pos, k),
    decreases n,
{
    if n > 0 {
        assert(cut(item(s, pos), item(s.take(k), pos), pos, k));
        match item(s, pos) {
            Ok((_, used)) => {
                if pos + used <= k {
                    repeat_cut(item, s, k, pos + used, n - 1);
                }
            },
            Err(_) => {},
        }
    }
}

/// A count and the items behind it obey `cut` where each item does.
pub proof fn counted_cut<T>(item: Item<T>, s: Seq<u8>, k: int, pos: int)
    requires
        0 <= pos <= k <= s.len(),
        item_cuts(item, s, k, pos),
    ensures
        cut(counted(item, s, pos), counted(item, s.take(k), pos), pos, k),
{
    scalar_cut::<i32>(s, k, pos);
    match scalar::<i32>(s, pos) {
        Ok((n, _)) => {
            if pos + 4 <= k {
                repeat_cut(item, s, k, pos + 4, n as int);
            }
        },
        Err(_) => {},
    }
}

/// The five readers of items obey `cut` at every position.
pub proof fn items_cut(s: Seq<u8>, k: int)
    requires
        0 <= k <= s.len(),
    ensures
        item_cuts(instruction_item(), s, k, 0),
        item_cuts(constant_item(), s, k, 0),
        item_cuts(upvalue_item(), s, k, 0),
        item_cuts(line_item(), s, k, 0),
        item_cuts(locvar_item(), s, k, 0),
{
    assert forall|p: int| 0 <= p <= k implies cut(
        #[trigger] instruction_item()(s, p),
        instruction_item()(s.take(k), p),
        p,
        k,
    ) by {
        instruction_cut(s, k, p);
    }
    assert forall|p: int| 0 <= p <= k implies cut(
        #[trigger] constant_item()(s, p),
        constant_item()(s.take(k), p),
        p,
        k,
    ) by {
        constant_cut(s, k, p);
    }
    assert forall|p: int| 0 <= p <= k implies cut(
        #[trigger] upvalue_item()(s, p),
        upvalue_item()(s.take(k), p),
        p,
        k,
    ) by {
        upvalue_cut(s, k, p);
    }
    assert forall|p: int| 0 <= p <= k implies cut(
        #[trigger] line_item()(s, p),
        line_item()(s.take(k), p),
        p,
        k,
    ) by {
        scalar_cut::<i32>(s, k, p);
    }
    assert forall|p: int| 0 <= p <= k implies cut(
        #[trigger] locvar_item()(s, p),
        locvar_item()(s.take(k), p),
        p,
        k,
    ) by {
        locvar_cut(s, k, p);
    }
}

/// The names of upvalues obey `cut`.
pub proof fn names_cut(s: Seq<u8>, k: int, pos: int, n: int, i: int, upvalues: Seq<UpvalueView>)
    requires
        0 <= pos <= k <= s.len(),
    ensures
        cut(
            names_at(s, pos, n, i, upvalues),
            names_at(s.take(k), pos, n, i, upvalues),
            pos,
            k,
        ),
    decreases n - i,
{
    if i < n && 0 <= i < upvalues.len() {
        string_cut(s, k, pos);
        match string_at(s, pos) {
            Ok((name, used)) => {
                if pos + used <= k {
                    names_cut(
                        s,
                        k,
                        pos + used,
                        n,
                        i + 1,
                        upvalues.update(i, UpvalueView { name, ..upvalues[i] }),
                    );
                }
            },
            Err(_) => {},
        }
    }
}

/// The names of upvalues behind their count obey `cut`.
pub proof fn named_cut(s: Seq<u8>, k: int, pos: int, upvalues: Seq<UpvalueView>)
    requires
        0 <= pos <= k <= s.len(),
    ensures
        cut(named_at(s, pos, upvalues), named_at(s.take(k), pos, upvalues), pos, k),
{
    scalar_cut::<i32>(s, k, pos);
    match scalar::<i32>(s, pos) {
        Ok((count, _)) => {
            if pos + 4 <= k {
                names_cut(s, k, pos + 4, count as int, 0, upvalues);
            }
        },
        Err(_) => {},
    }
}

/// The debug block obeys `cut`.
pub proof fn debug_cut(s: Seq<u8>, k: int, pos: int, upvalues: Seq<UpvalueView>)
    requires
        0 <= pos <= k <= s.len(),
    ensures
        cut(debug_at(s, pos, upvalues), debug_at(s.take(k), pos, upvalues), pos, k),
{
    reveal(debug_at);
    items_cut(s, k);
    counted_cut(line_item(), s, k, pos);
    match counted(line_item(), s, pos) {
        Ok((_, n0)) => {
            if pos + n0 <= k {
                counted_cut(locvar_item(), s, k, pos + n0);
                match counted(locvar_item(), s, pos + n0) {
                    Ok((_, n1)) => {
                        if pos + n0 + n1 <= k {
                            named_cut(s, k, pos + n0 + n1, upvalues);
                        }
                    },
                    Err(_) => {},
                }
            }
        },
        Err(_) => {},
    }
}

/// The source name obeys `cut`.
pub proof fn source_cut(s: Seq<u8>, k: int, pos: int, inherited: Seq<char>)
    requires
        0 <= pos <= k <= s.len(),
    ensures
        cut(source_at(s, pos, inherited), source_at(s.take(k), pos, inherited), pos, k),
{
    string_cut(s, k, pos);
}

/// The fields of fixed width obey `cut`.
pub proof fn frame_cut(s: Seq<u8>, k: int, pos: int)
    requires
        0 <= pos <= k <= s.len(),
    ensures
        cut(frame_at(s, pos), frame_at(s.take(k), pos), pos, k),
{
    window_cut(s, k, pos, 11);
    if pos + 11 <= k {
        scalar_cut::<i32>(s, k, pos);
        scalar_cut::<i32>(s, k, pos + 4);
        scalar_cut::<u8>(s, k, pos + 8);
        scalar_cut::<u8>(s, k, pos + 9);
        scalar_cut::<u8>(s, k, pos + 10);
    }
}

/// The three pools obey `cut`.
pub proof fn pools_cut(s: Seq<u8>, k: int, pos: int)
    requires
        0 <= pos <= k <= s.len(),
    ensures
        cut(pools_at(s, pos), pools_at(s.take(k), pos), pos, k),
{
    reveal(pools_at);
    items_cut(s, k);
    counted_cut(instruction_item(), s, k, pos);
    match counted(instruction_item(), s, pos) {
        Ok((_, n0)) => {
            if pos + n0 <= k {
                counted_cut(constant_item(), s, k, pos + n0);
                match counted(constant_item(), s, pos + n0) {
                    Ok((_, n1)) => {
                        if pos + n0 + n1 <= k {
                            counted_cut(upvalue_item(), s, k, pos + n0 + n1);
                        }
                    },
                    Err(_) => {},
                }
            }
        },
        Err(_) => {},
    }
}

/// A function block obeys `cut`, and with it every function nested in
/// it.
pub proof fn function_cut(s: Seq<u8>, k: int, pos: int, inherited: Seq<char>)
    requires
        0 <= pos <= k <= s.len(),
    ensures
        cut(function_at(s, pos, inherited), function_at(s.take(k), pos, inherited), pos, k),
    decreases left(s, pos), 3int,
{
    source_cut(s, k, pos, inherited);
    match source_at(s, pos, inherited) {
        Ok((source, n)) => {
            if pos + n <= k {
                body_cut(s, k, pos + n, source);
            }
        },
        Err(_) => {},
    }
}

/// What follows the source name obeys `cut`.
pub proof fn body_cut(s: Seq<u8>, k: int, pos: int, source: Seq<char>)
    requires
        0 <= pos <= k <= s.len(),
    ensures
        cut(body_at(s, pos, source), body_at(s.take(k), pos, source), pos, k),
    decreases left(s, pos), 2int,
{
    frame_cut(s, k, pos);
    match frame_at(s, pos) {
        Ok((_, n0)) => {
            let after_frame = pos + n0;
            if after_frame <= k {
                pools_cut(s, k, after_frame);
                match pools_at(s, after_frame) {
                    Ok((pools, n1)) => {
                        let after_pools = after_frame + n1;
                        if after_pools <= k {
                            nested_cut(s, k, after_pools, source);
                            match nested_at(s, after_pools, source) {
                                Ok((_, n2)) => {
                                    let after_nested = after_pools + n2;
                                    if after_nested <= k {
                                        debug_cut(s, k, after_nested, pools.upvalues);
                                    }
                                },
                                Err(_) => {},
                            }
                        }
                    },
                    Err(_) => {},
                }
            }
        },
        Err(_) => {},
    }
}

/// The nested functions behind their count obey `cut`.
pub proof fn nested_cut(s: Seq<u8>, k: int, pos: int, inherited: Seq<char>)
    requires
        0 <= pos <= k <= s.len(),
    ensures
        cut(nested_at(s, pos, inherited), nested_at(s.take(k), pos, inherited), pos, k),
    decreases left(s, pos), 1int,
{
    scalar_cut::<i32>(s, k, pos);
    match scalar::<i32>(s, pos) {
        Ok((n, _)) => {
            if pos + 4 <= k {
                protos_cut(s, k, pos + 4, n as int, inherited);
            }
        },
        Err(_) => {},
    }
}

/// Function blocks read one after the other obey `cut`.
pub proof fn protos_cut(s: Seq<u8>, k: int, pos: int, n: int, inherited: Seq<char>)
    requires
        0 <= pos <= k <= s.len(),
    ensures
        cut(protos_at(s, pos, n, inherited), protos_at(s.take(k), pos, n, inherited), pos, k),
    decreases left(s, pos), n + 4,
{
    if n > 0 {
        function_cut(s, k, pos, inherited);
        match function_at(s, pos, inherited) {
            Ok((_, used)) => {
                if pos + used <= k {
                    protos_cut(s, k, pos + used, n - 1, inherited);
                }
            },
            Err(_) => {},
        }
    }
}

/// A chunk obeys `cut`.
pub proof fn chunk_cut(s: Seq<u8>, k: int, pos: int)
    requires
        0 <= pos <= k <= s.len(),
    ensures
        cut(chunk_at(s, pos), chunk_at(s.take(k), pos), pos, k),
{
    header_cut(s, k, pos);
    match header_at(s, pos) {
        Ok((_, n0)) => {
            if pos + n0 <= k {
                scalar_cut::<u8>(s, k, pos + n0);
                if pos + n0 + 1 <= k {
                    function_cut(s, k, pos + n0 + 1, Seq::empty());
                }
            }
        },
        Err(_) => {},
    }
}

/// A dump that decodes, cut short anywhere, is refused as truncated.
pub proof fn truncated_dump_is_refused(s: Seq<u8>, k: int)
    requires
        decode(s) is Ok,
        0 <= k < s.len(),
    ensures
        decode(s.take(k)) == Err::<ProtoView, ErrorKind>(ErrorKind::TruncatedInput),
{
    chunk_cut(s, k, 0);
}

/// A dump that decodes, followed by anything at all, is refused for its
/// trailing data.
pub proof fn extended_dump_is_refused(s: Seq<u8>, extra: Seq<u8>)
    requires
        decode(s) is Ok,
        extra.len() > 0,
    ensures
        decode(s + extra) == Err::<ProtoView, ErrorKind>(ErrorKind::TrailingData),
{
    let t = s + extra;
    assert(t.take(s.len() as int) =~= s);
    chunk_cut(t, s.len() as int, 0);
}

/// Loading is a function of the bytes and the name: two outcomes of
/// loading the same dump under the same name agree on success, on the
/// tree, and on the error and the name it carries.
pub proof fn loading_is_deterministic(
    buffer: Seq<u8>,
    name: Seq<char>,
    first: Result<Proto, LoadError>,
    second: Result<Proto, LoadError>,
)
    requires
        LoadState::loads(buffer, name, first),
        LoadState::loads(buffer, name, second),
    ensures
        first is Ok <==> second is Ok,
        first matches Ok(a) ==> second matches Ok(b) && a@ == b@,
        first matches Err(e) ==> second matches Err(f) && e.kind == f.kind && e.name@ == f.name@,
{
}

/// The number of items that a count of `n` stands for.
pub open spec fn items_of(n: int) -> nat {
    if n > 0 {
        n as nat
    } else {
        0
    }
}

/// Reading `n` items gives `n` items.
pub proof fn repeat_gives_count<T>(item: Item<T>, s: Seq<u8>, pos: int, n: int)
    ensures
        repeat(item, s, pos, n) matches Ok((xs, _)) ==> xs.len() == items_of(n),
    decreases n,
{
    if n > 0 {
        match item(s, pos) {
            Ok((_, used)) => {
                repeat_gives_count(item, s, pos + used, n - 1);
            },
            Err(_) => {},
        }
    }
}

/// What is read behind a count has as many items as the count says.
pub proof fn counted_gives_count<T>(item: Item<T>, s: Seq<u8>, pos: int)
    ensures
        counted(item, s, pos) matches Ok((xs, _)) ==> scalar::<i32>(s, pos) matches Ok((n, _))
            && xs.len() == items_of(n as int),
{
    match scalar::<i32>(s, pos) {
        Ok((n, _)) => {
            repeat_gives_count(item, s, pos + 4, n as int);
        },
        Err(_) => {},
    }
}

/// Reading `n` functions gives `n` functions.
pub proof fn protos_give_count(s: Seq<u8>, pos: int, n: int, inherited: Seq<char>)
    ensures
        protos_at(s, pos, n, inherited) matches Ok((ps, _)) ==> ps.len() == items_of(n),
    decreases items_of(n),
{
    if n > 0 {
        match function_at(s, pos, inherited) {
            Ok((_, used)) => {
                protos_give_count(s, pos + used, n - 1, inherited);
            },
            Err(_) => {},
        }
    }
}

/// The functions nested in a function are as many as their count says.
pub proof fn nested_give_count(s: Seq<u8>, pos: int, inherited: Seq<char>)
    ensures
        nested_at(s, pos, inherited) matches Ok((ps, _)) ==> scalar::<i32>(s, pos) matches Ok(
            (n, _),
        ) && ps.len() == items_of(n as int),
{
    match scalar::<i32>(s, pos) {
        Ok((n, _)) => {
            protos_give_count(s, pos + 4, n as int, inherited);
        },
        Err(_) => {},
    }
}

/// A string whose size is written as zero, in one byte or behind the
/// escape byte, is the empty string and no error.
pub proof fn absent_string_is_empty(s: Seq<u8>, pos: int)
    requires
        0 <= pos < s.len(),
    ensures
        s[pos] == 0 ==> string_at(s, pos) == Ok::<(Seq<u8>, nat), Failure>((Seq::empty(), 1)),
        s[pos] == LONG_SIZE && scalar::<u64>(s, pos + 1) == Ok::<(u64, nat), Failure>((0u64, 8))
            ==> string_at(s, pos) == Ok::<(Seq<u8>, nat), Failure>((Seq::empty(), 9)),
{
}

/// A constant whose tag is none of the six known ones is refused once the
/// tag is read, and the error names the tag.
pub proof fn unknown_tag_is_refused(s: Seq<u8>, pos: int)
    requires
        0 <= pos < s.len(),
        s[pos] != TNIL,
        s[pos] != TBOOLEAN,
        s[pos] != TNUMFLT,
        s[pos] != TNUMINT,
        s[pos] != TSHRSTR,
        s[pos] != TLNGSTR,
    ensures
        constant_at(s, pos) == failure::<ConstantView>(ErrorKind::InvalidConstantType(s[pos]), 1),
{
}

/// A debug block that names more upvalues than the function has is never
/// accepted: once the names of the upvalues that exist are read, the next
/// one is refused with the index that does not exist. The only other way
/// for it to fail is that the input ends within those names.
pub proof fn surplus_name_is_refused(
    s: Seq<u8>,
    pos: int,
    n: int,
    i: int,
    upvalues: Seq<UpvalueView>,
)
    requires
        0 <= i <= upvalues.len() < n <= i32::MAX,
    ensures
        names_at(s, pos, n, i, upvalues) is Err,
        i == upvalues.len() ==> names_at(s, pos, n, i, upvalues) == failure::<Seq<UpvalueView>>(
            ErrorKind::InvalidUpvalueIndex(upvalues.len() as usize),
            0,
        ),
        names_at(s, pos, n, i, upvalues) matches Err(e) ==> e.kind
            == ErrorKind::InvalidUpvalueIndex(upvalues.len() as usize) || e.kind
            == ErrorKind::TruncatedInput,
    decreases upvalues.len() - i,
{
    if i < upvalues.len() {
        match string_at(s, pos) {
            Ok((name, used)) => {
                let named = upvalues.update(i, UpvalueView { name, ..upvalues[i] });
                surplus_name_is_refused(s, pos + used, n, i + 1, named);
            },
            Err(_) => {},
        }
    }
}

/// A header that is right up to the integer of known value, and holds
/// another integer there, fails the check of the byte order, with that
/// integer read.
pub proof fn wrong_integer_fails_endianness(s: Seq<u8>, pos: int)
    requires
        literal_at(s, pos, syx_header(), Check::Header) is Ok,
        byte_at(s, pos + 4, SYX_VERSION, Check::Version) is Ok,
        byte_at(s, pos + 5, SYX_FORMAT, Check::Format) is Ok,
        literal_at(s, pos + 6, syx_data(), Check::LoadOrder) is Ok,
        byte_at(s, pos + 12, SIZE_INT, Check::SizeInt) is Ok,
        byte_at(s, pos + 13, SIZE_SIZE, Check::SizeSize) is Ok,
        byte_at(s, pos + 14, SIZE_INSTRUCTION, Check::SizeInstruction) is Ok,
        byte_at(s, pos + 15, SIZE_INTEGER, Check::SizeInteger) is Ok,
        byte_at(s, pos + 16, SIZE_NUMBER, Check::SizeNumber) is Ok,
        scalar::<i64>(s, pos + 17) matches Ok((v, _)) && v != SYX_INT,
    ensures
        header_at(s, pos) == failure::<()>(
            ErrorKind::InvalidVerification(Check::Endianness),
            25,
        ),
{
    reveal(header_at);
}

/// The integer of known value, read from its bytes in reverse order, is
/// another integer.
pub proof fn swapped_integer_differs(b: Seq<u8>)
    requires
        b == seq![0u8, 0u8, 0u8, 0u8, 0u8, 0u8, 0x56u8, 0x78u8],
    ensures
        <i64 as Primitive>::assemble(b) != SYX_INT,
{
    assert(b.subrange(0, 4) =~= seq![0u8, 0u8, 0u8, 0u8]);
    assert(b.subrange(4, 8) =~= seq![0u8, 0u8, 0x56u8, 0x78u8]);
}

/// `a` and `b` are of one length and differ at most at the position `x`.
pub open spec fn differ_at(a: Seq<u8>, b: Seq<u8>, x: int) -> bool {
    &&& a.len() == b.len()
    &&& forall|i: int| 0 <= i < a.len() && i != x ==> a[i] == b[i]
}

/// The reader `item` reads alike from `a` and `b` at every position
/// behind `x`.
pub open spec fn item_same<T>(item: Item<T>, a: Seq<u8>, b: Seq<u8>, x: int) -> bool {
    forall|p: int| p > x ==> #[trigger] item(a, p) == item(b, p)
}

/// Bytes that do not include the position where two inputs differ are
/// read alike from both.
pub proof fn window_same(a: Seq<u8>, b: Seq<u8>, x: int, pos: int, n: int)
    requires
        differ_at(a, b, x),
        pos > x || pos + n <= x,
    ensures
        window(a, pos, n) == window(b, pos, n),
{
    if 0 <= pos && 0 <= n && pos + n <= a.len() {
        assert(a.subrange(pos, pos + n) =~= b.subrange(pos, pos + n));
    }
}

/// A scalar that does not include the position where two inputs differ is
/// read alike from both.
pub proof fn scalar_same<T: Primitive>(a: Seq<u8>, b: Seq<u8>, x: int, pos: int)
    requires
        differ_at(a, b, x),
        pos > x || pos + T::width() <= x,
    ensures
        scalar::<T>(a, pos) == scalar::<T>(b, pos),
{
    window_same(a, b, x, pos, T::width() as int);
}

/// A header that ends before the position where two inputs differ is read
/// alike from both.
pub proof fn header_same(a: Seq<u8>, b: Seq<u8>, x: int, pos: int)
    requires
        differ_at(a, b, x),
        pos + 33 <= x,
    ensures
        header_at(a, pos) == header_at(b, pos),
        header_at(a, pos) matches Ok((_, n)) ==> n == 33,
{
    reveal(header_at);
    window_same(a, b, x, pos, 4);
    scalar_same::<u8>(a, b, x, pos + 4);
    scalar_same::<u8>(a, b, x, pos + 5);
    window_same(a, b, x, pos + 6, 6);
    scalar_same::<u8>(a, b, x, pos + 12);
    scalar_same::<u8>(a, b, x, pos + 13);
    scalar_same::<u8>(a, b, x, pos + 14);
    scalar_same::<u8>(a, b, x, pos + 15);
    scalar_same::<u8>(a, b, x, pos + 16);
    scalar_same::<i64>(a, b, x, pos + 17);
    scalar_same::<u64>(a, b, x, pos + 25);
}

/// A string behind the position where two inputs differ is read alike
/// from both.
pub proof fn string_same(a: Seq<u8>, b: Seq<u8>, x: int, pos: int)
    requires
        differ_at(a, b, x),
        pos > x,
    ensures
        string_at(a, pos) == string_at(b, pos),
{
    scalar_same::<u8>(a, b, x, pos);
    scalar_same::<u64>(a, b, x, pos + 1);
    match scalar::<u8>(a, pos) {
        Ok((first, _)) => {
            window_same(a, b, x, pos + 1, first - 1);
        },
        Err(_) => {},
    }
    match scalar::<u64>(a, pos + 1) {
        Ok((size, _)) => {
            window_same(a, b, x, pos + 9, size - 1);
        },
        Err(_) => {},
    }
}

/// A constant behind the position where two inputs differ is read alike
/// from both.
pub proof fn constant_same(a: Seq<u8>, b: Seq<u8>, x: int, pos: int)
    requires
        differ_at(a, b, x),
        pos > x,
    ensures
        constant_at(a, pos) == constant_at(b, pos),
{
    scalar_same::<u8>(a, b, x, pos);
    scalar_same::<u8>(a, b, x, pos + 1);
    scalar_same::<u64>(a, b, x, pos + 1);
    scalar_same::<i64>(a, b, x, pos + 1);
    string_same(a, b, x, pos + 1);
}

/// A local-variable record behind the position where two inputs differ is
/// read alike from both.
pub proof fn locvar_same(a: Seq<u8>, b: Seq<u8>, x: int, pos: int)
    requires
        differ_at(a, b, x),
        pos > x,
    ensures
        locvar_at(a, pos) == locvar_at(b, pos),
{
    string_same(a, b, x, pos);
    match string_at(a, pos) {
        Ok((_, n)) => {
            scalar_same::<i32>(a, b, x, pos + n);
            scalar_same::<i32>(a, b, x, pos + n + 4);
        },
        Err(_) => {},
    }
}

/// The five readers of items read alike from two inputs behind the
/// position where the inputs differ.
pub proof fn items_same(a: Seq<u8>, b: Seq<u8>, x: int)
    requires
        differ_at(a, b, x),
    ensures
        item_same(instruction_item(), a, b, x),
        item_same(constant_item(), a, b, x),
        item_same(upvalue_item(), a, b, x),
        item_same(line_item(), a, b, x),
        item_same(locvar_item(), a, b, x),
{
    assert forall|p: int| p > x implies #[trigger] instruction_item()(a, p) == instruction_item()(
        b,
        p,
    ) by {
        scalar_same::<u32>(a, b, x, p);
    }
    assert forall|p: int| p > x implies #[trigger] constant_item()(a, p) == constant_item()(
        b,
        p,
    ) by {
        constant_same(a, b, x, p);
    }
    assert forall|p: int| p > x implies #[trigger] upvalue_item()(a, p) == upvalue_item()(
        b,
        p,
    ) by {
        scalar_same::<u8>(a, b, x, p);
        scalar_same::<u8>(a, b, x, p + 1);
    }
    assert forall|p: int| p > x implies #[trigger] line_item()(a, p) == line_item()(b, p) by {
        scalar_same::<i32>(a, b, x, p);
    }
    assert forall|p: int| p > x implies #[trigger] locvar_item()(a, p) == locvar_item()(b, p) by {
        locvar_same(a, b, x, p);
    }
}

/// Items read one after the other behind the position where two inputs
/// differ are read alike from both, where each item is.
pub proof fn repeat_same<T>(item: Item<T>, a: Seq<u8>, b: Seq<u8>, x: int, pos: int, n: int)
    requires
        item_same(item, a, b, x),
        pos > x,
    ensures
        repeat(item, a, pos, n) == repeat(item, b, pos, n),
    decreases n,
{
    if n > 0 {
        assert(item(a, pos) == item(b, pos));
        match item(a, pos) {
            Ok((_, used)) => {
                repeat_same(item, a, b, x, pos + used, n - 1);
            },
            Err(_) => {},
        }
    }
}

/// A count and the items behind it, behind the position where two inputs
/// differ, are read alike from both.
pub proof fn counted_same<T>(item: Item<T>, a: Seq<u8>, b: Seq<u8>, x: int, pos: int)
    requires
        differ_at(a, b, x),
        item_same(item, a, b, x),
        pos > x,
    ensures
        counted(item, a, pos) == counted(item, b, pos),
{
    scalar_same::<i32>(a, b, x, pos);
    match scalar::<i32>(a, pos) {
        Ok((n, _)) => {
            repeat_same(item, a, b, x, pos + 4, n as int);
        },
        Err(_) => {},
    }
}

/// The names of upvalues behind the position where two inputs differ are
/// read alike from both.
pub proof fn names_same(
    a: Seq<u8>,
    b: Seq<u8>,
    x: int,
    pos: int,
    n: int,
    i: int,
    upvalues: Seq<UpvalueView>,
)
    requires
        differ_at(a, b, x),
        pos > x,
    ensures
        names_at(a, pos, n, i, upvalues) == names_at(b, pos, n, i, upvalues),
    decreases n - i,
{
    if i < n && 0 <= i < upvalues.len() {
        string_same(a, b, x, pos);
        match string_at(a, pos) {
            Ok((name, used)) => {
                names_same(
                    a,
                    b,
                    x,
                    pos + used,
                    n,
                    i + 1,
                    upvalues.update(i, UpvalueView { name, ..upvalues[i] }),
                );
            },
            Err(_) => {},
        }
    }
}

/// A debug block behind the position where two inputs differ is read
/// alike from both.
pub proof fn debug_same(a: Seq<u8>, b: Seq<u8>, x: int, pos: int, upvalues: Seq<UpvalueView>)
    requires
        differ_at(a, b, x),
        pos > x,
    ensures
        debug_at(a, pos, upvalues) == debug_at(b, pos, upvalues),
{
    reveal(debug_at);
    items_same(a, b, x);
    counted_same(line_item(), a, b, x, pos);
    match counted(line_item(), a, pos) {
        Ok((_, n0)) => {
            counted_same(locvar_item(), a, b, x, pos + n0);
            match counted(locvar_item(), a, pos + n0) {
                Ok((_, n1)) => {
                    scalar_same::<i32>(a, b, x, pos + n0 + n1);
                    match scalar::<i32>(a, pos + n0 + n1) {
                        Ok((count, _)) => {
                            names_same(a, b, x, pos + n0 + n1 + 4, count as int, 0, upvalues);
                        },
                        Err(_) => {},
                    }
                },
                Err(_) => {},
            }
        },
        Err(_) => {},
    }
}

/// The three pools behind the position where two inputs differ are read
/// alike from both.
pub proof fn pools_same(a: Seq<u8>, b: Seq<u8>, x: int, pos: int)
    requires
        differ_at(a, b, x),
        pos > x,
    ensures
        pools_at(a, pos) == pools_at(b, pos),
{
    reveal(pools_at);
    items_same(a, b, x);
    counted_same(instruction_item(), a, b, x, pos);
    match counted(instruction_item(), a, pos) {
        Ok((_, n0)) => {
            counted_same(constant_item(), a, b, x, pos + n0);
            match counted(constant_item(), a, pos + n0) {
                Ok((_, n1)) => {
                    counted_same(upvalue_item(), a, b, x, pos + n0 + n1);
                },
                Err(_) => {},
            }
        },
        Err(_) => {},
    }
}

/// The fields of fixed width behind the position where two inputs differ
/// are read alike from both.
pub proof fn frame_same(a: Seq<u8>, b: Seq<u8>, x: int, pos: int)
    requires
        differ_at(a, b, x),
        pos > x,
    ensures
        frame_at(a, pos) == frame_at(b, pos),
{
    scalar_same::<i32>(a, b, x, pos);
    scalar_same::<i32>(a, b, x, pos + 4);
    scalar_same::<u8>(a, b, x, pos + 8);
    scalar_same::<u8>(a, b, x, pos + 9);
    scalar_same::<u8>(a, b, x, pos + 10);
}

/// A function block behind the position where two inputs differ is read
/// alike from both.
pub proof fn function_same(a: Seq<u8>, b: Seq<u8>, x: int, pos: int, inherited: Seq<char>)
    requires
        differ_at(a, b, x),
        pos > x,
    ensures
        function_at(a, pos, inherited) == function_at(b, pos, inherited),
    decreases left(a, pos), 3int,
{
    string_same(a, b, x, pos);
    match source_at(a, pos, inherited) {
        Ok((source, n)) => {
            body_same(a, b, x, pos + n, source);
        },
        Err(_) => {},
    }
}

/// What follows the source name, behind the position where two inputs
/// differ, is read alike from both.
pub proof fn body_same(a: Seq<u8>, b: Seq<u8>, x: int, pos: int, source: Seq<char>)
    requires
        differ_at(a, b, x),
        pos > x,
    ensures
        body_at(a, pos, source) == body_at(b, pos, source),
    decreases left(a, pos), 2int,
{
    frame_same(a, b, x, pos);
    match frame_at(a, pos) {
        Ok((_, n0)) => {
            pools_same(a, b, x, pos + n0);
            match pools_at(a, pos + n0) {
                Ok((pools, n1)) => {
                    nested_same(a, b, x, pos + n0 + n1, source);
                    match nested_at(a, pos + n0 + n1, source) {
                        Ok((_, n2)) => {
                            debug_same(a, b, x, pos + n0 + n1 + n2, pools.upvalues);
                        },
                        Err(_) => {},
                    }
                },
                Err(_) => {},
            }
        },
        Err(_) => {},
    }
}

/// The nested functions behind the position where two inputs differ are
/// read alike from both.
pub proof fn nested_same(a: Seq<u8>, b: Seq<u8>, x: int, pos: int, inherited: Seq<char>)
    requires
        differ_at(a, b, x),
        pos > x,
    ensures
        nested_at(a, pos, inherited) == nested_at(b, pos, inherited),
    decreases left(a, pos), 1int,
{
    scalar_same::<i32>(a, b, x, pos);
    match scalar::<i32>(a, pos) {
        Ok((n, _)) => {
            protos_same(a, b, x, pos + 4, n as int, inherited);
        },
        Err(_) => {},
    }
}

/// Function blocks read one after the other behind the position where two
/// inputs differ are read alike from both.
pub proof fn protos_same(a: Seq<u8>, b: Seq<u8>, x: int, pos: int, n: int, inherited: Seq<char>)
    requires
        differ_at(a, b, x),
        pos > x,
    ensures
        protos_at(a, pos, n, inherited) == protos_at(b, pos, n, inherited),
    decreases left(a, pos), n + 4,
{
    if n > 0 {
        function_same(a, b, x, pos, inherited);
        match function_at(a, pos, inherited) {
            Ok((_, used)) => {
                protos_same(a, b, x, pos + used, n - 1, inherited);
            },
            Err(_) => {},
        }
    }
}

/// The byte behind the header is passed over: two inputs that differ in
/// nothing but that byte give the same chunk or the same failure, after
/// the same number of bytes, and so decode alike.
pub proof fn passed_over_byte_is_ignored(a: Seq<u8>, b: Seq<u8>, pos: int)
    requires
        0 <= pos,
        differ_at(a, b, pos + 33),
    ensures
        chunk_at(a, pos) == chunk_at(b, pos),
        pos == 0 ==> decode(a) == decode(b),
{
    header_same(a, b, pos + 33, pos);
    function_same(a, b, pos + 33, pos + 34, Seq::empty());
}

} // verus!
