//! The values that a dump describes: constants, upvalues, local variables
//! and function prototypes.

use vstd::prelude::*;
use crate::opcodes::Instruction;

verus! {

/// A byte string of the dump. Nothing is assumed of its encoding.
pub type SyxString = Vec<u8>;

/// An integer of the dump's counts, lines and instruction indices.
pub type SyxInt = i32;

/// An integer constant.
pub type SyxInteger = i64;

/// One entry of a function's constant pool.
#[derive(Clone, Debug, PartialEq, Eq)]
pub enum SyxValue {
    Nil,
    Bool(bool),
    /// A float constant, held as the bits of its IEEE 754 double.
    Number(u64),
    Integer(SyxInteger),
    String(SyxString),
}

/// A constant as a mathematical value.
pub enum ConstantView {
    Nil,
    Bool(bool),
    Number(u64),
    Integer(i64),
    String(Seq<u8>),
}

impl View for SyxValue {
    type V = ConstantView;

    open spec fn view(&self) -> ConstantView {
        match *self {
            SyxValue::Nil => ConstantView::Nil,
            SyxValue::Bool(b) => ConstantView::Bool(b),
            SyxValue::Number(bits) => ConstantView::Number(bits),
            SyxValue::Integer(i) => ConstantView::Integer(i),
            SyxValue::String(s) => ConstantView::String(s@),
        }
    }
}

/// A variable that a function captures from an enclosing one.
#[derive(Clone, Debug, PartialEq, Eq)]
pub struct Upvalue {
    /// Empty until the debug block names it.
    pub name: SyxString,
    pub instack: u8,
    pub idx: u8,
}

/// An upvalue as a mathematical value.
pub struct UpvalueView {
    pub name: Seq<u8>,
    pub instack: u8,
    pub idx: u8,
}

impl View for Upvalue {
    type V = UpvalueView;

    open spec fn view(&self) -> UpvalueView {
        UpvalueView { name: self.name@, instack: self.instack, idx: self.idx }
    }
}

/// Debug record of a local variable: its name and the instructions between
/// which it is alive.
#[derive(Clone, Debug, PartialEq, Eq)]
pub struct LocVar {
    pub varname: SyxString,
    pub startpc: SyxInt,
    pub endpc: SyxInt,
}

/// A local-variable record as a mathematical value.
pub struct LocVarView {
    pub varname: Seq<u8>,
    pub startpc: i32,
    pub endpc: i32,
}

impl View for LocVar {
    type V = LocVarView;

    open spec fn view(&self) -> LocVarView {
        LocVarView { varname: self.varname@, startpc: self.startpc, endpc: self.endpc }
    }
}

/// One compiled function. Nested functions are owned by the function that
/// encloses them, so prototypes form a tree.
#[derive(Debug, PartialEq, Eq)]
pub struct Proto {
    pub source: String,
    pub linedefined: SyxInt,
    pub lastlinedefined: SyxInt,
    pub numparams: u8,
    pub is_vararg: bool,
    pub maxstacksize: u8,
    pub instructions: Vec<Instruction>,
    pub constants: Vec<SyxValue>,
    pub upvalues: Vec<Upvalue>,
    pub protos: Vec<Proto>,
    pub lineinfo: Vec<SyxInt>,
    pub locvars: Vec<LocVar>,
}

/// A prototype as a mathematical value.
pub struct ProtoView {
    pub source: Seq<char>,
    pub linedefined: i32,
    pub lastlinedefined: i32,
    pub numparams: u8,
    pub is_vararg: bool,
    pub maxstacksize: u8,
    pub instructions: Seq<Instruction>,
    pub constants: Seq<ConstantView>,
    pub upvalues: Seq<UpvalueView>,
    pub protos: Seq<ProtoView>,
    pub lineinfo: Seq<i32>,
    pub locvars: Seq<LocVarView>,
}

/// The views of the items of `items`, in their order.
pub open spec fn views<T: View>(items: Seq<T>) -> Seq<T::V> {
    Seq::new(items.len(), |i: int| items[i]@)
}

/// The mathematical value of a prototype and, through it, of the whole tree
/// below it.
pub open spec fn proto_view(p: Proto) -> ProtoView
    decreases p,
{
    ProtoView {
        source: p.source@,
        linedefined: p.linedefined,
        lastlinedefined: p.lastlinedefined,
        numparams: p.numparams,
        is_vararg: p.is_vararg,
        maxstacksize: p.maxstacksize,
        instructions: p.instructions@,
        constants: views(p.constants@),
        upvalues: views(p.upvalues@),
        protos: Seq::new(
            p.protos@.len(),
            |i: int|
                if 0 <= i < p.protos@.len() {
                    proto_view(p.protos@[i])
                } else {
                    ProtoView::empty()
                },
        ),
        lineinfo: p.lineinfo@,
        locvars: views(p.locvars@),
    }
}

impl View for Proto {
    type V = ProtoView;

    open spec fn view(&self) -> ProtoView {
        proto_view(*self)
    }
}

impl ProtoView {
    /// The prototype with nothing in it.
    pub open spec fn empty() -> ProtoView {
        ProtoView {
            source: Seq::empty(),
            linedefined: 0,
            lastlinedefined: 0,
            numparams: 0,
            is_vararg: false,
            maxstacksize: 0,
            instructions: Seq::empty(),
            constants: Seq::empty(),
            upvalues: Seq::empty(),
            protos: Seq::empty(),
            lineinfo: Seq::empty(),
            locvars: Seq::empty(),
        }
    }
}

impl Proto {
    /// A prototype with nothing in it.
    pub fn new() -> (p: Proto)
        ensures
            p@ == ProtoView::empty(),
    {
        let p = Proto {
            source: String::new(),
            linedefined: 0,
            lastlinedefined: 0,
            numparams: 0,
            is_vararg: false,
            maxstacksize: 0,
            instructions: Vec::new(),
            constants: Vec::new(),
            upvalues: Vec::new(),
            protos: Vec::new(),
            lineinfo: Vec::new(),
            locvars: Vec::new(),
        };
        assert(p@.protos =~= Seq::empty());
        assert(p@.constants =~= Seq::empty());
        assert(p@.upvalues =~= Seq::empty());
        assert(p@.locvars =~= Seq::empty());
        p
    }
}

/// The views of a sequence with one more item are the views of the
/// sequence and the view of that item.
pub proof fn views_push<T: View>(items: Seq<T>, x: T)
    ensures
        views(items.push(x)) == views(items).push(x@),
{
    assert(views(items.push(x)) =~= views(items).push(x@));
}

/// Replacing an item replaces its view.
pub proof fn views_update<T: View>(items: Seq<T>, i: int, x: T)
    requires
        0 <= i < items.len(),
    ensures
        views(items.update(i, x)) == views(items).update(i, x@),
{
    assert(views(items.update(i, x)) =~= views(items).update(i, x@));
}

/// No items have no views.
pub proof fn views_empty<T: View>()
    ensures
        views(Seq::<T>::empty()) == Seq::<T::V>::empty(),
{
    assert(views(Seq::<T>::empty()) =~= Seq::<T::V>::empty());
}

/// The view of a prototype lists the views of its nested prototypes.
pub proof fn nested_views(p: Proto)
    ensures
        p@.protos == views(p.protos@),
{
    assert(p@.protos.len() == p.protos@.len());
    assert forall|i: int| 0 <= i < p.protos@.len() implies p@.protos[i] == p.protos@[i]@ by {}
    assert(p@.protos =~= views(p.protos@));
}

} // verus!
