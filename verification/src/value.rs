//! Values of the operand stack and objects of the heap.

use vstd::pervasive::unreached;
use vstd::prelude::*;

verus! {

/// Tag announcing an integer in the slot above it.
pub const INT_TYPE_ID: usize = 0;

/// Tag announcing a float in the slot above it.
pub const FLOAT_TYPE_ID: usize = 1;

/// Tag announcing a string handle in the slot above it.
pub const STR_TYPE_ID: usize = 2;

/// Tag announcing a boolean in the slot above it.
pub const BOOL_TYPE_ID: usize = 3;

/// One slot of the operand stack.
///
/// A slot holds exactly one scalar. An instruction that reads a slot expects
/// one particular variant and never converts between variants.
#[derive(Clone, Copy, Debug, PartialEq, Eq, Structural)]
pub enum Val {
    /// A signed integer.
    Integer(i64),
    /// A double, kept as its IEEE 754 bit pattern.
    Float(u64),
    /// A handle: the index of a slot of the heap.
    HeapPtr(usize),
    /// A boolean.
    Boolean(bool),
    /// The tag of the value in the slot above.
    SumTypeId(usize),
}

impl Val {
    /// The heap slot a value points at, if it is a handle.
    pub open spec fn handle(self) -> Option<int> {
        match self {
            Val::HeapPtr(h) => Some(h as int),
            _ => None,
        }
    }
}

/// An object stored in the heap.
#[derive(Debug, PartialEq, Eq)]
pub enum HeapVal {
    /// A string.
    Str(String),
    /// A list of values.
    List(Vec<Val>),
    /// A boxed scalar.
    Value(Val),
    /// A slot that holds no object.
    Empty,
}

/// What a heap object is, as a mathematical value.
pub enum HeapObj {
    Str(Seq<char>),
    List(Seq<Val>),
    Value(Val),
    Empty,
}

impl View for HeapVal {
    type V = HeapObj;

    open spec fn view(&self) -> HeapObj {
        match self {
            HeapVal::Str(s) => HeapObj::Str(s@),
            HeapVal::List(items) => HeapObj::List(items@),
            HeapVal::Value(v) => HeapObj::Value(*v),
            HeapVal::Empty => HeapObj::Empty,
        }
    }
}

/// The objects held by a sequence of heap values.
pub open spec fn objects(heap: Seq<HeapVal>) -> Seq<HeapObj> {
    Seq::new(heap.len(), |i: int| heap[i]@)
}

impl Clone for HeapVal {
    /// A copy that holds the same object.
    fn clone(&self) -> (copy: HeapVal)
        ensures
            copy@ == self@,
    {
        match self {
            HeapVal::Str(s) => HeapVal::Str(s.clone()),
            HeapVal::List(items) => {
                let mut copy: Vec<Val> = Vec::new();
                let mut i: usize = 0;
                while i < items.len()
                    invariant
                        i <= items.len(),
                        copy@ == items@.subrange(0, i as int),
                    decreases items.len() - i,
                {
                    copy.push(items[i]);
                    i = i + 1;
                }
                assert(copy@ == items@);
                HeapVal::List(copy)
            },
            HeapVal::Value(v) => HeapVal::Value(*v),
            HeapVal::Empty => HeapVal::Empty,
        }
    }
}

impl HeapVal {
    /// Whether the slot holds no object.
    pub fn is_empty(&self) -> (empty: bool)
        ensures
            empty == (self@ is Empty),
    {
        match self {
            HeapVal::Empty => true,
            _ => false,
        }
    }
}

/// Whether the slot below the top announces an integer.
pub fn peek_is_int(stack: &[Val]) -> (is_int: bool)
    requires
        stack@.len() >= 2,
    ensures
        is_int == (stack@[stack@.len() - 2] == Val::SumTypeId(INT_TYPE_ID)),
{
    match stack[stack.len() - 2] {
        Val::SumTypeId(id) => id == INT_TYPE_ID,
        _ => false,
    }
}

/// Removes the top of the stack, which holds an integer, and returns it.
pub fn pop_int(stack: &mut Vec<Val>) -> (integer: i64)
    requires
        old(stack)@.len() > 0,
        old(stack)@.last() is Integer,
    ensures
        final(stack)@ == old(stack)@.drop_last(),
        old(stack)@.last() == Val::Integer(integer),
{
    match stack.pop() {
        Some(Val::Integer(integer)) => integer,
        _ => unreached(),
    }
}

/// Removes the top of the stack, which holds a float, and returns its bit
/// pattern.
pub fn pop_float_bits(stack: &mut Vec<Val>) -> (bits: u64)
    requires
        old(stack)@.len() > 0,
        old(stack)@.last() is Float,
    ensures
        final(stack)@ == old(stack)@.drop_last(),
        old(stack)@.last() == Val::Float(bits),
{
    match stack.pop() {
        Some(Val::Float(bits)) => bits,
        _ => unreached(),
    }
}

/// Removes the top of the stack, which holds a boolean, and returns it.
pub fn pop_bool(stack: &mut Vec<Val>) -> (boolean: bool)
    requires
        old(stack)@.len() > 0,
        old(stack)@.last() is Boolean,
    ensures
        final(stack)@ == old(stack)@.drop_last(),
        old(stack)@.last() == Val::Boolean(boolean),
{
    match stack.pop() {
        Some(Val::Boolean(boolean)) => boolean,
        _ => unreached(),
    }
}

/// Removes the top of the stack, which holds the handle of a string, and
/// returns that string.
pub fn pop_str<'a>(stack: &mut Vec<Val>, heap: &'a Vec<HeapVal>) -> (text: &'a str)
    requires
        old(stack)@.len() > 0,
        old(stack)@.last() matches Val::HeapPtr(h) && h < heap@.len() && heap@[h as int]@ is Str,
    ensures
        final(stack)@ == old(stack)@.drop_last(),
        old(stack)@.last() matches Val::HeapPtr(h) && heap@[h as int]@ == HeapObj::Str(text@),
{
    match stack.pop() {
        Some(Val::HeapPtr(h)) => match &heap[h] {
            HeapVal::Str(s) => s.as_str(),
            _ => unreached(),
        },
        _ => unreached(),
    }
}

} // verus!
