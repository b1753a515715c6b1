//! The executable machine.

use crate::decode::{read_i64_be, read_u64_be};
use crate::gc::{
    compacted, lemma_compacted_len, lemma_empty_tail, lemma_survivors_len, marked, moved_to,
    points_at, retained, rewritten, survivors,
};
pub use crate::instruction::Instruction;
use crate::machine::{Machine, RunStatus, VmError};
use crate::value::{objects, HeapVal, Val};
use std::collections::HashSet;
use vstd::prelude::*;

verus! {

/// The capacity of the heap of a machine made by [`VM::new`].
pub const MAX_HEAP_SIZE: usize = 1000;

/// The stack positions, as integers, that a set of indices holds.
spec fn positions(roots: Set<usize>) -> Set<int> {
    Set::new(|p: int| 0 <= p <= usize::MAX && roots.contains(p as usize))
}

/// Some root below position `n` holds a handle to slot `h`.
spec fn pointed_at_below(stack: Seq<Val>, roots: Set<int>, n: int, h: int) -> bool {
    exists|p: int| p < n && points_at(stack, roots, p, h)
}

/// A machine: a program, an operand stack, a heap of fixed capacity and the
/// roots that keep heap objects alive.
pub struct VM {
    code: Vec<u8>,
    stack: Vec<Val>,
    heap: Vec<HeapVal>,
    ip: u64,
    heap_top: usize,
    heap_roots: HashSet<usize>,
}

impl View for VM {
    type V = Machine;

    closed spec fn view(&self) -> Machine {
        Machine {
            code: self.code@,
            stack: self.stack@,
            heap: objects(self.heap@),
            ip: self.ip as nat,
            heap_top: self.heap_top as nat,
            roots: positions(self.heap_roots@),
        }
    }
}

impl VM {
    /// What every machine satisfies; see [`Machine::wf`].
    pub open spec fn wf(&self) -> bool {
        self@.wf()
    }

    /// A machine at the start of `code`, with the given stack, no roots and
    /// an empty heap of `MAX_HEAP_SIZE` slots.
    pub fn new(code: Vec<u8>, stack: Vec<Val>) -> (vm: VM)
        ensures
            vm.wf(),
            vm@ == Machine::initial(code@, stack@, MAX_HEAP_SIZE as nat),
    {
        VM::with_capacity(code, stack, MAX_HEAP_SIZE)
    }

    /// A machine at the start of `code`, with the given stack, no roots and
    /// an empty heap of `capacity` slots.
    pub fn with_capacity(code: Vec<u8>, stack: Vec<Val>, capacity: usize) -> (vm: VM)
        ensures
            vm.wf(),
            vm@ == Machine::initial(code@, stack@, capacity as nat),
    {
        let mut heap: Vec<HeapVal> = Vec::new();
        let mut i: usize = 0;
        while i < capacity
            invariant
                i <= capacity,
                heap@.len() == i,
                forall|k: int| 0 <= k < i ==> heap@[k]@ is Empty,
            decreases capacity - i,
        {
            heap.push(HeapVal::Empty);
            i = i + 1;
        }
        let vm = VM { code, stack, heap, ip: 0, heap_top: 0, heap_roots: HashSet::new() };
        proof {
            assert(vm@.heap =~= Machine::initial(code@, stack@, capacity as nat).heap);
            assert(vm@.roots =~= Set::<int>::empty());
        }
        vm
    }

    /// The program.
    pub fn code(&self) -> (code: &Vec<u8>)
        ensures
            code@ == self@.code,
    {
        &self.code
    }

    /// The operand stack; its top is the last element.
    pub fn stack(&self) -> (stack: &Vec<Val>)
        ensures
            stack@ == self@.stack,
    {
        &self.stack
    }

    /// The slots of the heap.
    pub fn heap(&self) -> (heap: &Vec<HeapVal>)
        ensures
            objects(heap@) == self@.heap,
    {
        &self.heap
    }

    /// Byte offset of the next instruction.
    pub fn ip(&self) -> (ip: u64)
        ensures
            ip == self@.ip,
    {
        self.ip
    }

    /// Number of slots handed out.
    pub fn heap_top(&self) -> (heap_top: usize)
        ensures
            heap_top == self@.heap_top,
    {
        self.heap_top
    }

    /// Number of slots of the heap.
    pub fn capacity(&self) -> (capacity: usize)
        ensures
            capacity == self@.heap.len(),
    {
        self.heap.len()
    }

    /// Whether a position of the stack is a root.
    pub fn is_root(&self, position: usize) -> (root: bool)
        ensures
            root == self@.roots.contains(position as int),
    {
        broadcast use vstd::std_specs::hash::group_hash_axioms;

        self.heap_roots.contains(&position)
    }

    /// Whether the instruction pointer has left the code.
    pub fn is_halted(&self) -> (halted: bool)
        ensures
            halted == self@.halted(),
    {
        self.ip >= self.code.len() as u64
    }

    /// Takes the machine apart into its stack and its heap.
    pub fn into_parts(self) -> (parts: (Vec<Val>, Vec<HeapVal>))
        ensures
            parts.0@ == self@.stack,
            objects(parts.1@) == self@.heap,
    {
        (self.stack, self.heap)
    }

    /// Frees the heap slots that no root points at.
    ///
    /// Marks the slot named by the handle at each root, keeps the marked and
    /// the empty slots in their order, closes the gaps and refills the end of
    /// the heap with empty slots. Each handle at a root is moved down by the
    /// number of slots freed below its slot, and `heap_top` by the number of
    /// slots freed in all.
    #[verifier::loop_isolation(false)]
    pub fn collect_garbage(&mut self)
        requires
            old(self).wf(),
        ensures
            final(self).wf(),
            final(self)@ == old(self)@.collect(),
    {
        broadcast use vstd::std_specs::hash::group_hash_axioms;

        let ghost before = self@;
        let ghost live = marked(before.stack, before.roots);
        let capacity: usize = self.heap.len();
        let height: usize = self.stack.len();

        let mut marks: Vec<bool> = Vec::new();
        let mut i: usize = 0;
        while i < capacity
            invariant
                i <= capacity,
                marks@.len() == i,
                forall|k: int| 0 <= k < i ==> !marks@[k],
            decreases capacity - i,
        {
            marks.push(false);
            i = i + 1;
        }

        let mut p: usize = 0;
        while p < height
            invariant
                p <= height,
                marks@.len() == capacity,
                forall|h: int|
                    0 <= h < capacity ==> (marks@[h] <==> pointed_at_below(
                        before.stack,
                        before.roots,
                        p as int,
                        h,
                    )),
            decreases height - p,
        {
            if self.heap_roots.contains(&p) {
                assert(before.roots.contains(p as int));
                if let Val::HeapPtr(h) = self.stack[p] {
                    marks.set(h, true);
                    assert(points_at(before.stack, before.roots, p as int, h as int));
                }
            }
            proof {
                assert forall|h: int| 0 <= h < capacity implies (marks@[h] <==> pointed_at_below(
                    before.stack,
                    before.roots,
                    p + 1,
                    h,
                )) by {
                    if pointed_at_below(before.stack, before.roots, p + 1, h) {
                        let q: int = choose|q: int| q < p + 1 && points_at(before.stack, before.roots, q, h);
                        if q < p {
                            assert(pointed_at_below(before.stack, before.roots, p as int, h));
                        }
                    }
                    if pointed_at_below(before.stack, before.roots, p as int, h) {
                        let q: int = choose|q: int| q < p && points_at(before.stack, before.roots, q, h);
                        assert(q < p + 1 && points_at(before.stack, before.roots, q, h));
                    }
                }
            }
            p = p + 1;
        }
        proof {
            assert forall|h: int| 0 <= h < capacity implies (marks@[h] <==> live.contains(h)) by {
                if live.contains(h) {
                    let q: int = choose|q: int| points_at(before.stack, before.roots, q, h);
                    assert(q < height && points_at(before.stack, before.roots, q, h));
                }
            }
        }

        let mut kept: usize = 0;
        let mut forward: Vec<usize> = Vec::new();
        let mut i: usize = 0;
        while i < capacity
            invariant
                i <= capacity,
                capacity == self.heap@.len(),
                self.code == old(self).code,
                self.stack == old(self).stack,
                self.ip == old(self).ip,
                self.heap_top == old(self).heap_top,
                self.heap_roots == old(self).heap_roots,
                kept <= i,
                kept == survivors(before.heap, live, i as int).len(),
                forward@.len() == i,
                forall|k: int| 0 <= k < i ==> #[trigger] forward@[k] == moved_to(before.heap, live, k),
                forall|k: int|
                    0 <= k < kept ==> (#[trigger] self.heap@[k])@ == survivors(
                        before.heap,
                        live,
                        i as int,
                    )[k],
                forall|k: int| kept <= k < i ==> (#[trigger] self.heap@[k])@ is Empty,
                forall|k: int| i <= k < capacity ==> (#[trigger] self.heap@[k])@ == before.heap[k],
            decreases capacity - i,
        {
            let keep: bool = self.heap[i].is_empty() || marks[i];
            assert(keep == retained(before.heap, live, i as int));
            forward.push(kept);
            if keep {
                if kept != i {
                    let mut object = HeapVal::Empty;
                    self.heap.set_and_swap(i, &mut object);
                    self.heap.set(kept, object);
                }
                kept = kept + 1;
            } else {
                self.heap.set(i, HeapVal::Empty);
            }
            i = i + 1;
        }
        proof {
            lemma_empty_tail(before.heap, live, before.heap_top as int, capacity as int);
            lemma_survivors_len(before.heap, live, before.heap_top as int, capacity as int);
            lemma_compacted_len(before.heap, live);
            assert(objects(self.heap@) =~= compacted(before.heap, live));
        }

        let mut p: usize = 0;
        while p < height
            invariant
                p <= height,
                height == self.stack@.len(),
                self.code == old(self).code,
                self.ip == old(self).ip,
                self.heap_top == old(self).heap_top,
                self.heap_roots == old(self).heap_roots,
                objects(self.heap@) == compacted(before.heap, live),
                forall|q: int|
                    0 <= q < p ==> #[trigger] self.stack@[q] == rewritten(
                        before.stack,
                        before.roots,
                        before.heap,
                        live,
                    )[q],
                forall|q: int| p <= q < height ==> #[trigger] self.stack@[q] == before.stack[q],
            decreases height - p,
        {
            if self.heap_roots.contains(&p) {
                assert(before.roots.contains(p as int));
                if let Val::HeapPtr(h) = self.stack[p] {
                    self.stack.set(p, Val::HeapPtr(forward[h]));
                }
            }
            p = p + 1;
        }

        self.heap_top = self.heap_top - (capacity - kept);
        proof {
            let after = before.collect();
            assert(self@.stack =~= after.stack);
            assert(self@.roots == after.roots);
            assert(self@ == after);
            before.lemma_collect_wf();
        }
    }

    /// Stores `object` in the heap, pushes its handle and makes the position
    /// of that handle a root; returns the handle.
    ///
    /// Collects first when exactly one slot is left. Refuses with
    /// `OutOfHeap`, changing nothing, when no slot is left.
    pub fn allocate(&mut self, object: HeapVal) -> (handle: Result<usize, VmError>)
        requires
            old(self).wf(),
        ensures
            final(self).wf(),
            (match old(self)@.allocate(object@) {
                Ok(after) => final(self)@ == after && handle == Ok::<usize, VmError>(
                    (after.heap_top - 1) as usize,
                ),
                Err(e) => final(self)@ == old(self)@ && handle == Err::<usize, VmError>(e),
            }),
    {
        broadcast use vstd::std_specs::hash::group_hash_axioms;

        if self.heap_top >= self.heap.len() {
            return Err(VmError::OutOfHeap);
        }
        proof {
            old(self)@.lemma_collect_wf();
            old(self)@.lemma_allocate_wf(object@);
        }
        if self.heap_top + 1 == self.heap.len() {
            self.collect_garbage();
        }
        let ghost m = self@;
        let handle: usize = self.heap_top;
        let position: usize = self.stack.len();
        self.heap.set(handle, object);
        self.stack.push(Val::HeapPtr(handle));
        self.heap_roots.insert(position);
        self.heap_top = handle + 1;
        proof {
            assert(self@.heap =~= m.heap.update(handle as int, object@));
            assert(self@.roots =~= m.roots.insert(position as int));
        }
        Ok(handle)
    }

    /// Executes a conditional jump whose operand is complete: pops a boolean
    /// and continues at the operand if the boolean equals `when`, after the
    /// operand if not.
    fn branch(&mut self, target: u64, when: bool) -> (executed: Result<bool, VmError>)
        requires
            old(self).wf(),
            !old(self)@.halted(),
            old(self)@.operand_complete(),
            target == crate::decode::be_u64(old(self)@.operand()),
        ensures
            (match old(self)@.branch(when) {
                Ok(next) => executed == Ok::<bool, VmError>(true) && final(self)@ == next,
                Err(e) => executed == Err::<bool, VmError>(e) && final(self)@ == old(self)@,
            }),
    {
        let height: usize = self.stack.len();
        if height < 1 {
            return Err(VmError::StackUnderflow);
        }
        match self.stack[height - 1] {
            Val::Boolean(b) => {
                self.stack.pop();
                if b == when {
                    self.ip = target;
                } else {
                    assert(self.ip + 9 <= self.code.len());
                    self.ip = self.ip + 9;
                }
                proof {
                    assert(self@.stack =~= old(self)@.drop(1).stack);
                }
                Ok(true)
            },
            _ => Err(VmError::TypeMismatch),
        }
    }

    /// Executes the instruction at the instruction pointer.
    ///
    /// Returns `Ok(false)` and changes nothing if the machine has halted,
    /// `Ok(true)` after executing one instruction, and the reason, changing
    /// nothing, if the instruction is refused.
    pub fn step(&mut self, heap_constants: &[HeapVal]) -> (executed: Result<bool, VmError>)
        requires
            old(self).wf(),
        ensures
            final(self).wf(),
            old(self)@.halted() ==> executed == Ok::<bool, VmError>(false) && final(self)@ == old(
                self,
            )@,
            !old(self)@.halted() ==> (match old(self)@.step(objects(heap_constants@)) {
                Ok(next) => executed == Ok::<bool, VmError>(true) && final(self)@ == next,
                Err(e) => executed == Err::<bool, VmError>(e) && final(self)@ == old(self)@,
            }),
    {
        broadcast use vstd::std_specs::hash::group_hash_axioms;

        if self.ip >= self.code.len() as u64 {
            return Ok(false);
        }
        let at: usize = self.ip as usize;
        let height: usize = self.stack.len();
        let ghost before = self@;
        let ghost constants = objects(heap_constants@);
        proof {
            if before.step(constants) is Ok {
                before.lemma_step_wf(constants);
            }
        }
        let opcode: u8 = self.code[at];
        let instruction = match Instruction::from_byte(opcode) {
            Some(instruction) => instruction,
            None => {
                return Err(VmError::InvalidOpcode(opcode));
            },
        };
        match instruction {
            Instruction::PushInt => match read_i64_be(self.code.as_slice(), at + 1) {
                None => Err(VmError::TruncatedOperand),
                Some(integer) => {
                    self.stack.push(Val::Integer(integer));
                    self.ip = self.ip + 9;
                    Ok(true)
                },
            },
            Instruction::PushFloat => Err(VmError::Unimplemented),
            Instruction::HeapConst => match read_u64_be(self.code.as_slice(), at + 1) {
                None => Err(VmError::TruncatedOperand),
                Some(index) => {
                    if index >= heap_constants.len() as u64 {
                        Err(VmError::MissingConstant(index))
                    } else {
                        let object = heap_constants[index as usize].clone();
                        match self.allocate(object) {
                            Ok(_) => {
                                self.ip = self.ip + 9;
                                Ok(true)
                            },
                            Err(e) => Err(e),
                        }
                    }
                },
            },
            Instruction::Pop => {
                if height < 1 {
                    Err(VmError::StackUnderflow)
                } else {
                    let position: usize = height - 1;
                    self.stack.pop();
                    self.heap_roots.remove(&position);
                    self.ip = self.ip + 1;
                    proof {
                        assert(self@.roots =~= before.roots.remove(position as int));
                    }
                    Ok(true)
                }
            },
            Instruction::PopHeapPtr => {
                if height < 1 {
                    Err(VmError::StackUnderflow)
                } else {
                    match self.stack[height - 1] {
                        Val::HeapPtr(_) => {
                            let position: usize = height - 1;
                            self.stack.pop();
                            self.heap_roots.remove(&position);
                            self.ip = self.ip + 1;
                            proof {
                                assert(self@.roots =~= before.roots.remove(position as int));
                            }
                            Ok(true)
                        },
                        _ => Err(VmError::TypeMismatch),
                    }
                }
            },
            Instruction::Jump => match read_u64_be(self.code.as_slice(), at + 1) {
                None => Err(VmError::TruncatedOperand),
                Some(target) => {
                    self.ip = target;
                    Ok(true)
                },
            },
            Instruction::JumpEq => match read_u64_be(self.code.as_slice(), at + 1) {
                None => Err(VmError::TruncatedOperand),
                Some(target) => self.branch(target, true),
            },
            Instruction::JumpNeq => match read_u64_be(self.code.as_slice(), at + 1) {
                None => Err(VmError::TruncatedOperand),
                Some(target) => self.branch(target, false),
            },
            Instruction::Add => {
                if height < 2 {
                    Err(VmError::StackUnderflow)
                } else {
                    match (self.stack[height - 1], self.stack[height - 2]) {
                        (Val::Integer(a), Val::Integer(b)) => {
                            self.stack.pop();
                            self.stack.pop();
                            self.stack.push(Val::Integer(a.wrapping_add(b)));
                            self.ip = self.ip + 1;
                            proof {
                                assert(self@.stack =~= before.step(constants)->Ok_0.stack);
                            }
                            Ok(true)
                        },
                        _ => Err(VmError::TypeMismatch),
                    }
                }
            },
            Instruction::Dup => {
                if height < 1 {
                    Err(VmError::StackUnderflow)
                } else {
                    let top: Val = self.stack[height - 1];
                    self.stack.push(top);
                    if self.heap_roots.contains(&(height - 1)) {
                        self.heap_roots.insert(height);
                    }
                    self.ip = self.ip + 1;
                    proof {
                        assert(self@.roots =~= before.step(constants)->Ok_0.roots);
                    }
                    Ok(true)
                }
            },
            Instruction::LEQ => {
                if height < 2 {
                    Err(VmError::StackUnderflow)
                } else {
                    match (self.stack[height - 1], self.stack[height - 2]) {
                        (Val::Integer(a), Val::Integer(b)) => {
                            self.stack.pop();
                            self.stack.pop();
                            self.stack.push(Val::Boolean(b <= a));
                            self.ip = self.ip + 1;
                            proof {
                                assert(self@.stack =~= before.step(constants)->Ok_0.stack);
                            }
                            Ok(true)
                        },
                        _ => Err(VmError::TypeMismatch),
                    }
                }
            },
            Instruction::Incr => {
                if height < 1 {
                    Err(VmError::StackUnderflow)
                } else {
                    match self.stack[height - 1] {
                        Val::Integer(a) => {
                            self.stack.set(height - 1, Val::Integer(a.wrapping_add(1)));
                            self.ip = self.ip + 1;
                            Ok(true)
                        },
                        _ => Err(VmError::TypeMismatch),
                    }
                }
            },
        }
    }

    /// Executes instructions until the machine halts, an instruction is
    /// refused, or `max_steps` instructions have been executed.
    pub fn run(&mut self, heap_constants: &[HeapVal], max_steps: u64) -> (status: Result<
        RunStatus,
        VmError,
    >)
        requires
            old(self).wf(),
        ensures
            final(self).wf(),
            (final(self)@, status) == old(self)@.run(objects(heap_constants@), max_steps as nat),
    {
        let ghost constants = objects(heap_constants@);
        let mut remaining: u64 = max_steps;
        while remaining > 0
            invariant
                self.wf(),
                constants == objects(heap_constants@),
                self@.run(constants, remaining as nat) == old(self)@.run(
                    constants,
                    max_steps as nat,
                ),
            decreases remaining,
        {
            match self.step(heap_constants) {
                Ok(true) => {
                    remaining = remaining - 1;
                },
                Ok(false) => {
                    return Ok(RunStatus::Halted);
                },
                Err(e) => {
                    return Err(e);
                },
            }
        }
        if self.is_halted() {
            Ok(RunStatus::Halted)
        } else {
            Ok(RunStatus::OutOfSteps)
        }
    }
}

} // verus!
