//! The machine as a mathematical value, and what one instruction does to it.

use crate::decode::{be_i64, be_u64};
use crate::gc::{
    compacted, freed_below, lemma_compacted_len, lemma_empty_tail, lemma_survivor_at,
    lemma_survivors_len, marked, points_at, rewritten, survivors,
};
use crate::instruction::Instruction;
use crate::value::{HeapObj, Val};
use vstd::prelude::*;

verus! {

/// Why the machine refuses to execute an instruction.
#[derive(Clone, Copy, Debug, PartialEq, Eq, Structural)]
pub enum VmError {
    /// The byte at the instruction pointer encodes no instruction.
    InvalidOpcode(u8),
    /// The code ends inside the operand.
    TruncatedOperand,
    /// The instruction is reserved and has no behaviour.
    Unimplemented,
    /// The stack holds fewer values than the instruction takes.
    StackUnderflow,
    /// A value the instruction takes is not of the variant it expects.
    TypeMismatch,
    /// The table of heap constants has no entry of this number.
    MissingConstant(u64),
    /// Every slot of the heap is taken.
    OutOfHeap,
}

/// How a run ended when no instruction was refused.
#[derive(Clone, Copy, Debug, PartialEq, Eq, Structural)]
pub enum RunStatus {
    /// The instruction pointer left the code.
    Halted,
    /// The allowed number of steps was used up.
    OutOfSteps,
}

/// The sum of two machine integers, wrapped into 64 bits.
pub open spec fn wrapped(sum: int) -> i64 {
    if sum > i64::MAX {
        (sum - 0x1_0000_0000_0000_0000) as i64
    } else if sum < i64::MIN {
        (sum + 0x1_0000_0000_0000_0000) as i64
    } else {
        sum as i64
    }
}

/// The state of a machine.
pub struct Machine {
    /// The program.
    pub code: Seq<u8>,
    /// The operand stack; the top is its last element.
    pub stack: Seq<Val>,
    /// The slots of the heap; its length is the capacity.
    pub heap: Seq<HeapObj>,
    /// Byte offset of the next instruction.
    pub ip: nat,
    /// Number of slots handed out; the next allocation takes this slot.
    pub heap_top: nat,
    /// The positions of the stack that hold a live handle.
    pub roots: Set<int>,
}

impl Machine {
    /// The state in which a machine starts.
    pub open spec fn initial(code: Seq<u8>, stack: Seq<Val>, capacity: nat) -> Machine {
        Machine {
            code,
            stack,
            heap: Seq::new(capacity, |i: int| HeapObj::Empty),
            ip: 0,
            heap_top: 0,
            roots: Set::empty(),
        }
    }

    /// What holds of every state the machine reaches: the slots from
    /// `heap_top` on are empty, and each root is a position of the stack that
    /// holds a handle to a slot below `heap_top`.
    pub open spec fn wf(self) -> bool {
        &&& self.heap_top <= self.heap.len() <= usize::MAX
        &&& forall|i: int| self.heap_top <= i < self.heap.len() ==> #[trigger] self.heap[i] is Empty
        &&& forall|p: int| #[trigger]
            self.roots.contains(p) ==> 0 <= p < self.stack.len() && self.stack[p] is HeapPtr
                && self.stack[p]->HeapPtr_0 < self.heap_top
    }

    /// Whether the instruction pointer has left the code.
    pub open spec fn halted(self) -> bool {
        self.ip >= self.code.len()
    }

    /// The byte at the instruction pointer.
    pub open spec fn opcode(self) -> u8
        recommends
            !self.halted(),
    {
        self.code[self.ip as int]
    }

    /// Whether the eight bytes after the opcode are all there.
    pub open spec fn operand_complete(self) -> bool {
        self.ip + 9 <= self.code.len()
    }

    /// The eight bytes after the opcode.
    pub open spec fn operand(self) -> Seq<u8>
        recommends
            self.operand_complete(),
    {
        self.code.subrange(self.ip as int + 1, self.ip as int + 9)
    }

    /// The value on top of the stack.
    pub open spec fn top(self) -> Val
        recommends
            self.stack.len() >= 1,
    {
        self.stack[self.stack.len() - 1]
    }

    /// The value below the top of the stack.
    pub open spec fn below_top(self) -> Val
        recommends
            self.stack.len() >= 2,
    {
        self.stack[self.stack.len() - 2]
    }

    /// The same state with the instruction pointer at `ip`.
    pub open spec fn at(self, ip: nat) -> Machine {
        Machine { ip, ..self }
    }

    /// The state after pushing `v`.
    pub open spec fn push(self, v: Val) -> Machine {
        Machine { stack: self.stack.push(v), ..self }
    }

    /// The state after taking `n` values, none of them a root, off the stack.
    pub open spec fn drop(self, n: int) -> Machine {
        Machine { stack: self.stack.subrange(0, self.stack.len() - n), ..self }
    }

    /// The state after discarding the top of the stack; its position is a
    /// root no more.
    pub open spec fn release(self) -> Machine {
        Machine {
            stack: self.stack.drop_last(),
            roots: self.roots.remove(self.stack.len() - 1),
            ..self
        }
    }

    /// The state after a collection: the heap is compacted, the handles at
    /// the roots follow their slots, and `heap_top` sinks by the number of
    /// slots freed.
    pub open spec fn collect(self) -> Machine {
        let live = marked(self.stack, self.roots);
        Machine {
            stack: rewritten(self.stack, self.roots, self.heap, live),
            heap: compacted(self.heap, live),
            heap_top: (self.heap_top - freed_below(self.heap, live, self.heap.len() as int)) as nat,
            ..self
        }
    }

    /// Whether an allocation collects first: exactly one slot is left.
    pub open spec fn collects_before_allocating(self) -> bool {
        self.heap_top + 1 == self.heap.len()
    }

    /// The state after allocating `object`: a collection if one slot was
    /// left, then the object in slot `heap_top`, its handle on the stack and
    /// the position of that handle among the roots. Refused when no slot is
    /// left.
    pub open spec fn allocate(self, object: HeapObj) -> Result<Machine, VmError> {
        if self.heap_top >= self.heap.len() {
            Err(VmError::OutOfHeap)
        } else {
            let m = if self.collects_before_allocating() {
                self.collect()
            } else {
                self
            };
            Ok(
                Machine {
                    stack: m.stack.push(Val::HeapPtr(m.heap_top as usize)),
                    heap: m.heap.update(m.heap_top as int, object),
                    heap_top: m.heap_top + 1,
                    roots: m.roots.insert(m.stack.len() as int),
                    ..m
                },
            )
        }
    }

    /// The state after a conditional jump that is taken when the boolean on
    /// top equals `when`.
    pub open spec fn branch(self, when: bool) -> Result<Machine, VmError> {
        if self.stack.len() < 1 {
            Err(VmError::StackUnderflow)
        } else {
            match self.top() {
                Val::Boolean(b) => if b == when {
                    Ok(self.drop(1).at(be_u64(self.operand()) as nat))
                } else {
                    Ok(self.drop(1).at(self.ip + 9))
                },
                _ => Err(VmError::TypeMismatch),
            }
        }
    }

    /// The state after executing `instruction`, whose operand, if it has
    /// one, is complete.
    pub open spec fn execute(self, instruction: Instruction, constants: Seq<HeapObj>) -> Result<
        Machine,
        VmError,
    > {
        match instruction {
            Instruction::PushInt => Ok(
                self.push(Val::Integer(be_i64(self.operand()) as i64)).at(self.ip + 9),
            ),
            Instruction::PushFloat => Err(VmError::Unimplemented),
            Instruction::HeapConst => {
                let index: int = be_u64(self.operand());
                if index >= constants.len() {
                    Err(VmError::MissingConstant(index as u64))
                } else {
                    match self.allocate(constants[index]) {
                        Ok(m) => Ok(m.at(self.ip + 9)),
                        Err(e) => Err(e),
                    }
                }
            },
            Instruction::Pop => if self.stack.len() < 1 {
                Err(VmError::StackUnderflow)
            } else {
                Ok(self.release().at(self.ip + 1))
            },
            Instruction::PopHeapPtr => if self.stack.len() < 1 {
                Err(VmError::StackUnderflow)
            } else if !(self.top() is HeapPtr) {
                Err(VmError::TypeMismatch)
            } else {
                Ok(self.release().at(self.ip + 1))
            },
            Instruction::Jump => Ok(self.at(be_u64(self.operand()) as nat)),
            Instruction::JumpEq => self.branch(true),
            Instruction::JumpNeq => self.branch(false),
            Instruction::Add => if self.stack.len() < 2 {
                Err(VmError::StackUnderflow)
            } else {
                match (self.top(), self.below_top()) {
                    (Val::Integer(a), Val::Integer(b)) => Ok(
                        self.drop(2).push(Val::Integer(wrapped(a + b))).at(self.ip + 1),
                    ),
                    _ => Err(VmError::TypeMismatch),
                }
            },
            Instruction::Dup => if self.stack.len() < 1 {
                Err(VmError::StackUnderflow)
            } else {
                Ok(
                    Machine {
                        stack: self.stack.push(self.top()),
                        roots: if self.roots.contains(self.stack.len() - 1) {
                            self.roots.insert(self.stack.len() as int)
                        } else {
                            self.roots
                        },
                        ip: self.ip + 1,
                        ..self
                    },
                )
            },
            Instruction::LEQ => if self.stack.len() < 2 {
                Err(VmError::StackUnderflow)
            } else {
                match (self.top(), self.below_top()) {
                    (Val::Integer(a), Val::Integer(b)) => Ok(
                        self.drop(2).push(Val::Boolean(b <= a)).at(self.ip + 1),
                    ),
                    _ => Err(VmError::TypeMismatch),
                }
            },
            Instruction::Incr => if self.stack.len() < 1 {
                Err(VmError::StackUnderflow)
            } else {
                match self.top() {
                    Val::Integer(a) => Ok(
                        Machine {
                            stack: self.stack.update(
                                self.stack.len() - 1,
                                Val::Integer(wrapped(a + 1)),
                            ),
                            ip: self.ip + 1,
                            ..self
                        },
                    ),
                    _ => Err(VmError::TypeMismatch),
                }
            },
        }
    }

    /// The state after one instruction of a machine that has not halted, or
    /// the reason why the instruction is refused.
    pub open spec fn step(self, constants: Seq<HeapObj>) -> Result<Machine, VmError>
        recommends
            !self.halted(),
    {
        match Instruction::decode(self.opcode()) {
            None => Err(VmError::InvalidOpcode(self.opcode())),
            Some(instruction) => if instruction.has_operand() && !self.operand_complete() {
                Err(VmError::TruncatedOperand)
            } else {
                self.execute(instruction, constants)
            },
        }
    }

    /// The state after at most `steps` instructions, and how the run ended:
    /// it ends when the machine halts, when the steps are used up, or at the
    /// first instruction that is refused, which leaves the state as it was.
    pub open spec fn run(self, constants: Seq<HeapObj>, steps: nat) -> (Machine, Result<
        RunStatus,
        VmError,
    >)
        decreases steps,
    {
        if self.halted() {
            (self, Ok(RunStatus::Halted))
        } else if steps == 0 {
            (self, Ok(RunStatus::OutOfSteps))
        } else {
            match self.step(constants) {
                Ok(next) => next.run(constants, (steps - 1) as nat),
                Err(e) => (self, Err(e)),
            }
        }
    }
    /// A machine starts in a well-formed state.
    pub proof fn lemma_initial_wf(code: Seq<u8>, stack: Seq<Val>, capacity: nat)
        requires
            capacity <= usize::MAX,
        ensures
            Machine::initial(code, stack, capacity).wf(),
            !Machine::initial(code, stack, capacity).halted() <==> code.len() > 0,
    {
    }

    /// A collection leaves a well-formed state well-formed. It keeps the
    /// code, the instruction pointer, the roots, the height of the stack and
    /// the capacity of the heap, and `heap_top` sinks by the number of slots
    /// freed, all of which lay below it.
    pub proof fn lemma_collect_wf(self)
        requires
            self.wf(),
        ensures
            self.collect().wf(),
            self.collect().code == self.code,
            self.collect().ip == self.ip,
            self.collect().roots == self.roots,
            self.collect().stack.len() == self.stack.len(),
            self.collect().heap.len() == self.heap.len(),
            self.collect().heap_top == self.heap_top - freed_below(
                self.heap,
                marked(self.stack, self.roots),
                self.heap_top as int,
            ),
            0 <= freed_below(self.heap, marked(self.stack, self.roots), self.heap_top as int)
                <= self.heap_top,
    {
        let live = marked(self.stack, self.roots);
        let cap: int = self.heap.len() as int;
        let top: int = self.heap_top as int;
        let after = self.collect();
        lemma_empty_tail(self.heap, live, top, cap);
        lemma_survivors_len(self.heap, live, top, cap);
        lemma_compacted_len(self.heap, live);
        assert forall|i: int| after.heap_top <= i < after.heap.len() implies #[trigger] after.heap[i]
            is Empty by {
            if i < survivors(self.heap, live, cap).len() {
                assert(after.heap[i] == survivors(self.heap, live, cap)[i]);
            }
        }
        assert forall|p: int| #[trigger] after.roots.contains(p) implies 0 <= p < after.stack.len()
            && after.stack[p] is HeapPtr && after.stack[p]->HeapPtr_0 < after.heap_top by {
            let h: int = self.stack[p]->HeapPtr_0 as int;
            assert(points_at(self.stack, self.roots, p, h));
            assert(live.contains(h));
            lemma_survivor_at(self.heap, live, h, top);
        }
    }

    /// An allocation leaves a well-formed state well-formed and keeps the
    /// capacity of the heap.
    pub proof fn lemma_allocate_wf(self, object: HeapObj)
        requires
            self.wf(),
            self.allocate(object) is Ok,
        ensures
            self.allocate(object)->Ok_0.wf(),
            self.allocate(object)->Ok_0.heap.len() == self.heap.len(),
            self.allocate(object)->Ok_0.code == self.code,
    {
        self.lemma_collect_wf();
    }

    /// An instruction leaves a well-formed state well-formed and keeps the
    /// code and the capacity of the heap.
    pub proof fn lemma_step_wf(self, constants: Seq<HeapObj>)
        requires
            self.wf(),
            !self.halted(),
            self.step(constants) is Ok,
        ensures
            self.step(constants)->Ok_0.wf(),
            self.step(constants)->Ok_0.heap.len() == self.heap.len(),
            self.step(constants)->Ok_0.code == self.code,
    {
        let instruction = Instruction::decode(self.opcode())->Some_0;
        if instruction == Instruction::HeapConst {
            self.lemma_allocate_wf(constants[be_u64(self.operand())]);
        }
    }

    /// A run leaves a well-formed state well-formed and keeps the code and
    /// the capacity of the heap.
    pub proof fn lemma_run_wf(self, constants: Seq<HeapObj>, steps: nat)
        requires
            self.wf(),
        ensures
            self.run(constants, steps).0.wf(),
            self.run(constants, steps).0.heap.len() == self.heap.len(),
            self.run(constants, steps).0.code == self.code,
        decreases steps,
    {
        if !self.halted() && steps > 0 {
            if let Ok(next) = self.step(constants) {
                self.lemma_step_wf(constants);
                next.lemma_run_wf(constants, (steps - 1) as nat);
            }
        }
    }
}

} // verus!
