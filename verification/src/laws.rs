//! Laws of the instruction set and of the collector, proved of the model
//! that the executable machine is held to.

use crate::decode::{be_i64, be_u64};
use crate::gc::{
    freed_below, lemma_all_freed, lemma_moved_to_monotone, lemma_none_freed, lemma_survivor_at,
    lemma_survivors_len, lemma_unmarked_is_freed, marked, points_at, retained,
};
use crate::instruction::Instruction;
use crate::machine::{wrapped, Machine, RunStatus, VmError};
use crate::value::{HeapObj, Val};
use vstd::prelude::*;

verus! {

/// The instruction at byte `at` of `code` is `instruction`.
pub open spec fn encodes(code: Seq<u8>, at: nat, instruction: Instruction) -> bool {
    at < code.len() && code[at as int] == instruction.opcode()
}

/// The instruction at byte `at` of `code` is `instruction`, with the unsigned
/// operand `operand`.
pub open spec fn encodes_unsigned(code: Seq<u8>, at: nat, instruction: Instruction, operand: int) -> bool {
    encodes(code, at, instruction) && at + 9 <= code.len() && be_u64(
        code.subrange(at as int + 1, at as int + 9),
    ) == operand
}

/// The instruction at byte `at` of `code` is `PushInt value`.
pub open spec fn encodes_push_int(code: Seq<u8>, at: nat, value: int) -> bool {
    encodes(code, at, Instruction::PushInt) && at + 9 <= code.len() && be_i64(
        code.subrange(at as int + 1, at as int + 9),
    ) == value
}

/// How many values the instructions of a run put on the stack.
pub open spec fn pushed(m: Machine, constants: Seq<HeapObj>, steps: nat) -> nat
    decreases steps,
{
    if m.halted() || steps == 0 {
        0
    } else {
        match m.step(constants) {
            Ok(next) => Instruction::decode(m.opcode())->Some_0.pushes() + pushed(
                next,
                constants,
                (steps - 1) as nat,
            ),
            Err(_) => 0,
        }
    }
}

/// How many values the instructions of a run take off the stack.
pub open spec fn popped(m: Machine, constants: Seq<HeapObj>, steps: nat) -> nat
    decreases steps,
{
    if m.halted() || steps == 0 {
        0
    } else {
        match m.step(constants) {
            Ok(next) => Instruction::decode(m.opcode())->Some_0.pops() + popped(
                next,
                constants,
                (steps - 1) as nat,
            ),
            Err(_) => 0,
        }
    }
}

/// A run of `first + second` steps is a run of `first` steps, continued for
/// `second` steps unless it ended before its steps were used up.
pub proof fn lemma_run_split(m: Machine, constants: Seq<HeapObj>, first: nat, second: nat)
    ensures
        m.run(constants, first + second) == (if m.run(constants, first).1 == Ok::<
            RunStatus,
            VmError,
        >(RunStatus::OutOfSteps) {
            m.run(constants, first).0.run(constants, second)
        } else {
            m.run(constants, first)
        }),
    decreases first,
{
    if !m.halted() && first > 0 {
        if let Ok(next) = m.step(constants) {
            lemma_run_split(next, constants, (first - 1) as nat, second);
            assert(m.run(constants, first + second) == next.run(
                constants,
                (first + second - 1) as nat,
            ));
        }
    }
}

/// An instruction changes the height of the stack by what it pushes less
/// what it pops.
pub proof fn lemma_step_stack_height(m: Machine, constants: Seq<HeapObj>)
    requires
        !m.halted(),
        m.step(constants) is Ok,
    ensures
        m.step(constants)->Ok_0.stack.len() == m.stack.len() + Instruction::decode(
            m.opcode(),
        )->Some_0.pushes() - Instruction::decode(m.opcode())->Some_0.pops(),
{
}

/// Stack-height law: after a run the stack is as high as before, plus the
/// values its instructions pushed, minus the values they popped.
pub proof fn lemma_stack_height(m: Machine, constants: Seq<HeapObj>, steps: nat)
    ensures
        m.run(constants, steps).0.stack.len() == m.stack.len() + pushed(m, constants, steps)
            - popped(m, constants, steps),
    decreases steps,
{
    if !m.halted() && steps > 0 {
        if let Ok(next) = m.step(constants) {
            lemma_step_stack_height(m, constants);
            lemma_stack_height(next, constants, (steps - 1) as nat);
        }
    }
}

/// `Dup` followed by `Pop` changes nothing but the instruction pointer. On
/// an empty stack `Dup` is refused.
pub proof fn lemma_dup_pop(m: Machine, constants: Seq<HeapObj>)
    requires
        m.wf(),
        encodes(m.code, m.ip, Instruction::Dup),
        encodes(m.code, m.ip + 1, Instruction::Pop),
    ensures
        m.stack.len() == 0 ==> m.step(constants) == Err::<Machine, VmError>(
            VmError::StackUnderflow,
        ),
        m.stack.len() > 0 ==> m.run(constants, 2).0 == m.at(m.ip + 2),
{
    if m.stack.len() > 0 {
        let duplicated = m.step(constants)->Ok_0;
        let popped = duplicated.step(constants)->Ok_0;
        assert(popped.stack =~= m.stack);
        assert(popped.roots =~= m.roots);
        assert(m.run(constants, 2) == duplicated.run(constants, 1));
        assert(duplicated.run(constants, 1) == popped.run(constants, 0));
    }
}

/// `PushInt a; PushInt b; Add` pushes one value, the sum of `a` and `b`
/// wrapped into 64 bits, which is the sum itself whenever that fits.
pub proof fn lemma_push_push_add(m: Machine, constants: Seq<HeapObj>, a: i64, b: i64)
    requires
        encodes_push_int(m.code, m.ip, a as int),
        encodes_push_int(m.code, m.ip + 9, b as int),
        encodes(m.code, m.ip + 18, Instruction::Add),
    ensures
        m.run(constants, 3).0 == m.push(Val::Integer(wrapped(a + b))).at(m.ip + 19),
        i64::MIN <= a + b <= i64::MAX ==> wrapped(a + b) == a + b,
{
    let first = m.step(constants)->Ok_0;
    assert(first.operand() =~= m.code.subrange(m.ip as int + 10, m.ip as int + 18));
    let second = first.step(constants)->Ok_0;
    let third = second.step(constants)->Ok_0;
    assert(third.stack =~= m.stack.push(Val::Integer(wrapped(a + b))));
    assert(m.run(constants, 3) == first.run(constants, 2));
    assert(first.run(constants, 2) == second.run(constants, 1));
    assert(second.run(constants, 1) == third.run(constants, 0));
}

/// `PushInt a; PushInt b; LEQ` pushes one value, the boolean `a <= b`: the
/// value pushed first is compared against the value pushed second.
pub proof fn lemma_push_push_leq(m: Machine, constants: Seq<HeapObj>, a: i64, b: i64)
    requires
        encodes_push_int(m.code, m.ip, a as int),
        encodes_push_int(m.code, m.ip + 9, b as int),
        encodes(m.code, m.ip + 18, Instruction::LEQ),
    ensures
        m.run(constants, 3).0 == m.push(Val::Boolean(a <= b)).at(m.ip + 19),
{
    let first = m.step(constants)->Ok_0;
    assert(first.operand() =~= m.code.subrange(m.ip as int + 10, m.ip as int + 18));
    let second = first.step(constants)->Ok_0;
    let third = second.step(constants)->Ok_0;
    assert(third.stack =~= m.stack.push(Val::Boolean(a <= b)));
    assert(m.run(constants, 3) == first.run(constants, 2));
    assert(first.run(constants, 2) == second.run(constants, 1));
    assert(second.run(constants, 1) == third.run(constants, 0));
}

/// A collection keeps what the roots hold: after it each root still holds a
/// handle, that handle names a slot below `heap_top`, and the slot holds the
/// object that the root's handle named before.
pub proof fn lemma_collect_keeps_live(m: Machine, p: int)
    requires
        m.wf(),
        m.roots.contains(p),
    ensures
        m.collect().roots.contains(p),
        m.collect().stack[p] is HeapPtr,
        m.collect().stack[p]->HeapPtr_0 < m.collect().heap_top,
        m.collect().heap[m.collect().stack[p]->HeapPtr_0 as int] == m.heap[m.stack[p]->HeapPtr_0 as int],
{
    let live = marked(m.stack, m.roots);
    let h: int = m.stack[p]->HeapPtr_0 as int;
    m.lemma_collect_wf();
    assert(points_at(m.stack, m.roots, p, h));
    assert(live.contains(h));
    lemma_survivor_at(m.heap, live, h, m.heap.len() as int);
}

/// A collection leaves the values that are not at a root as they are.
pub proof fn lemma_collect_keeps_other_values(m: Machine, p: int)
    requires
        0 <= p < m.stack.len(),
        !m.roots.contains(p),
    ensures
        m.collect().stack[p] == m.stack[p],
{
}

/// Two roots hold the same handle after a collection exactly if they held
/// the same handle before.
pub proof fn lemma_collect_keeps_sharing(m: Machine, p: int, q: int)
    requires
        m.wf(),
        m.roots.contains(p),
        m.roots.contains(q),
    ensures
        m.collect().stack[p] == m.collect().stack[q] <==> m.stack[p] == m.stack[q],
{
    let live = marked(m.stack, m.roots);
    let g: int = m.stack[p]->HeapPtr_0 as int;
    let h: int = m.stack[q]->HeapPtr_0 as int;
    m.lemma_collect_wf();
    assert(points_at(m.stack, m.roots, p, g));
    assert(points_at(m.stack, m.roots, q, h));
    assert(live.contains(g) && live.contains(h));
    lemma_survivor_at(m.heap, live, g, m.heap.len() as int);
    lemma_survivor_at(m.heap, live, h, m.heap.len() as int);
    if g < h {
        lemma_moved_to_monotone(m.heap, live, g, h);
    } else if h < g {
        lemma_moved_to_monotone(m.heap, live, h, g);
    }
}

/// A collection frees the objects that no root points at: if some slot
/// below `heap_top` holds an object and is not marked, `heap_top` sinks, so
/// that the slot at its new place is free for the next allocation.
pub proof fn lemma_collect_frees_unreachable(m: Machine, i: int)
    requires
        m.wf(),
        0 <= i < m.heap_top,
        !(m.heap[i] is Empty),
        !marked(m.stack, m.roots).contains(i),
    ensures
        m.collect().heap_top < m.heap_top,
        m.collect().heap[m.collect().heap_top as int] is Empty,
{
    let live = marked(m.stack, m.roots);
    m.lemma_collect_wf();
    assert(!retained(m.heap, live, i));
    lemma_unmarked_is_freed(m.heap, live, i, m.heap_top as int);
}

/// Where every slot below `heap_top` is empty or marked, a collection frees
/// nothing and moves nothing.
pub proof fn lemma_collect_of_live_heap(m: Machine)
    requires
        m.wf(),
        forall|i: int| 0 <= i < m.heap_top ==> #[trigger] retained(m.heap, marked(m.stack, m.roots), i),
    ensures
        m.collect() == m,
{
    let live = marked(m.stack, m.roots);
    let cap: int = m.heap.len() as int;
    m.lemma_collect_wf();
    assert forall|i: int| 0 <= i < cap implies #[trigger] retained(m.heap, live, i) by {
        if i >= m.heap_top {
            assert(m.heap[i] is Empty);
        }
    }
    lemma_none_freed(m.heap, live, cap);
    assert forall|i: int| 0 <= i < cap implies m.collect().heap[i] == m.heap[i] by {
        lemma_none_freed(m.heap, live, i);
        lemma_survivor_at(m.heap, live, i, cap);
    }
    assert(m.collect().heap =~= m.heap);
    assert forall|p: int| 0 <= p < m.stack.len() implies m.collect().stack[p] == m.stack[p] by {
        if m.roots.contains(p) {
            lemma_none_freed(m.heap, live, m.stack[p]->HeapPtr_0 as int);
        }
    }
    assert(m.collect().stack =~= m.stack);
}

/// Where every slot freed lies below the slot a root points at, the root's
/// handle sinks by the number of slots freed in all, as `heap_top` does.
pub proof fn lemma_collect_shifts_by_total(m: Machine, p: int)
    requires
        m.wf(),
        m.roots.contains(p),
        forall|i: int|
            m.stack[p]->HeapPtr_0 < i < m.heap_top ==> #[trigger] retained(
                m.heap,
                marked(m.stack, m.roots),
                i,
            ),
    ensures
        m.collect().stack[p] == Val::HeapPtr(
            (m.stack[p]->HeapPtr_0 - (m.heap_top - m.collect().heap_top)) as usize,
        ),
        m.stack[p]->HeapPtr_0 >= m.heap_top - m.collect().heap_top,
{
    let live = marked(m.stack, m.roots);
    let h: int = m.stack[p]->HeapPtr_0 as int;
    m.lemma_collect_wf();
    assert(points_at(m.stack, m.roots, p, h));
    assert(live.contains(h));
    lemma_freed_between(m.heap, live, h + 1, m.heap_top as int);
    lemma_survivors_len(m.heap, live, h, h);
}

/// Where every slot from `k` up to `n` is retained, as many slots are freed
/// below `n` as below `k`.
proof fn lemma_freed_between(heap: Seq<HeapObj>, live: Set<int>, k: int, n: int)
    requires
        0 <= k <= n,
        forall|i: int| k <= i < n ==> #[trigger] retained(heap, live, i),
    ensures
        freed_below(heap, live, n) == freed_below(heap, live, k),
    decreases n - k,
{
    if k < n {
        lemma_freed_between(heap, live, k, n - 1);
        assert(retained(heap, live, n - 1));
    }
}

/// Only `HeapConst` touches the heap: every other instruction leaves the
/// slots and `heap_top` as they are.
pub proof fn lemma_heap_changes_only_by_allocation(m: Machine, constants: Seq<HeapObj>)
    requires
        !m.halted(),
        m.step(constants) is Ok,
        Instruction::decode(m.opcode()) != Some(Instruction::HeapConst),
    ensures
        m.step(constants)->Ok_0.heap == m.heap,
        m.step(constants)->Ok_0.heap_top == m.heap_top,
{
}

/// An allocation, whether or not it collects, keeps what the roots hold, and
/// its new handle, on top of the stack, names a slot that holds the object
/// allocated.
pub proof fn lemma_allocate_keeps_live(m: Machine, object: HeapObj, p: int)
    requires
        m.wf(),
        m.roots.contains(p),
        m.allocate(object) is Ok,
    ensures
        ({
            let after = m.allocate(object)->Ok_0;
            &&& after.roots.contains(p)
            &&& after.stack[p] is HeapPtr
            &&& after.heap[after.stack[p]->HeapPtr_0 as int] == m.heap[m.stack[p]->HeapPtr_0 as int]
            &&& after.roots.contains(after.stack.len() - 1)
            &&& after.top() is HeapPtr
            &&& after.heap[after.top()->HeapPtr_0 as int] == object
        }),
{
    m.lemma_collect_wf();
    if m.collects_before_allocating() {
        lemma_collect_keeps_live(m, p);
    }
}

/// No instruction harms a live object: a position that is a root before and
/// after an instruction holds a handle after it, and the handle leads to the
/// object it led to before.
pub proof fn lemma_step_keeps_live(m: Machine, constants: Seq<HeapObj>, p: int)
    requires
        m.wf(),
        !m.halted(),
        m.step(constants) is Ok,
        m.roots.contains(p),
        m.step(constants)->Ok_0.roots.contains(p),
    ensures
        ({
            let next = m.step(constants)->Ok_0;
            &&& next.stack[p] is HeapPtr
            &&& next.heap[next.stack[p]->HeapPtr_0 as int] == m.heap[m.stack[p]->HeapPtr_0 as int]
        }),
{
    m.lemma_step_wf(constants);
    if Instruction::decode(m.opcode()) == Some(Instruction::HeapConst) {
        lemma_allocate_keeps_live(m, constants[be_u64(m.operand())], p);
    }
}

/// The program `PushInt 0; Incr; Dup; PushInt limit; LEQ; JumpEq 9`: it
/// counts up from zero for as long as the count does not exceed `limit`.
pub open spec fn counting_loop(code: Seq<u8>, limit: int) -> bool {
    &&& code.len() == 30
    &&& encodes_push_int(code, 0, 0)
    &&& encodes(code, 9, Instruction::Incr)
    &&& encodes(code, 10, Instruction::Dup)
    &&& encodes_push_int(code, 11, limit)
    &&& encodes(code, 20, Instruction::LEQ)
    &&& encodes_unsigned(code, 21, Instruction::JumpEq, 9)
}

/// One round of the counting loop: the count on top goes up by one, and the
/// machine is back at the head of the loop if the new count does not exceed
/// the limit, and past the end of the code if it does.
proof fn lemma_counting_round(m: Machine, constants: Seq<HeapObj>, below: Seq<Val>, limit: int, count: int)
    requires
        counting_loop(m.code, limit),
        m.ip == 9,
        m.stack == below.push(Val::Integer(count as i64)),
        i64::MIN <= count < i64::MAX,
        i64::MIN <= limit <= i64::MAX,
    ensures
        m.run(constants, 5).0.code == m.code,
        m.run(constants, 5).0.stack == below.push(Val::Integer((count + 1) as i64)),
        m.run(constants, 5).0.ip == (if count + 1 <= limit {
            9nat
        } else {
            30nat
        }),
        m.run(constants, 5).1 == (if count + 1 <= limit {
            Ok::<RunStatus, VmError>(RunStatus::OutOfSteps)
        } else {
            Ok::<RunStatus, VmError>(RunStatus::Halted)
        }),
{
    let incremented = m.step(constants)->Ok_0;
    assert(incremented.stack =~= below.push(Val::Integer((count + 1) as i64)));
    let duplicated = incremented.step(constants)->Ok_0;
    assert(duplicated.operand() =~= m.code.subrange(12, 20));
    let pushed = duplicated.step(constants)->Ok_0;
    let compared = pushed.step(constants)->Ok_0;
    assert(compared.stack =~= below.push(Val::Integer((count + 1) as i64)).push(
        Val::Boolean(count + 1 <= limit),
    ));
    assert(compared.operand() =~= m.code.subrange(22, 30));
    let jumped = compared.step(constants)->Ok_0;
    assert(jumped.stack =~= below.push(Val::Integer((count + 1) as i64)));
    assert(m.run(constants, 5) == incremented.run(constants, 4));
    assert(incremented.run(constants, 4) == duplicated.run(constants, 3));
    assert(duplicated.run(constants, 3) == pushed.run(constants, 2));
    assert(pushed.run(constants, 2) == compared.run(constants, 1));
    assert(compared.run(constants, 1) == jumped.run(constants, 0));
}

/// From the head of the counting loop with a count that does not exceed the
/// limit, the machine halts with the limit plus one.
proof fn lemma_counting_from(
    m: Machine,
    constants: Seq<HeapObj>,
    below: Seq<Val>,
    limit: int,
    count: int,
    steps: nat,
)
    requires
        counting_loop(m.code, limit),
        m.ip == 9,
        m.stack == below.push(Val::Integer(count as i64)),
        i64::MIN <= count <= limit < i64::MAX,
        steps >= 5 * (limit - count + 1),
    ensures
        m.run(constants, steps).1 == Ok::<RunStatus, VmError>(RunStatus::Halted),
        m.run(constants, steps).0.stack == below.push(Val::Integer((limit + 1) as i64)),
    decreases limit - count,
{
    lemma_counting_round(m, constants, below, limit, count);
    lemma_run_split(m, constants, 5, (steps - 5) as nat);
    if count + 1 <= limit {
        lemma_counting_from(
            m.run(constants, 5).0,
            constants,
            below,
            limit,
            count + 1,
            (steps - 5) as nat,
        );
    }
}

/// The counting loop halts with one more value on the stack than it started
/// with: the limit plus one, the first count that exceeds the limit. It takes
/// one step to push the zero and five for each count.
pub proof fn lemma_counting_loop(
    code: Seq<u8>,
    stack: Seq<Val>,
    capacity: nat,
    constants: Seq<HeapObj>,
    limit: int,
    steps: nat,
)
    requires
        counting_loop(code, limit),
        0 <= limit < i64::MAX,
        steps >= 5 * (limit + 1) + 1,
    ensures
        Machine::initial(code, stack, capacity).run(constants, steps).1 == Ok::<
            RunStatus,
            VmError,
        >(RunStatus::Halted),
        Machine::initial(code, stack, capacity).run(constants, steps).0.stack == stack.push(
            Val::Integer((limit + 1) as i64),
        ),
{
    let start = Machine::initial(code, stack, capacity);
    let head = start.step(constants)->Ok_0;
    assert(start.run(constants, steps) == head.run(constants, (steps - 1) as nat));
    lemma_counting_from(head, constants, stack, limit, 0, (steps - 1) as nat);
}

/// The program `HeapConst 0; PopHeapPtr; Jump 0`: it allocates an object
/// and releases it, for ever.
pub open spec fn release_loop(code: Seq<u8>) -> bool {
    &&& code.len() == 19
    &&& encodes_unsigned(code, 0, Instruction::HeapConst, 0)
    &&& encodes(code, 9, Instruction::PopHeapPtr)
    &&& encodes_unsigned(code, 10, Instruction::Jump, 0)
}

/// The states that the release loop passes through when it is started on
/// `stack`: a slot is always left, no slot below `heap_top` is empty, and
/// the only root there ever is, is the handle just allocated.
pub open spec fn in_release_loop(m: Machine, stack: Seq<Val>) -> bool {
    &&& m.wf()
    &&& release_loop(m.code)
    &&& 2 <= m.heap.len()
    &&& m.heap_top < m.heap.len()
    &&& forall|i: int| 0 <= i < m.heap_top ==> !(#[trigger] m.heap[i] is Empty)
    &&& if m.ip == 9 {
        &&& m.stack.len() == stack.len() + 1
        &&& m.stack.drop_last() == stack
        &&& m.roots == Set::<int>::empty().insert(stack.len() as int)
    } else {
        &&& m.ip == 0 || m.ip == 10
        &&& m.stack == stack
        &&& m.roots == Set::<int>::empty()
    }
}

/// The release loop never leaves its states: no instruction of it is
/// refused, and it does not halt.
pub proof fn lemma_release_loop_step(m: Machine, constants: Seq<HeapObj>, stack: Seq<Val>)
    requires
        in_release_loop(m, stack),
        constants.len() == 1,
        !(constants[0] is Empty),
    ensures
        !m.halted(),
        m.step(constants) is Ok,
        in_release_loop(m.step(constants)->Ok_0, stack),
{
    let next = m.step(constants)->Ok_0;
    m.lemma_step_wf(constants);
    if m.ip == 0 {
        let live = marked(m.stack, m.roots);
        if m.collects_before_allocating() {
            m.lemma_collect_wf();
            assert forall|i: int| 0 <= i < m.heap_top implies !#[trigger] retained(
                m.heap,
                live,
                i,
            ) by {
                if live.contains(i) {
                    let p: int = choose|p: int| points_at(m.stack, m.roots, p, i);
                    assert(m.roots.contains(p));
                }
            }
            lemma_all_freed(m.heap, live, m.heap_top as int);
            assert(m.collect().stack =~= m.stack);
        }
        assert(next.stack.drop_last() =~= stack);
    } else if m.ip == 9 {
        assert(m.roots.contains(stack.len() as int));
        assert(next.roots =~= Set::<int>::empty());
    } else {
        assert(m.operand() =~= m.code.subrange(11, 19));
    }
}

/// However long the release loop runs, it runs on, and it never leaves its
/// states.
proof fn lemma_release_loop_run(m: Machine, constants: Seq<HeapObj>, stack: Seq<Val>, steps: nat)
    requires
        in_release_loop(m, stack),
        constants.len() == 1,
        !(constants[0] is Empty),
    ensures
        m.run(constants, steps).1 == Ok::<RunStatus, VmError>(RunStatus::OutOfSteps),
        in_release_loop(m.run(constants, steps).0, stack),
    decreases steps,
{
    lemma_release_loop_step(m, constants, stack);
    if steps > 0 {
        lemma_release_loop_run(m.step(constants)->Ok_0, constants, stack, (steps - 1) as nat);
    }
}

/// The release loop reuses what it releases: started on a fresh machine with
/// at least two slots and one heap constant that is an object, it runs for
/// ever and `heap_top` stays below the capacity. On a heap of two slots
/// `heap_top` never exceeds one.
pub proof fn lemma_release_loop(
    code: Seq<u8>,
    stack: Seq<Val>,
    capacity: nat,
    constants: Seq<HeapObj>,
    steps: nat,
)
    requires
        release_loop(code),
        2 <= capacity <= usize::MAX,
        constants.len() == 1,
        !(constants[0] is Empty),
    ensures
        Machine::initial(code, stack, capacity).run(constants, steps).1 == Ok::<
            RunStatus,
            VmError,
        >(RunStatus::OutOfSteps),
        Machine::initial(code, stack, capacity).run(constants, steps).0.heap_top < capacity,
        capacity == 2 ==> Machine::initial(code, stack, capacity).run(constants, steps).0.heap_top
            <= 1,
{
    let start = Machine::initial(code, stack, capacity);
    lemma_release_loop_run(start, constants, stack, steps);
    start.lemma_run_wf(constants, steps);
}

} // verus!
