use stack_vm::instruction::Instruction;
use stack_vm::machine::{RunStatus, VmError};
use stack_vm::value::{HeapVal, Val};
use stack_vm::vm::VM;

fn op(instruction: Instruction) -> Vec<u8> {
    vec![instruction.to_byte()]
}

fn heap_const(index: u64) -> Vec<u8> {
    let mut bytes = vec![Instruction::HeapConst.to_byte()];
    bytes.extend(index.to_be_bytes());
    bytes
}

fn jump(target: u64) -> Vec<u8> {
    let mut bytes = vec![Instruction::Jump.to_byte()];
    bytes.extend(target.to_be_bytes());
    bytes
}

fn text(s: &str) -> HeapVal {
    HeapVal::Str(s.to_string())
}

fn constants() -> Vec<HeapVal> {
    vec![
        text("zero"),
        text("one"),
        HeapVal::List(vec![Val::Integer(2), Val::Boolean(true)]),
        HeapVal::Value(Val::Integer(3)),
        text("four"),
    ]
}

fn object_at<'a>(vm: &'a VM, position: usize) -> &'a HeapVal {
    match vm.stack()[position] {
        Val::HeapPtr(handle) => &vm.heap()[handle],
        other => panic!("position {} holds {:?}", position, other),
    }
}

fn empty_from(vm: &VM, first: usize) -> bool {
    vm.heap()[first..].iter().all(|slot| slot.is_empty())
}

#[test]
fn allocate_hands_out_the_slots_in_order() {
    let mut vm = VM::with_capacity(Vec::new(), vec![Val::Integer(9)], 8);
    assert_eq!(vm.allocate(text("a")), Ok(0));
    assert_eq!(vm.allocate(text("b")), Ok(1));
    assert_eq!(vm.allocate(HeapVal::Value(Val::Boolean(true))), Ok(2));
    assert_eq!(vm.heap_top(), 3);
    assert_eq!(vm.stack(), &vec![Val::Integer(9), Val::HeapPtr(0), Val::HeapPtr(1), Val::HeapPtr(2)]);
    assert!(!vm.is_root(0));
    assert!(vm.is_root(1) && vm.is_root(2) && vm.is_root(3));
    assert_eq!(vm.heap()[0], text("a"));
    assert_eq!(vm.heap()[1], text("b"));
    assert_eq!(vm.heap()[2], HeapVal::Value(Val::Boolean(true)));
    assert!(empty_from(&vm, 3));
    assert_eq!(vm.capacity(), 8);
    assert_eq!(vm.ip(), 0);
}

#[test]
fn heap_const_allocates_a_copy_of_the_constant() {
    let code = [heap_const(2), heap_const(0)].concat();
    let mut vm = VM::with_capacity(code, Vec::new(), 8);
    let table = constants();
    assert_eq!(vm.run(&table, 10), Ok(RunStatus::Halted));
    assert_eq!(vm.stack(), &vec![Val::HeapPtr(0), Val::HeapPtr(1)]);
    assert_eq!(vm.heap()[0], table[2]);
    assert_eq!(vm.heap()[1], table[0]);
    assert!(vm.is_root(0) && vm.is_root(1));
    assert_eq!(vm.heap_top(), 2);
    assert_eq!(vm.ip(), 18);
    assert_eq!(table, constants());
}

#[test]
fn pop_heap_ptr_releases_the_root() {
    let code = [heap_const(0), op(Instruction::PopHeapPtr)].concat();
    let mut vm = VM::with_capacity(code, Vec::new(), 8);
    assert_eq!(vm.step(&constants()), Ok(true));
    assert!(vm.is_root(0));
    assert_eq!(vm.step(&constants()), Ok(true));
    assert!(!vm.is_root(0));
    assert!(vm.stack().is_empty());
    assert_eq!(vm.heap_top(), 1);
    assert_eq!(vm.heap()[0], text("zero"));
    assert_eq!(vm.ip(), 10);
}

#[test]
fn pop_releases_the_root_of_a_handle() {
    let code = [heap_const(0), op(Instruction::Pop), heap_const(1)].concat();
    let mut vm = VM::with_capacity(code, Vec::new(), 8);
    assert_eq!(vm.run(&constants(), 2), Ok(RunStatus::OutOfSteps));
    assert!(!vm.is_root(0));
    vm.collect_garbage();
    assert_eq!(vm.heap_top(), 0);
    assert_eq!(vm.run(&constants(), 2), Ok(RunStatus::Halted));
    assert_eq!(vm.stack(), &vec![Val::HeapPtr(0)]);
    assert_eq!(vm.heap()[0], text("one"));
}

#[test]
fn a_full_heap_is_collected_before_the_last_slot_is_taken() {
    let code = [
        heap_const(0),
        heap_const(1),
        op(Instruction::PopHeapPtr),
        heap_const(2),
        heap_const(3),
    ]
    .concat();
    let mut vm = VM::with_capacity(code, Vec::new(), 4);
    let table = constants();
    assert_eq!(vm.run(&table, 4), Ok(RunStatus::OutOfSteps));
    assert_eq!(vm.heap_top(), 3);
    assert_eq!(vm.stack(), &vec![Val::HeapPtr(0), Val::HeapPtr(2)]);
    assert_eq!(vm.heap()[1], table[1]);
    assert_eq!(vm.step(&table), Ok(true));
    assert_eq!(vm.stack(), &vec![Val::HeapPtr(0), Val::HeapPtr(1), Val::HeapPtr(2)]);
    assert_eq!(object_at(&vm, 0), &table[0]);
    assert_eq!(object_at(&vm, 1), &table[2]);
    assert_eq!(object_at(&vm, 2), &table[3]);
    assert_eq!(vm.heap_top(), 3);
    assert_eq!(vm.capacity(), 4);
    assert!(empty_from(&vm, 3));
    assert!(vm.is_root(0) && vm.is_root(1) && vm.is_root(2));
    assert!(vm.is_halted());
}

#[test]
fn no_collection_while_more_than_one_slot_is_left() {
    let code = [heap_const(0), op(Instruction::PopHeapPtr), heap_const(1)].concat();
    let mut vm = VM::with_capacity(code, Vec::new(), 4);
    assert_eq!(vm.run(&constants(), 10), Ok(RunStatus::Halted));
    assert_eq!(vm.heap_top(), 2);
    assert_eq!(vm.stack(), &vec![Val::HeapPtr(1)]);
    assert_eq!(vm.heap()[0], text("zero"));
    assert_eq!(vm.heap()[1], text("one"));
}

#[test]
fn a_collection_that_frees_nothing_lets_the_last_slot_be_taken() {
    let code = [heap_const(0), heap_const(1), heap_const(2), heap_const(3)].concat();
    let mut vm = VM::with_capacity(code, Vec::new(), 3);
    let table = constants();
    assert_eq!(vm.run(&table, 3), Ok(RunStatus::OutOfSteps));
    assert_eq!(vm.heap_top(), 3);
    assert_eq!(vm.stack(), &vec![Val::HeapPtr(0), Val::HeapPtr(1), Val::HeapPtr(2)]);
    assert_eq!(object_at(&vm, 2), &table[2]);
    let stack = vm.stack().clone();
    assert_eq!(vm.step(&table), Err(VmError::OutOfHeap));
    assert_eq!(vm.stack(), &stack);
    assert_eq!(vm.heap_top(), 3);
    assert_eq!(vm.ip(), 27);
    assert_eq!(vm.allocate(text("more")), Err(VmError::OutOfHeap));
    assert_eq!(vm.stack(), &stack);
    assert_eq!(vm.heap()[0], table[0]);
    assert_eq!(vm.heap()[1], table[1]);
    assert_eq!(vm.heap()[2], table[2]);
}

#[test]
fn a_heap_of_one_slot_holds_one_object() {
    let mut vm = VM::with_capacity(Vec::new(), Vec::new(), 1);
    assert_eq!(vm.allocate(text("only")), Ok(0));
    assert_eq!(vm.heap_top(), 1);
    assert_eq!(vm.allocate(text("more")), Err(VmError::OutOfHeap));
    assert_eq!(vm.heap()[0], text("only"));
    assert_eq!(vm.stack(), &vec![Val::HeapPtr(0)]);
}

#[test]
fn a_handle_sinks_by_the_slots_freed_below_it() {
    let code = [
        heap_const(0),
        heap_const(1),
        heap_const(2),
        heap_const(3),
        heap_const(4),
        op(Instruction::Pop),
        op(Instruction::Pop),
    ]
    .concat();
    let stack = vec![Val::Integer(5)];
    let mut vm = VM::with_capacity(code, stack, 8);
    let table = constants();
    assert_eq!(vm.run(&table, 2), Ok(RunStatus::OutOfSteps));
    assert_eq!(vm.step(&table), Ok(true));
    assert_eq!(vm.run(&table, 100), Ok(RunStatus::Halted));
    assert_eq!(
        vm.stack(),
        &vec![Val::Integer(5), Val::HeapPtr(0), Val::HeapPtr(1), Val::HeapPtr(2)]
    );
    assert_eq!(vm.heap_top(), 5);
    vm.collect_garbage();
    assert_eq!(vm.heap_top(), 3);
    assert_eq!(
        vm.stack(),
        &vec![Val::Integer(5), Val::HeapPtr(0), Val::HeapPtr(1), Val::HeapPtr(2)]
    );
    assert_eq!(vm.heap()[0], table[0]);
    assert_eq!(vm.heap()[1], table[1]);
    assert_eq!(vm.heap()[2], table[2]);
    assert!(empty_from(&vm, 3));
    assert_eq!(vm.capacity(), 8);
}

#[test]
fn live_objects_around_a_freed_one_keep_their_handles_apart() {
    let code = [
        heap_const(0),
        heap_const(1),
        op(Instruction::PopHeapPtr),
        heap_const(2),
        heap_const(3),
        op(Instruction::PopHeapPtr),
        heap_const(4),
    ]
    .concat();
    let mut vm = VM::with_capacity(code, Vec::new(), 16);
    let table = constants();
    assert_eq!(vm.run(&table, 100), Ok(RunStatus::Halted));
    assert_eq!(vm.stack(), &vec![Val::HeapPtr(0), Val::HeapPtr(2), Val::HeapPtr(4)]);
    assert_eq!(vm.heap_top(), 5);
    vm.collect_garbage();
    assert_eq!(vm.stack(), &vec![Val::HeapPtr(0), Val::HeapPtr(1), Val::HeapPtr(2)]);
    assert_eq!(vm.heap()[0], table[0]);
    assert_eq!(vm.heap()[1], table[2]);
    assert_eq!(vm.heap()[2], table[4]);
    assert_eq!(vm.heap_top(), 3);
    assert!(empty_from(&vm, 3));
    assert_eq!(vm.heap().len(), 16);
}

#[test]
fn a_collection_with_nothing_to_free_changes_nothing() {
    let code = [heap_const(0), heap_const(1)].concat();
    let mut vm = VM::with_capacity(code, vec![Val::Boolean(true)], 5);
    assert_eq!(vm.run(&constants(), 10), Ok(RunStatus::Halted));
    let stack = vm.stack().clone();
    vm.collect_garbage();
    assert_eq!(vm.stack(), &stack);
    assert_eq!(vm.heap_top(), 2);
    assert_eq!(vm.heap()[0], text("zero"));
    assert_eq!(vm.heap()[1], text("one"));
    assert!(empty_from(&vm, 2));
    assert_eq!(vm.ip(), 18);
    assert!(!vm.is_root(0) && vm.is_root(1) && vm.is_root(2));
}

#[test]
fn a_collection_of_a_fresh_machine_changes_nothing() {
    let mut vm = VM::with_capacity(vec![1, 2, 3], vec![Val::HeapPtr(7)], 3);
    vm.collect_garbage();
    assert_eq!(vm.stack(), &vec![Val::HeapPtr(7)]);
    assert_eq!(vm.heap_top(), 0);
    assert_eq!(vm.capacity(), 3);
    assert!(empty_from(&vm, 0));
    assert_eq!(vm.code(), &vec![1, 2, 3]);
}

#[test]
fn a_copy_of_a_handle_keeps_the_object_alive() {
    let code = [
        heap_const(0),
        heap_const(1),
        op(Instruction::Dup),
        op(Instruction::PopHeapPtr),
    ]
    .concat();
    let mut vm = VM::with_capacity(code, Vec::new(), 8);
    let table = constants();
    assert_eq!(vm.run(&table, 100), Ok(RunStatus::Halted));
    assert_eq!(vm.stack(), &vec![Val::HeapPtr(0), Val::HeapPtr(1)]);
    vm.collect_garbage();
    assert_eq!(vm.heap_top(), 2);
    assert_eq!(object_at(&vm, 1), &table[1]);
}

#[test]
fn two_roots_of_one_object_move_together() {
    let code = [
        heap_const(0),
        op(Instruction::PopHeapPtr),
        heap_const(1),
        op(Instruction::Dup),
    ]
    .concat();
    let mut vm = VM::with_capacity(code, Vec::new(), 8);
    let table = constants();
    assert_eq!(vm.run(&table, 100), Ok(RunStatus::Halted));
    assert_eq!(vm.stack(), &vec![Val::HeapPtr(1), Val::HeapPtr(1)]);
    vm.collect_garbage();
    assert_eq!(vm.stack(), &vec![Val::HeapPtr(0), Val::HeapPtr(0)]);
    assert_eq!(vm.heap()[0], table[1]);
    assert_eq!(vm.heap_top(), 1);
}

#[test]
fn a_handle_that_is_no_root_is_left_as_it_is() {
    let code = [heap_const(0), op(Instruction::PopHeapPtr), heap_const(1)].concat();
    let before = vec![Val::HeapPtr(1), Val::Integer(1)];
    let mut vm = VM::with_capacity(code, before, 8);
    assert_eq!(vm.run(&constants(), 100), Ok(RunStatus::Halted));
    assert_eq!(vm.stack(), &vec![Val::HeapPtr(1), Val::Integer(1), Val::HeapPtr(1)]);
    vm.collect_garbage();
    assert_eq!(vm.stack(), &vec![Val::HeapPtr(1), Val::Integer(1), Val::HeapPtr(0)]);
    assert_eq!(vm.heap()[0], text("one"));
    assert!(vm.heap()[1].is_empty());
    assert!(!vm.is_root(0));
    assert!(vm.is_root(2));
}

#[test]
fn an_empty_object_is_never_freed() {
    let code = [heap_const(0), op(Instruction::PopHeapPtr), heap_const(1)].concat();
    let table = vec![HeapVal::Empty, text("after")];
    let mut vm = VM::with_capacity(code, Vec::new(), 8);
    assert_eq!(vm.run(&table, 100), Ok(RunStatus::Halted));
    assert_eq!(vm.heap_top(), 2);
    vm.collect_garbage();
    assert_eq!(vm.heap_top(), 2);
    assert_eq!(vm.stack(), &vec![Val::HeapPtr(1)]);
    assert!(vm.heap()[0].is_empty());
    assert_eq!(vm.heap()[1], text("after"));
}

#[test]
fn releasing_everything_empties_the_heap() {
    let code = [
        heap_const(0),
        heap_const(1),
        heap_const(2),
        op(Instruction::PopHeapPtr),
        op(Instruction::PopHeapPtr),
        op(Instruction::PopHeapPtr),
    ]
    .concat();
    let mut vm = VM::with_capacity(code, Vec::new(), 6);
    assert_eq!(vm.run(&constants(), 100), Ok(RunStatus::Halted));
    assert_eq!(vm.heap_top(), 3);
    vm.collect_garbage();
    assert_eq!(vm.heap_top(), 0);
    assert!(empty_from(&vm, 0));
    assert_eq!(vm.capacity(), 6);
    assert!(vm.stack().is_empty());
}

fn release_loop() -> Vec<u8> {
    [heap_const(0), op(Instruction::PopHeapPtr), jump(0)].concat()
}

#[test]
fn release_loop_reuses_the_slot_of_a_heap_of_two() {
    let table = vec![text("Asdf")];
    let mut vm = VM::with_capacity(release_loop(), Vec::new(), 2);
    for _ in 0..3000 {
        assert_eq!(vm.step(&table), Ok(true));
        assert!(vm.heap_top() <= 1);
        assert!(vm.stack().len() <= 1);
    }
    assert_eq!(vm.run(&table, 100_000), Ok(RunStatus::OutOfSteps));
    assert!(vm.heap_top() <= 1);
}

#[test]
fn release_loop_stays_below_the_capacity() {
    let table = vec![text("Asdf")];
    let mut vm = VM::with_capacity(release_loop(), Vec::new(), 5);
    let mut highest = 0;
    for _ in 0..3000 {
        assert_eq!(vm.step(&table), Ok(true));
        assert!(vm.heap_top() < 5);
        highest = highest.max(vm.heap_top());
    }
    assert_eq!(highest, 4);
}

#[test]
fn release_loop_runs_on_with_the_default_capacity() {
    let table = vec![text("Asdf")];
    let mut vm = VM::new(release_loop(), vec![Val::Integer(1)]);
    let mut highest = 0;
    for _ in 0..20 {
        assert_eq!(vm.run(&table, 499), Ok(RunStatus::OutOfSteps));
        assert!(vm.heap_top() < 1000);
        highest = highest.max(vm.heap_top());
    }
    assert!(highest > 1);
    assert_eq!(vm.run(&table, 1), Ok(RunStatus::OutOfSteps));
    assert!(vm.stack().len() <= 2);
}

#[test]
fn release_loop_of_an_empty_object_fills_the_heap() {
    let table = vec![HeapVal::Empty];
    let mut vm = VM::with_capacity(release_loop(), Vec::new(), 2);
    assert_eq!(vm.run(&table, 100), Err(VmError::OutOfHeap));
    assert_eq!(vm.heap_top(), 2);
    assert_eq!(vm.ip(), 0);
}
