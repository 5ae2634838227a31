//! End-to-end tests of the virtual machine.

use zinc_vm_core::instruction::Instruction;
use zinc_vm_core::vm::RuntimeError;
use zinc_vm_core::vm::VirtualMachine;
use zinc_vm_core::vm::assert_under_branch;
use zinc_vm_core::vm::branch_select;
use zinc_vm_core::vm::call_add_return;
use zinc_vm_core::vm::store_load_sequence;
use zinc_vm_core::backend::Gate;

fn run_program(program: Vec<Instruction>) -> Result<VirtualMachine, RuntimeError> {
    let mut vm = VirtualMachine::new(program);
    if !zinc_vm_core::codec::program_wf(&vm.program) {
        panic!("malformed program");
    }
    match vm.run(10_000) {
        Ok(()) => Ok(vm),
        Err(e) => Err(e),
    }
}

/// The original exercise of the `Dbg` instruction: push a constant, print
/// it under no open condition, and finish cleanly.
#[test]
fn dbg_test() {
    let program = vec![
        Instruction::PushConst { value: 42, is_signed: false, bit_length: 32 },
        Instruction::Dbg { string: String::from("Value: "), nargs: 1 },
        Instruction::Exit { outputs: 0 },
    ];
    let vm = run_program(program).unwrap();
    assert_eq!(vm.log.len(), 1);
    assert_eq!(vm.log[0].text, "Value: ");
    assert_eq!(vm.log[0].args, vec![Some(42)]);
}

/// With several arguments the debug line holds them in pop order: the top
/// of the stack first.
#[test]
fn dbg_pop_order() {
    let program = vec![
        Instruction::PushConst { value: 1, is_signed: false, bit_length: 8 },
        Instruction::PushConst { value: 2, is_signed: false, bit_length: 8 },
        Instruction::Dbg { string: String::from("pair:"), nargs: 2 },
        Instruction::Exit { outputs: 0 },
    ];
    let vm = run_program(program).unwrap();
    assert_eq!(vm.log.len(), 1);
    assert_eq!(vm.log[0].args, vec![Some(2), Some(1)]);
}

/// Adding two 8-bit constants returns their sum and records exactly one
/// gate, the linear one tying the sum to its operands.
#[test]
fn add_end_to_end() {
    let program = vec![
        Instruction::PushConst { value: 2, is_signed: false, bit_length: 8 },
        Instruction::PushConst { value: 3, is_signed: false, bit_length: 8 },
        Instruction::Add,
        Instruction::Exit { outputs: 1 },
    ];
    let vm = run_program(program).unwrap();
    let outputs = vm.outputs.as_ref().unwrap();
    assert_eq!(outputs.len(), 1);
    assert_eq!(outputs[0].concrete, Some(5));
    assert_eq!(vm.backend.gates.len(), 1);
    assert!(matches!(vm.backend.gates[0], Gate::Linear { .. }));
}

fn branch_program(selector: i128) -> Vec<Instruction> {
    vec![
        Instruction::PushConst { value: selector, is_signed: false, bit_length: 1 },
        Instruction::If,
        Instruction::PushConst { value: 10, is_signed: false, bit_length: 8 },
        Instruction::Else,
        Instruction::PushConst { value: 20, is_signed: false, bit_length: 8 },
        Instruction::EndIf,
        Instruction::Exit { outputs: 1 },
    ]
}

/// Both arms of a conditional execute; the result is selected by the
/// condition bit, and the recorded constraints have the same shape either
/// way.
#[test]
fn branch_end_to_end() {
    let vm_true = run_program(branch_program(1)).unwrap();
    assert_eq!(vm_true.outputs.as_ref().unwrap()[0].concrete, Some(10));
    let vm_false = run_program(branch_program(0)).unwrap();
    assert_eq!(vm_false.outputs.as_ref().unwrap()[0].concrete, Some(20));
    assert_eq!(vm_true.backend.gates.len(), vm_false.backend.gates.len());
    assert_eq!(vm_true.backend.values.len(), vm_false.backend.values.len());
}

/// The verified branch-merge law on concrete values.
#[test]
fn branch_select_law() {
    let (out_true, _) = branch_select(true, 7, 9, false, 8);
    assert_eq!(out_true.concrete, Some(7));
    let (out_false, _) = branch_select(false, 7, 9, false, 8);
    assert_eq!(out_false.concrete, Some(9));
}

/// An `Assert` of the false bit inside a branch fails only when the branch
/// is live.
#[test]
fn assert_gating() {
    let (dead, _) = assert_under_branch(false);
    assert!(dead.is_ok());
    let (live, _) = assert_under_branch(true);
    assert_eq!(live, Err(RuntimeError::AssertionFailed));
}

/// Two-level nesting: the inner assert is gated by the conjunction of both
/// selectors.
#[test]
fn nested_conditions() {
    let nested = |outer: i128, inner: i128| -> Result<VirtualMachine, RuntimeError> {
        run_program(vec![
            Instruction::PushConst { value: outer, is_signed: false, bit_length: 1 },
            Instruction::If,
            Instruction::PushConst { value: inner, is_signed: false, bit_length: 1 },
            Instruction::If,
            Instruction::PushConst { value: 0, is_signed: false, bit_length: 1 },
            Instruction::Assert,
            Instruction::EndIf,
            Instruction::EndIf,
            Instruction::Exit { outputs: 0 },
        ])
    };
    assert!(nested(0, 1).is_ok());
    assert!(nested(1, 0).is_ok());
    assert_eq!(nested(1, 1).err(), Some(RuntimeError::AssertionFailed));
}

/// Store then load of an n-value sequence returns the values in order, for
/// n in {0, 1, 8}.
#[test]
fn sequence_atomicity() {
    for n in [0usize, 1, 8] {
        let mut vm = VirtualMachine::new(vec![]);
        // pre-allocate the region one cell at a time: a store at the end
        // of the data stack extends it
        for k in 0..n {
            vm.exec_push_const(0, false, 8).unwrap();
            vm.exec_store(0, k).unwrap();
        }
        for k in 0..n {
            vm.exec_push_const(k as i128 + 10, false, 8).unwrap();
        }
        store_load_sequence(&mut vm, 0, n).unwrap();
        assert_eq!(vm.stack.len(), n);
        for k in 0..n {
            assert_eq!(vm.stack[k].concrete, Some(k as i128 + 10));
        }
    }
}

/// Call with two arguments, add in the callee, return one value.
#[test]
fn call_return_sum() {
    let program = vec![
        Instruction::PushConst { value: 11, is_signed: false, bit_length: 8 },
        Instruction::PushConst { value: 31, is_signed: false, bit_length: 8 },
        Instruction::Call { address: 4, inputs: 2 },
        Instruction::Exit { outputs: 1 },
        Instruction::Load { address: 0 },
        Instruction::Load { address: 1 },
        Instruction::Add,
        Instruction::Return { outputs: 1 },
    ];
    let vm = run_program(program).unwrap();
    let outputs = vm.outputs.as_ref().unwrap();
    assert_eq!(outputs.len(), 1);
    assert_eq!(outputs[0].concrete, Some(42));
    let (out, _) = call_add_return(11, 31, false, 8);
    assert_eq!(out.concrete, Some(42));
}

/// Out-of-range loads and stores fail with the out-of-bounds error for
/// several region sizes and offsets.
#[test]
fn addressing_safety() {
    for region in [0usize, 1, 3] {
        for offset in [0usize, 1, 2, 5] {
            if offset < region {
                continue;
            }
            let load = Instruction::LoadGlobal { address: offset };
            let mut vm = VirtualMachine::new(vec![load]);
            for _ in 0..region {
                vm.push_input(Some(0), false, 8).unwrap();
            }
            assert_eq!(vm.run(10), Err(RuntimeError::OutOfBounds));
        }
    }
    // a store one past the end extends the region; further out it fails
    let program = vec![
        Instruction::PushConst { value: 1, is_signed: false, bit_length: 8 },
        Instruction::Store { address: 3 },
        Instruction::Exit { outputs: 0 },
    ];
    assert_eq!(run_program(program).err(), Some(RuntimeError::OutOfBounds));
}

/// Division is Euclidean and rejects a zero divisor.
#[test]
fn division() {
    let divide = |a: i128, b: i128| -> Result<VirtualMachine, RuntimeError> {
        run_program(vec![
            Instruction::PushConst { value: a, is_signed: true, bit_length: 8 },
            Instruction::PushConst { value: b, is_signed: true, bit_length: 8 },
            Instruction::Div,
            Instruction::Exit { outputs: 1 },
        ])
    };
    assert_eq!(divide(7, 2).unwrap().outputs.unwrap()[0].concrete, Some(3));
    assert_eq!(divide(-7, 2).unwrap().outputs.unwrap()[0].concrete, Some(-4));
    assert_eq!(divide(7, 0).err(), Some(RuntimeError::DivisionByZero));
}

/// A statically unrolled loop executes its body the declared number of
/// times.
#[test]
fn unrolled_loop() {
    let program = vec![
        Instruction::PushConst { value: 0, is_signed: false, bit_length: 8 },
        Instruction::Store { address: 0 },
        Instruction::LoopBegin { iterations: 5 },
        Instruction::Load { address: 0 },
        Instruction::PushConst { value: 1, is_signed: false, bit_length: 8 },
        Instruction::Add,
        Instruction::Store { address: 0 },
        Instruction::LoopEnd,
        Instruction::Load { address: 0 },
        Instruction::Exit { outputs: 1 },
    ];
    let vm = run_program(program).unwrap();
    assert_eq!(vm.outputs.unwrap()[0].concrete, Some(5));
}
