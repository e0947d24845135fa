use chip8_core::machine::{decode_instruction, CPU};
use chip8_core::semantics::{Fault, Instruction};

fn load(cpu: &mut CPU, base: usize, bytes: &[u8]) {
    for (i, b) in bytes.iter().enumerate() {
        cpu.write_memory(base + i, *b);
    }
}

#[test]
fn decode_classifies_each_pattern() {
    assert_eq!(decode_instruction(0x0000), Instruction::Halt);
    assert_eq!(decode_instruction(0x00EE), Instruction::Ret);
    assert_eq!(decode_instruction(0x2ABC), Instruction::Call(0x0ABC));
    assert_eq!(decode_instruction(0x2000), Instruction::Call(0x0000));
    assert_eq!(decode_instruction(0x8124), Instruction::AddXY(1, 2));
    assert_eq!(decode_instruction(0x8FF4), Instruction::AddXY(0xF, 0xF));
    assert_eq!(decode_instruction(0x8125), Instruction::Unknown(0x8125));
    assert_eq!(decode_instruction(0x00EF), Instruction::Unknown(0x00EF));
    assert_eq!(decode_instruction(0x1234), Instruction::Unknown(0x1234));
    assert_eq!(decode_instruction(0xFFFF), Instruction::Unknown(0xFFFF));
}

#[test]
fn read_opcode_is_big_endian() {
    let mut cpu = CPU::new();
    load(&mut cpu, 0x200, &[0xAB, 0xCD]);
    cpu.program_counter = 0x200;
    assert_eq!(cpu.read_opcode(), 0xABCD);
    assert_eq!(cpu.program_counter, 0x200);
}

#[test]
fn add_without_overflow_clears_flag() {
    let mut cpu = CPU::new();
    cpu.set_register(0, 5);
    cpu.set_register(1, 10);
    cpu.set_register(0xF, 1);
    cpu.add_xy(0, 1);
    assert_eq!(cpu.register(0), 15);
    assert_eq!(cpu.register(1), 10);
    assert_eq!(cpu.register(0xF), 0);
}

#[test]
fn add_with_overflow_wraps_and_sets_flag() {
    let mut cpu = CPU::new();
    cpu.set_register(0, 250);
    cpu.set_register(1, 10);
    cpu.add_xy(0, 1);
    assert_eq!(cpu.register(0), 4);
    assert_eq!(cpu.register(0xF), 1);
}

#[test]
fn add_at_exact_boundary_sets_flag() {
    let mut cpu = CPU::new();
    cpu.set_register(2, 255);
    cpu.set_register(3, 1);
    cpu.add_xy(2, 3);
    assert_eq!(cpu.register(2), 0);
    assert_eq!(cpu.register(0xF), 1);

    let mut cpu = CPU::new();
    cpu.set_register(2, 254);
    cpu.set_register(3, 1);
    cpu.add_xy(2, 3);
    assert_eq!(cpu.register(2), 255);
    assert_eq!(cpu.register(0xF), 0);
}

#[test]
fn run_single_add_overflow() {
    let mut cpu = CPU::new();
    cpu.set_register(0, 250);
    cpu.set_register(1, 10);
    load(&mut cpu, 0x000, &[0x80, 0x14]);
    let outcome = cpu.run();
    assert_eq!(outcome, Ok(()));
    assert_eq!(cpu.register(0), 4);
    assert_eq!(cpu.register(0xF), 1);
}

#[test]
fn run_nested_call_scenario() {
    let mut cpu = CPU::new();
    cpu.set_register(0, 5);
    cpu.set_register(1, 10);
    load(&mut cpu, 0x000, &[0x21, 0x00, 0x21, 0x00, 0x00, 0x00]);
    load(&mut cpu, 0x100, &[0x80, 0x14, 0x80, 0x14, 0x00, 0xEE]);
    let outcome = cpu.run();
    assert_eq!(outcome, Ok(()));
    assert_eq!(cpu.register(0), 45);
    assert_eq!(cpu.register(1), 10);
    assert_eq!(cpu.register(0xF), 0);
    assert_eq!(cpu.stack_pointer, 0);
}

#[test]
fn ret_returns_to_instruction_after_call() {
    let mut cpu = CPU::new();
    // CALL 0x100 at 0, HALT at 2; RET at 0x100.
    load(&mut cpu, 0x000, &[0x21, 0x00, 0x00, 0x00]);
    load(&mut cpu, 0x100, &[0x00, 0xEE]);
    let outcome = cpu.run();
    assert_eq!(outcome, Ok(()));
    // The RET came back to address 2, whose HALT advanced the counter to 4.
    assert_eq!(cpu.program_counter, 4);
    assert_eq!(cpu.stack_pointer, 0);
}

#[test]
fn call_succeeds_to_capacity_then_overflows() {
    let mut cpu = CPU::new();
    for depth in 0..16 {
        assert_eq!(cpu.call(0x200), Ok(()));
        assert_eq!(cpu.stack_pointer, depth + 1);
    }
    assert_eq!(cpu.call(0x200), Err(Fault::StackOverflow));
    assert_eq!(cpu.stack_pointer, 16);
}

#[test]
fn run_overflows_stack_on_endless_self_call() {
    let mut cpu = CPU::new();
    // CALL 0 at address 0: every iteration pushes another return address.
    load(&mut cpu, 0x000, &[0x20, 0x00]);
    let outcome = cpu.run();
    assert_eq!(outcome, Err(Fault::StackOverflow));
    assert_eq!(cpu.stack_pointer, 16);
}

#[test]
fn ret_with_empty_stack_underflows() {
    let mut cpu = CPU::new();
    assert_eq!(cpu.ret(), Err(Fault::StackUnderflow));
    assert_eq!(cpu.stack_pointer, 0);
    assert_eq!(cpu.program_counter, 0);
}

#[test]
fn run_faults_on_ret_with_empty_stack() {
    let mut cpu = CPU::new();
    load(&mut cpu, 0x000, &[0x00, 0xEE]);
    let outcome = cpu.run();
    assert_eq!(outcome, Err(Fault::StackUnderflow));
}

#[test]
fn halt_leaves_registers_as_written() {
    let mut cpu = CPU::new();
    cpu.set_register(3, 77);
    cpu.set_register(0xF, 1);
    // Memory is all zeroes, so the very first instruction halts.
    let outcome = cpu.run();
    assert_eq!(outcome, Ok(()));
    assert_eq!(cpu.program_counter, 2);
    assert_eq!(cpu.register(3), 77);
    assert_eq!(cpu.register(0xF), 1);
    for i in 0..16 {
        if i != 3 && i != 0xF {
            assert_eq!(cpu.register(i), 0);
        }
    }
}

#[test]
fn fetch_at_last_byte_faults() {
    let mut cpu = CPU::new();
    cpu.program_counter = 4095;
    let outcome = cpu.run();
    assert_eq!(outcome, Err(Fault::OutOfBoundsFetch));
    assert_eq!(cpu.program_counter, 4095);
}

#[test]
fn fetch_past_end_faults() {
    let mut cpu = CPU::new();
    cpu.program_counter = 4096;
    assert_eq!(cpu.run(), Err(Fault::OutOfBoundsFetch));
}

#[test]
fn unimplemented_opcode_reports_word() {
    let mut cpu = CPU::new();
    load(&mut cpu, 0x000, &[0xFF, 0xFF]);
    assert_eq!(cpu.run(), Err(Fault::UnimplementedOpcode(0xFFFF)));

    let mut cpu = CPU::new();
    // An 0x8xyd word whose selector is not 4 is not implemented.
    load(&mut cpu, 0x000, &[0x80, 0x15]);
    assert_eq!(cpu.run(), Err(Fault::UnimplementedOpcode(0x8015)));
}

#[test]
fn new_machine_is_zeroed() {
    let cpu = CPU::new();
    assert_eq!(cpu.program_counter, 0);
    assert_eq!(cpu.stack_pointer, 0);
    assert_eq!(cpu.memory.len(), 4096);
    assert_eq!(cpu.registers.len(), 16);
    assert_eq!(cpu.stack.len(), 16);
    assert!(cpu.memory.iter().all(|b| *b == 0));
    assert!(cpu.registers.iter().all(|b| *b == 0));
    assert!(cpu.stack.iter().all(|w| *w == 0));
}
