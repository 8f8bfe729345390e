use chip8::cpu::{Fault, CPU};

#[test]
fn load_immediate_sets_register_and_advances() {
    let mut cpu = CPU::new();
    cpu.program_counter = 0x200;
    cpu.run_operation(0x6A7F).unwrap();
    assert_eq!(cpu.registers[0xA], 0x7F);
    assert_eq!(cpu.program_counter, 0x202);
}

#[test]
fn load_immediate_with_low_nibble_set() {
    let mut cpu = CPU::new();
    cpu.run_operation(0x6345).unwrap();
    assert_eq!(cpu.registers[3], 0x45);
    assert_eq!(cpu.program_counter, 2);
}

#[test]
fn add_immediate_wraps_without_flag() {
    let mut cpu = CPU::new();
    cpu.registers[2] = 0xF0;
    cpu.registers[15] = 7;
    cpu.run_operation(0x7220).unwrap();
    assert_eq!(cpu.registers[2], 0x10);
    assert_eq!(cpu.registers[15], 7);
}

#[test]
fn skip_not_equal_registers() {
    let mut cpu = CPU::new();
    cpu.registers[1] = 1;
    cpu.registers[2] = 2;
    cpu.run_operation(0x9120).unwrap();
    assert_eq!(cpu.program_counter, 4);

    let mut cpu = CPU::new();
    cpu.registers[1] = 3;
    cpu.registers[2] = 3;
    cpu.run_operation(0x9120).unwrap();
    assert_eq!(cpu.program_counter, 2);
}

#[test]
fn add_with_carry_flag() {
    let mut cpu = CPU::new();
    cpu.registers[0] = 0xFF;
    cpu.registers[1] = 0x01;
    cpu.run_operation(0x8014).unwrap();
    assert_eq!(cpu.registers[0], 0x00);
    assert_eq!(cpu.registers[15], 1);

    let mut cpu = CPU::new();
    cpu.registers[0] = 0x01;
    cpu.registers[1] = 0x01;
    cpu.run_operation(0x8014).unwrap();
    assert_eq!(cpu.registers[0], 0x02);
    assert_eq!(cpu.registers[15], 0);
}

#[test]
fn subtract_wraps_on_borrow() {
    let mut cpu = CPU::new();
    cpu.registers[1] = 0x01;
    cpu.registers[2] = 0x0F;
    cpu.run_operation(0x8125).unwrap();
    assert_eq!(cpu.registers[1], 0xF2);
    assert_eq!(cpu.registers[15], 1);
}

#[test]
fn reverse_subtract_wraps_and_clears_flag() {
    let mut cpu = CPU::new();
    cpu.registers[1] = 4;
    cpu.registers[2] = 2;
    cpu.run_operation(0x8127).unwrap();
    assert_eq!(cpu.registers[1], 0xFE);
    assert_eq!(cpu.registers[15], 0);
}

#[test]
fn shift_right_and_left_bits_out() {
    let mut cpu = CPU::new();
    cpu.registers[2] = 3;
    cpu.run_operation(0x8126).unwrap();
    assert_eq!(cpu.registers[1], 1);
    assert_eq!(cpu.registers[15], 1);

    let mut cpu = CPU::new();
    cpu.registers[2] = 255;
    cpu.run_operation(0x812E).unwrap();
    assert_eq!(cpu.registers[1], 254);
    assert_eq!(cpu.registers[15], 1);
}

#[test]
fn shift_left_flag_from_source_when_same_register() {
    let mut cpu = CPU::new();
    cpu.registers[3] = 0x81;
    cpu.run_operation(0x833E).unwrap();
    assert_eq!(cpu.registers[3], 0x02);
    assert_eq!(cpu.registers[15], 1);
}

#[test]
fn index_and_offset_jump() {
    let mut cpu = CPU::new();
    cpu.run_operation(0xA123).unwrap();
    assert_eq!(cpu.index_register, 0x123);
    assert_eq!(cpu.program_counter, 2);

    let mut cpu = CPU::new();
    cpu.registers[0] = 0xFF;
    cpu.run_operation(0xBFFF).unwrap();
    assert_eq!(cpu.program_counter, 0xFFF + 0xFF);
}

#[test]
fn jump_sets_counter() {
    let mut cpu = CPU::new();
    cpu.run_operation(0x1ABC).unwrap();
    assert_eq!(cpu.program_counter, 0xABC);
}

#[test]
fn random_is_masked() {
    let mut cpu = CPU::new();
    cpu.registers[4] = 0xAA;
    cpu.run_operation(0xC400).unwrap();
    assert_eq!(cpu.registers[4], 0);

    let mut cpu = CPU::new();
    cpu.run_operation(0xC40F).unwrap();
    assert_eq!(cpu.registers[4] & 0xF0, 0);
}

#[test]
fn execute_uses_given_random_byte() {
    let mut cpu = CPU::new();
    cpu.execute(0xC53C, 0xFF).unwrap();
    assert_eq!(cpu.registers[5], 0x3C);
    cpu.execute(0xC53C, 0x0F).unwrap();
    assert_eq!(cpu.registers[5], 0x0C);
}

#[test]
fn call_then_return_restores_counter() {
    let mut cpu = CPU::new();
    cpu.program_counter = 0x300;
    cpu.run_operation(0x2456).unwrap();
    assert_eq!(cpu.program_counter, 0x456);
    assert_eq!(cpu.stack_pointer, 1);
    cpu.run_operation(0x00EE).unwrap();
    assert_eq!(cpu.program_counter, 0x302);
    assert_eq!(cpu.stack_pointer, 0);
}

#[test]
fn seventeenth_call_overflows() {
    let mut cpu = CPU::new();
    for _ in 0..16 {
        cpu.program_counter = 0;
        assert_eq!(cpu.run_operation(0x2100), Ok(()));
    }
    assert_eq!(cpu.stack_pointer, 16);
    cpu.program_counter = 0;
    assert_eq!(cpu.run_operation(0x2100), Err(Fault::StackOverflow));
    assert_eq!(cpu.stack_pointer, 16);
}

#[test]
fn return_on_empty_stack_underflows() {
    let mut cpu = CPU::new();
    assert_eq!(cpu.run_operation(0x00EE), Err(Fault::StackUnderflow));
    assert_eq!(cpu.stack_pointer, 0);
}

#[test]
fn unknown_opcodes_are_reported() {
    let mut cpu = CPU::new();
    assert_eq!(cpu.run_operation(0x00E0), Err(Fault::Unimplemented(0x00E0)));
    assert_eq!(cpu.run_operation(0x5121), Err(Fault::Unimplemented(0x5121)));
    assert_eq!(cpu.run_operation(0x8128), Err(Fault::Unimplemented(0x8128)));
    assert_eq!(cpu.run_operation(0xF165), Err(Fault::Unimplemented(0xF165)));
}

#[test]
fn fetch_is_big_endian() {
    let mut cpu = CPU::new();
    cpu.program_counter = 0x10;
    cpu.memory[0x10] = 0x12;
    cpu.memory[0x11] = 0x34;
    assert_eq!(cpu.read_operation(), Ok(0x1234));
}

#[test]
fn fetch_past_end_of_memory_fails() {
    let mut cpu = CPU::new();
    cpu.program_counter = 4095;
    assert_eq!(cpu.read_operation(), Err(Fault::FetchOutOfRange(4095)));
    cpu.program_counter = 4094;
    assert_eq!(cpu.read_operation(), Ok(0));
    let mut cpu = CPU::new();
    cpu.program_counter = 5000;
    assert_eq!(cpu.step(), Err(Fault::FetchOutOfRange(5000)));
}

#[test]
fn step_returns_executed_opcode() {
    let mut cpu = CPU::new();
    cpu.memory[0] = 0x61;
    cpu.memory[1] = 0x09;
    assert_eq!(cpu.step(), Ok(0x6109));
    assert_eq!(cpu.registers[1], 9);
    assert_eq!(cpu.program_counter, 2);
}

#[test]
fn run_program_with_two_calls() {
    let mut cpu = CPU::new();
    cpu.registers[0] = 5;
    cpu.registers[1] = 10;

    cpu.memory[0x000] = 0x21;
    cpu.memory[0x001] = 0x00;
    cpu.memory[0x002] = 0x21;
    cpu.memory[0x003] = 0x00;

    cpu.memory[0x100] = 0x80;
    cpu.memory[0x101] = 0x14;
    cpu.memory[0x102] = 0x80;
    cpu.memory[0x103] = 0x14;
    cpu.memory[0x104] = 0x00;
    cpu.memory[0x105] = 0xEE;

    assert_eq!(cpu.run(1000), Ok(true));
    assert_eq!(cpu.registers[0], 45);
    assert_eq!(cpu.program_counter, 6);
    assert_eq!(cpu.stack_pointer, 0);
}

#[test]
fn run_stops_when_budget_spent() {
    let mut cpu = CPU::new();
    // 0: jump to 0, forever
    cpu.memory[0] = 0x10;
    cpu.memory[1] = 0x00;
    assert_eq!(cpu.run(50), Ok(false));
    assert_eq!(cpu.program_counter, 0);
}

#[test]
fn run_reports_fault() {
    let mut cpu = CPU::new();
    cpu.memory[0] = 0x00;
    cpu.memory[1] = 0xEE;
    assert_eq!(cpu.run(10), Err(Fault::StackUnderflow));
}
