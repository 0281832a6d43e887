use isa_sim::assembler::encode;
use isa_sim::machine::{
    add, execute, handler_for, nop, sub, val, Handler, Machine, Stop, NUM_REGISTERS, NUM_WORDS,
    PC_REGISTER,
};

fn enc(line: &str) -> u32 {
    encode(line.to_string())
}

fn machine_with(lines: &[&str]) -> Machine {
    let program: Vec<u32> = lines.iter().map(|l| enc(l)).collect();
    let mut m = Machine::new();
    assert!(m.load(&program));
    m
}

#[test]
fn new_machine_is_zeroed() {
    let m = Machine::new();
    assert!(m.registers.iter().all(|&r| r == 0));
    assert!(m.memory.iter().all(|&w| w == 0));
    assert_eq!(m.registers.len(), NUM_REGISTERS);
    assert_eq!(m.memory.len(), NUM_WORDS);
}

#[test]
fn load_places_words_from_zero() {
    let mut m = Machine::new();
    m.memory[5] = 77;
    assert!(m.load(&[1, 2, 3]));
    assert_eq!(&m.memory[..6], &[1, 2, 3, 0, 0, 77]);
}

#[test]
fn load_refuses_oversized_program() {
    let mut m = Machine::new();
    let big = vec![1u32; NUM_WORDS + 1];
    assert!(!m.load(&big));
    assert!(m.memory.iter().all(|&w| w == 0));
    let full = vec![1u32; NUM_WORDS];
    assert!(m.load(&full));
}

#[test]
fn val_resolves_operand_bytes() {
    let mut regs = [0u32; NUM_REGISTERS];
    regs[0] = 11;
    regs[3] = 9;
    regs[15] = 4;
    assert_eq!(val(5, &regs), 5);
    assert_eq!(val(127, &regs), 127);
    assert_eq!(val(0x80, &regs), 11);
    assert_eq!(val(0x83, &regs), 9);
    assert_eq!(val(0x8f, &regs), 4);
    // An index of 16 or more is taken as index 0.
    assert_eq!(val(0x90, &regs), 11);
    assert_eq!(val(0xff, &regs), 11);
}

#[test]
fn handlers_mutate_registers() {
    let mut regs = [0u32; NUM_REGISTERS];
    let mut mem = [0u32; NUM_WORDS];
    regs[1] = 0xffff_ffff;
    assert!(!nop(0, 1, 2, &mut regs, &mut mem));
    assert_eq!(regs[0], 0);
    assert!(add(0, 0x81, 2, &mut regs, &mut mem));
    assert_eq!(regs[0], 1);
    assert!(sub(2, 2, 5, &mut regs, &mut mem));
    assert_eq!(regs[2], 4_294_967_293);
    assert!(sub(3, 0x81, 0x82, &mut regs, &mut mem));
    assert_eq!(regs[3], 0x0000_0002);
}

#[test]
fn dispatch_table() {
    assert_eq!(handler_for(0), Handler::NoOp);
    assert_eq!(handler_for(1), Handler::Add);
    assert_eq!(handler_for(2), Handler::Subtract);
    assert_eq!(handler_for(3), Handler::NoOp);
    assert_eq!(handler_for(31), Handler::NoOp);
    let mut regs = [0u32; NUM_REGISTERS];
    let mut mem = [0u32; NUM_WORDS];
    assert!(Handler::Add.invoke(4, 3, 4, &mut regs, &mut mem));
    assert_eq!(regs[4], 7);
    assert!(!Handler::NoOp.invoke(4, 3, 4, &mut regs, &mut mem));
    assert_eq!(regs[4], 7);
}

#[test]
fn execute_decodes_and_dispatches() {
    let mut regs = [0u32; NUM_REGISTERS];
    let mut mem = [0u32; NUM_WORDS];
    assert!(!execute(0, &mut regs, &mut mem));
    assert!(execute(enc("ADD 1 2 3"), &mut regs, &mut mem));
    assert_eq!(regs[1], 5);
    assert!(!execute(3 << 27 | 0x0001_0203, &mut regs, &mut mem));
    assert!(!execute(enc("FOO 1 2 3"), &mut regs, &mut mem));
    assert_eq!(regs[1], 5);
    assert_eq!(regs[0], 0);
}

#[test]
fn add_zero_halts_after_one_cycle() {
    let mut m = machine_with(&["ADD 0 0 0"]);
    assert_eq!(m.run(100), (1, Stop::Halted));
    assert_eq!(m.registers[0], 0);
    assert_eq!(m.registers[PC_REGISTER], 1);
}

#[test]
fn two_adds_in_sequence() {
    let mut m = machine_with(&["ADD 1 2 3", "ADD 0 0 1"]);
    assert_eq!(m.run(100), (2, Stop::Halted));
    assert_eq!(m.registers[1], 5);
    // The third operand `1` is an immediate: register 0 gets 0 + 1.
    assert_eq!(m.registers[0], 1);
    let mut m = machine_with(&["ADD 1 2 3", "ADD 0 0 R1"]);
    assert_eq!(m.run(100), (2, Stop::Halted));
    assert_eq!(m.registers[1], 5);
    assert_eq!(m.registers[0], 5);
}

#[test]
fn subtract_wraps_to_twos_complement() {
    let mut m = machine_with(&["SUB 0 2 5"]);
    assert_eq!(m.run(100), (1, Stop::Halted));
    assert_eq!(m.registers[0], 4_294_967_293);
    assert_eq!(m.registers[0] as i32, -3);
}

#[test]
fn zero_word_halts_immediately() {
    let mut m = Machine::new();
    assert!(m.load(&[0]));
    assert_eq!(m.run(100), (0, Stop::Halted));
    assert!(m.registers.iter().all(|&r| r == 0));
}

#[test]
fn unknown_opcode_stops_run() {
    let mut m = Machine::new();
    assert!(m.load(&[enc("ADD 1 2 3"), 5 << 27 | 0x0002_0101]));
    assert_eq!(m.run(100), (1, Stop::UnknownOpcode));
    assert_eq!(m.registers[1], 5);
    assert_eq!(m.registers[2], 0);
    assert_eq!(m.registers[PC_REGISTER], 1);
}

#[test]
fn pc_out_of_range_stops_run() {
    let mut m = Machine::new();
    m.registers[PC_REGISTER] = NUM_WORDS as u32;
    assert_eq!(m.run(100), (0, Stop::PcOutOfRange));
    let mut m = Machine::new();
    m.registers[PC_REGISTER] = u32::MAX;
    assert_eq!(m.run(100), (0, Stop::PcOutOfRange));
}

#[test]
fn immediate_with_high_bit_reads_as_register() {
    // 200 has bit 7 set: it names register 72, which does not exist, so it
    // reads register 0.
    let mut m = machine_with(&["ADD 0 0 7", "ADD 4 0 200"]);
    assert_eq!(m.run(100), (2, Stop::Halted));
    assert_eq!(m.registers[0], 7);
    assert_eq!(m.registers[4], 7);
    assert_eq!(m.registers[PC_REGISTER], 2);
}

#[test]
fn writing_pc_redirects_control_flow() {
    // Register 15 becomes 100; after the advance the next fetch is word 101, which is 0.
    let mut m = machine_with(&["ADD 15 0 100", "ADD 4 0 9"]);
    assert_eq!(m.run(100), (1, Stop::Halted));
    assert_eq!(m.registers[PC_REGISTER], 101);
    assert_eq!(m.registers[4], 0);
}

#[test]
fn cycle_limit_stops_endless_loop() {
    // Writing the program counter: PC becomes 0 - 1, then wraps to 0 on advance.
    let mut m = machine_with(&["SUB 15 R15 1"]);
    assert_eq!(m.run(10), (10, Stop::CycleLimit));
    assert_eq!(m.registers[PC_REGISTER], 0);
    let mut m = machine_with(&["ADD 0 0 1"]);
    assert_eq!(m.run(0), (0, Stop::CycleLimit));
    assert_eq!(m.registers[0], 0);
}

#[test]
fn step_advances_one_cycle() {
    let mut m = machine_with(&["ADD 3 4 5", "SUB 3 R3 1"]);
    assert_eq!(m.stop_reason(), None);
    assert_eq!(m.step(), None);
    assert_eq!(m.registers[3], 9);
    assert_eq!(m.registers[PC_REGISTER], 1);
    assert_eq!(m.step(), None);
    assert_eq!(m.registers[3], 8);
    assert_eq!(m.stop_reason(), Some(Stop::Halted));
    assert_eq!(m.step(), Some(Stop::Halted));
    assert_eq!(m.registers[PC_REGISTER], 2);
}
