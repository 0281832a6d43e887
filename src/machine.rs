//! Machine state, the op-code handlers, their dispatch, and the
//! fetch-decode-execute engine.

use crate::assembler::{OP_ADD, OP_NOP, OP_SUB};
use crate::codec::{extract_bits, field_of, DEST_SHIFT, OPCODE_SHIFT, OPERAND2_SHIFT, OPERAND3_SHIFT};
use vstd::prelude::*;

verus! {

/// Number of words in memory.
pub const NUM_WORDS: usize = 2048;
/// Number of registers.
pub const NUM_REGISTERS: usize = 16;
/// The register that holds the program counter, a word index into memory.
pub const PC_REGISTER: usize = 15;

/// `x` reduced to 32 bits, as two's-complement hardware keeps it.
pub open spec fn wrap32(x: int) -> u32 {
    (x % 0x1_0000_0000) as u32
}

/// The value an operand byte denotes: with bit 7 set, the contents of the
/// register its low 7 bits name, an index of 16 or more being taken as 0;
/// otherwise the byte itself.
pub open spec fn operand_value(arg: u8, regs: Seq<u32>) -> u32 {
    if arg >= 128 {
        if arg - 128 < 16 {
            regs[arg - 128]
        } else {
            regs[0]
        }
    } else {
        arg as u32
    }
}

/// The op-code field of a word.
pub open spec fn opcode_field(w: u32) -> nat {
    field_of(w as nat, 27, 5)
}

/// The registers after the handlers run the word `w`, or `None` when `w`
/// stops the machine (the zero word, op-code 0, or an op-code with no handler).
pub open spec fn executed(w: u32, regs: Seq<u32>) -> Option<Seq<u32>> {
    let dest = field_of(w as nat, 16, 4) as int;
    let a = operand_value(field_of(w as nat, 8, 8) as u8, regs);
    let b = operand_value(field_of(w as nat, 0, 8) as u8, regs);
    if w == 0 {
        None
    } else if opcode_field(w) == 1 {
        Some(regs.update(dest, wrap32(a + b)))
    } else if opcode_field(w) == 2 {
        Some(regs.update(dest, wrap32(a - b)))
    } else {
        None
    }
}

/// Resolves an operand byte against the register file.
pub fn val(arg: u8, registers: &[u32; NUM_REGISTERS]) -> (r: u32)
    ensures
        r == operand_value(arg, registers@),
{
    assert(arg & 128u8 != 0 <==> arg >= 128) by (bit_vector);
    assert(arg >= 128 ==> arg & 127u8 == arg - 128) by (bit_vector);
    if arg & 128 != 0 {
        let index = (arg & 127) as usize;
        if index < NUM_REGISTERS {
            registers[index]
        } else {
            registers[0]
        }
    } else {
        arg as u32
    }
}

/// The no-op handler: changes nothing and stops the machine.
pub fn nop(
    dest: u8,
    arg1: u8,
    arg2: u8,
    registers: &mut [u32; NUM_REGISTERS],
    memory: &mut [u32; NUM_WORDS],
) -> (r: bool)
    ensures
        !r,
        final(registers)@ == old(registers)@,
        final(memory)@ == old(memory)@,
{
    false
}

/// The add handler: the destination register gets the sum of the two operand
/// values modulo 2^32; execution continues.
pub fn add(
    dest: u8,
    arg1: u8,
    arg2: u8,
    registers: &mut [u32; NUM_REGISTERS],
    memory: &mut [u32; NUM_WORDS],
) -> (r: bool)
    requires
        dest < NUM_REGISTERS,
    ensures
        r,
        final(registers)@ == old(registers)@.update(
            dest as int,
            wrap32(operand_value(arg1, old(registers)@) + operand_value(arg2, old(registers)@)),
        ),
        final(memory)@ == old(memory)@,
{
    let sum = val(arg1, registers).wrapping_add(val(arg2, registers));
    registers[dest as usize] = sum;
    true
}

/// The subtract handler: the destination register gets the bit pattern of the
/// signed difference of the two operand values, that is the difference modulo
/// 2^32; execution continues.
pub fn sub(
    dest: u8,
    arg1: u8,
    arg2: u8,
    registers: &mut [u32; NUM_REGISTERS],
    memory: &mut [u32; NUM_WORDS],
) -> (r: bool)
    requires
        dest < NUM_REGISTERS,
    ensures
        r,
        final(registers)@ == old(registers)@.update(
            dest as int,
            wrap32(operand_value(arg1, old(registers)@) - operand_value(arg2, old(registers)@)),
        ),
        final(memory)@ == old(memory)@,
{
    let difference = val(arg1, registers).wrapping_sub(val(arg2, registers));
    registers[dest as usize] = difference;
    true
}

/// The behaviour bound to an op-code.
#[derive(Clone, Copy, Debug, PartialEq, Eq, Structural)]
pub enum Handler {
    NoOp,
    Add,
    Subtract,
}

/// The handler of an op-code as a specification.
pub open spec fn handler_of(opcode: nat) -> Handler {
    if opcode == 1 {
        Handler::Add
    } else if opcode == 2 {
        Handler::Subtract
    } else {
        Handler::NoOp
    }
}

/// The dispatch table: `ADD`'s and `SUB`'s op-codes have their handlers;
/// op-code 0, and every op-code with no handler, gets the no-op.
pub fn handler_for(opcode: u32) -> (r: Handler)
    ensures
        r == handler_of(opcode as nat),
{
    if opcode == OP_ADD {
        Handler::Add
    } else if opcode == OP_SUB {
        Handler::Subtract
    } else {
        Handler::NoOp
    }
}

impl Handler {
    /// Runs this handler on decoded fields; returns whether execution goes on.
    pub fn invoke(
        &self,
        dest: u8,
        arg1: u8,
        arg2: u8,
        registers: &mut [u32; NUM_REGISTERS],
        memory: &mut [u32; NUM_WORDS],
    ) -> (r: bool)
        requires
            dest < NUM_REGISTERS,
        ensures
            r == (*self != Handler::NoOp),
            *self == Handler::NoOp ==> final(registers)@ == old(registers)@,
            *self == Handler::Add ==> final(registers)@ == old(registers)@.update(
                dest as int,
                wrap32(operand_value(arg1, old(registers)@) + operand_value(arg2, old(registers)@)),
            ),
            *self == Handler::Subtract ==> final(registers)@ == old(registers)@.update(
                dest as int,
                wrap32(operand_value(arg1, old(registers)@) - operand_value(arg2, old(registers)@)),
            ),
            final(memory)@ == old(memory)@,
    {
        match self {
            Handler::NoOp => nop(dest, arg1, arg2, registers, memory),
            Handler::Add => crate::machine::add(dest, arg1, arg2, registers, memory),
            Handler::Subtract => crate::machine::sub(dest, arg1, arg2, registers, memory),
        }
    }
}

/// Decodes `ins` and runs its handler. The zero word stops at once, without
/// decoding. Returns whether execution goes on.
pub fn execute(ins: u32, registers: &mut [u32; NUM_REGISTERS], memory: &mut [u32; NUM_WORDS]) -> (r: bool)
    ensures
        r == executed(ins, old(registers)@) is Some,
        r ==> final(registers)@ == executed(ins, old(registers)@)->Some_0,
        !r ==> final(registers)@ == old(registers)@,
        final(memory)@ == old(memory)@,
{
    if ins == 0 {
        return false;
    }
    let op = extract_bits(ins, OPCODE_SHIFT, 5);
    let reg = extract_bits(ins, DEST_SHIFT, 4);
    let arg1 = extract_bits(ins, OPERAND2_SHIFT, 8);
    let arg2 = extract_bits(ins, OPERAND3_SHIFT, 8);
    proof {
        vstd::arithmetic::power2::lemma2_to64();
    }
    handler_for(op).invoke(reg as u8, arg1 as u8, arg2 as u8, registers, memory)
}

/// Why the engine stopped.
#[derive(Clone, Copy, Debug, PartialEq, Eq, Structural)]
pub enum Stop {
    /// The fetched word was the zero word or had op-code 0.
    Halted,
    /// The fetched word's op-code has no handler; it ran as a no-op.
    UnknownOpcode,
    /// The program counter was past the end of memory; nothing was fetched.
    PcOutOfRange,
    /// The cycle limit given to the run was reached.
    CycleLimit,
}

/// Why the machine stops at its next cycle, or `None` when that cycle runs an
/// `ADD` or `SUB` and execution goes on.
pub open spec fn stop_at(regs: Seq<u32>, mem: Seq<u32>) -> Option<Stop> {
    let pc = regs[PC_REGISTER as int];
    if pc >= mem.len() {
        Some(Stop::PcOutOfRange)
    } else if mem[pc as int] == 0 || opcode_field(mem[pc as int]) == 0 {
        Some(Stop::Halted)
    } else if opcode_field(mem[pc as int]) > 2 {
        Some(Stop::UnknownOpcode)
    } else {
        None
    }
}

/// The registers after one cycle that goes on: the fetched word is executed and
/// then the program counter advances by one word (modulo 2^32).
pub open spec fn advanced(regs: Seq<u32>, mem: Seq<u32>) -> Seq<u32> {
    let pc = regs[PC_REGISTER as int];
    let after = executed(mem[pc as int], regs)->Some_0;
    after.update(PC_REGISTER as int, wrap32(after[PC_REGISTER as int] + 1))
}

/// Running from `regs` over `mem` for at most `fuel` cycles that go on: the
/// final registers, the number of cycles that went on, and why the run stopped.
pub open spec fn run_from(regs: Seq<u32>, mem: Seq<u32>, fuel: nat) -> (Seq<u32>, nat, Stop)
    decreases fuel,
{
    match stop_at(regs, mem) {
        Some(why) => (regs, 0, why),
        None => if fuel == 0 {
            (regs, 0, Stop::CycleLimit)
        } else {
            let next = run_from(advanced(regs, mem), mem, (fuel - 1) as nat);
            (next.0, next.1 + 1, next.2)
        },
    }
}

/// A register file and a word-addressed memory. Register 15 is the program
/// counter: an instruction that writes it changes the flow of control.
pub struct Machine {
    pub registers: [u32; NUM_REGISTERS],
    pub memory: [u32; NUM_WORDS],
}

impl Machine {
    /// A machine with every register and every memory word 0.
    pub fn new() -> (r: Machine)
        ensures
            forall|i: int| 0 <= i < NUM_REGISTERS ==> r.registers@[i] == 0,
            forall|i: int| 0 <= i < NUM_WORDS ==> r.memory@[i] == 0,
    {
        Machine { registers: [0u32; NUM_REGISTERS], memory: [0u32; NUM_WORDS] }
    }

    /// Stores `program` in memory from index 0, one word per instruction in
    /// execution order. Returns false, and changes nothing, when the program
    /// does not fit in memory.
    pub fn load(&mut self, program: &[u32]) -> (ok: bool)
        ensures
            ok == (program@.len() <= NUM_WORDS),
            final(self).registers == old(self).registers,
            ok ==> final(self).memory@ == program@ + old(self).memory@.skip(program@.len() as int),
            !ok ==> final(self).memory == old(self).memory,
    {
        if program.len() > NUM_WORDS {
            return false;
        }
        let mut i: usize = 0;
        while i < program.len()
            invariant
                i <= program@.len() <= NUM_WORDS,
                self.registers == old(self).registers,
                self.memory@ == program@.subrange(0, i as int) + old(self).memory@.skip(i as int),
            decreases program@.len() - i,
        {
            self.memory[i] = program[i];
            i = i + 1;
            assert(self.memory@ =~= program@.subrange(0, i as int) + old(self).memory@.skip(
                i as int,
            ));
        }
        assert(program@.subrange(0, i as int) =~= program@);
        true
    }

    /// Why the machine stops at its next cycle, or `None` when that cycle goes on.
    pub fn stop_reason(&self) -> (r: Option<Stop>)
        ensures
            r == stop_at(self.registers@, self.memory@),
    {
        let pc = self.registers[PC_REGISTER];
        if pc as usize >= NUM_WORDS {
            return Some(Stop::PcOutOfRange);
        }
        let ins = self.memory[pc as usize];
        if ins == 0 {
            return Some(Stop::Halted);
        }
        let op = extract_bits(ins, OPCODE_SHIFT, 5);
        if op == OP_NOP {
            Some(Stop::Halted)
        } else if op > OP_SUB {
            Some(Stop::UnknownOpcode)
        } else {
            None
        }
    }

    /// One fetch-decode-execute cycle. Returns why the machine stopped, or
    /// `None` when the cycle went on and the program counter advanced.
    pub fn step(&mut self) -> (r: Option<Stop>)
        ensures
            r == stop_at(old(self).registers@, old(self).memory@),
            r is None ==> final(self).registers@ == advanced(
                old(self).registers@,
                old(self).memory@,
            ),
            r is Some ==> final(self).registers@ == old(self).registers@,
            final(self).memory@ == old(self).memory@,
    {
        let why = self.stop_reason();
        if why.is_some() {
            return why;
        }
        let ins = self.memory[self.registers[PC_REGISTER] as usize];
        let going_on = execute(ins, &mut self.registers, &mut self.memory);
        assert(going_on);
        self.registers[PC_REGISTER] = self.registers[PC_REGISTER].wrapping_add(1);
        None
    }

    /// Runs cycles until the machine stops or `max_cycles` cycles have gone on.
    /// Returns the number of cycles that went on and why the run stopped.
    pub fn run(&mut self, max_cycles: usize) -> (r: (usize, Stop))
        ensures
            final(self).registers@ == run_from(old(self).registers@, old(self).memory@, max_cycles as nat).0,
            r.0 as nat == run_from(old(self).registers@, old(self).memory@, max_cycles as nat).1,
            r.1 == run_from(old(self).registers@, old(self).memory@, max_cycles as nat).2,
            final(self).memory@ == old(self).memory@,
    {
        let mut done: usize = 0;
        loop
            invariant
                done <= max_cycles,
                self.memory@ == old(self).memory@,
                run_from(old(self).registers@, old(self).memory@, max_cycles as nat) == ({
                    let rest = run_from(self.registers@, self.memory@, (max_cycles - done) as nat);
                    (rest.0, (rest.1 + done) as nat, rest.2)
                }),
            decreases max_cycles - done,
        {
            let why = self.stop_reason();
            if let Some(why) = why {
                return (done, why);
            }
            if done == max_cycles {
                return (done, Stop::CycleLimit);
            }
            self.step();
            done = done + 1;
        }
    }
}

} // verus!
