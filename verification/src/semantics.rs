//! The mathematical model of the virtual machine: its abstract state, the
//! instruction decoder, and a deterministic small-step semantics that the
//! executable interpreter is proved to follow.

use vstd::prelude::*;

verus! {

/// Number of bytes of addressable memory.
pub const MEMORY_SIZE: usize = 4096;

/// Number of 8-bit general-purpose registers.
pub const REGISTER_COUNT: usize = 16;

/// Capacity of the call stack, in return addresses.
pub const STACK_SIZE: usize = 16;

/// Index of the carry/overflow flag register.
pub const FLAG_REGISTER: usize = 15;

/// A fatal fault: each one aborts the running interpreter, because going on
/// after any of them would execute on a corrupted machine state.
#[derive(Clone, Copy, Debug, PartialEq, Eq, Structural)]
pub enum Fault {
    /// A call was attempted while the call stack was full.
    StackOverflow,
    /// A return was attempted while the call stack was empty.
    StackUnderflow,
    /// The fetched instruction word matches no known pattern; carries the
    /// literal word for diagnosis.
    UnimplementedOpcode(u16),
    /// The program counter does not leave two bytes to fetch.
    OutOfBoundsFetch,
}

/// An instruction, as decoded from a 16-bit word. Decoding is total: every
/// word maps to some variant, with `Unknown` carrying unrecognized words.
#[derive(Clone, Copy, Debug, PartialEq, Eq, Structural)]
pub enum Instruction {
    /// Opcode 0x0000: stop execution.
    Halt,
    /// Opcode 0x00EE: pop a return address off the call stack into the
    /// program counter.
    Ret,
    /// Opcodes 0x2nnn: push the program counter onto the call stack and jump
    /// to the 12-bit address `nnn`.
    Call(u16),
    /// Opcodes 0x8xy4: add register `y` into register `x` with 8-bit
    /// wraparound, recording overflow in the flag register.
    AddXY(u8, u8),
    /// Any other word: an unimplemented opcode.
    Unknown(u16),
}

/// The abstract state of the whole virtual CPU.
#[verifier::ext_equal]
pub struct MachineState {
    /// Byte-addressable memory holding both instructions and data.
    pub memory: Seq<u8>,
    /// The sixteen 8-bit general-purpose registers; index 15 is the
    /// carry/overflow flag.
    pub registers: Seq<u8>,
    /// Return addresses of the calls now in progress, in slots
    /// `0 .. stack_pointer`.
    pub stack: Seq<u16>,
    /// Next free stack slot; 0 means the stack is empty.
    pub stack_pointer: nat,
    /// Byte offset of the next instruction to fetch.
    pub program_counter: nat,
}

impl MachineState {
    /// The state's shape: the three arrays have their fixed sizes and the
    /// stack pointer stays within the stack's capacity.
    pub open spec fn wf(self) -> bool {
        &&& self.memory.len() == MEMORY_SIZE
        &&& self.registers.len() == REGISTER_COUNT
        &&& self.stack.len() == STACK_SIZE
        &&& self.stack_pointer <= STACK_SIZE
    }
}

/// The most significant nibble of an instruction word: the instruction class.
pub open spec fn op_c(op: u16) -> u16 {
    op >> 12
}

/// Bits 8..12 of an instruction word: typically a register index.
pub open spec fn op_x(op: u16) -> u16 {
    (op >> 8) & 0xF
}

/// Bits 4..8 of an instruction word: typically a register index.
pub open spec fn op_y(op: u16) -> u16 {
    (op >> 4) & 0xF
}

/// The least significant nibble: a sub-operation selector.
pub open spec fn op_d(op: u16) -> u16 {
    op & 0xF
}

/// The low 12 bits: a wide address/immediate operand.
pub open spec fn op_nnn(op: u16) -> u16 {
    op & 0xFFF
}

/// The 16-bit instruction word at byte offset `pc`: big-endian, the byte at
/// the lower address gives the high-order bits.
pub open spec fn opcode_at(mem: Seq<u8>, pc: nat) -> u16
    recommends
        pc + 1 < mem.len(),
{
    ((mem[pc as int] as u16) << 8) | (mem[pc as int + 1] as u16)
}

/// Total decoder: splits a word into nibbles and classifies it. The patterns
/// of the implemented instructions are mutually exclusive.
pub open spec fn decode(op: u16) -> Instruction {
    if op_c(op) == 0 && op_x(op) == 0 && op_y(op) == 0 && op_d(op) == 0 {
        Instruction::Halt
    } else if op_c(op) == 0 && op_x(op) == 0 && op_y(op) == 0xE && op_d(op) == 0xE {
        Instruction::Ret
    } else if op_c(op) == 2 {
        Instruction::Call(op_nnn(op))
    } else if op_c(op) == 8 && op_d(op) == 4 {
        Instruction::AddXY(op_x(op) as u8, op_y(op) as u8)
    } else {
        Instruction::Unknown(op)
    }
}

/// The instruction the machine would execute next.
pub open spec fn current_instruction(s: MachineState) -> Instruction
    recommends
        s.program_counter + 1 < s.memory.len(),
{
    decode(opcode_at(s.memory, s.program_counter))
}

/// The state right after a fetch: the program counter has moved past the
/// 2-byte instruction, nothing else has changed.
pub open spec fn advance(s: MachineState) -> MachineState {
    MachineState { program_counter: s.program_counter + 2, ..s }
}

/// The register file after `ADD Vx,Vy`: register `x` takes the 8-bit
/// wrapped sum, and the flag register records whether the sum overflowed.
pub open spec fn regs_after_add(regs: Seq<u8>, x: int, y: int) -> Seq<u8>
    recommends
        0 <= x < regs.len(),
        0 <= y < regs.len(),
        FLAG_REGISTER < regs.len(),
{
    regs.update(x, ((regs[x] + regs[y]) % 256) as u8).update(
        FLAG_REGISTER as int,
        if regs[x] + regs[y] >= 256 {
            1u8
        } else {
            0u8
        },
    )
}

/// What one step of the machine yields.
pub enum StepResult {
    /// The halt instruction was executed; execution is over, with this final
    /// state.
    Halted(MachineState),
    /// A fatal fault; the state is as it stood when the fault was detected.
    Faulted(Fault, MachineState),
    /// An ordinary instruction was executed; execution goes on from this
    /// state.
    Running(MachineState),
}

/// One step of the machine: fetch, unconditional 2-byte advance, decode,
/// execute. Deterministic and total.
pub open spec fn step(s: MachineState) -> StepResult
    recommends
        s.wf(),
{
    if s.program_counter + 1 >= s.memory.len() {
        StepResult::Faulted(Fault::OutOfBoundsFetch, s)
    } else {
        let op = opcode_at(s.memory, s.program_counter);
        let a = advance(s);
        match decode(op) {
            Instruction::Halt => StepResult::Halted(a),
            Instruction::Ret => if a.stack_pointer == 0 {
                StepResult::Faulted(Fault::StackUnderflow, a)
            } else {
                StepResult::Running(
                    MachineState {
                        stack_pointer: (a.stack_pointer - 1) as nat,
                        program_counter: a.stack[a.stack_pointer - 1] as nat,
                        ..a
                    },
                )
            },
            Instruction::Call(nnn) => if a.stack_pointer >= a.stack.len() {
                StepResult::Faulted(Fault::StackOverflow, a)
            } else {
                StepResult::Running(
                    MachineState {
                        stack: a.stack.update(
                            a.stack_pointer as int,
                            a.program_counter as u16,
                        ),
                        stack_pointer: a.stack_pointer + 1,
                        program_counter: nnn as nat,
                        ..a
                    },
                )
            },
            Instruction::AddXY(x, y) => StepResult::Running(
                MachineState { registers: regs_after_add(a.registers, x as int, y as int), ..a },
            ),
            Instruction::Unknown(w) => StepResult::Faulted(Fault::UnimplementedOpcode(w), a),
        }
    }
}

/// Upper bound on every program counter and return address the running
/// machine can hold: return addresses fit in 16 bits, and a fetched program
/// counter stays below `MEMORY_SIZE`.
pub const ADDRESS_CEILING: usize = 70000;

/// A termination measure for the interpreter, one component per call-stack
/// level, compared lexicographically with level 0 first.
///
/// A suspended level (below the stack pointer) counts down from its stored
/// return address; the active level (at the stack pointer) counts down from
/// the program counter, weighted so that suspending it by a call — which
/// stores the advanced program counter — strictly shrinks it; levels not yet
/// entered sit at a maximum. Every non-terminal step shrinks the innermost
/// level it touches and leaves the outer ones alone: an add or a successful
/// call advances past the current instruction, and a successful return turns
/// a suspended level into an active one at its own return address.
pub open spec fn level_measure(s: MachineState, level: int) -> int {
    if level < s.stack_pointer {
        2 * (ADDRESS_CEILING - s.stack[level]) + 1
    } else if level == s.stack_pointer {
        2 * (ADDRESS_CEILING - s.program_counter)
    } else {
        2 * ADDRESS_CEILING + 2
    }
}

/// The state after `n` ordinary steps from `s`, or `None` if execution halts
/// or faults within those steps.
pub open spec fn steps_from(s: MachineState, n: nat) -> Option<MachineState>
    decreases n,
{
    if n == 0 {
        Some(s)
    } else {
        match step(s) {
            StepResult::Running(t) => steps_from(t, (n - 1) as nat),
            _ => None,
        }
    }
}

/// The final state and outcome of running the machine from `s`, if it stops
/// within `fuel` ordinary steps: `Ok(())` on halt, the fault otherwise.
pub open spec fn run_from(s: MachineState, fuel: nat) -> Option<(MachineState, Result<(), Fault>)>
    decreases fuel,
{
    match step(s) {
        StepResult::Halted(t) => Some((t, Ok(()))),
        StepResult::Faulted(f, t) => Some((t, Err(f))),
        StepResult::Running(t) => if fuel == 0 {
            None
        } else {
            run_from(t, (fuel - 1) as nat)
        },
    }
}

/// Extending a run of ordinary steps by one more ordinary step.
pub proof fn lemma_steps_extend(s: MachineState, n: nat, t: MachineState, u: MachineState)
    requires
        steps_from(s, n) == Some(t),
        step(t) == StepResult::Running(u),
    ensures
        steps_from(s, n + 1) == Some(u),
    decreases n,
{
    if n == 0 {
        assert(s == t);
        assert(steps_from(u, 0) == Some(u));
        assert(steps_from(s, 1) == Some(u));
    } else {
        match step(s) {
            StepResult::Running(m) => {
                lemma_steps_extend(m, (n - 1) as nat, t, u);
                assert(steps_from(s, n + 1) == steps_from(m, n));
            },
            _ => {
                assert(false);
            },
        }
    }
}

/// The outcome a terminal step yields: the final state paired with `Ok(())`
/// for a halt and with the fault otherwise.
pub open spec fn outcome_of(sr: StepResult) -> Option<(MachineState, Result<(), Fault>)> {
    match sr {
        StepResult::Halted(t) => Some((t, Ok(()))),
        StepResult::Faulted(f, t) => Some((t, Err(f))),
        StepResult::Running(_) => None,
    }
}

/// A run that takes `n` ordinary steps and then halts or faults is exactly
/// what `run_from` computes with fuel `n`.
pub proof fn lemma_run_complete(s: MachineState, n: nat, t: MachineState)
    requires
        steps_from(s, n) == Some(t),
        !(step(t) is Running),
    ensures
        run_from(s, n) == outcome_of(step(t)),
    decreases n,
{
    if n == 0 {
    } else {
        match step(s) {
            StepResult::Running(m) => {
                lemma_run_complete(m, (n - 1) as nat, t);
            },
            _ => {
                assert(false);
            },
        }
    }
}

/// For every pair of register indices a decoded add names, the add step sets
/// the flag register to 1 exactly when the two registers' sum reaches 256
/// before wraparound, and to 0 otherwise — on every invocation, overflowing
/// or not — and leaves the 8-bit wrapped sum in register `x`.
pub proof fn lemma_add_flag(s: MachineState, x: u8, y: u8)
    requires
        s.wf(),
        s.program_counter + 1 < s.memory.len(),
        current_instruction(s) == Instruction::AddXY(x, y),
    ensures
        step(s) matches StepResult::Running(t) && {
            &&& t.registers[FLAG_REGISTER as int] == 1u8 <==> s.registers[x as int]
                + s.registers[y as int] >= 256
            &&& t.registers[FLAG_REGISTER as int] == 1u8 || t.registers[FLAG_REGISTER as int]
                == 0u8
            &&& x != FLAG_REGISTER ==> t.registers[x as int] == (s.registers[x as int]
                + s.registers[y as int]) % 256
            &&& t.memory == s.memory
            &&& t.stack == s.stack
            &&& t.stack_pointer == s.stack_pointer
            &&& t.program_counter == s.program_counter + 2
        },
{
    let op = opcode_at(s.memory, s.program_counter);
    assert(((op >> 8) & 0xF) < 16 && ((op >> 4) & 0xF) < 16) by (bit_vector);
}

/// A call followed immediately by a return: when the current instruction is
/// a call with room left on the stack, and the call target holds a return
/// instruction, two steps restore the program counter to the value it held
/// right after the call's own 2-byte advance, with registers, memory and
/// stack pointer as they were.
pub proof fn lemma_call_then_ret(s: MachineState, nnn: u16)
    requires
        s.wf(),
        s.program_counter + 1 < s.memory.len(),
        current_instruction(s) == Instruction::Call(nnn),
        s.stack_pointer < STACK_SIZE,
        nnn + 1 < s.memory.len(),
        decode(opcode_at(s.memory, nnn as nat)) == Instruction::Ret,
    ensures
        step(s) matches StepResult::Running(s1) && step(s1) matches StepResult::Running(s2) && {
            &&& s2.program_counter == s.program_counter + 2
            &&& s2.stack_pointer == s.stack_pointer
            &&& s2.registers == s.registers
            &&& s2.memory == s.memory
        },
{
    let a = advance(s);
    let s1 = MachineState {
        stack: a.stack.update(a.stack_pointer as int, a.program_counter as u16),
        stack_pointer: a.stack_pointer + 1,
        program_counter: nnn as nat,
        ..a
    };
    assert(step(s) == StepResult::Running(s1));
    let a1 = advance(s1);
    let s2 = MachineState {
        stack_pointer: (a1.stack_pointer - 1) as nat,
        program_counter: a1.stack[a1.stack_pointer - 1] as nat,
        ..a1
    };
    assert(step(s1) == StepResult::Running(s2));
    assert(s2.program_counter == s.program_counter + 2);
}

/// A call succeeds exactly while the stack has room: below capacity it
/// pushes the advanced program counter and jumps to its operand, so calls
/// can nest up to the stack's capacity; at capacity one more call faults
/// with `StackOverflow`, pushing nothing.
pub proof fn lemma_call_capacity(s: MachineState, nnn: u16)
    requires
        s.wf(),
        s.program_counter + 1 < s.memory.len(),
        current_instruction(s) == Instruction::Call(nnn),
    ensures
        s.stack_pointer < STACK_SIZE ==> (step(s) matches StepResult::Running(t) && {
            &&& t.stack_pointer == s.stack_pointer + 1
            &&& t.program_counter == nnn
            &&& t.stack[s.stack_pointer as int] == s.program_counter + 2
        }),
        s.stack_pointer >= STACK_SIZE ==> step(s) == StepResult::Faulted(
            Fault::StackOverflow,
            advance(s),
        ),
{
}

/// A return with an empty stack faults with `StackUnderflow`, whenever the
/// stack pointer is 0, with only the fetch's 2-byte advance applied.
pub proof fn lemma_ret_underflow(s: MachineState)
    requires
        s.wf(),
        s.program_counter + 1 < s.memory.len(),
        current_instruction(s) is Ret,
        s.stack_pointer == 0,
    ensures
        step(s) == StepResult::Faulted(Fault::StackUnderflow, advance(s)),
{
}

/// The halt instruction stops a run at once, whatever the fuel: the run
/// ends successfully in the current state with only the program counter
/// advanced, so every register is left exactly as last written.
pub proof fn lemma_halt_stops_run(s: MachineState, fuel: nat)
    requires
        s.program_counter + 1 < s.memory.len(),
        current_instruction(s) is Halt,
    ensures
        run_from(s, fuel) == Some((advance(s), Ok::<(), Fault>(()))),
        advance(s).registers == s.registers,
{
}

/// Fetching with fewer than two bytes left — in particular with the program
/// counter on the last byte of memory — ends the run at once with
/// `OutOfBoundsFetch`, reading nothing and changing nothing.
pub proof fn lemma_fetch_out_of_bounds(s: MachineState, fuel: nat)
    requires
        s.program_counter + 1 >= s.memory.len(),
    ensures
        run_from(s, fuel) == Some((s, Err::<(), Fault>(Fault::OutOfBoundsFetch))),
{
}

} // verus!

