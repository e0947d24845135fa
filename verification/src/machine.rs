//! The executable interpreter: a CPU whose methods are proved to follow the
//! small-step semantics in `semantics`.

use vstd::prelude::*;

use crate::semantics::{
    advance, decode, lemma_run_complete, lemma_steps_extend, level_measure, opcode_at,
    regs_after_add, run_from, step, steps_from, Fault, Instruction, MachineState, StepResult,
    FLAG_REGISTER, MEMORY_SIZE, REGISTER_COUNT, STACK_SIZE,
};

verus! {

/// The virtual CPU: all interpreter state, mutated in place by `run`.
pub struct CPU {
    /// Byte offset of the next instruction to fetch.
    pub program_counter: usize,
    /// Byte-addressable memory; always `MEMORY_SIZE` bytes.
    pub memory: Vec<u8>,
    /// The sixteen 8-bit registers; index 15 is the carry/overflow flag.
    pub registers: Vec<u8>,
    /// The call stack; always `STACK_SIZE` slots, of which the first
    /// `stack_pointer` hold live return addresses.
    pub stack: Vec<u16>,
    /// Next free stack slot; 0 means the stack is empty.
    pub stack_pointer: usize,
}

impl View for CPU {
    type V = MachineState;

    open spec fn view(&self) -> MachineState {
        MachineState {
            memory: self.memory@,
            registers: self.registers@,
            stack: self.stack@,
            stack_pointer: self.stack_pointer as nat,
            program_counter: self.program_counter as nat,
        }
    }
}

/// A vector of `len` copies of `value`, built by a verified loop.
fn filled_bytes(len: usize, value: u8) -> (v: Vec<u8>)
    ensures
        v@.len() == len,
        forall|i: int| 0 <= i < len ==> v@[i] == value,
{
    let mut v: Vec<u8> = Vec::new();
    let mut i: usize = 0;
    while i < len
        invariant
            i <= len,
            v@.len() == i,
            forall|j: int| 0 <= j < i ==> v@[j] == value,
        decreases len - i,
    {
        v.push(value);
        i = i + 1;
    }
    v
}

/// A vector of `len` copies of `value`, built by a verified loop.
fn filled_words(len: usize, value: u16) -> (v: Vec<u16>)
    ensures
        v@.len() == len,
        forall|i: int| 0 <= i < len ==> v@[i] == value,
{
    let mut v: Vec<u16> = Vec::new();
    let mut i: usize = 0;
    while i < len
        invariant
            i <= len,
            v@.len() == i,
            forall|j: int| 0 <= j < i ==> v@[j] == value,
        decreases len - i,
    {
        v.push(value);
        i = i + 1;
    }
    v
}

/// Splits a 16-bit instruction word into its nibble fields and classifies
/// it, exactly as the specification decoder does. Total: every word yields a
/// variant.
pub fn decode_instruction(op: u16) -> (instr: Instruction)
    ensures
        instr == decode(op),
{
    let c: u16 = op >> 12;
    let x: u16 = (op >> 8) & 0xF;
    let y: u16 = (op >> 4) & 0xF;
    let d: u16 = op & 0xF;
    if c == 0 && x == 0 && y == 0 && d == 0 {
        Instruction::Halt
    } else if c == 0 && x == 0 && y == 0xE && d == 0xE {
        Instruction::Ret
    } else if c == 2 {
        Instruction::Call(op & 0xFFF)
    } else if c == 8 && d == 4 {
        Instruction::AddXY(x as u8, y as u8)
    } else {
        Instruction::Unknown(op)
    }
}

impl CPU {
    /// A machine with zeroed memory, registers and stack, an empty call
    /// stack, and the program counter at 0.
    pub fn new() -> (cpu: CPU)
        ensures
            cpu@.wf(),
            cpu@.program_counter == 0,
            cpu@.stack_pointer == 0,
            forall|i: int| 0 <= i < MEMORY_SIZE ==> cpu@.memory[i] == 0,
            forall|i: int| 0 <= i < REGISTER_COUNT ==> cpu@.registers[i] == 0,
            forall|i: int| 0 <= i < STACK_SIZE ==> cpu@.stack[i] == 0,
    {
        CPU {
            program_counter: 0,
            memory: filled_bytes(MEMORY_SIZE, 0),
            registers: filled_bytes(REGISTER_COUNT, 0),
            stack: filled_words(STACK_SIZE, 0),
            stack_pointer: 0,
        }
    }

    /// Writes one byte of memory, for loading a program image or data
    /// before a run.
    pub fn write_memory(&mut self, addr: usize, value: u8)
        requires
            old(self)@.wf(),
            addr < MEMORY_SIZE,
        ensures
            final(self)@.wf(),
            final(self)@ == (MachineState {
                memory: old(self)@.memory.update(addr as int, value),
                ..old(self)@
            }),
    {
        self.memory[addr] = value;
        proof {
            assert(self@ =~= (MachineState {
                memory: old(self)@.memory.update(addr as int, value),
                ..old(self)@
            }));
        }
    }

    /// Presets one register before a run.
    pub fn set_register(&mut self, index: usize, value: u8)
        requires
            old(self)@.wf(),
            index < REGISTER_COUNT,
        ensures
            final(self)@.wf(),
            final(self)@ == (MachineState {
                registers: old(self)@.registers.update(index as int, value),
                ..old(self)@
            }),
    {
        self.registers[index] = value;
        proof {
            assert(self@ =~= (MachineState {
                registers: old(self)@.registers.update(index as int, value),
                ..old(self)@
            }));
        }
    }

    /// Reads one register, for inspecting the machine after a run.
    pub fn register(&self, index: usize) -> (value: u8)
        requires
            self@.wf(),
            index < REGISTER_COUNT,
        ensures
            value == self@.registers[index as int],
    {
        self.registers[index]
    }

    /// Reads the two consecutive memory bytes at the program counter and
    /// combines them into one 16-bit word, the first byte as the high-order
    /// bits. Does not advance the program counter.
    pub fn read_opcode(&self) -> (op: u16)
        requires
            self@.wf(),
            self@.program_counter + 1 < self@.memory.len(),
        ensures
            op == opcode_at(self@.memory, self@.program_counter),
    {
        let pc: usize = self.program_counter;
        let op_byte1: u16 = self.memory[pc] as u16;
        let op_byte2: u16 = self.memory[pc + 1] as u16;
        (op_byte1 << 8) | op_byte2
    }

    /// Pushes the current program counter onto the call stack and jumps to
    /// `addr`; faults with `StackOverflow`, changing nothing, when the stack
    /// is already full.
    pub fn call(&mut self, addr: u16) -> (r: Result<(), Fault>)
        requires
            old(self)@.wf(),
            old(self)@.program_counter <= u16::MAX,
        ensures
            final(self)@.wf(),
            old(self)@.stack_pointer < STACK_SIZE ==> {
                &&& r == Ok::<(), Fault>(())
                &&& final(self)@ == (MachineState {
                    stack: old(self)@.stack.update(
                        old(self)@.stack_pointer as int,
                        old(self)@.program_counter as u16,
                    ),
                    stack_pointer: old(self)@.stack_pointer + 1,
                    program_counter: addr as nat,
                    ..old(self)@
                })
            },
            old(self)@.stack_pointer >= STACK_SIZE ==> {
                &&& r == Err::<(), Fault>(Fault::StackOverflow)
                &&& final(self)@ == old(self)@
            },
    {
        if self.stack_pointer >= self.stack.len() {
            return Err(Fault::StackOverflow);
        }
        let sp: usize = self.stack_pointer;
        self.stack[sp] = self.program_counter as u16;
        self.stack_pointer = sp + 1;
        self.program_counter = addr as usize;
        proof {
            assert(self@ =~= (MachineState {
                stack: old(self)@.stack.update(
                    old(self)@.stack_pointer as int,
                    old(self)@.program_counter as u16,
                ),
                stack_pointer: old(self)@.stack_pointer + 1,
                program_counter: addr as nat,
                ..old(self)@
            }));
        }
        Ok(())
    }

    /// Pops a return address off the call stack into the program counter;
    /// faults with `StackUnderflow`, changing nothing, when the stack is
    /// empty.
    pub fn ret(&mut self) -> (r: Result<(), Fault>)
        requires
            old(self)@.wf(),
        ensures
            final(self)@.wf(),
            old(self)@.stack_pointer == 0 ==> {
                &&& r == Err::<(), Fault>(Fault::StackUnderflow)
                &&& final(self)@ == old(self)@
            },
            old(self)@.stack_pointer > 0 ==> {
                &&& r == Ok::<(), Fault>(())
                &&& final(self)@ == (MachineState {
                    stack_pointer: (old(self)@.stack_pointer - 1) as nat,
                    program_counter: old(self)@.stack[old(self)@.stack_pointer - 1] as nat,
                    ..old(self)@
                })
            },
    {
        if self.stack_pointer == 0 {
            return Err(Fault::StackUnderflow);
        }
        self.stack_pointer = self.stack_pointer - 1;
        let addr: u16 = self.stack[self.stack_pointer];
        self.program_counter = addr as usize;
        proof {
            assert(self@ =~= (MachineState {
                stack_pointer: (old(self)@.stack_pointer - 1) as nat,
                program_counter: old(self)@.stack[old(self)@.stack_pointer - 1] as nat,
                ..old(self)@
            }));
        }
        Ok(())
    }

    /// Adds register `y` into register `x` with 8-bit wraparound, and writes
    /// the flag register: 1 exactly when the unwrapped sum reached 256, else
    /// 0, on every invocation.
    pub fn add_xy(&mut self, x: u8, y: u8)
        requires
            old(self)@.wf(),
            x < REGISTER_COUNT,
            y < REGISTER_COUNT,
        ensures
            final(self)@.wf(),
            final(self)@ == (MachineState {
                registers: regs_after_add(old(self)@.registers, x as int, y as int),
                ..old(self)@
            }),
            final(self)@.registers[FLAG_REGISTER as int] == 1u8 <==> old(self)@.registers[
                x as int
            ] + old(self)@.registers[y as int] >= 256,
            final(self)@.registers[FLAG_REGISTER as int] == 1u8 || final(self)@.registers[
                FLAG_REGISTER as int
            ] == 0u8,
            x != FLAG_REGISTER ==> final(self)@.registers[x as int] == (old(self)@.registers[
                x as int
            ] + old(self)@.registers[y as int]) % 256,
    {
        let arg1: u8 = self.registers[x as usize];
        let arg2: u8 = self.registers[y as usize];
        let sum: u16 = arg1 as u16 + arg2 as u16;
        self.registers[x as usize] = (sum % 256) as u8;
        if sum >= 256 {
            self.registers[FLAG_REGISTER] = 1;
        } else {
            self.registers[FLAG_REGISTER] = 0;
        }
        proof {
            assert(self@ =~= (MachineState {
                registers: regs_after_add(old(self)@.registers, x as int, y as int),
                ..old(self)@
            }));
        }
    }

    /// Runs the machine to completion: fetch, unconditional 2-byte advance,
    /// decode, execute, until the halt instruction stops the run with
    /// `Ok(())` or a fault stops it with that fault. The final state and the
    /// result are exactly what the small-step semantics computes from the
    /// starting state.
    pub fn run(&mut self) -> (r: Result<(), Fault>)
        requires
            old(self)@.wf(),
        ensures
            final(self)@.wf(),
            final(self)@.memory == old(self)@.memory,
            exists|n: nat| run_from(old(self)@, n) == Some((final(self)@, r)),
    {
        let ghost s0 = self@;
        let ghost mut n: nat = 0;
        loop
            invariant
                s0 == old(self)@,
                self@.wf(),
                self@.memory == s0.memory,
                steps_from(s0, n) == Some(self@),
            decreases
                level_measure(self@, 0),
                level_measure(self@, 1),
                level_measure(self@, 2),
                level_measure(self@, 3),
                level_measure(self@, 4),
                level_measure(self@, 5),
                level_measure(self@, 6),
                level_measure(self@, 7),
                level_measure(self@, 8),
                level_measure(self@, 9),
                level_measure(self@, 10),
                level_measure(self@, 11),
                level_measure(self@, 12),
                level_measure(self@, 13),
                level_measure(self@, 14),
                level_measure(self@, 15),
                level_measure(self@, 16),
        {
            let ghost pre = self@;
            if self.program_counter >= self.memory.len() - 1 {
                proof {
                    assert(step(pre) == StepResult::Faulted(Fault::OutOfBoundsFetch, pre));
                    lemma_run_complete(s0, n, pre);
                    assert(run_from(s0, n) == Some((pre, Err::<(), Fault>(
                        Fault::OutOfBoundsFetch,
                    ))));
                }
                return Err(Fault::OutOfBoundsFetch);
            }
            let opcode: u16 = self.read_opcode();
            self.program_counter = self.program_counter + 2;
            proof {
                assert(self@ =~= advance(pre));
            }
            match decode_instruction(opcode) {
                Instruction::Halt => {
                    proof {
                        assert(step(pre) == StepResult::Halted(self@));
                        lemma_run_complete(s0, n, pre);
                        assert(run_from(s0, n) == Some((self@, Ok::<(), Fault>(()))));
                    }
                    return Ok(());
                },
                Instruction::Ret => {
                    match self.ret() {
                        Ok(()) => {
                            proof {
                                assert(step(pre) == StepResult::Running(self@));
                                lemma_steps_extend(s0, n, pre, self@);
                                n = n + 1;
                                assert(forall|i: int|
                                    0 <= i < pre.stack_pointer - 1 ==> level_measure(self@, i)
                                        == level_measure(pre, i));
                                assert(level_measure(self@, pre.stack_pointer - 1)
                                    < level_measure(pre, pre.stack_pointer - 1));
                            }
                        },
                        Err(f) => {
                            proof {
                                assert(pre.stack_pointer == 0);
                                assert(step(pre) == StepResult::Faulted(
                                    Fault::StackUnderflow,
                                    self@,
                                ));
                                lemma_run_complete(s0, n, pre);
                                assert(run_from(s0, n) == Some((self@, Err::<(), Fault>(f))));
                            }
                            return Err(f);
                        },
                    }
                },
                Instruction::Call(nnn) => {
                    match self.call(nnn) {
                        Ok(()) => {
                            proof {
                                assert(step(pre) == StepResult::Running(self@));
                                lemma_steps_extend(s0, n, pre, self@);
                                n = n + 1;
                                assert(forall|i: int|
                                    0 <= i < pre.stack_pointer ==> level_measure(self@, i)
                                        == level_measure(pre, i));
                                assert(level_measure(self@, pre.stack_pointer as int)
                                    < level_measure(pre, pre.stack_pointer as int));
                            }
                        },
                        Err(f) => {
                            proof {
                                assert(pre.stack_pointer == STACK_SIZE);
                                assert(step(pre) == StepResult::Faulted(
                                    Fault::StackOverflow,
                                    self@,
                                ));
                                lemma_run_complete(s0, n, pre);
                                assert(run_from(s0, n) == Some((self@, Err::<(), Fault>(f))));
                            }
                            return Err(f);
                        },
                    }
                },
                Instruction::AddXY(x, y) => {
                    proof {
                        assert(((opcode >> 8) & 0xF) < 16 && ((opcode >> 4) & 0xF) < 16)
                            by (bit_vector);
                    }
                    self.add_xy(x, y);
                    proof {
                        assert(step(pre) == StepResult::Running(self@));
                        lemma_steps_extend(s0, n, pre, self@);
                        n = n + 1;
                        assert(forall|i: int|
                            0 <= i < pre.stack_pointer ==> level_measure(self@, i)
                                == level_measure(pre, i));
                        assert(level_measure(self@, pre.stack_pointer as int) < level_measure(
                            pre,
                            pre.stack_pointer as int,
                        ));
                    }
                },
                Instruction::Unknown(w) => {
                    proof {
                        assert(step(pre) == StepResult::Faulted(
                            Fault::UnimplementedOpcode(w),
                            self@,
                        ));
                        lemma_run_complete(s0, n, pre);
                        assert(run_from(s0, n) == Some((self@, Err::<(), Fault>(
                            Fault::UnimplementedOpcode(w),
                        ))));
                    }
                    return Err(Fault::UnimplementedOpcode(w));
                },
            }
        }
    }
}

} // verus!
