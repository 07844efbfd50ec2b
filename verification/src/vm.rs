//! The execution engine: the register file, program counter, comparison
//! flag, growable program buffer, and the syscall table, together with the
//! fetch-decode-execute loop.

use vstd::prelude::*;

use std::collections::HashMap;

use crate::opcode::OpCode;
use crate::opcode::opcode_byte;
use crate::semantics::MachineState;
use crate::semantics::RunOutcome;
use crate::semantics::be16;
use crate::semantics::encode_u16;
use crate::semantics::jump_dest;
use crate::semantics::forward_dest;
use crate::semantics::backward_dest;
use crate::semantics::reaches;
use crate::semantics::step;
use crate::semantics::straight_line;
use crate::semantics::reaches_in;
use crate::semantics::lemma_reaches_in_step;
use crate::semantics::lemma_straight_line_step;

verus! {

broadcast use vstd::std_specs::hash::group_hash_axioms, vstd::array::group_array_axioms;

/// A host-defined syscall: the extension point the `SYS` instruction
/// dispatches to.  A handler receives full mutable access to the machine
/// state — registers, program counter, program buffer, and comparison flag —
/// and returns whether execution continues (`true`) or halts (`false`).
///
/// Handlers carry no contract: the engine's own guarantees are stated so
/// that they hold whatever a handler does to the state it is handed.
pub trait SyscallHandler {
    fn handle(
        &self,
        registers: &mut [i64; 256],
        pc: &mut usize,
        code: &mut Vec<u8>,
        comparison: &mut bool,
    ) -> bool;
}

/// The handler type of an engine that registers no syscalls; its `handle` is
/// never reached by such an engine.  If invoked, it leaves the state alone
/// and lets execution continue.
pub struct NoSyscalls;

impl SyscallHandler for NoSyscalls {
    fn handle(
        &self,
        _registers: &mut [i64; 256],
        _pc: &mut usize,
        _code: &mut Vec<u8>,
        _comparison: &mut bool,
    ) -> bool {
        true
    }
}

/// The virtual machine: 256 signed 64-bit registers, a program counter into
/// the program buffer, the comparison flag, the buffer itself, and the table
/// of host syscalls keyed by a 64-bit id.
#[derive(Clone)]
pub struct VM<H> {
    pub registers: [i64; 256],
    pub pc: usize,
    pub code: Vec<u8>,
    pub comparison: bool,
    pub syscalls: HashMap<i64, H>,
}

impl<H> VM<H> {
    /// The machine state this engine is in, as the model sees it.
    pub open spec fn state(&self) -> MachineState {
        MachineState {
            regs: self.registers@,
            pc: self.pc as nat,
            code: self.code@,
            flag: self.comparison,
        }
    }

    /// The ids with a registered syscall handler.
    pub open spec fn ids(&self) -> Set<i64> {
        self.syscalls@.dom()
    }
}

impl<H: SyscallHandler> VM<H> {
    /// A fresh engine: all registers zero, the counter at the start of an
    /// empty buffer, the flag clear, and no syscalls registered.
    pub fn new() -> (vm: VM<H>)
        ensures
            vm.pc == 0,
            vm.code@.len() == 0,
            vm.comparison == false,
            forall|i: int| 0 <= i < 256 ==> vm.registers@[i] == 0i64,
            vm.syscalls@ == Map::<i64, H>::empty(),
    {
        VM {
            registers: [0i64; 256],
            pc: 0,
            code: Vec::new(),
            comparison: false,
            syscalls: HashMap::new(),
        }
    }

    /// Installs `syscall` as the handler for `id`, replacing any previous
    /// handler bound to the same id.
    pub fn add_syscall(&mut self, id: i64, syscall: H)
        ensures
            final(self).syscalls@ == old(self).syscalls@.insert(id, syscall),
            final(self).registers == old(self).registers,
            final(self).pc == old(self).pc,
            final(self).code == old(self).code,
            final(self).comparison == old(self).comparison,
    {
        self.syscalls.insert(id, syscall);
    }

    /// Appends the one-byte encoding of an opcode to the program buffer.
    pub fn write_opcode(&mut self, opcode: OpCode)
        ensures
            final(self).code@ == old(self).code@.push(opcode_byte(opcode)),
            final(self).registers == old(self).registers,
            final(self).pc == old(self).pc,
            final(self).comparison == old(self).comparison,
            final(self).syscalls == old(self).syscalls,
    {
        let b = opcode.to_byte();
        self.code.push(b);
    }

    /// Appends one operand byte to the program buffer.
    pub fn write_u8(&mut self, value: u8)
        ensures
            final(self).code@ == old(self).code@.push(value),
            final(self).registers == old(self).registers,
            final(self).pc == old(self).pc,
            final(self).comparison == old(self).comparison,
            final(self).syscalls == old(self).syscalls,
    {
        self.code.push(value);
    }

    /// Appends a 16-bit value to the program buffer, most-significant byte
    /// first.
    pub fn write_u16(&mut self, value: u16)
        ensures
            final(self).code@ == old(self).code@ + encode_u16(value),
            final(self).registers == old(self).registers,
            final(self).pc == old(self).pc,
            final(self).comparison == old(self).comparison,
            final(self).syscalls == old(self).syscalls,
    {
        self.code.push((value / 256) as u8);
        self.code.push((value % 256) as u8);
        proof {
            assert(self.code@ =~= old(self).code@ + encode_u16(value));
        }
    }

    /// Reads the byte at the program counter and advances past it.  Used for
    /// opcodes and register operands.
    fn read_u8(&mut self) -> (b: u8)
        requires
            old(self).pc < old(self).code.len(),
        ensures
            b == old(self).code@[old(self).pc as int],
            final(self).pc == old(self).pc + 1,
            final(self).registers == old(self).registers,
            final(self).code == old(self).code,
            final(self).comparison == old(self).comparison,
            final(self).syscalls == old(self).syscalls,
    {
        let result = self.code[self.pc];
        self.pc = self.pc + 1;
        result
    }

    /// Reads a 16-bit value, most-significant byte first, and advances past
    /// it.  Used for the immediate of `LOAD`.
    fn read_u16(&mut self) -> (v: u16)
        requires
            old(self).pc + 2 <= old(self).code.len(),
        ensures
            v == be16(
                old(self).code@[old(self).pc as int],
                old(self).code@[old(self).pc as int + 1],
            ),
            final(self).pc == old(self).pc + 2,
            final(self).registers == old(self).registers,
            final(self).code == old(self).code,
            final(self).comparison == old(self).comparison,
            final(self).syscalls == old(self).syscalls,
    {
        let hi = self.code[self.pc];
        let lo = self.code[self.pc + 1];
        self.pc = self.pc + 2;
        (hi as u16) * 256 + (lo as u16)
    }

    /// The counter an absolute jump to register value `v` lands on.
    fn absolute_dest(code_len: usize, v: i64) -> (d: usize)
        ensures
            d == jump_dest(code_len as nat, v),
    {
        if v < 0 {
            code_len
        } else if (v as u64) > (usize::MAX as u64) {
            code_len
        } else {
            v as usize
        }
    }

    /// The counter a forward jump by `v` from `base` lands on.
    fn forward(code_len: usize, base: usize, v: i64) -> (d: usize)
        ensures
            d == forward_dest(code_len as nat, base as nat, v),
    {
        if v < 0 {
            code_len
        } else if (v as u64) > (usize::MAX as u64) {
            code_len
        } else {
            match base.checked_add(v as usize) {
                Some(t) => t,
                None => code_len,
            }
        }
    }

    /// The counter a backward jump by `v` from `base` lands on.
    fn backward(code_len: usize, base: usize, v: i64) -> (d: usize)
        ensures
            d == backward_dest(code_len as nat, base as nat, v),
    {
        if v < 0 {
            code_len
        } else if (v as u64) > (base as u64) {
            code_len
        } else {
            base - (v as usize)
        }
    }

    /// Fetches, decodes and executes the one instruction at the program
    /// counter: exactly one [`step`] of the machine model.  Returns `None`
    /// when execution continues and the halt reason when it ends the run.
    fn execute_instruction(&mut self) -> (halt: Option<RunOutcome>)
        requires
            old(self).pc < old(self).code.len(),
        ensures
            final(self).syscalls == old(self).syscalls,
            step(old(self).ids(), old(self).state(), final(self).state(), halt),
    {
        let position = self.pc;
        let opcode = OpCode::from_byte(self.read_u8());

        match opcode {
            OpCode::STOP => Some(RunOutcome::Stopped),
            OpCode::LOAD => {
                if self.code.len() - position < 4 {
                    self.pc = position;
                    return Some(RunOutcome::TruncatedInstruction { position });
                }
                let register = self.read_u8();
                let value = self.read_u16();
                self.registers[register as usize] = value as i64;
                None
            },
            OpCode::ADD => {
                if self.code.len() - position < 4 {
                    self.pc = position;
                    return Some(RunOutcome::TruncatedInstruction { position });
                }
                let destination = self.read_u8();
                let source1 = self.read_u8();
                let source2 = self.read_u8();
                let result = self.registers[source1 as usize].wrapping_add(
                    self.registers[source2 as usize],
                );
                self.registers[destination as usize] = result;
                None
            },
            OpCode::SUB => {
                if self.code.len() - position < 4 {
                    self.pc = position;
                    return Some(RunOutcome::TruncatedInstruction { position });
                }
                let destination = self.read_u8();
                let source1 = self.read_u8();
                let source2 = self.read_u8();
                let result = self.registers[source1 as usize].wrapping_sub(
                    self.registers[source2 as usize],
                );
                self.registers[destination as usize] = result;
                None
            },
            OpCode::MUL => {
                if self.code.len() - position < 4 {
                    self.pc = position;
                    return Some(RunOutcome::TruncatedInstruction { position });
                }
                let destination = self.read_u8();
                let source1 = self.read_u8();
                let source2 = self.read_u8();
                let result = self.registers[source1 as usize].wrapping_mul(
                    self.registers[source2 as usize],
                );
                self.registers[destination as usize] = result;
                None
            },
            OpCode::DIV => {
                if self.code.len() - position < 4 {
                    self.pc = position;
                    return Some(RunOutcome::TruncatedInstruction { position });
                }
                let destination = self.read_u8();
                let source1 = self.read_u8();
                let source2 = self.read_u8();
                let divisor = self.registers[source2 as usize];
                if divisor == 0 {
                    return Some(RunOutcome::ArithmeticFault { position });
                }
                let result = match self.registers[source1 as usize].checked_div(divisor) {
                    Some(v) => v,
                    None => i64::MIN,
                };
                self.registers[destination as usize] = result;
                None
            },
            OpCode::JMP => {
                if self.code.len() - position < 2 {
                    self.pc = position;
                    return Some(RunOutcome::TruncatedInstruction { position });
                }
                let register = self.read_u8();
                let target = self.registers[register as usize];
                self.pc = Self::absolute_dest(self.code.len(), target);
                None
            },
            OpCode::JFW => {
                if self.code.len() - position < 2 {
                    self.pc = position;
                    return Some(RunOutcome::TruncatedInstruction { position });
                }
                let register = self.read_u8();
                let offset = self.registers[register as usize];
                self.pc = Self::forward(self.code.len(), self.pc, offset);
                None
            },
            OpCode::JBK => {
                if self.code.len() - position < 2 {
                    self.pc = position;
                    return Some(RunOutcome::TruncatedInstruction { position });
                }
                let register = self.read_u8();
                let offset = self.registers[register as usize];
                self.pc = Self::backward(self.code.len(), self.pc, offset);
                None
            },
            OpCode::EQ => {
                if self.code.len() - position < 3 {
                    self.pc = position;
                    return Some(RunOutcome::TruncatedInstruction { position });
                }
                let register1 = self.read_u8();
                let register2 = self.read_u8();
                self.comparison = self.registers[register1 as usize]
                    == self.registers[register2 as usize];
                None
            },
            OpCode::NEQ => {
                if self.code.len() - position < 3 {
                    self.pc = position;
                    return Some(RunOutcome::TruncatedInstruction { position });
                }
                let register1 = self.read_u8();
                let register2 = self.read_u8();
                self.comparison = self.registers[register1 as usize]
                    != self.registers[register2 as usize];
                None
            },
            OpCode::GT => {
                if self.code.len() - position < 3 {
                    self.pc = position;
                    return Some(RunOutcome::TruncatedInstruction { position });
                }
                let register1 = self.read_u8();
                let register2 = self.read_u8();
                self.comparison = self.registers[register1 as usize]
                    > self.registers[register2 as usize];
                None
            },
            OpCode::LT => {
                if self.code.len() - position < 3 {
                    self.pc = position;
                    return Some(RunOutcome::TruncatedInstruction { position });
                }
                let register1 = self.read_u8();
                let register2 = self.read_u8();
                self.comparison = self.registers[register1 as usize]
                    < self.registers[register2 as usize];
                None
            },
            OpCode::GTE => {
                if self.code.len() - position < 3 {
                    self.pc = position;
                    return Some(RunOutcome::TruncatedInstruction { position });
                }
                let register1 = self.read_u8();
                let register2 = self.read_u8();
                self.comparison = self.registers[register1 as usize]
                    >= self.registers[register2 as usize];
                None
            },
            OpCode::LTE => {
                if self.code.len() - position < 3 {
                    self.pc = position;
                    return Some(RunOutcome::TruncatedInstruction { position });
                }
                let register1 = self.read_u8();
                let register2 = self.read_u8();
                self.comparison = self.registers[register1 as usize]
                    <= self.registers[register2 as usize];
                None
            },
            OpCode::JEQ => {
                if self.code.len() - position < 2 {
                    self.pc = position;
                    return Some(RunOutcome::TruncatedInstruction { position });
                }
                let register = self.read_u8();
                let target = self.registers[register as usize];
                if self.comparison {
                    self.pc = Self::absolute_dest(self.code.len(), target);
                }
                None
            },
            OpCode::JNE => {
                if self.code.len() - position < 2 {
                    self.pc = position;
                    return Some(RunOutcome::TruncatedInstruction { position });
                }
                let register = self.read_u8();
                let target = self.registers[register as usize];
                if !self.comparison {
                    self.pc = Self::absolute_dest(self.code.len(), target);
                }
                None
            },
            OpCode::SYS => {
                if self.code.len() - position < 2 {
                    self.pc = position;
                    return Some(RunOutcome::TruncatedInstruction { position });
                }
                let register = self.read_u8();
                let syscall_id = self.registers[register as usize];
                match self.syscalls.get(&syscall_id) {
                    Some(syscall) => {
                        let keep_running = syscall.handle(
                            &mut self.registers,
                            &mut self.pc,
                            &mut self.code,
                            &mut self.comparison,
                        );
                        if keep_running {
                            None
                        } else {
                            Some(RunOutcome::SyscallHalt { id: syscall_id })
                        }
                    },
                    None => Some(RunOutcome::UnknownSyscall { id: syscall_id }),
                }
            },
            OpCode::UKWN => Some(
                RunOutcome::UnknownInstruction {
                    byte: self.code[position],
                    position,
                },
            ),
        }
    }

    /// Runs the fetch-decode-execute loop until a halt: the counter passes
    /// the end of the buffer, a `STOP` executes, a syscall handler asks to
    /// halt, or a fault is reported.  The engine keeps its state across
    /// calls, so appending more code and calling `run` again resumes where
    /// the previous call halted.
    ///
    /// The outcome relates the states as the machine model says: the final
    /// state is reached from the initial one by continuing steps, followed,
    /// for every outcome but `Completed` and `StepLimit`, by the one halting
    /// step that the outcome reports.  `StepLimit` may be claimed only after
    /// exactly `u64::MAX` continuing steps were really executed, so no
    /// outcome leaves the work undone.  A straight-line program — well-formed
    /// instructions with no jump and no `SYS`, ending in a `STOP` on the
    /// last byte — always runs to its very end, except that one of its `DIV`
    /// instructions may fault on a zero divisor; one without `DIV` cannot
    /// fault at all.
    pub fn run(&mut self) -> (r: RunOutcome)
        ensures
            final(self).syscalls == old(self).syscalls,
            r == RunOutcome::Completed ==> reaches(
                old(self).ids(),
                old(self).state(),
                final(self).state(),
            ) && final(self).pc >= final(self).code.len(),
            r == RunOutcome::StepLimit ==> reaches_in(
                old(self).ids(),
                old(self).state(),
                final(self).state(),
                u64::MAX as nat,
            ) && final(self).pc < final(self).code.len(),
            r != RunOutcome::Completed && r != RunOutcome::StepLimit ==> exists|mid: MachineState|
                reaches(old(self).ids(), old(self).state(), mid) && step(
                    old(self).ids(),
                    mid,
                    final(self).state(),
                    Some(r),
                ),
            straight_line(old(self).code@, old(self).pc as nat, false) ==> r
                == RunOutcome::Stopped && final(self).code@ == old(self).code@ && final(self).pc
                == old(self).code@.len(),
            straight_line(old(self).code@, old(self).pc as nat, true) ==> final(self).code@ == old(
                self,
            ).code@ && ((r == RunOutcome::Stopped && final(self).pc == old(self).code@.len()) || r
                matches RunOutcome::ArithmeticFault { .. }),
    {
        let ghost ids = self.ids();
        let ghost s0 = self.state();
        let ghost code0 = self.code@;
        let ghost sl_no_div = straight_line(self.code@, self.pc as nat, false);
        let ghost sl_div = straight_line(self.code@, self.pc as nat, true);
        let initial_len = self.code.len();
        let mut fuel: u64 = u64::MAX;
        proof {
            assert(reaches_in(ids, s0, self.state(), 0));
        }
        loop
            invariant
                code0.len() == initial_len,
                ids == old(self).ids(),
                s0 == old(self).state(),
                code0 == old(self).code@,
                sl_no_div == straight_line(code0, s0.pc, false),
                sl_div == straight_line(code0, s0.pc, true),
                self.syscalls == old(self).syscalls,
                reaches_in(ids, s0, self.state(), (u64::MAX - fuel) as nat),
                sl_no_div ==> straight_line(self.code@, self.pc as nat, false),
                sl_div ==> straight_line(self.code@, self.pc as nat, true),
                sl_no_div || sl_div ==> self.code@ == code0 && fuel >= self.code@.len() - self.pc,
            decreases fuel,
        {
            if self.pc >= self.code.len() {
                proof {
                    assert(reaches(ids, s0, self.state())) by {
                        assert(reaches_in(ids, s0, self.state(), (u64::MAX - fuel) as nat));
                    }
                }
                return RunOutcome::Completed;
            }
            if fuel == 0 {
                return RunOutcome::StepLimit;
            }
            let ghost taken = (u64::MAX - fuel) as nat;
            fuel = fuel - 1;
            let ghost mid = self.state();
            match self.execute_instruction() {
                None => {
                    proof {
                        lemma_reaches_in_step(ids, s0, mid, self.state(), taken);
                        if sl_no_div {
                            lemma_straight_line_step(ids, mid, self.state(), None, false);
                        }
                        if sl_div {
                            lemma_straight_line_step(ids, mid, self.state(), None, true);
                        }
                    }
                },
                Some(r) => {
                    proof {
                        if sl_no_div {
                            lemma_straight_line_step(ids, mid, self.state(), Some(r), false);
                        }
                        if sl_div {
                            lemma_straight_line_step(ids, mid, self.state(), Some(r), true);
                        }
                        assert(reaches(ids, s0, mid)) by {
                            assert(reaches_in(ids, s0, mid, taken));
                        }
                        assert(reaches(ids, s0, mid) && step(ids, mid, self.state(), Some(r)));
                    }
                    return r;
                },
            }
        }
    }
}

} // verus!
