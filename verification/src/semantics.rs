//! The mathematical model of the machine: its state, the decoding of the
//! byte format, and the effect of each instruction.
//!
//! The executable engine in [`crate::vm`] is specified against this model:
//! one call of its instruction dispatcher performs exactly one [`step`], and
//! one `run` call follows the reflexive-transitive closure of continuing
//! steps ([`reaches`]) up to its halting step.

use vstd::prelude::*;

use crate::opcode::OpCode;
use crate::opcode::opcode_of_byte;

verus! {

/// The machine state an executing instruction reads and writes: the register
/// file (always 256 entries), the program counter, the program buffer, and
/// the comparison flag.  The syscall table is not part of this state; a
/// syscall handler receives mutable access to exactly these four components.
pub ghost struct MachineState {
    pub regs: Seq<i64>,
    pub pc: nat,
    pub code: Seq<u8>,
    pub flag: bool,
}

impl MachineState {
    /// The register file has one slot for each value of an 8-bit operand.
    pub open spec fn wf(self) -> bool {
        self.regs.len() == 256
    }
}

/// One decoded instruction, with its operands.
pub enum Instr {
    Stop,
    Load { dst: u8, value: u16 },
    Add { dst: u8, src1: u8, src2: u8 },
    Sub { dst: u8, src1: u8, src2: u8 },
    Mul { dst: u8, src1: u8, src2: u8 },
    Div { dst: u8, src1: u8, src2: u8 },
    Jmp { reg: u8 },
    Jfw { reg: u8 },
    Jbk { reg: u8 },
    Eq { reg1: u8, reg2: u8 },
    Neq { reg1: u8, reg2: u8 },
    Gt { reg1: u8, reg2: u8 },
    Lt { reg1: u8, reg2: u8 },
    Gte { reg1: u8, reg2: u8 },
    Lte { reg1: u8, reg2: u8 },
    Jeq { reg: u8 },
    Jne { reg: u8 },
    Sys { reg: u8 },
}

/// The total width in bytes of an instruction: one opcode byte plus its
/// fixed operands.
pub open spec fn instr_width(instr: Instr) -> nat {
    match instr {
        Instr::Stop => 1,
        Instr::Load { .. } => 4,
        Instr::Add { .. } => 4,
        Instr::Sub { .. } => 4,
        Instr::Mul { .. } => 4,
        Instr::Div { .. } => 4,
        Instr::Jmp { .. } => 2,
        Instr::Jfw { .. } => 2,
        Instr::Jbk { .. } => 2,
        Instr::Eq { .. } => 3,
        Instr::Neq { .. } => 3,
        Instr::Gt { .. } => 3,
        Instr::Lt { .. } => 3,
        Instr::Gte { .. } => 3,
        Instr::Lte { .. } => 3,
        Instr::Jeq { .. } => 2,
        Instr::Jne { .. } => 2,
        Instr::Sys { .. } => 2,
    }
}

/// A 16-bit value read from two bytes, most-significant first.
pub open spec fn be16(hi: u8, lo: u8) -> u16 {
    (hi * 256 + lo) as u16
}

/// What the byte at `pc` begins: a whole instruction, a byte outside the
/// opcode set, or an instruction whose operands run past the end of the
/// buffer.
pub enum Decoded {
    Instruction(Instr),
    Unknown(u8),
    Truncated,
}

/// Decodes the instruction that starts at `pc`.
pub open spec fn decode_at(code: Seq<u8>, pc: nat) -> Decoded
    recommends
        pc < code.len(),
{
    let n = code.len();
    match opcode_of_byte(code[pc as int]) {
        OpCode::STOP => Decoded::Instruction(Instr::Stop),
        OpCode::LOAD => if pc + 4 <= n {
            Decoded::Instruction(
                Instr::Load {
                    dst: code[pc as int + 1],
                    value: be16(code[pc as int + 2], code[pc as int + 3]),
                },
            )
        } else {
            Decoded::Truncated
        },
        OpCode::ADD => if pc + 4 <= n {
            Decoded::Instruction(
                Instr::Add { dst: code[pc as int + 1], src1: code[pc as int + 2], src2: code[pc as int + 3] },
            )
        } else {
            Decoded::Truncated
        },
        OpCode::SUB => if pc + 4 <= n {
            Decoded::Instruction(
                Instr::Sub { dst: code[pc as int + 1], src1: code[pc as int + 2], src2: code[pc as int + 3] },
            )
        } else {
            Decoded::Truncated
        },
        OpCode::MUL => if pc + 4 <= n {
            Decoded::Instruction(
                Instr::Mul { dst: code[pc as int + 1], src1: code[pc as int + 2], src2: code[pc as int + 3] },
            )
        } else {
            Decoded::Truncated
        },
        OpCode::DIV => if pc + 4 <= n {
            Decoded::Instruction(
                Instr::Div { dst: code[pc as int + 1], src1: code[pc as int + 2], src2: code[pc as int + 3] },
            )
        } else {
            Decoded::Truncated
        },
        OpCode::JMP => if pc + 2 <= n {
            Decoded::Instruction(Instr::Jmp { reg: code[pc as int + 1] })
        } else {
            Decoded::Truncated
        },
        OpCode::JFW => if pc + 2 <= n {
            Decoded::Instruction(Instr::Jfw { reg: code[pc as int + 1] })
        } else {
            Decoded::Truncated
        },
        OpCode::JBK => if pc + 2 <= n {
            Decoded::Instruction(Instr::Jbk { reg: code[pc as int + 1] })
        } else {
            Decoded::Truncated
        },
        OpCode::EQ => if pc + 3 <= n {
            Decoded::Instruction(Instr::Eq { reg1: code[pc as int + 1], reg2: code[pc as int + 2] })
        } else {
            Decoded::Truncated
        },
        OpCode::NEQ => if pc + 3 <= n {
            Decoded::Instruction(Instr::Neq { reg1: code[pc as int + 1], reg2: code[pc as int + 2] })
        } else {
            Decoded::Truncated
        },
        OpCode::GT => if pc + 3 <= n {
            Decoded::Instruction(Instr::Gt { reg1: code[pc as int + 1], reg2: code[pc as int + 2] })
        } else {
            Decoded::Truncated
        },
        OpCode::LT => if pc + 3 <= n {
            Decoded::Instruction(Instr::Lt { reg1: code[pc as int + 1], reg2: code[pc as int + 2] })
        } else {
            Decoded::Truncated
        },
        OpCode::GTE => if pc + 3 <= n {
            Decoded::Instruction(Instr::Gte { reg1: code[pc as int + 1], reg2: code[pc as int + 2] })
        } else {
            Decoded::Truncated
        },
        OpCode::LTE => if pc + 3 <= n {
            Decoded::Instruction(Instr::Lte { reg1: code[pc as int + 1], reg2: code[pc as int + 2] })
        } else {
            Decoded::Truncated
        },
        OpCode::JEQ => if pc + 2 <= n {
            Decoded::Instruction(Instr::Jeq { reg: code[pc as int + 1] })
        } else {
            Decoded::Truncated
        },
        OpCode::JNE => if pc + 2 <= n {
            Decoded::Instruction(Instr::Jne { reg: code[pc as int + 1] })
        } else {
            Decoded::Truncated
        },
        OpCode::SYS => if pc + 2 <= n {
            Decoded::Instruction(Instr::Sys { reg: code[pc as int + 1] })
        } else {
            Decoded::Truncated
        },
        OpCode::UKWN => Decoded::Unknown(code[pc as int]),
    }
}

/// The value `DIV` stores: signed division truncating toward zero.  The one
/// quotient that does not fit the destination, `i64::MIN / -1`, wraps to
/// `i64::MIN`, like the other wrapping arithmetic instructions.
pub open spec fn div_value(a: i64, b: i64) -> i64
    recommends
        b != 0,
{
    match a.checked_div(b) {
        Some(v) => v,
        None => i64::MIN,
    }
}

/// The program counter an absolute jump lands on.  A register value that is
/// no address (negative, or beyond the address space) is out of range, which
/// ends execution because the engine only runs while the counter is below
/// the buffer length.
pub open spec fn jump_dest(code_len: nat, v: i64) -> nat {
    if 0 <= v && v <= usize::MAX {
        v as nat
    } else {
        code_len
    }
}

/// The program counter a forward jump from `base` lands on; offsets that
/// leave the address space are out of range.
pub open spec fn forward_dest(code_len: nat, base: nat, v: i64) -> nat {
    if 0 <= v && base + v <= usize::MAX {
        (base + v) as nat
    } else {
        code_len
    }
}

/// The program counter a backward jump from `base` lands on; offsets that
/// would go below the start of the buffer are out of range.
pub open spec fn backward_dest(code_len: nat, base: nat, v: i64) -> nat {
    if 0 <= v && v <= base {
        (base - v) as nat
    } else {
        code_len
    }
}

/// The state after the instruction decoded at `s.pc` executes.  This covers
/// every instruction whose effect is a function of the state; the dispatch
/// that `SYS` makes and the faults are described by [`step`].
pub open spec fn apply(s: MachineState, instr: Instr) -> MachineState
    recommends
        s.wf(),
{
    match instr {
        Instr::Stop => MachineState { pc: s.pc + 1, ..s },
        Instr::Load { dst, value } => MachineState {
            regs: s.regs.update(dst as int, value as i64),
            pc: s.pc + 4,
            ..s
        },
        Instr::Add { dst, src1, src2 } => MachineState {
            regs: s.regs.update(
                dst as int,
                s.regs[src1 as int].wrapping_add(s.regs[src2 as int]),
            ),
            pc: s.pc + 4,
            ..s
        },
        Instr::Sub { dst, src1, src2 } => MachineState {
            regs: s.regs.update(
                dst as int,
                s.regs[src1 as int].wrapping_sub(s.regs[src2 as int]),
            ),
            pc: s.pc + 4,
            ..s
        },
        Instr::Mul { dst, src1, src2 } => MachineState {
            regs: s.regs.update(
                dst as int,
                s.regs[src1 as int].wrapping_mul(s.regs[src2 as int]),
            ),
            pc: s.pc + 4,
            ..s
        },
        Instr::Div { dst, src1, src2 } => MachineState {
            regs: s.regs.update(dst as int, div_value(s.regs[src1 as int], s.regs[src2 as int])),
            pc: s.pc + 4,
            ..s
        },
        Instr::Jmp { reg } => MachineState {
            pc: jump_dest(s.code.len(), s.regs[reg as int]),
            ..s
        },
        Instr::Jfw { reg } => MachineState {
            pc: forward_dest(s.code.len(), s.pc + 2, s.regs[reg as int]),
            ..s
        },
        Instr::Jbk { reg } => MachineState {
            pc: backward_dest(s.code.len(), s.pc + 2, s.regs[reg as int]),
            ..s
        },
        Instr::Eq { reg1, reg2 } => MachineState {
            flag: s.regs[reg1 as int] == s.regs[reg2 as int],
            pc: s.pc + 3,
            ..s
        },
        Instr::Neq { reg1, reg2 } => MachineState {
            flag: s.regs[reg1 as int] != s.regs[reg2 as int],
            pc: s.pc + 3,
            ..s
        },
        Instr::Gt { reg1, reg2 } => MachineState {
            flag: s.regs[reg1 as int] > s.regs[reg2 as int],
            pc: s.pc + 3,
            ..s
        },
        Instr::Lt { reg1, reg2 } => MachineState {
            flag: s.regs[reg1 as int] < s.regs[reg2 as int],
            pc: s.pc + 3,
            ..s
        },
        Instr::Gte { reg1, reg2 } => MachineState {
            flag: s.regs[reg1 as int] >= s.regs[reg2 as int],
            pc: s.pc + 3,
            ..s
        },
        Instr::Lte { reg1, reg2 } => MachineState {
            flag: s.regs[reg1 as int] <= s.regs[reg2 as int],
            pc: s.pc + 3,
            ..s
        },
        Instr::Jeq { reg } => MachineState {
            pc: if s.flag {
                jump_dest(s.code.len(), s.regs[reg as int])
            } else {
                s.pc + 2
            },
            ..s
        },
        Instr::Jne { reg } => MachineState {
            pc: if !s.flag {
                jump_dest(s.code.len(), s.regs[reg as int])
            } else {
                s.pc + 2
            },
            ..s
        },
        Instr::Sys { .. } => s,
    }
}

/// Why one `run` call ended.  A halt is terminal for that call only: the
/// engine keeps its state and can be resumed after more code is appended.
#[derive(Copy, Clone, Debug, PartialEq, Eq, Structural)]
pub enum RunOutcome {
    /// The program counter reached or passed the end of the program buffer.
    Completed,
    /// A `STOP` instruction executed.
    Stopped,
    /// A syscall handler asked the engine to halt.
    SyscallHalt { id: i64 },
    /// `SYS` named an id with no registered handler; the machine state other
    /// than the program counter is left untouched.
    UnknownSyscall { id: i64 },
    /// The opcode byte at `position` is outside the defined set.
    UnknownInstruction { byte: u8, position: usize },
    /// The `DIV` instruction at `position` divided by zero.
    ArithmeticFault { position: usize },
    /// The instruction at `position` runs past the end of the buffer; the
    /// program counter is left at `position`, so appending the missing bytes
    /// and running again retries it.
    TruncatedInstruction { position: usize },
    /// One `run` call executed its bound of `u64::MAX` instructions without
    /// halting; running again continues the program.
    StepLimit,
}

/// One fetch-decode-execute step from `pre` to `post`, where `ids` is the
/// domain of the engine's syscall table.  `halt` is `None` when execution
/// continues and carries the reason when this step ends the run.  For a
/// `SYS` whose id is registered, the handler has mutable access to the whole
/// machine state, so any `post` is possible; every other step is a function
/// of the state.
pub open spec fn step(
    ids: Set<i64>,
    pre: MachineState,
    post: MachineState,
    halt: Option<RunOutcome>,
) -> bool {
    &&& pre.pc < pre.code.len()
    &&& match decode_at(pre.code, pre.pc) {
        Decoded::Unknown(b) => {
            &&& halt == Some(
                RunOutcome::UnknownInstruction { byte: b, position: pre.pc as usize },
            )
            &&& post == MachineState { pc: pre.pc + 1, ..pre }
        },
        Decoded::Truncated => {
            &&& halt == Some(RunOutcome::TruncatedInstruction { position: pre.pc as usize })
            &&& post == pre
        },
        Decoded::Instruction(instr) => match instr {
            Instr::Stop => halt == Some(RunOutcome::Stopped) && post == apply(pre, instr),
            Instr::Sys { reg } => {
                let id = pre.regs[reg as int];
                if ids.contains(id) {
                    halt == None::<RunOutcome> || halt == Some(RunOutcome::SyscallHalt { id })
                } else {
                    &&& halt == Some(RunOutcome::UnknownSyscall { id })
                    &&& post == MachineState { pc: pre.pc + 2, ..pre }
                }
            },
            Instr::Div { dst, src1, src2 } => {
                if pre.regs[src2 as int] == 0 {
                    &&& halt == Some(RunOutcome::ArithmeticFault { position: pre.pc as usize })
                    &&& post == MachineState { pc: pre.pc + 4, ..pre }
                } else {
                    halt == None::<RunOutcome> && post == apply(pre, instr)
                }
            },
            _ => halt == None::<RunOutcome> && post == apply(pre, instr),
        },
    }
}

/// `s1` is reached from `s0` by exactly `n` continuing steps.
pub open spec fn reaches_in(ids: Set<i64>, s0: MachineState, s1: MachineState, n: nat) -> bool
    decreases n,
{
    if n == 0 {
        s0 == s1
    } else {
        exists|mid: MachineState|
            reaches_in(ids, s0, mid, (n - 1) as nat) && step(ids, mid, s1, None)
    }
}

/// `s1` is reached from `s0` by zero or more continuing steps: the
/// reflexive-transitive closure of [`step`] with `halt == None`.
pub open spec fn reaches(ids: Set<i64>, s0: MachineState, s1: MachineState) -> bool {
    exists|n: nat| reaches_in(ids, s0, s1, n)
}

/// After `LOAD dst, imm16` executes, the destination register holds exactly
/// the immediate, widened unsigned to the register width; every other
/// register, the buffer and the flag are untouched, and the counter moves
/// past the instruction.
pub proof fn lemma_load_sets_register(s: MachineState, dst: u8, value: u16)
    requires
        s.wf(),
    ensures
        ({
            let t = apply(s, Instr::Load { dst, value });
            &&& t.regs[dst as int] == value as i64
            &&& forall|i: int| 0 <= i < 256 && i != dst as int ==> t.regs[i] == s.regs[i]
            &&& t.pc == s.pc + 4
            &&& t.code == s.code
            &&& t.flag == s.flag
        }),
{
}

/// `ADD`, `SUB` and `MUL` store the wrapping 64-bit result, which matches
/// integer addition, subtraction and multiplication exactly whenever the
/// mathematical result fits the register width.
pub proof fn lemma_arithmetic_matches_integers(s: MachineState, dst: u8, src1: u8, src2: u8)
    requires
        s.wf(),
    ensures
        ({
            let a = s.regs[src1 as int];
            let b = s.regs[src2 as int];
            &&& i64::MIN <= a + b <= i64::MAX ==> apply(
                s,
                Instr::Add { dst, src1, src2 },
            ).regs[dst as int] == a + b
            &&& i64::MIN <= a - b <= i64::MAX ==> apply(
                s,
                Instr::Sub { dst, src1, src2 },
            ).regs[dst as int] == a - b
            &&& i64::MIN <= a * b <= i64::MAX ==> apply(
                s,
                Instr::Mul { dst, src1, src2 },
            ).regs[dst as int] == a * b
        }),
{
    let a = s.regs[src1 as int];
    let b = s.regs[src2 as int];
    if i64::MIN <= a * b <= i64::MAX {
        let width: int = 0x1_0000_0000_0000_0000;
        if a * b >= 0 {
            vstd::arithmetic::div_mod::lemma_small_mod((a * b) as nat, width as nat);
        } else {
            vstd::arithmetic::div_mod::lemma_mod_add_multiples_vanish(a * b, width);
            vstd::arithmetic::div_mod::lemma_small_mod((a * b + width) as nat, width as nat);
        }
    }
}

/// `DIV` stores the quotient truncated toward zero: the magnitude is the
/// integer quotient of the magnitudes, negated when the operands' signs
/// differ.  (The one quotient that exceeds the register width,
/// `i64::MIN / -1`, is excluded here; it wraps.)
pub proof fn lemma_div_truncates(a: i64, b: i64)
    requires
        b != 0,
        !(a == i64::MIN && b == -1),
    ensures
        ({
            let q = (vstd::math::abs(a as int) as int) / (vstd::math::abs(b as int) as int);
            div_value(a, b) == if (a < 0) == (b < 0) {
                q
            } else {
                -q
            }
        }),
{
    let x = a as int;
    let d = b as int;
    let ax = vstd::math::abs(x) as int;
    let ad = vstd::math::abs(d) as int;
    let q = ax / ad;
    vstd::arithmetic::div_mod::lemma_div_pos_is_pos(ax, ad);
    vstd::arithmetic::div_mod::lemma_div_nonincreasing(ax, ad);
    vstd::arithmetic::div_mod::lemma_div_basics(ax);
    if ad >= 2 {
        vstd::arithmetic::div_mod::lemma_div_is_ordered_by_denominator(ax, 2, ad);
        assert(0x8000_0000_0000_0000int / 2 == 0x4000_0000_0000_0000int);
        assert(q <= 0x4000_0000_0000_0000int);
    }
    if x == 0 {
        vstd::arithmetic::div_mod::lemma_div_basics(ad);
    }
}

/// A `DIV` whose divisor register holds zero halts the run with an
/// arithmetic fault, not a crash, and leaves every register, the buffer and
/// the flag untouched.
pub proof fn lemma_div_by_zero_faults(
    ids: Set<i64>,
    pre: MachineState,
    post: MachineState,
    halt: Option<RunOutcome>,
    dst: u8,
    src1: u8,
    src2: u8,
)
    requires
        decode_at(pre.code, pre.pc) == Decoded::Instruction(Instr::Div { dst, src1, src2 }),
        pre.regs[src2 as int] == 0,
        step(ids, pre, post, halt),
    ensures
        halt == Some(RunOutcome::ArithmeticFault { position: pre.pc as usize }),
        post.regs == pre.regs,
        post.code == pre.code,
        post.flag == pre.flag,
{
}

/// Each comparison instruction sets the flag to exactly the mathematical
/// relation between the two register values, touches no register, and moves
/// the counter past the instruction.
pub proof fn lemma_comparisons_set_flag(s: MachineState, reg1: u8, reg2: u8)
    requires
        s.wf(),
    ensures
        apply(s, Instr::Eq { reg1, reg2 }).flag == (s.regs[reg1 as int] == s.regs[reg2 as int]),
        apply(s, Instr::Neq { reg1, reg2 }).flag == (s.regs[reg1 as int] != s.regs[reg2 as int]),
        apply(s, Instr::Gt { reg1, reg2 }).flag == (s.regs[reg1 as int] > s.regs[reg2 as int]),
        apply(s, Instr::Lt { reg1, reg2 }).flag == (s.regs[reg1 as int] < s.regs[reg2 as int]),
        apply(s, Instr::Gte { reg1, reg2 }).flag == (s.regs[reg1 as int] >= s.regs[reg2 as int]),
        apply(s, Instr::Lte { reg1, reg2 }).flag == (s.regs[reg1 as int] <= s.regs[reg2 as int]),
        forall|instr: Instr| (instr matches Instr::Eq { .. } || instr matches Instr::Neq { .. }
            || instr matches Instr::Gt { .. } || instr matches Instr::Lt { .. }
            || instr matches Instr::Gte { .. } || instr matches Instr::Lte { .. }) ==> {
            &&& (#[trigger] apply(s, instr)).regs == s.regs
            &&& apply(s, instr).code == s.code
            &&& apply(s, instr).pc == s.pc + 3
        },
{
}

/// `JEQ` (and `JNE`) move the counter to the register-held address exactly
/// when the comparison flag is true (respectively false), and otherwise fall
/// through to the next instruction; registers, buffer and flag are
/// untouched.
pub proof fn lemma_conditional_jumps(s: MachineState, reg: u8)
    requires
        s.wf(),
    ensures
        s.flag ==> apply(s, Instr::Jeq { reg }).pc == jump_dest(
            s.code.len(),
            s.regs[reg as int],
        ),
        !s.flag ==> apply(s, Instr::Jeq { reg }).pc == s.pc + 2,
        !s.flag ==> apply(s, Instr::Jne { reg }).pc == jump_dest(
            s.code.len(),
            s.regs[reg as int],
        ),
        s.flag ==> apply(s, Instr::Jne { reg }).pc == s.pc + 2,
        apply(s, Instr::Jeq { reg }).regs == s.regs,
        apply(s, Instr::Jeq { reg }).code == s.code,
        apply(s, Instr::Jeq { reg }).flag == s.flag,
        apply(s, Instr::Jne { reg }).regs == s.regs,
        apply(s, Instr::Jne { reg }).code == s.code,
        apply(s, Instr::Jne { reg }).flag == s.flag,
{
}

/// `SYS` with an unregistered id halts the run, reporting that id, and
/// leaves the registers, the buffer and the flag exactly as they were
/// immediately before the instruction.
pub proof fn lemma_unknown_syscall_preserves_state(
    ids: Set<i64>,
    pre: MachineState,
    post: MachineState,
    id: i64,
)
    requires
        step(ids, pre, post, Some(RunOutcome::UnknownSyscall { id })),
    ensures
        !ids.contains(id),
        post.regs == pre.regs,
        post.code == pre.code,
        post.flag == pre.flag,
{
}

/// The two bytes a 16-bit value is emitted as, most-significant first.
pub open spec fn encode_u16(v: u16) -> Seq<u8> {
    seq![(v / 256) as u8, (v % 256) as u8]
}

/// Reading back the two emitted bytes of a 16-bit value yields that value.
pub proof fn lemma_be16_of_encode(v: u16)
    ensures
        be16((v / 256) as u8, (v % 256) as u8) == v,
{
    vstd::arithmetic::div_mod::lemma_fundamental_div_mod(v as int, 256);
}

/// From `pc` on, the buffer holds a chain of well-formed instructions that
/// neither jump nor dispatch, ending in a `STOP` whose byte is the last of
/// the buffer.  Running such a program executes each instruction in order
/// and halts at the very end.  With `allow_div` false the chain holds no
/// `DIV` either, so no step of it can fault; with `allow_div` true a `DIV`
/// whose divisor register is zero may end the run early with an arithmetic
/// fault.
pub open spec fn straight_line(code: Seq<u8>, pc: nat, allow_div: bool) -> bool
    decreases code.len() - pc,
{
    &&& pc < code.len()
    &&& match decode_at(code, pc) {
        Decoded::Instruction(instr) => match instr {
            Instr::Stop => pc + 1 == code.len(),
            Instr::Load { .. }
            | Instr::Add { .. }
            | Instr::Sub { .. }
            | Instr::Mul { .. } => pc + 4 <= code.len() && straight_line(code, pc + 4, allow_div),
            Instr::Div { .. } => allow_div && pc + 4 <= code.len() && straight_line(
                code,
                pc + 4,
                allow_div,
            ),
            Instr::Eq { .. }
            | Instr::Neq { .. }
            | Instr::Gt { .. }
            | Instr::Lt { .. }
            | Instr::Gte { .. }
            | Instr::Lte { .. } => pc + 3 <= code.len() && straight_line(code, pc + 3, allow_div),
            _ => false,
        },
        _ => false,
    }
}

/// One step of a straight-line program keeps it straight-line: the buffer is
/// untouched, a continuing step advances the counter, and the only halting
/// steps are the final `STOP`, which leaves the counter at the buffer
/// length, and — only where `DIV` is admitted — an arithmetic fault on a
/// zero divisor.
pub proof fn lemma_straight_line_step(
    ids: Set<i64>,
    pre: MachineState,
    post: MachineState,
    halt: Option<RunOutcome>,
    allow_div: bool,
)
    requires
        straight_line(pre.code, pre.pc, allow_div),
        step(ids, pre, post, halt),
    ensures
        post.code == pre.code,
        halt is None ==> straight_line(post.code, post.pc, allow_div) && post.pc > pre.pc,
        halt matches Some(r) ==> (r == RunOutcome::Stopped && post.pc == pre.code.len()) || (
        allow_div && (r matches RunOutcome::ArithmeticFault { .. }) && post.pc > pre.pc),
{
}

pub proof fn lemma_reaches_in_step(
    ids: Set<i64>,
    s0: MachineState,
    s1: MachineState,
    s2: MachineState,
    n: nat,
)
    requires
        reaches_in(ids, s0, s1, n),
        step(ids, s1, s2, None),
    ensures
        reaches_in(ids, s0, s2, n + 1),
{
    assert(reaches_in(ids, s0, s1, n) && step(ids, s1, s2, None));
}

} // verus!
