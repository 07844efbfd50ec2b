use register_machine::opcode::OpCode;
use register_machine::semantics::RunOutcome;
use register_machine::vm::{NoSyscalls, SyscallHandler, VM};

struct StoreMarker;

impl SyscallHandler for StoreMarker {
    fn handle(
        &self,
        registers: &mut [i64; 256],
        _pc: &mut usize,
        _code: &mut Vec<u8>,
        _comparison: &mut bool,
    ) -> bool {
        registers[0] = 321;
        true
    }
}

struct HaltRequest;

impl SyscallHandler for HaltRequest {
    fn handle(
        &self,
        _registers: &mut [i64; 256],
        _pc: &mut usize,
        _code: &mut Vec<u8>,
        _comparison: &mut bool,
    ) -> bool {
        false
    }
}

#[test]
fn test_new() {
    let vm: VM<NoSyscalls> = VM::new();
    assert_eq!(vm.pc, 0);
    assert_eq!(vm.registers, [0; 256]);
    assert_eq!(vm.comparison, false);
    assert_eq!(vm.code, Vec::new());
}

#[test]
fn test_stop() {
    let mut vm: VM<NoSyscalls> = VM::new();
    vm.write_opcode(OpCode::STOP);
    vm.run();
    assert_eq!(vm.pc, 1);
}

#[test]
fn test_load() {
    let mut vm: VM<NoSyscalls> = VM::new();
    vm.write_opcode(OpCode::LOAD);
    vm.write_u8(0);
    vm.write_u16(76);
    vm.run();
    assert_eq!(vm.registers[0], 76);
}

#[test]
fn test_add() {
    let mut vm: VM<NoSyscalls> = VM::new();
    vm.write_opcode(OpCode::LOAD);
    vm.write_u8(0);
    vm.write_u16(42);
    vm.write_opcode(OpCode::LOAD);
    vm.write_u8(1);
    vm.write_u16(23);
    vm.write_opcode(OpCode::ADD);
    vm.write_u8(2);
    vm.write_u8(0);
    vm.write_u8(1);
    vm.run();
    assert_eq!(vm.registers[2], 65);
}

#[test]
fn test_sub() {
    let mut vm: VM<NoSyscalls> = VM::new();
    vm.write_opcode(OpCode::LOAD);
    vm.write_u8(0);
    vm.write_u16(42);
    vm.write_opcode(OpCode::LOAD);
    vm.write_u8(1);
    vm.write_u16(18);
    vm.write_opcode(OpCode::SUB);
    vm.write_u8(2);
    vm.write_u8(0);
    vm.write_u8(1);
    vm.run();
    assert_eq!(vm.registers[2], 24);
}

#[test]
fn test_mul() {
    let mut vm: VM<NoSyscalls> = VM::new();
    vm.write_opcode(OpCode::LOAD);
    vm.write_u8(0);
    vm.write_u16(6);
    vm.write_opcode(OpCode::LOAD);
    vm.write_u8(1);
    vm.write_u16(8);
    vm.write_opcode(OpCode::MUL);
    vm.write_u8(2);
    vm.write_u8(0);
    vm.write_u8(1);
    vm.run();
    assert_eq!(vm.registers[2], 48);
}

#[test]
fn test_div() {
    let mut vm: VM<NoSyscalls> = VM::new();
    vm.write_opcode(OpCode::LOAD);
    vm.write_u8(0);
    vm.write_u16(48);
    vm.write_opcode(OpCode::LOAD);
    vm.write_u8(1);
    vm.write_u16(6);
    vm.write_opcode(OpCode::DIV);
    vm.write_u8(2);
    vm.write_u8(0);
    vm.write_u8(1);
    vm.run();
    assert_eq!(vm.registers[2], 8);
}

#[test]
fn test_jmp() {
    let mut vm: VM<NoSyscalls> = VM::new();
    vm.write_opcode(OpCode::LOAD); // 0
    vm.write_u8(0); // 1
    vm.write_u16(7); // 2, 3
    vm.write_opcode(OpCode::JMP); // 4
    vm.write_u8(0); // 5
    vm.write_opcode(OpCode::STOP); // 6
    vm.write_opcode(OpCode::LOAD); // 7
    vm.write_u8(1); // 8
    vm.write_u16(111); // 9, 10
    vm.run();
    // JMP should skip the STOP instruction, allowing the LOAD to execute
    assert_eq!(vm.registers[1], 111);
}

#[test]
fn test_jfw() {
    let mut vm: VM<NoSyscalls> = VM::new();
    vm.write_opcode(OpCode::LOAD); // 0
    vm.write_u8(0); // 1
    vm.write_u16(1); // 2, 3
    vm.write_opcode(OpCode::JFW); // 4
    vm.write_u8(0); // 5
    vm.write_opcode(OpCode::STOP); // 6
    vm.write_opcode(OpCode::LOAD); // 7
    vm.write_u8(1); // 8
    vm.write_u16(111); // 9, 10
    vm.run();
    // The forward jump should skip the STOP instruction, allowing the LOAD to execute
    assert_eq!(vm.registers[1], 111);
}

#[test]
fn test_jbk() {
    // Skip over a LOAD instruction and then jump back to it
    let mut vm: VM<NoSyscalls> = VM::new();
    vm.write_opcode(OpCode::LOAD); // 0
    vm.write_u8(0); // 1
    vm.write_u16(15); // 2, 3
    vm.write_opcode(OpCode::LOAD); // 4
    vm.write_u8(1); // 5
    vm.write_u16(7); // 6, 7
    vm.write_opcode(OpCode::JMP); // 8
    vm.write_u8(0); // 9
    vm.write_opcode(OpCode::LOAD); // 10
    vm.write_u8(1); // 11
    vm.write_u16(111); // 12, 13
    vm.write_opcode(OpCode::STOP); // 14
    vm.write_opcode(OpCode::JBK); // 15
    vm.write_u8(1); // 16
    vm.run();
    // The backward jump should go back to the LOAD instruction at 10
    assert_eq!(vm.registers[1], 111);
}

#[test]
fn test_eq() {
    let mut vm: VM<NoSyscalls> = VM::new();

    // Test equality = true
    vm.write_opcode(OpCode::LOAD);
    vm.write_u8(0);
    vm.write_u16(13);
    vm.write_opcode(OpCode::LOAD);
    vm.write_u8(1);
    vm.write_u16(13);
    vm.write_opcode(OpCode::EQ);
    vm.write_u8(0);
    vm.write_u8(1);
    vm.run();
    assert_eq!(vm.comparison, true);

    // Test equality = false
    vm.write_opcode(OpCode::LOAD);
    vm.write_u8(0);
    vm.write_u16(12);
    vm.write_opcode(OpCode::EQ);
    vm.write_u8(0);
    vm.write_u8(1);
    vm.run();
    assert_eq!(vm.comparison, false);
}

#[test]
fn test_neq() {
    let mut vm: VM<NoSyscalls> = VM::new();

    // Test inequality = true
    vm.write_opcode(OpCode::LOAD);
    vm.write_u8(0);
    vm.write_u16(13);
    vm.write_opcode(OpCode::LOAD);
    vm.write_u8(1);
    vm.write_u16(14);
    vm.write_opcode(OpCode::NEQ);
    vm.write_u8(0);
    vm.write_u8(1);
    vm.run();
    assert_eq!(vm.comparison, true);

    // Test inequality = false
    vm.write_opcode(OpCode::LOAD);
    vm.write_u8(0);
    vm.write_u16(14);
    vm.write_opcode(OpCode::NEQ);
    vm.write_u8(0);
    vm.write_u8(1);
    vm.run();
    assert_eq!(vm.comparison, false);
}

#[test]
fn test_gt() {
    let mut vm: VM<NoSyscalls> = VM::new();

    // Test greater than = true
    vm.write_opcode(OpCode::LOAD);
    vm.write_u8(0);
    vm.write_u16(14);
    vm.write_opcode(OpCode::LOAD);
    vm.write_u8(1);
    vm.write_u16(13);
    vm.write_opcode(OpCode::GT);
    vm.write_u8(0);
    vm.write_u8(1);
    vm.run();
    assert_eq!(vm.comparison, true);

    // Test greater than = false
    vm.write_opcode(OpCode::LOAD);
    vm.write_u8(0);
    vm.write_u16(13);
    vm.write_opcode(OpCode::GT);
    vm.write_u8(0);
    vm.write_u8(1);
    vm.run();
    assert_eq!(vm.comparison, false);
}

#[test]
fn test_lt() {
    let mut vm: VM<NoSyscalls> = VM::new();

    // Test less than = true
    vm.write_opcode(OpCode::LOAD);
    vm.write_u8(0);
    vm.write_u16(13);
    vm.write_opcode(OpCode::LOAD);
    vm.write_u8(1);
    vm.write_u16(14);
    vm.write_opcode(OpCode::LT);
    vm.write_u8(0);
    vm.write_u8(1);
    vm.run();
    assert_eq!(vm.comparison, true);

    // Test less than = false
    vm.write_opcode(OpCode::LOAD);
    vm.write_u8(0);
    vm.write_u16(15);
    vm.write_opcode(OpCode::LT);
    vm.write_u8(0);
    vm.write_u8(1);
    vm.run();
    assert_eq!(vm.comparison, false);
}

#[test]
fn test_gte() {
    let mut vm: VM<NoSyscalls> = VM::new();

    // Test greater than or equal = true
    // Greater than
    vm.write_opcode(OpCode::LOAD);
    vm.write_u8(0);
    vm.write_u16(14);
    vm.write_opcode(OpCode::LOAD);
    vm.write_u8(1);
    vm.write_u16(13);
    vm.write_opcode(OpCode::GTE);
    vm.write_u8(0);
    vm.write_u8(1);
    vm.run();
    assert_eq!(vm.comparison, true);

    // Equal to
    vm.write_opcode(OpCode::LOAD);
    vm.write_u8(0);
    vm.write_u16(13);
    vm.write_opcode(OpCode::GTE);
    vm.write_u8(0);
    vm.write_u8(1);
    vm.run();
    assert_eq!(vm.comparison, true);

    // Test greater than or equal = false
    vm.write_opcode(OpCode::LOAD);
    vm.write_u8(0);
    vm.write_u16(12);
    vm.write_opcode(OpCode::GTE);
    vm.write_u8(0);
    vm.write_u8(1);
    vm.run();
    assert_eq!(vm.comparison, false);
}

#[test]
fn test_lte() {
    let mut vm: VM<NoSyscalls> = VM::new();

    // Test less than or equal = true
    // Less than
    vm.write_opcode(OpCode::LOAD);
    vm.write_u8(0);
    vm.write_u16(13);
    vm.write_opcode(OpCode::LOAD);
    vm.write_u8(1);
    vm.write_u16(14);
    vm.write_opcode(OpCode::LTE);
    vm.write_u8(0);
    vm.write_u8(1);
    vm.run();
    assert_eq!(vm.comparison, true);

    // Equal to
    vm.write_opcode(OpCode::LOAD);
    vm.write_u8(0);
    vm.write_u16(13);
    vm.write_opcode(OpCode::LTE);
    vm.write_u8(0);
    vm.write_u8(1);
    vm.run();
    assert_eq!(vm.comparison, true);

    // Test less than or equal = false
    vm.write_opcode(OpCode::LOAD);
    vm.write_u8(0);
    vm.write_u16(15);
    vm.write_opcode(OpCode::LTE);
    vm.write_u8(0);
    vm.write_u8(1);
    vm.run();
    assert_eq!(vm.comparison, false);
}

#[test]
fn test_jeq() {
    let mut vm: VM<NoSyscalls> = VM::new();

    vm.write_opcode(OpCode::LOAD); // 0
    vm.write_u8(0); // 1
    vm.write_u16(13); // 2, 3
    vm.write_opcode(OpCode::LOAD); // 4
    vm.write_u8(1); // 5
    vm.write_u16(13); // 6, 7
    vm.write_opcode(OpCode::LOAD); // 8
    vm.write_u8(2); // 9
    vm.write_u16(18); // 10, 11
    vm.write_opcode(OpCode::EQ); // 12
    vm.write_u8(0); // 13
    vm.write_u8(1); // 14
    vm.write_opcode(OpCode::JEQ); // 15
    vm.write_u8(2); // 16
    vm.write_opcode(OpCode::STOP); // 17
    vm.write_opcode(OpCode::LOAD); // 18
    vm.write_u8(3); // 19
    vm.write_u16(14); // 20, 21
    vm.run();

    assert_eq!(vm.comparison, true);
    // Should have jumped to 18 and skipped over the stop instruction
    assert_eq!(vm.registers[3], 14);
}

#[test]
fn test_jne() {
    let mut vm: VM<NoSyscalls> = VM::new();

    vm.write_opcode(OpCode::LOAD); // 0
    vm.write_u8(0); // 1
    vm.write_u16(13); // 2, 3
    vm.write_opcode(OpCode::LOAD); // 4
    vm.write_u8(1); // 5
    vm.write_u16(13); // 6, 7
    vm.write_opcode(OpCode::LOAD); // 8
    vm.write_u8(2); // 9
    vm.write_u16(18); // 10, 11
    vm.write_opcode(OpCode::EQ); // 12
    vm.write_u8(0); // 13
    vm.write_u8(1); // 14
    vm.write_opcode(OpCode::JNE); // 15
    vm.write_u8(2); // 16
    vm.write_opcode(OpCode::STOP); // 17
    vm.write_opcode(OpCode::LOAD); // 18
    vm.write_u8(3); // 19
    vm.write_u16(14); // 20, 21
    vm.run();

    assert_eq!(vm.comparison, true);
    // Should have fallen through to the stop instruction, never loading 14 into register 3
    assert_ne!(vm.registers[3], 14);
}

#[test]
fn test_sys() {
    let mut vm: VM<StoreMarker> = VM::new();

    vm.add_syscall(0, StoreMarker);

    vm.write_opcode(OpCode::SYS);
    vm.write_u8(0);
    vm.run();

    assert_eq!(vm.registers[0], 321);
}

#[test]
fn stop_reports_the_halt() {
    let mut vm: VM<NoSyscalls> = VM::new();
    vm.write_opcode(OpCode::STOP);
    let outcome = vm.run();
    assert_eq!(outcome, RunOutcome::Stopped);
}

#[test]
fn empty_program_completes() {
    let mut vm: VM<NoSyscalls> = VM::new();
    let outcome = vm.run();
    assert_eq!(outcome, RunOutcome::Completed);
    assert_eq!(vm.pc, 0);
}

#[test]
fn division_by_zero_faults() {
    let mut vm: VM<NoSyscalls> = VM::new();
    vm.write_opcode(OpCode::LOAD); // 0
    vm.write_u8(0); // 1
    vm.write_u16(5); // 2, 3
    vm.write_opcode(OpCode::DIV); // 4
    vm.write_u8(2); // 5
    vm.write_u8(0); // 6
    vm.write_u8(1); // 7
    let outcome = vm.run();
    assert_eq!(outcome, RunOutcome::ArithmeticFault { position: 4 });
    assert_eq!(vm.registers[0], 5);
    assert_eq!(vm.registers[2], 0);
}

#[test]
fn division_truncates_toward_zero() {
    // registers[2] := 0 - 7 == -7; registers[4] := -7 / 2 == -3
    let mut vm: VM<NoSyscalls> = VM::new();
    vm.write_opcode(OpCode::LOAD);
    vm.write_u8(1);
    vm.write_u16(7);
    vm.write_opcode(OpCode::SUB);
    vm.write_u8(2);
    vm.write_u8(0);
    vm.write_u8(1);
    vm.write_opcode(OpCode::LOAD);
    vm.write_u8(3);
    vm.write_u16(2);
    vm.write_opcode(OpCode::DIV);
    vm.write_u8(4);
    vm.write_u8(2);
    vm.write_u8(3);
    vm.run();
    assert_eq!(vm.registers[2], -7);
    assert_eq!(vm.registers[4], -3);
}

#[test]
fn multiplication_wraps_on_overflow() {
    let mut vm: VM<NoSyscalls> = VM::new();
    vm.write_opcode(OpCode::LOAD);
    vm.write_u8(0);
    vm.write_u16(65535);
    vm.write_opcode(OpCode::MUL);
    vm.write_u8(0);
    vm.write_u8(0);
    vm.write_u8(0);
    vm.write_opcode(OpCode::MUL);
    vm.write_u8(0);
    vm.write_u8(0);
    vm.write_u8(0);
    vm.run();
    assert_eq!(vm.registers[0], 65535i64.wrapping_pow(4));
    assert_eq!(vm.registers[0], -1125874137300991);
}

#[test]
fn unknown_opcode_halts_and_reports() {
    let mut vm: VM<NoSyscalls> = VM::new();
    vm.write_u8(99);
    let outcome = vm.run();
    assert_eq!(outcome, RunOutcome::UnknownInstruction { byte: 99, position: 0 });
}

#[test]
fn truncated_instruction_halts_and_resumes() {
    let mut vm: VM<NoSyscalls> = VM::new();
    vm.write_opcode(OpCode::LOAD);
    let outcome = vm.run();
    assert_eq!(outcome, RunOutcome::TruncatedInstruction { position: 0 });
    assert_eq!(vm.pc, 0);

    // Appending the missing operands and running again retries the
    // instruction and completes the program.
    vm.write_u8(7);
    vm.write_u16(123);
    vm.write_opcode(OpCode::STOP);
    let outcome = vm.run();
    assert_eq!(outcome, RunOutcome::Stopped);
    assert_eq!(vm.registers[7], 123);
}

#[test]
fn unknown_syscall_preserves_registers() {
    // Scenario: SYS names an id with no registered handler; the engine
    // halts, reports the id, and every register is exactly as it was
    // immediately before the SYS instruction.
    let mut vm: VM<NoSyscalls> = VM::new();
    vm.write_opcode(OpCode::LOAD); // 0
    vm.write_u8(0); // 1
    vm.write_u16(7); // 2, 3
    vm.write_opcode(OpCode::LOAD); // 4
    vm.write_u8(1); // 5
    vm.write_u16(9); // 6, 7
    vm.write_opcode(OpCode::SYS); // 8
    vm.write_u8(1); // 9
    let outcome = vm.run();
    assert_eq!(outcome, RunOutcome::UnknownSyscall { id: 9 });
    assert_eq!(vm.registers[0], 7);
    assert_eq!(vm.registers[1], 9);
    for i in 2..256 {
        assert_eq!(vm.registers[i], 0);
    }
}

#[test]
fn syscall_can_request_halt() {
    let mut vm: VM<HaltRequest> = VM::new();
    vm.add_syscall(4, HaltRequest);
    vm.write_opcode(OpCode::LOAD); // 0
    vm.write_u8(0); // 1
    vm.write_u16(4); // 2, 3
    vm.write_opcode(OpCode::SYS); // 4
    vm.write_u8(0); // 5
    vm.write_opcode(OpCode::LOAD); // 6: never reached
    vm.write_u8(1); // 7
    vm.write_u16(1); // 8, 9
    let outcome = vm.run();
    assert_eq!(outcome, RunOutcome::SyscallHalt { id: 4 });
    assert_eq!(vm.registers[1], 0);
}

#[test]
fn registering_a_syscall_twice_replaces_it() {
    let mut vm: VM<HaltRequest> = VM::new();
    vm.add_syscall(0, HaltRequest);
    vm.add_syscall(0, HaltRequest);
    vm.write_opcode(OpCode::SYS);
    vm.write_u8(0);
    let outcome = vm.run();
    assert_eq!(outcome, RunOutcome::SyscallHalt { id: 0 });
}

#[test]
fn jump_out_of_range_completes() {
    let mut vm: VM<NoSyscalls> = VM::new();
    vm.write_opcode(OpCode::LOAD);
    vm.write_u8(0);
    vm.write_u16(60000);
    vm.write_opcode(OpCode::JMP);
    vm.write_u8(0);
    let outcome = vm.run();
    assert_eq!(outcome, RunOutcome::Completed);
}

#[test]
fn backward_jump_past_start_completes() {
    let mut vm: VM<NoSyscalls> = VM::new();
    vm.write_opcode(OpCode::LOAD);
    vm.write_u8(0);
    vm.write_u16(500);
    vm.write_opcode(OpCode::JBK);
    vm.write_u8(0);
    let outcome = vm.run();
    assert_eq!(outcome, RunOutcome::Completed);
}

#[test]
fn negative_jump_target_completes() {
    // registers[2] := 0 - 5 == -5, then JMP via registers[2]
    let mut vm: VM<NoSyscalls> = VM::new();
    vm.write_opcode(OpCode::LOAD);
    vm.write_u8(1);
    vm.write_u16(5);
    vm.write_opcode(OpCode::SUB);
    vm.write_u8(2);
    vm.write_u8(0);
    vm.write_u8(1);
    vm.write_opcode(OpCode::JMP);
    vm.write_u8(2);
    let outcome = vm.run();
    assert_eq!(outcome, RunOutcome::Completed);
}

#[test]
fn opcode_bytes_round_trip() {
    let opcodes = [
        OpCode::STOP,
        OpCode::LOAD,
        OpCode::ADD,
        OpCode::SUB,
        OpCode::MUL,
        OpCode::DIV,
        OpCode::JMP,
        OpCode::JFW,
        OpCode::JBK,
        OpCode::EQ,
        OpCode::NEQ,
        OpCode::GT,
        OpCode::LT,
        OpCode::GTE,
        OpCode::LTE,
        OpCode::JEQ,
        OpCode::JNE,
        OpCode::SYS,
    ];
    for (i, op) in opcodes.iter().enumerate() {
        assert_eq!(op.to_byte(), i as u8);
        assert_eq!(OpCode::from_byte(i as u8), *op);
    }
    assert_eq!(OpCode::from_byte(18), OpCode::UKWN);
    assert_eq!(OpCode::from_byte(255), OpCode::UKWN);
}
