use register_machine::assembler::assemble;
use register_machine::lexer::{Lexer, TokenType};
use register_machine::opcode::OpCode;
use register_machine::parser::Parser;
use register_machine::semantics::RunOutcome;
use register_machine::vm::{NoSyscalls, VM};

#[test]
fn test_assemble() {
    let input = String::from("load %0 #123\nload %1 #456\nadd %2 %0 %1\n");
    let mut vm = assemble(input, VM::<NoSyscalls>::new()).unwrap();

    vm.run();

    assert_eq!(vm.registers[0], 123);
    assert_eq!(vm.registers[1], 456);
    assert_eq!(vm.registers[2], 579);
}

#[test]
fn test_append_code() {
    let input = String::from("load %0 #123\nload %1 #456\nadd %2 %0 %1\n");
    let mut vm = assemble(input, VM::<NoSyscalls>::new()).unwrap();

    vm.run();

    let input2 = String::from("load %3 #579\neq %3 %2\n");
    vm = assemble(input2, vm).unwrap();

    vm.run();

    assert_eq!(vm.registers[0], 123);
    assert_eq!(vm.registers[1], 456);
    assert_eq!(vm.registers[3], 579);
    assert_eq!(vm.comparison, true);
}

#[test]
fn assemble_emits_the_documented_encoding() {
    let input = String::from("load %0 #123\n");
    let vm = assemble(input, VM::<NoSyscalls>::new()).unwrap();
    assert_eq!(vm.code, vec![1, 0, 0, 123]);
}

#[test]
fn assemble_rejects_a_stray_character() {
    let input = String::from("load %0 #1\n?\n");
    let result = assemble(input, VM::<NoSyscalls>::new());
    let error = match result {
        Ok(_) => panic!("a stray character must be rejected"),
        Err(error) => error,
    };
    assert_eq!(error.character, '?');
}

#[test]
fn assemble_leaves_state_alone() {
    // Assembling appends code only: registers, counter and flag carry over,
    // so a later run resumes where the previous one halted.
    let mut vm = assemble(String::from("load %5 #44\n"), VM::<NoSyscalls>::new()).unwrap();
    vm.run();
    let pc_after_first_run = vm.pc;
    let vm2 = assemble(String::from("load %6 #55\n"), vm).unwrap();
    assert_eq!(vm2.registers[5], 44);
    assert_eq!(vm2.pc, pc_after_first_run);
    assert_eq!(vm2.comparison, false);
}

#[test]
fn assemble_empty_input() {
    let mut vm = assemble(String::new(), VM::<NoSyscalls>::new()).unwrap();
    assert_eq!(vm.code, Vec::new());
    let outcome = vm.run();
    assert_eq!(outcome, RunOutcome::Completed);
}

#[test]
fn mnemonics_are_case_insensitive() {
    let input = String::from("LoAd %0 #8\nSTOP\n");
    let mut vm = assemble(input, VM::<NoSyscalls>::new()).unwrap();
    let outcome = vm.run();
    assert_eq!(outcome, RunOutcome::Stopped);
    assert_eq!(vm.registers[0], 8);
}

#[test]
fn comments_are_skipped() {
    let input = String::from("! a whole comment line\nload %0 #3 ! trailing words\n");
    let mut vm = assemble(input, VM::<NoSyscalls>::new()).unwrap();
    vm.run();
    assert_eq!(vm.registers[0], 3);
}

#[test]
fn unknown_mnemonic_assembles_to_the_sentinel() {
    let input = String::from("frobnicate\n");
    let mut vm = assemble(input, VM::<NoSyscalls>::new()).unwrap();
    assert_eq!(vm.code, vec![18]);
    let outcome = vm.run();
    assert_eq!(outcome, RunOutcome::UnknownInstruction { byte: 18, position: 0 });
}

#[test]
fn register_operand_wraps_at_256() {
    let input = String::from("load %300 #5\n");
    let mut vm = assemble(input, VM::<NoSyscalls>::new()).unwrap();
    vm.run();
    assert_eq!(vm.registers[44], 5);
}

#[test]
fn immediate_operand_wraps_at_65536() {
    let input = String::from("load %0 #70000\n");
    let mut vm = assemble(input, VM::<NoSyscalls>::new()).unwrap();
    vm.run();
    assert_eq!(vm.registers[0], 4464);
}

#[test]
fn scenario_jump_over_stop() {
    // A program that loads an offset, jumps via that register over a STOP,
    // then loads 111: the final load runs and the STOP never executes.
    let input = String::from("load %0 #7\njmp %0\nstop\nload %1 #111\n");
    let mut vm = assemble(input, VM::<NoSyscalls>::new()).unwrap();
    let outcome = vm.run();
    assert_eq!(outcome, RunOutcome::Completed);
    assert_eq!(vm.registers[1], 111);
}

#[test]
fn lexer_scans_typed_tokens() {
    let mut lexer = Lexer::new(String::from("add %1 #2"));
    lexer.scan_tokens().unwrap();
    let kinds: Vec<TokenType> = lexer.tokens.iter().map(|t| t.token_type).collect();
    assert_eq!(
        kinds,
        vec![
            TokenType::OpCode(OpCode::ADD),
            TokenType::Register(1),
            TokenType::Integer(2),
        ]
    );
}

#[test]
fn lexer_reports_the_failing_character() {
    let mut lexer = Lexer::new(String::from("load %0 #1\n@"));
    let error = lexer.scan_tokens().unwrap_err();
    assert_eq!(error.character, '@');
    assert_eq!(error.line, 2);
}

#[test]
fn tokens_record_line_and_column() {
    // Lines count newlines before the token; the column counter starts at
    // 1, moves one to the right per character consumed, and restarts after
    // each newline, so it stands just past the token's last character.
    let mut lexer = Lexer::new(String::from("add %1 #2\nsub"));
    lexer.scan_tokens().unwrap();
    let tokens = &lexer.tokens;
    assert_eq!(tokens.len(), 4);
    assert_eq!((tokens[0].line, tokens[0].column), (1, 4));
    assert_eq!((tokens[1].line, tokens[1].column), (1, 7));
    assert_eq!((tokens[2].line, tokens[2].column), (1, 10));
    assert_eq!(tokens[3].token_type, TokenType::OpCode(OpCode::SUB));
    assert_eq!((tokens[3].line, tokens[3].column), (2, 5));
}

#[test]
fn lexer_scans_empty_operands_as_zero() {
    let mut lexer = Lexer::new(String::from("jmp %"));
    lexer.scan_tokens().unwrap();
    let kinds: Vec<TokenType> = lexer.tokens.iter().map(|t| t.token_type).collect();
    assert_eq!(kinds, vec![TokenType::OpCode(OpCode::JMP), TokenType::Register(0)]);
}

#[test]
fn parser_emits_tokens_in_order() {
    let mut lexer = Lexer::new(String::from("eq %3 %4"));
    lexer.scan_tokens().unwrap();
    let parser = Parser::new(lexer.tokens, VM::<NoSyscalls>::new());
    let vm = parser.parse();
    assert_eq!(vm.code, vec![9, 3, 4]);
}
