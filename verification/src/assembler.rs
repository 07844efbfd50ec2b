//! The assembler pipeline: tokenize the source text, then emit every token's
//! encoding onto the engine's program buffer.

use vstd::prelude::*;

use crate::lexer::AssemblyError;
use crate::lexer::Lexed;
use crate::lexer::Lexer;
use crate::lexer::Token;
use crate::lexer::lex_from;
use crate::lexer::token_types;
use crate::parser::Parser;
use crate::parser::encode_tokens;
use crate::vm::SyscallHandler;
use crate::vm::VM;

verus! {

/// Assembles `input` and appends the result to `vm`'s program buffer.
///
/// On success, the buffer grows by exactly the encoding of the tokens that
/// [`lex_from`] describes, and registers, program counter, comparison flag
/// and syscall table carry over unchanged, so a program can be extended
/// across calls and resumed.  The input is rejected, and nothing emitted, if
/// and only if the tokenizer fails: the error reports the character, at the
/// position [`lex_from`] names, that no token can start with.
pub fn assemble<H: SyscallHandler>(input: String, vm: VM<H>) -> (r: Result<VM<H>, AssemblyError>)
    ensures
        match lex_from(input@, 0) {
            Lexed::Tokens(ts) => r matches Ok(assembled) && assembled.code@ == vm.code@
                + encode_tokens(token_types(ts)) && assembled.registers == vm.registers
                && assembled.pc == vm.pc && assembled.comparison == vm.comparison
                && assembled.syscalls == vm.syscalls,
            Lexed::Fail(j) => r matches Err(e) && j < input@.len() && e.character
                == input@[j as int],
        },
{
    let ghost src = input@;
    let mut lexer = Lexer::new(input);

    if let Err(e) = lexer.scan_tokens() {
        return Err(e);
    }

    proof {
        if let Lexed::Tokens(ts) = lex_from(src, 0) {
            assert(Seq::<Token>::empty() + ts =~= ts);
            assert(lexer.tokens@ =~= ts);
        }
        assert(lexer.tokens@.skip(0) =~= lexer.tokens@);
    }

    let parser = Parser::new(lexer.tokens, vm);

    Ok(parser.parse())
}

} // verus!
