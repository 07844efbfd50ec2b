//! The instruction emitter: walks the token sequence in order and appends
//! each token's binary encoding to the engine's program buffer.
//!
//! The emitter performs a direct transliteration with no semantic checks:
//! it trusts that the token stream carries the right operand count and order
//! for each opcode, as the source grammar guarantees for well-formed text.

use vstd::prelude::*;

use crate::lexer::Token;
use crate::lexer::TokenType;
use crate::lexer::token_types;
use crate::opcode::opcode_byte;
use crate::semantics::encode_u16;
use crate::vm::SyscallHandler;
use crate::vm::VM;

verus! {

/// The bytes one token is emitted as: one byte for an opcode or a register,
/// two bytes (most-significant first) for an immediate.
pub open spec fn encode_token(t: TokenType) -> Seq<u8> {
    match t {
        TokenType::OpCode(op) => seq![opcode_byte(op)],
        TokenType::Register(r) => seq![r],
        TokenType::Integer(v) => encode_u16(v),
    }
}

/// The bytes a token sequence is emitted as, in order.
pub open spec fn encode_tokens(ts: Seq<TokenType>) -> Seq<u8>
    decreases ts.len(),
{
    if ts.len() == 0 {
        Seq::empty()
    } else {
        encode_token(ts[0]) + encode_tokens(ts.drop_first())
    }
}

/// Emitting one more token appends exactly its encoding.
pub proof fn lemma_encode_tokens_push(ts: Seq<TokenType>, t: TokenType)
    ensures
        encode_tokens(ts.push(t)) == encode_tokens(ts) + encode_token(t),
    decreases ts.len(),
{
    if ts.len() == 0 {
        assert(ts.push(t)[0] == t);
        assert(ts.push(t).drop_first() =~= Seq::<TokenType>::empty());
        assert(encode_tokens(ts.push(t).drop_first()) == Seq::<u8>::empty());
        assert(encode_tokens(ts.push(t)) == encode_token(t) + Seq::<u8>::empty());
        assert(encode_token(t) + Seq::<u8>::empty() =~= encode_token(t));
        assert(encode_tokens(ts) == Seq::<u8>::empty());
        assert(Seq::<u8>::empty() + encode_token(t) =~= encode_token(t));
    } else {
        assert(ts.push(t)[0] == ts[0]);
        assert(ts.push(t).drop_first() =~= ts.drop_first().push(t));
        lemma_encode_tokens_push(ts.drop_first(), t);
        assert(encode_tokens(ts.push(t)) == encode_token(ts[0]) + encode_tokens(
            ts.drop_first().push(t),
        ));
        assert(encode_tokens(ts.push(t)) == encode_token(ts[0]) + (encode_tokens(ts.drop_first())
            + encode_token(t)));
        assert(encode_token(ts[0]) + (encode_tokens(ts.drop_first()) + encode_token(t)) =~= (
        encode_token(ts[0]) + encode_tokens(ts.drop_first())) + encode_token(t));
        assert(encode_tokens(ts) == encode_token(ts[0]) + encode_tokens(ts.drop_first()));
    }
}

/// The emitter: the token sequence, a cursor into it, and the engine whose
/// program buffer receives the encoding.
pub struct Parser<H> {
    pub tokens: Vec<Token>,
    pub current: usize,
    pub vm: VM<H>,
}

impl<H: SyscallHandler> Parser<H> {
    /// An emitter at the start of `tokens`, appending to `vm`'s buffer.
    pub fn new(tokens: Vec<Token>, vm: VM<H>) -> (parser: Parser<H>)
        ensures
            parser.tokens == tokens,
            parser.current == 0,
            parser.vm == vm,
    {
        Parser { tokens, current: 0, vm }
    }

    /// Emits every remaining token and hands the engine back.  The program
    /// buffer grows by exactly the tokens' encoding; registers, counter,
    /// flag and syscall table are untouched.
    pub fn parse(self) -> (vm: VM<H>)
        requires
            self.current <= self.tokens@.len(),
        ensures
            vm.code@ == self.vm.code@ + encode_tokens(
                token_types(self.tokens@.skip(self.current as int)),
            ),
            vm.registers == self.vm.registers,
            vm.pc == self.vm.pc,
            vm.comparison == self.vm.comparison,
            vm.syscalls == self.vm.syscalls,
    {
        let ghost start = self.current as int;
        let mut this = self;
        while !this.is_at_end()
            invariant
                this.tokens == self.tokens,
                start == self.current as int,
                start <= this.current as int <= this.tokens@.len(),
                this.vm.registers == self.vm.registers,
                this.vm.pc == self.vm.pc,
                this.vm.comparison == self.vm.comparison,
                this.vm.syscalls == self.vm.syscalls,
                this.vm.code@ == self.vm.code@ + encode_tokens(
                    token_types(self.tokens@).subrange(start, this.current as int),
                ),
            decreases this.tokens@.len() - this.current,
        {
            let ghost cur = this.current as int;
            let ghost ts = token_types(self.tokens@);
            this.next_instruction();
            proof {
                assert(ts.subrange(start, cur + 1) =~= ts.subrange(start, cur).push(ts[cur]));
                lemma_encode_tokens_push(ts.subrange(start, cur), ts[cur]);
                assert((self.vm.code@ + encode_tokens(ts.subrange(start, cur))) + encode_token(
                    ts[cur],
                ) =~= self.vm.code@ + encode_tokens(ts.subrange(start, cur + 1)));
            }
        }
        proof {
            assert(token_types(self.tokens@).subrange(start, this.current as int) =~= token_types(
                self.tokens@.skip(start),
            ));
        }
        this.vm
    }

    /// Emits the encoding of the token at the cursor.
    fn next_instruction(&mut self)
        requires
            old(self).current < old(self).tokens@.len(),
        ensures
            final(self).tokens == old(self).tokens,
            final(self).current == old(self).current + 1,
            final(self).vm.code@ == old(self).vm.code@ + encode_token(
                token_types(old(self).tokens@)[old(self).current as int],
            ),
            final(self).vm.registers == old(self).vm.registers,
            final(self).vm.pc == old(self).vm.pc,
            final(self).vm.comparison == old(self).vm.comparison,
            final(self).vm.syscalls == old(self).vm.syscalls,
    {
        let token = self.advance();

        let token_type = token.token_type;
        match token_type {
            TokenType::OpCode(opcode) => {
                self.vm.write_opcode(opcode);
                proof {
                    assert(self.vm.code@ =~= old(self).vm.code@ + encode_token(token_type));
                }
            },
            TokenType::Register(register) => {
                self.vm.write_u8(register);
                proof {
                    assert(self.vm.code@ =~= old(self).vm.code@ + encode_token(token_type));
                }
            },
            TokenType::Integer(integer) => {
                self.vm.write_u16(integer);
            },
        }
    }

    /// Returns the token at the cursor and moves past it.
    fn advance(&mut self) -> (t: Token)
        requires
            old(self).current < old(self).tokens@.len(),
        ensures
            t == old(self).tokens@[old(self).current as int],
            final(self).tokens == old(self).tokens,
            final(self).current == old(self).current + 1,
            final(self).vm == old(self).vm,
    {
        let count = self.tokens.len();
        assert(self.current < count);
        let t = self.tokens[self.current];
        self.current = self.current + 1;
        t
    }

    /// Whether every token has been emitted.
    fn is_at_end(&self) -> (r: bool)
        ensures
            r == (self.current >= self.tokens@.len()),
    {
        self.current >= self.tokens.len()
    }
}

} // verus!
