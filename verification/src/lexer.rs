//! The tokenizer: turns assembly text into the ordered sequence of typed
//! tokens that the emitter encodes.
//!
//! The function [`lex_from`] is the mathematical description of the whole
//! scan; [`Lexer::scan_tokens`] is proved to produce exactly its tokens, or
//! to fail exactly where it fails.

use vstd::prelude::*;

use vstd::arithmetic::div_mod::lemma_add_mod_noop_right;
use vstd::arithmetic::div_mod::lemma_mod_division_less_than_divisor;
use vstd::arithmetic::div_mod::lemma_mod_mod;
use vstd::arithmetic::div_mod::lemma_mod_sub_multiples_vanish;
use vstd::arithmetic::div_mod::lemma_mul_mod_noop_left;
use vstd::arithmetic::div_mod::lemma_small_mod;
use vstd::string::StrSliceExecFns;

use crate::opcode::OpCode;

verus! {

/// One scanned token: an opcode mnemonic, a register operand (`%` and
/// digits, kept modulo 256), or an immediate operand (`#` and digits, kept
/// modulo 65536).
#[derive(Copy, Clone, Debug, PartialEq, Eq, Structural)]
pub enum TokenType {
    OpCode(OpCode),
    Register(u8),
    Integer(u16),
}

/// A token together with the line and column it was scanned at, for
/// diagnostics.
#[derive(Copy, Clone, Debug, PartialEq, Eq, Structural)]
pub struct Token {
    pub token_type: TokenType,
    pub line: usize,
    pub column: usize,
}

/// The tokenizer failure: text whose leading character opens no token.  The
/// whole input is rejected; nothing was emitted to any engine.
#[derive(Copy, Clone, Debug, PartialEq, Eq, Structural)]
pub struct AssemblyError {
    /// The character no token can start with.
    pub character: char,
    /// The line the character stands on, counting from 1.
    pub line: usize,
    /// The column counter at the point of failure.
    pub column: usize,
}

/// The token kinds of a token sequence, without the diagnostic positions.
pub open spec fn token_types(tokens: Seq<Token>) -> Seq<TokenType> {
    tokens.map_values(|t: Token| t.token_type)
}

/// The characters the tokenizer skips between tokens.
pub open spec fn is_ws(c: char) -> bool {
    c == ' ' || c == '\t' || c == '\r' || c == '\n'
}

/// A decimal digit.
pub open spec fn is_digit_char(c: char) -> bool {
    48 <= c as u32 && c as u32 <= 57
}

/// The value of a decimal digit.
pub open spec fn digit_val(c: char) -> nat
    recommends
        is_digit_char(c),
{
    (c as u32 - 48) as nat
}

/// An ASCII letter: the only characters a mnemonic may start with.
pub open spec fn is_ascii_letter(c: char) -> bool {
    (97 <= c as u32 && c as u32 <= 122) || (65 <= c as u32 && c as u32 <= 90)
}

/// Whether a character has the Unicode `Alphabetic` property, which decides
/// where a mnemonic run ends.  The property is a function of the character
/// alone; its table is [`char::is_alphabetic`]'s.
pub uninterp spec fn char_alphabetic(c: char) -> bool;

/// Relies on `char::is_alphabetic` of std: whether the character has the
/// Unicode `Alphabetic` property, a function of the character alone.  The
/// newline character is a control character, which the `Alphabetic`
/// property excludes.
#[verifier::external_body]
fn is_alphabetic_char(c: char) -> (r: bool)
    ensures
        r == char_alphabetic(c),
        c == '\n' ==> r == false,
{
    c.is_alphabetic()
}

/// One more than a diagnostic counter, saturating at the largest value the
/// counter can hold.
pub open spec fn saturating_inc(n: nat) -> nat {
    if n < usize::MAX {
        n + 1
    } else {
        n
    }
}

/// The diagnostic line number at position `i`: one more than the number of
/// newlines before it, counting from 1 and saturating.
pub open spec fn line_at(s: Seq<char>, i: nat) -> nat
    decreases i,
{
    if i == 0 {
        1
    } else if s[i - 1] == '\n' {
        saturating_inc(line_at(s, (i - 1) as nat))
    } else {
        line_at(s, (i - 1) as nat)
    }
}

/// The diagnostic column counter at position `i`: it starts at 1, moves one
/// to the right for every character consumed (saturating), and restarts
/// after each newline.
pub open spec fn column_at(s: Seq<char>, i: nat) -> nat
    decreases i,
{
    if i == 0 {
        1
    } else if s[i - 1] == '\n' {
        2
    } else {
        saturating_inc(column_at(s, (i - 1) as nat))
    }
}

/// The first position at or after `i` that does not hold whitespace.
pub open spec fn skip_ws(s: Seq<char>, i: nat) -> nat
    decreases s.len() - i,
{
    if i < s.len() && is_ws(s[i as int]) {
        skip_ws(s, i + 1)
    } else {
        i
    }
}

/// The position of the next newline at or after `i`, or the end of the
/// input: where a line comment stops consuming.
pub open spec fn line_end(s: Seq<char>, i: nat) -> nat
    decreases s.len() - i,
{
    if i < s.len() && s[i as int] != '\n' {
        line_end(s, i + 1)
    } else {
        i
    }
}

/// The first position at or after `i` that does not hold an alphabetic
/// character: where a mnemonic run ends.
pub open spec fn alpha_end(s: Seq<char>, i: nat) -> nat
    decreases s.len() - i,
{
    if i < s.len() && char_alphabetic(s[i as int]) {
        alpha_end(s, i + 1)
    } else {
        i
    }
}

/// The first position at or after `i` that does not hold a decimal digit:
/// where an operand's digit run ends.
pub open spec fn digits_end(s: Seq<char>, i: nat) -> nat
    decreases s.len() - i,
{
    if i < s.len() && is_digit_char(s[i as int]) {
        digits_end(s, i + 1)
    } else {
        i
    }
}

/// The decimal value of the digits at positions `i` up to `j`.
pub open spec fn digits_value(s: Seq<char>, i: nat, j: nat) -> nat
    decreases j - i,
{
    if j <= i {
        0
    } else {
        digits_value(s, i, (j - 1) as nat) * 10 + digit_val(s[j - 1])
    }
}

proof fn lemma_skip_ws_bounds(s: Seq<char>, i: nat)
    ensures
        i <= skip_ws(s, i),
        i <= s.len() ==> skip_ws(s, i) <= s.len(),
        skip_ws(s, i) < s.len() ==> !is_ws(s[skip_ws(s, i) as int]),
    decreases s.len() - i,
{
    if i < s.len() && is_ws(s[i as int]) {
        lemma_skip_ws_bounds(s, i + 1);
    }
}

proof fn lemma_line_end_bounds(s: Seq<char>, i: nat)
    ensures
        i <= line_end(s, i),
        i <= s.len() ==> line_end(s, i) <= s.len(),
    decreases s.len() - i,
{
    if i < s.len() && s[i as int] != '\n' {
        lemma_line_end_bounds(s, i + 1);
    }
}

proof fn lemma_alpha_end_bounds(s: Seq<char>, i: nat)
    ensures
        i <= alpha_end(s, i),
        i <= s.len() ==> alpha_end(s, i) <= s.len(),
    decreases s.len() - i,
{
    if i < s.len() && char_alphabetic(s[i as int]) {
        lemma_alpha_end_bounds(s, i + 1);
    }
}

proof fn lemma_digits_end_bounds(s: Seq<char>, i: nat)
    ensures
        i <= digits_end(s, i),
        i <= s.len() ==> digits_end(s, i) <= s.len(),
    decreases s.len() - i,
{
    if i < s.len() && is_digit_char(s[i as int]) {
        lemma_digits_end_bounds(s, i + 1);
    }
}

/// Case-insensitive match of a scanned character against a lowercase ASCII
/// letter of a mnemonic.
pub open spec fn ci_eq(c: char, lower: char) -> bool {
    c == lower || c as u32 + 32 == lower as u32
}

pub open spec fn word_is2(w: Seq<char>, a: char, b: char) -> bool {
    w.len() == 2 && ci_eq(w[0], a) && ci_eq(w[1], b)
}

pub open spec fn word_is3(w: Seq<char>, a: char, b: char, c: char) -> bool {
    w.len() == 3 && ci_eq(w[0], a) && ci_eq(w[1], b) && ci_eq(w[2], c)
}

pub open spec fn word_is4(w: Seq<char>, a: char, b: char, c: char, d: char) -> bool {
    w.len() == 4 && ci_eq(w[0], a) && ci_eq(w[1], b) && ci_eq(w[2], c) && ci_eq(w[3], d)
}

/// The opcode a mnemonic word names, matched case-insensitively; a word
/// outside the table yields the `UKWN` sentinel, not a failure.
pub open spec fn mnemonic_opcode(w: Seq<char>) -> OpCode {
    if word_is4(w, 's', 't', 'o', 'p') {
        OpCode::STOP
    } else if word_is4(w, 'l', 'o', 'a', 'd') {
        OpCode::LOAD
    } else if word_is3(w, 'a', 'd', 'd') {
        OpCode::ADD
    } else if word_is3(w, 's', 'u', 'b') {
        OpCode::SUB
    } else if word_is3(w, 'm', 'u', 'l') {
        OpCode::MUL
    } else if word_is3(w, 'd', 'i', 'v') {
        OpCode::DIV
    } else if word_is3(w, 'j', 'm', 'p') {
        OpCode::JMP
    } else if word_is3(w, 'j', 'f', 'w') {
        OpCode::JFW
    } else if word_is3(w, 'j', 'b', 'k') {
        OpCode::JBK
    } else if word_is2(w, 'e', 'q') {
        OpCode::EQ
    } else if word_is3(w, 'n', 'e', 'q') {
        OpCode::NEQ
    } else if word_is2(w, 'g', 't') {
        OpCode::GT
    } else if word_is2(w, 'l', 't') {
        OpCode::LT
    } else if word_is3(w, 'g', 't', 'e') {
        OpCode::GTE
    } else if word_is3(w, 'l', 't', 'e') {
        OpCode::LTE
    } else if word_is3(w, 'j', 'e', 'q') {
        OpCode::JEQ
    } else if word_is3(w, 'j', 'n', 'e') {
        OpCode::JNE
    } else if word_is3(w, 's', 'y', 's') {
        OpCode::SYS
    } else {
        OpCode::UKWN
    }
}

/// The result of scanning the whole input from a position: the tokens in
/// order, each with its diagnostic line and column, or the position of the
/// character no token can start with.
pub ghost enum Lexed {
    Tokens(Seq<Token>),
    Fail(nat),
}

/// Prepends already-scanned tokens to the result of scanning the rest.
pub open spec fn lex_prepend(ts: Seq<Token>, rest: Lexed) -> Lexed {
    match rest {
        Lexed::Tokens(more) => Lexed::Tokens(ts + more),
        Lexed::Fail(p) => Lexed::Fail(p),
    }
}

/// Scans the input from position `i` to its end, exactly as the tokenizer
/// does: whitespace is skipped; `!` opens a comment running to the end of
/// the line; an ASCII letter opens a mnemonic (a maximal alphabetic run,
/// looked up case-insensitively, unknown words giving the `UKWN` sentinel);
/// `%` and `#` open a register or immediate operand whose digits accumulate
/// in decimal, wrapping at 256 and 65536 respectively; any other character
/// is a failure at its position.  Each token records the line its first
/// character stands on ([`line_at`]) and the column counter after its last
/// character ([`column_at`]).
pub open spec fn lex_from(s: Seq<char>, i: nat) -> Lexed
    decreases s.len() - i,
        via lex_from_decreases
{
    let j = skip_ws(s, i);
    if j >= s.len() {
        Lexed::Tokens(Seq::empty())
    } else {
        let c = s[j as int];
        if c == '!' {
            lex_from(s, line_end(s, j + 1))
        } else if is_ascii_letter(c) {
            let k = alpha_end(s, j + 1);
            let tok = Token {
                token_type: TokenType::OpCode(mnemonic_opcode(s.subrange(j as int, k as int))),
                line: line_at(s, j) as usize,
                column: column_at(s, k) as usize,
            };
            lex_prepend(seq![tok], lex_from(s, k))
        } else if c == '%' {
            let k = digits_end(s, j + 1);
            let tok = Token {
                token_type: TokenType::Register((digits_value(s, j + 1, k) % 256) as u8),
                line: line_at(s, j) as usize,
                column: column_at(s, k) as usize,
            };
            lex_prepend(seq![tok], lex_from(s, k))
        } else if c == '#' {
            let k = digits_end(s, j + 1);
            let tok = Token {
                token_type: TokenType::Integer((digits_value(s, j + 1, k) % 65536) as u16),
                line: line_at(s, j) as usize,
                column: column_at(s, k) as usize,
            };
            lex_prepend(seq![tok], lex_from(s, k))
        } else {
            Lexed::Fail(j)
        }
    }
}

#[via_fn]
proof fn lex_from_decreases(s: Seq<char>, i: nat) {
    lemma_skip_ws_bounds(s, i);
    let j = skip_ws(s, i);
    if j < s.len() {
        lemma_line_end_bounds(s, j + 1);
        lemma_alpha_end_bounds(s, j + 1);
        lemma_digits_end_bounds(s, j + 1);
    }
}

/// The tokenizer.  It consumes the complete source text once; the tokens
/// land in `tokens` in scan order.
pub struct Lexer {
    pub input: String,
    pub length: usize,
    pub current: usize,
    pub line: usize,
    pub column: usize,
    pub tokens: Vec<Token>,
}

/// Case-insensitive match of a character against a lowercase mnemonic
/// letter.
fn ci(c: char, lower: char) -> (b: bool)
    ensures
        b == ci_eq(c, lower),
{
    c == lower || (c as u32) + 32 == (lower as u32)
}

impl Lexer {
    /// The scanner state is consistent: the cached character count is the
    /// input's, and the cursor has not passed the end.
    pub open spec fn wf(&self) -> bool {
        self.length == self.input@.len() && self.current <= self.length
    }

    /// The input text being scanned.
    pub open spec fn src(&self) -> Seq<char> {
        self.input@
    }

    /// The scan position, in characters.
    pub open spec fn pos(&self) -> nat {
        self.current as nat
    }

    /// The diagnostic counters agree with the scan position: the line and
    /// column fields hold [`line_at`] and [`column_at`] of the cursor.
    /// Constructed lexers have it; the scanning methods keep it.
    pub open spec fn counters_synced(&self) -> bool {
        self.line == line_at(self.input@, self.current as nat) && self.column == column_at(
            self.input@,
            self.current as nat,
        )
    }

    /// A lexer at the start of `input`, with no tokens scanned yet.
    pub fn new(input: String) -> (lexer: Lexer)
        ensures
            lexer.wf(),
            lexer.counters_synced(),
            lexer.src() == input@,
            lexer.pos() == 0,
            lexer.tokens@.len() == 0,
    {
        let length = input.as_str().unicode_len();
        Lexer { input, length, current: 0, line: 1, column: 1, tokens: Vec::new() }
    }

    /// Scans the whole remaining input.  On success the scanned tokens —
    /// kinds, values, and diagnostic lines and columns — are exactly what
    /// [`lex_from`] yields, appended to the tokens already held; the scan
    /// fails if and only if [`lex_from`] fails, reporting the character at
    /// the failing position.
    pub fn scan_tokens(&mut self) -> (r: Result<(), AssemblyError>)
        requires
            old(self).wf(),
            old(self).counters_synced(),
        ensures
            final(self).wf(),
            final(self).src() == old(self).src(),
            match r {
                Ok(_) => lex_from(old(self).src(), old(self).pos()) matches Lexed::Tokens(ts)
                    && final(self).tokens@ == old(self).tokens@ + ts,
                Err(e) => lex_from(old(self).src(), old(self).pos()) matches Lexed::Fail(j) && j
                    < old(self).src().len() && e.character == old(self).src()[j as int]
                    && final(self).tokens@.take(old(self).tokens@.len() as int)
                    == old(self).tokens@,
            },
    {
        let ghost s = self.src();
        let ghost i0 = self.pos();
        let ghost t0 = self.tokens@;
        while !self.is_at_end()
            invariant
                s == old(self).src(),
                i0 == old(self).pos(),
                t0 == old(self).tokens@,
                self.wf(),
                self.counters_synced(),
                self.src() == s,
                i0 <= self.pos(),
                t0.len() <= self.tokens@.len(),
                self.tokens@.take(t0.len() as int) == t0,
                lex_from(s, i0) == lex_prepend(
                    self.tokens@.skip(t0.len() as int),
                    lex_from(s, self.pos()),
                ),
            decreases s.len() - self.pos(),
        {
            let ghost pre_tokens = self.tokens@;
            match self.next_token() {
                Ok(_) => {
                    proof {
                        assert(pre_tokens.skip(t0.len() as int) =~= self.tokens@.subrange(
                            t0.len() as int,
                            pre_tokens.len() as int,
                        ));
                        assert(self.tokens@.take(t0.len() as int) =~= t0);
                        lemma_lex_prepend_assoc(
                            self.tokens@,
                            t0.len() as int,
                            pre_tokens.len() as int,
                            lex_from(s, self.pos()),
                        );
                    }
                },
                Err(e) => {
                    return Err(e);
                },
            }
        }
        proof {
            assert(lex_from(s, self.pos()) == Lexed::Tokens(Seq::<Token>::empty()));
            let delta = self.tokens@.skip(t0.len() as int);
            assert(delta + Seq::<Token>::empty() =~= delta);
            assert(self.tokens@ =~= t0 + delta);
        }
        Ok(())
    }

    /// Scans one token, or nothing if only whitespace remains, or fails on a
    /// character that opens no token.
    fn next_token(&mut self) -> (r: Result<(), AssemblyError>)
        requires
            old(self).wf(),
            old(self).counters_synced(),
        ensures
            final(self).wf(),
            final(self).counters_synced(),
            final(self).src() == old(self).src(),
            old(self).pos() <= final(self).pos(),
            old(self).pos() < old(self).src().len() ==> old(self).pos() < final(self).pos(),
            match r {
                Ok(_) => {
                    &&& old(self).tokens@.len() <= final(self).tokens@.len()
                    &&& final(self).tokens@.take(old(self).tokens@.len() as int) == old(
                        self,
                    ).tokens@
                    &&& lex_from(old(self).src(), old(self).pos()) == lex_prepend(
                        final(self).tokens@.skip(old(self).tokens@.len() as int),
                        lex_from(final(self).src(), final(self).pos()),
                    )
                },
                Err(e) => {
                    &&& lex_from(old(self).src(), old(self).pos()) matches Lexed::Fail(j) && j
                        < old(self).src().len() && e.character == old(self).src()[j as int]
                    &&& final(self).tokens == old(self).tokens
                },
            },
    {
        let ghost s = self.src();
        let ghost i0 = self.pos();
        self.skip_whitespace();
        proof {
            lemma_skip_ws_bounds(s, i0);
        }

        if self.is_at_end() {
            proof {
                let delta = self.tokens@.skip(self.tokens@.len() as int);
                assert(delta =~= Seq::<Token>::empty());
                assert(Seq::<Token>::empty() + Seq::<Token>::empty() =~= Seq::<Token>::empty());
                assert(self.tokens@.take(self.tokens@.len() as int) =~= self.tokens@);
            }
            return Ok(());
        }

        let ghost j = self.pos();
        let ghost n0 = old(self).tokens@.len() as int;
        let start = self.current;
        let c = self.advance();
        let u = c as u32;

        if c == '!' {
            self.comment();
            proof {
                lemma_line_end_bounds(s, j + 1);
                let delta = self.tokens@.skip(n0);
                assert(delta =~= Seq::<Token>::empty());
                assert(self.tokens@.take(n0) =~= old(self).tokens@);
                lemma_lex_prepend_empty(lex_from(s, self.pos()));
            }
            Ok(())
        } else if (97 <= u && u <= 122) || (65 <= u && u <= 90) {
            self.opcode(start);
            proof {
                lemma_alpha_end_bounds(s, j + 1);
                assert(line_at(s, j + 1) == line_at(s, j));
                let tok = Token {
                    token_type: TokenType::OpCode(
                        mnemonic_opcode(s.subrange(j as int, self.pos() as int)),
                    ),
                    line: line_at(s, j) as usize,
                    column: column_at(s, self.pos()) as usize,
                };
                assert(self.tokens@.skip(n0) =~= seq![tok]);
                assert(self.tokens@.take(n0) =~= old(self).tokens@);
            }
            Ok(())
        } else if c == '%' {
            self.register();
            proof {
                lemma_digits_end_bounds(s, j + 1);
                assert(line_at(s, j + 1) == line_at(s, j));
                let tok = Token {
                    token_type: TokenType::Register(
                        (digits_value(s, j + 1, self.pos()) % 256) as u8,
                    ),
                    line: line_at(s, j) as usize,
                    column: column_at(s, self.pos()) as usize,
                };
                assert(self.tokens@.skip(n0) =~= seq![tok]);
                assert(self.tokens@.take(n0) =~= old(self).tokens@);
            }
            Ok(())
        } else if c == '#' {
            self.integer();
            proof {
                lemma_digits_end_bounds(s, j + 1);
                assert(line_at(s, j + 1) == line_at(s, j));
                let tok = Token {
                    token_type: TokenType::Integer(
                        (digits_value(s, j + 1, self.pos()) % 65536) as u16,
                    ),
                    line: line_at(s, j) as usize,
                    column: column_at(s, self.pos()) as usize,
                };
                assert(self.tokens@.skip(n0) =~= seq![tok]);
                assert(self.tokens@.take(n0) =~= old(self).tokens@);
            }
            Ok(())
        } else {
            Err(AssemblyError { character: c, line: self.line, column: self.column })
        }
    }

    /// Consumes the maximal alphabetic run that began at `start`, looks the
    /// word up in the mnemonic table, and records the opcode token.
    fn opcode(&mut self, start: usize)
        requires
            old(self).wf(),
            old(self).counters_synced(),
            start < old(self).src().len(),
            old(self).pos() == start + 1,
        ensures
            final(self).wf(),
            final(self).counters_synced(),
            final(self).src() == old(self).src(),
            final(self).pos() == alpha_end(old(self).src(), old(self).pos()),
            final(self).tokens@ == old(self).tokens@.push(
                Token {
                    token_type: TokenType::OpCode(
                        mnemonic_opcode(
                            old(self).src().subrange(start as int, final(self).pos() as int),
                        ),
                    ),
                    line: line_at(old(self).src(), old(self).pos()) as usize,
                    column: column_at(old(self).src(), final(self).pos()) as usize,
                },
            ),
    {
        let ghost s = self.src();
        let ghost i0 = self.pos();
        while !self.is_at_end() && is_alphabetic_char(self.peek())
            invariant
                self.wf(),
                self.counters_synced(),
                self.src() == s,
                i0 <= self.pos(),
                self.tokens == old(self).tokens,
                alpha_end(s, self.pos()) == alpha_end(s, i0),
                line_at(s, self.pos()) == line_at(s, i0),
            decreases s.len() - self.pos(),
        {
            self.advance();
        }

        let op = self.lookup_mnemonic(start);
        self.add_token(TokenType::OpCode(op));
    }

    /// The opcode named by the word between `start` and the cursor.
    fn lookup_mnemonic(&self, start: usize) -> (op: OpCode)
        requires
            self.wf(),
            start <= self.pos(),
        ensures
            op == mnemonic_opcode(self.src().subrange(start as int, self.pos() as int)),
    {
        let ghost w = self.src().subrange(start as int, self.pos() as int);
        let n = self.current - start;
        if n == 2 {
            let c0 = self.char_at(start);
            let c1 = self.char_at(start + 1);
            if ci(c0, 'e') && ci(c1, 'q') {
                OpCode::EQ
            } else if ci(c0, 'g') && ci(c1, 't') {
                OpCode::GT
            } else if ci(c0, 'l') && ci(c1, 't') {
                OpCode::LT
            } else {
                OpCode::UKWN
            }
        } else if n == 3 {
            let c0 = self.char_at(start);
            let c1 = self.char_at(start + 1);
            let c2 = self.char_at(start + 2);
            if ci(c0, 'a') && ci(c1, 'd') && ci(c2, 'd') {
                OpCode::ADD
            } else if ci(c0, 's') && ci(c1, 'u') && ci(c2, 'b') {
                OpCode::SUB
            } else if ci(c0, 'm') && ci(c1, 'u') && ci(c2, 'l') {
                OpCode::MUL
            } else if ci(c0, 'd') && ci(c1, 'i') && ci(c2, 'v') {
                OpCode::DIV
            } else if ci(c0, 'j') && ci(c1, 'm') && ci(c2, 'p') {
                OpCode::JMP
            } else if ci(c0, 'j') && ci(c1, 'f') && ci(c2, 'w') {
                OpCode::JFW
            } else if ci(c0, 'j') && ci(c1, 'b') && ci(c2, 'k') {
                OpCode::JBK
            } else if ci(c0, 'n') && ci(c1, 'e') && ci(c2, 'q') {
                OpCode::NEQ
            } else if ci(c0, 'g') && ci(c1, 't') && ci(c2, 'e') {
                OpCode::GTE
            } else if ci(c0, 'l') && ci(c1, 't') && ci(c2, 'e') {
                OpCode::LTE
            } else if ci(c0, 'j') && ci(c1, 'e') && ci(c2, 'q') {
                OpCode::JEQ
            } else if ci(c0, 'j') && ci(c1, 'n') && ci(c2, 'e') {
                OpCode::JNE
            } else if ci(c0, 's') && ci(c1, 'y') && ci(c2, 's') {
                OpCode::SYS
            } else {
                OpCode::UKWN
            }
        } else if n == 4 {
            let c0 = self.char_at(start);
            let c1 = self.char_at(start + 1);
            let c2 = self.char_at(start + 2);
            let c3 = self.char_at(start + 3);
            if ci(c0, 's') && ci(c1, 't') && ci(c2, 'o') && ci(c3, 'p') {
                OpCode::STOP
            } else if ci(c0, 'l') && ci(c1, 'o') && ci(c2, 'a') && ci(c3, 'd') {
                OpCode::LOAD
            } else {
                OpCode::UKWN
            }
        } else {
            OpCode::UKWN
        }
    }

    /// Consumes the digit run after a `%` sigil and records the register
    /// token; the accumulated value wraps at the operand's 8-bit width.
    fn register(&mut self)
        requires
            old(self).wf(),
            old(self).counters_synced(),
        ensures
            final(self).wf(),
            final(self).counters_synced(),
            final(self).src() == old(self).src(),
            final(self).pos() == digits_end(old(self).src(), old(self).pos()),
            final(self).tokens@ == old(self).tokens@.push(
                Token {
                    token_type: TokenType::Register(
                        (digits_value(old(self).src(), old(self).pos(), final(self).pos())
                            % 256) as u8,
                    ),
                    line: line_at(old(self).src(), old(self).pos()) as usize,
                    column: column_at(old(self).src(), final(self).pos()) as usize,
                },
            ),
    {
        let ghost s = self.src();
        let ghost i0 = self.pos();
        let value = self.scan_digits();
        proof {
            lemma_mod_mod(
                digits_value(s, i0, self.pos()) as int,
                256,
                256,
            );
        }
        self.add_token(TokenType::Register((value % 256) as u8));
    }

    /// Consumes the digit run after a `#` sigil and records the immediate
    /// token; the accumulated value wraps at the operand's 16-bit width.
    fn integer(&mut self)
        requires
            old(self).wf(),
            old(self).counters_synced(),
        ensures
            final(self).wf(),
            final(self).counters_synced(),
            final(self).src() == old(self).src(),
            final(self).pos() == digits_end(old(self).src(), old(self).pos()),
            final(self).tokens@ == old(self).tokens@.push(
                Token {
                    token_type: TokenType::Integer(
                        (digits_value(old(self).src(), old(self).pos(), final(self).pos())
                            % 65536) as u16,
                    ),
                    line: line_at(old(self).src(), old(self).pos()) as usize,
                    column: column_at(old(self).src(), final(self).pos()) as usize,
                },
            ),
    {
        let value = self.scan_digits();
        self.add_token(TokenType::Integer(value));
    }

    /// Consumes the digit run at the cursor, accumulating its decimal value
    /// in a 16-bit register that wraps silently.
    fn scan_digits(&mut self) -> (value: u16)
        requires
            old(self).wf(),
            old(self).counters_synced(),
        ensures
            final(self).wf(),
            final(self).counters_synced(),
            final(self).line == old(self).line,
            final(self).src() == old(self).src(),
            final(self).tokens == old(self).tokens,
            final(self).pos() == digits_end(old(self).src(), old(self).pos()),
            value == digits_value(old(self).src(), old(self).pos(), final(self).pos()) % 65536,
    {
        let ghost s = self.src();
        let ghost i0 = self.pos();
        let mut value: u16 = 0;
        while !self.is_at_end() && is_digit(self.peek())
            invariant
                self.wf(),
                self.counters_synced(),
                self.line == old(self).line,
                self.src() == s,
                i0 <= self.pos(),
                self.tokens == old(self).tokens,
                digits_end(s, self.pos()) == digits_end(s, i0),
                value == digits_value(s, i0, self.pos()) % 65536,
            decreases s.len() - self.pos(),
        {
            let ghost acc = digits_value(s, i0, self.pos());
            let c = self.advance();
            let digit = ((c as u32) - 48) as u16;
            proof {
                lemma_accumulate_digit(acc as int, digit_val(c) as int);
                assert(digits_value(s, i0, self.pos()) == acc * 10 + digit_val(c));
            }
            value = value.wrapping_mul(10).wrapping_add(digit);
        }
        value
    }

    /// Consumes the rest of the line after a comment marker; the newline
    /// itself is left for the whitespace skipper.
    fn comment(&mut self)
        requires
            old(self).wf(),
            old(self).counters_synced(),
        ensures
            final(self).wf(),
            final(self).counters_synced(),
            final(self).src() == old(self).src(),
            final(self).tokens == old(self).tokens,
            final(self).pos() == line_end(old(self).src(), old(self).pos()),
    {
        let ghost s = self.src();
        let ghost i0 = self.pos();
        while !self.is_at_end() && self.peek() != '\n'
            invariant
                self.wf(),
                self.counters_synced(),
                self.src() == s,
                i0 <= self.pos(),
                self.tokens == old(self).tokens,
                line_end(s, self.pos()) == line_end(s, i0),
            decreases s.len() - self.pos(),
        {
            self.advance();
        }
    }

    /// Records one token at the current diagnostic position.
    fn add_token(&mut self, token_type: TokenType)
        ensures
            final(self).wf() == old(self).wf(),
            final(self).counters_synced() == old(self).counters_synced(),
            final(self).src() == old(self).src(),
            final(self).pos() == old(self).pos(),
            final(self).line == old(self).line,
            final(self).column == old(self).column,
            final(self).tokens@ == old(self).tokens@.push(
                Token { token_type, line: old(self).line, column: old(self).column },
            ),
    {
        let token = Token { token_type, line: self.line, column: self.column };
        self.tokens.push(token);
    }

    /// Skips whitespace, counting lines for diagnostics.
    fn skip_whitespace(&mut self)
        requires
            old(self).wf(),
            old(self).counters_synced(),
        ensures
            final(self).wf(),
            final(self).counters_synced(),
            final(self).src() == old(self).src(),
            final(self).tokens == old(self).tokens,
            final(self).pos() == skip_ws(old(self).src(), old(self).pos()),
    {
        let ghost s = self.src();
        let ghost i0 = self.pos();
        while !self.is_at_end() && is_whitespace(self.peek())
            invariant
                self.wf(),
                self.counters_synced(),
                self.src() == s,
                i0 <= self.pos(),
                self.tokens == old(self).tokens,
                skip_ws(s, self.pos()) == skip_ws(s, i0),
            decreases s.len() - self.pos(),
        {
            let c = self.peek();
            if c == '\n' {
                if self.line < usize::MAX {
                    self.line = self.line + 1;
                }
                self.column = 1;
            }
            self.advance();
        }
    }

    /// Consumes and returns the character at the cursor.
    fn advance(&mut self) -> (c: char)
        requires
            old(self).wf(),
            old(self).pos() < old(self).src().len(),
        ensures
            final(self).wf(),
            final(self).src() == old(self).src(),
            final(self).tokens == old(self).tokens,
            final(self).pos() == old(self).pos() + 1,
            c == old(self).src()[old(self).pos() as int],
            final(self).line == old(self).line,
            old(self).column < usize::MAX ==> final(self).column == old(self).column + 1,
            old(self).column >= usize::MAX ==> final(self).column == old(self).column,
    {
        let c = self.input.as_str().get_char(self.current);
        self.current = self.current + 1;
        if self.column < usize::MAX {
            self.column = self.column + 1;
        }
        c
    }

    /// The character at the cursor, or the NUL sentinel at the end of the
    /// input.
    fn peek(&self) -> (c: char)
        requires
            self.wf(),
        ensures
            c == if self.pos() < self.src().len() {
                self.src()[self.pos() as int]
            } else {
                '\0'
            },
    {
        if self.current < self.length {
            self.input.as_str().get_char(self.current)
        } else {
            '\0'
        }
    }

    /// The character at position `i` of the input.
    fn char_at(&self, i: usize) -> (c: char)
        requires
            self.wf(),
            i < self.src().len(),
        ensures
            c == self.src()[i as int],
    {
        self.input.as_str().get_char(i)
    }

    /// Whether the whole input has been consumed.
    fn is_at_end(&self) -> (r: bool)
        requires
            self.wf(),
        ensures
            r == (self.pos() >= self.src().len()),
    {
        self.current >= self.length
    }
}

/// Whether the tokenizer skips this character between tokens.
fn is_whitespace(c: char) -> (r: bool)
    ensures
        r == is_ws(c),
{
    c == ' ' || c == '\t' || c == '\r' || c == '\n'
}

/// Whether this character is a decimal digit.
fn is_digit(c: char) -> (r: bool)
    ensures
        r == is_digit_char(c),
{
    let u = c as u32;
    48 <= u && u <= 57
}

/// One step of decimal accumulation in a wrapping 16-bit register computes
/// the value of all digits so far, modulo 65536.
proof fn lemma_accumulate_digit(acc: int, d: int)
    requires
        0 <= acc,
        0 <= d < 10,
    ensures
        ({
            let a = (acc % 65536) * 10 % 65536;
            &&& 0 <= a < 65536
            &&& (if a + d > 65535 {
                a + d - 65536
            } else {
                a + d
            }) == (acc * 10 + d) % 65536
        }),
{
    lemma_mul_mod_noop_left(acc, 10, 65536);
    lemma_add_mod_noop_right(d, acc * 10, 65536);
    lemma_mod_division_less_than_divisor((acc % 65536) * 10, 65536);
    let a = (acc % 65536) * 10 % 65536;
    if a + d > 65535 {
        lemma_mod_sub_multiples_vanish(a + d, 65536);
        lemma_small_mod((a + d - 65536) as nat, 65536);
    } else {
        lemma_small_mod((a + d) as nat, 65536);
    }
}

/// Appending scanned tokens in two stages is the same as appending them at
/// once.
proof fn lemma_lex_prepend_assoc(ts: Seq<Token>, n0: int, n1: int, rest: Lexed)
    requires
        0 <= n0 <= n1 <= ts.len(),
    ensures
        lex_prepend(ts.subrange(n0, n1), lex_prepend(ts.skip(n1), rest)) == lex_prepend(
            ts.skip(n0),
            rest,
        ),
{
    match rest {
        Lexed::Tokens(more) => {
            assert(ts.subrange(n0, n1) + (ts.skip(n1) + more) =~= ts.skip(n0) + more);
        },
        Lexed::Fail(_) => {},
    }
}

/// Prepending no tokens changes nothing.
proof fn lemma_lex_prepend_empty(rest: Lexed)
    ensures
        lex_prepend(Seq::<Token>::empty(), rest) == rest,
{
    match rest {
        Lexed::Tokens(more) => {
            assert(Seq::<Token>::empty() + more =~= more);
        },
        Lexed::Fail(_) => {},
    }
}

} // verus!
