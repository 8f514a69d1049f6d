use vstd::prelude::*;
use crate::isa::{decode_spec, field_nn, field_x, field_y, valid_word, base_word, Instruction};

verus! {

/// One item of the token stream: a label, a directive, a native instruction or
/// a pseudo-instruction. Register operands are carried as register indices.
#[derive(Clone, Copy, PartialEq, Eq, Structural, Debug)]
pub enum Token {
    /// Label id and the address it stands for.
    LABEL(u64, u16),
    /// `.short`: a value, or a label id when the flag is set.
    SHORT(u64, bool),
    /// `.addr`: the new cursor.
    ADDR(u16),
    NOP,
    AND(u16, u16),
    NOT(u16),
    ADD(u16, u16),
    SUB(u16, u16),
    INC(u16),
    DEC(u16),
    LDB(u16, u16),
    LDW(u16, u16),
    MOV(u16, u16),
    LDI(u16, u8),
    /// Address register first, value register second.
    STB(u16, u16),
    /// Address register first, value register second.
    STW(u16, u16),
    JMP(u16),
    JNZ(u16, u16),
    SHR(u16, u8),
    SHL(u16, u8),
    TEST(u8),
    SETF(u8),
    CLRF(u8),
    PUSH(u16),
    POP(u16),
    /// Register and a value, or a label id when the flag is set.
    LDL(u16, u64, bool),
    /// Register and return address.
    CALL(u16, u16),
    /// Jump register, scratch register and return address.
    CALLF(u16, u16, u16),
    RET(u16),
}

/// Number of bytes that the trampoline takes: `ldl r0, entry; jmp r0`.
pub const TRAMPOLINE_SIZE: u64 = 8;

/// A native instruction: one word, no label, directive or expansion.
pub open spec fn is_native(t: Token) -> bool {
    match t {
        Token::LABEL(..) | Token::SHORT(..) | Token::ADDR(..) => false,
        Token::PUSH(..) | Token::POP(..) | Token::LDL(..) | Token::CALL(..) => false,
        Token::CALLF(..) | Token::RET(..) => false,
        _ => true,
    }
}

/// The number of bytes a token occupies in the image (`ADDR` moves the cursor instead).
pub open spec fn token_size(t: Token) -> nat {
    match t {
        Token::LABEL(..) | Token::ADDR(..) => 0,
        Token::PUSH(..) | Token::POP(..) | Token::LDL(..) => 6,
        Token::CALL(..) => 34,
        Token::CALLF(..) => 14,
        Token::RET(..) => 8,
        _ => 2,
    }
}

/// The cursor after a token stream has been laid out from address `start`.
pub open spec fn cursor_from(tokens: Seq<Token>, start: nat) -> nat
    decreases tokens.len(),
{
    if tokens.len() == 0 {
        start
    } else {
        let c = cursor_from(tokens.drop_last(), start);
        match tokens.last() {
            Token::ADDR(a) => a as nat,
            t => c + token_size(t),
        }
    }
}

/// The cursor after a token stream has been laid out from address 0.
pub open spec fn cursor_after(tokens: Seq<Token>) -> nat {
    cursor_from(tokens, 0)
}

/// The register ranges that each token admits.
pub open spec fn registers_in_range(t: Token) -> bool {
    match t {
        Token::AND(x, y) | Token::ADD(x, y) | Token::SUB(x, y) => x <= 7 && y <= 7,
        Token::NOT(x) | Token::LDI(x, _) | Token::SHR(x, _) | Token::SHL(x, _) => x <= 7,
        Token::INC(x) | Token::DEC(x) | Token::JMP(x) => x <= 8,
        Token::LDB(x, y) | Token::LDW(x, y) => x <= 7 && y <= 8,
        Token::MOV(x, y) => x <= 10 && y <= 10,
        Token::STB(y, x) | Token::STW(y, x) => y <= 8 && x <= 7,
        Token::JNZ(x, y) => x <= 8 && y <= 7,
        Token::PUSH(x) | Token::POP(x) | Token::LDL(x, _, _) | Token::CALL(x, _) => x <= 7,
        Token::RET(x) => x <= 7,
        Token::CALLF(x, y, _) => x <= 8 && y <= 7,
        _ => true,
    }
}

/// `callf` needs two distinct registers: it overwrites the second before jumping through the first.
pub open spec fn distinct_registers(t: Token) -> bool {
    match t {
        Token::CALLF(x, y, _) => x != y,
        _ => true,
    }
}

/// A token that the emitter can lower.
pub open spec fn token_valid(t: Token) -> bool {
    registers_in_range(t) && distinct_registers(t)
}

/// The word of a native instruction token.
pub open spec fn native_word(t: Token) -> u16 {
    match t {
        Token::AND(x, y) => 0x1000 | (x << 8) | (y << 4),
        Token::NOT(x) => 0x1001 | (x << 8),
        Token::ADD(x, y) => 0x2000 | (x << 8) | (y << 4),
        Token::SUB(x, y) => 0x2001 | (x << 8) | (y << 4),
        Token::INC(x) => 0x2002 | (x << 8),
        Token::DEC(x) => 0x2003 | (x << 8),
        Token::LDB(x, y) => 0x3000 | (x << 8) | (y << 4),
        Token::LDW(x, y) => 0x3001 | (x << 8) | (y << 4),
        Token::MOV(x, y) => 0x3002 | (x << 8) | (y << 4),
        Token::LDI(x, nn) => 0x4000 | (x << 8) | (nn as u16),
        Token::STB(y, x) => 0x5000 | (y << 8) | (x << 4),
        Token::STW(y, x) => 0x5001 | (y << 8) | (x << 4),
        Token::JMP(x) => 0x6000 | (x << 8),
        Token::JNZ(x, y) => 0x6001 | (x << 8) | (y << 4),
        Token::SHR(x, n) => 0x7000 | (x << 8) | (((n & 0x0F) as u16) << 4),
        Token::SHL(x, n) => 0x7001 | (x << 8) | (((n & 0x0F) as u16) << 4),
        Token::TEST(n) => 0x8000 | (((n & 0x0F) as u16) << 8),
        Token::SETF(n) => 0x8001 | (((n & 0x0F) as u16) << 8),
        Token::CLRF(n) => 0x8002 | (((n & 0x0F) as u16) << 8),
        _ => 0x0000,
    }
}

/// `ldi x, hi; shl x, 8; ldi x, lo`: loads a 16-bit value into `x`.
pub open spec fn ldl_words(x: u16, a: u16) -> Seq<u16> {
    seq![0x4000 | (x << 8) | ((a & 0xFF00) >> 8), 0x7081 | (x << 8), 0x4000 | (x << 8) | (a & 0x00FF)]
}

/// `dec sp; dec sp; stw sp, x`.
pub open spec fn push_words(x: u16) -> Seq<u16> {
    seq![0x2803u16, 0x2803u16, 0x5801 | (x << 4)]
}

/// `ldw x, sp; inc sp; inc sp`.
pub open spec fn pop_words(x: u16) -> Seq<u16> {
    seq![0x3081 | (x << 8), 0x2802u16, 0x2802u16]
}

/// The save, jump and restore sequence of `call x` returning to `a`.
pub open spec fn call_words(x: u16, a: u16) -> Seq<u16> {
    seq![0x2803u16, 0x2803u16, 0x2803u16, 0x2803u16, 0x5801 | (x << 4), 0x2802u16, 0x2802u16]
        + ldl_words(x, a) + seq![0x5801 | (x << 4), 0x2803u16, 0x2803u16]
        + pop_words(x) + seq![0x6000 | (x << 8)]
}

/// The words a token emits; `value` is what a `.short` or `ldl` operand resolved to.
pub open spec fn token_words(t: Token, value: u16) -> Seq<u16> {
    match t {
        Token::LABEL(..) | Token::ADDR(..) => seq![],
        Token::SHORT(..) => seq![value],
        Token::PUSH(x) => push_words(x),
        Token::POP(x) => pop_words(x),
        Token::LDL(x, _, _) => ldl_words(x, value),
        Token::CALL(x, a) => call_words(x, a),
        Token::CALLF(x, y, a) => ldl_words(y, a) + push_words(y) + seq![0x6000 | (x << 8)],
        Token::RET(x) => pop_words(x) + seq![0x6000 | (x << 8)],
        Token::NOP => seq![0x0000u16],
        t => seq![native_word(t)],
    }
}

/// The native instruction token that a word reads as.
pub open spec fn disassemble(w: u16) -> Token {
    let x = field_x(w);
    let y = field_y(w);
    match decode_spec(w) {
        Some(Instruction::AND) => Token::AND(x, y),
        Some(Instruction::NOT) => Token::NOT(x),
        Some(Instruction::ADD) => Token::ADD(x, y),
        Some(Instruction::SUB) => Token::SUB(x, y),
        Some(Instruction::INC) => Token::INC(x),
        Some(Instruction::DEC) => Token::DEC(x),
        Some(Instruction::LDB) => Token::LDB(x, y),
        Some(Instruction::LDW) => Token::LDW(x, y),
        Some(Instruction::MOV) => Token::MOV(x, y),
        Some(Instruction::LDI) => Token::LDI(x, field_nn(w) as u8),
        Some(Instruction::STB) => Token::STB(x, y),
        Some(Instruction::STW) => Token::STW(x, y),
        Some(Instruction::JMP) => Token::JMP(x),
        Some(Instruction::JNZ) => Token::JNZ(x, y),
        Some(Instruction::SHR) => Token::SHR(x, y as u8),
        Some(Instruction::SHL) => Token::SHL(x, y as u8),
        Some(Instruction::TEST) => Token::TEST(x as u8),
        Some(Instruction::SETF) => Token::SETF(x as u8),
        Some(Instruction::CLRF) => Token::CLRF(x as u8),
        _ => Token::NOP,
    }
}

/// Each token emits as many words as half its size.
pub proof fn lemma_words_fill_size(t: Token, value: u16)
    requires
        !(t is ADDR),
    ensures
        2 * token_words(t, value).len() == token_size(t),
        is_native(t) ==> token_words(t, value) == seq![native_word(t)] && token_size(t) == 2,
{
}

proof fn lemma_two_fields(w: u16, base: u16)
    requires
        w == base | (w & 0x0FF0),
    ensures
        w == base | (((w & 0x0F00) >> 8) << 8) | (((w & 0x00F0) >> 4) << 4),
        ((w & 0x00F0) >> 4) <= 15,
{
    assert(w == base | (w & 0x0FF0) ==> w == base | (((w & 0x0F00) >> 8) << 8) | (((w & 0x00F0)
        >> 4) << 4)) by (bit_vector);
    assert(((w & 0x00F0) >> 4) <= 15) by (bit_vector);
}

proof fn lemma_x_field(w: u16, base: u16)
    requires
        w == base | (w & 0x0F00),
    ensures
        w == base | (((w & 0x0F00) >> 8) << 8),
        ((w & 0x0F00) >> 8) <= 15,
{
    assert(w == base | (w & 0x0F00) ==> w == base | (((w & 0x0F00) >> 8) << 8)) by (bit_vector);
    assert(((w & 0x0F00) >> 8) <= 15) by (bit_vector);
}

proof fn lemma_small_nibble(v: u16)
    requires
        v <= 15,
    ensures
        (((v as u8) & 0x0F) as u16) == v,
{
    assert(v <= 15 ==> (((v as u8) & 0x0F) as u16) == v) by (bit_vector);
}

/// An instruction word that is well formed reads as a token that encodes back
/// to the same word.
pub proof fn lemma_word_round_trip(w: u16)
    requires
        valid_word(w),
    ensures
        is_native(disassemble(w)) || disassemble(w) == Token::NOP,
        native_word(disassemble(w)) == w,
{
    let i = decode_spec(w).unwrap();
    match i {
        Instruction::NOP => {
            assert(w == 0x0000 | (w & 0x0000) ==> w == 0) by (bit_vector);
        },
        Instruction::LDI => {
            assert(w == 0x4000 | (w & 0x0FFF) ==> w == 0x4000 | (((w & 0x0F00) >> 8) << 8) | (((w
                & 0x00FF) as u8) as u16)) by (bit_vector);
        },
        Instruction::NOT | Instruction::INC | Instruction::DEC | Instruction::JMP => {
            lemma_x_field(w, base_word(i));
        },
        Instruction::TEST | Instruction::SETF | Instruction::CLRF => {
            lemma_x_field(w, base_word(i));
            lemma_small_nibble(field_x(w));
        },
        Instruction::SHR | Instruction::SHL => {
            lemma_two_fields(w, base_word(i));
            lemma_small_nibble(field_y(w));
        },
        _ => {
            lemma_two_fields(w, base_word(i));
        },
    }
}

/// Shift amounts and flag numbers that the four bits of their field can hold.
pub open spec fn immediates_fit(t: Token) -> bool {
    match t {
        Token::SHR(_, n) | Token::SHL(_, n) => n <= 15,
        Token::TEST(n) | Token::SETF(n) | Token::CLRF(n) => n <= 15,
        _ => true,
    }
}

proof fn lemma_pack_fields(base: u16, x: u16, y: u16)
    requires
        base & 0x0FFC == 0,
        x <= 15,
        y <= 15,
    ensures
        ({
            let w = base | (x << 8) | (y << 4);
            &&& w >> 12 == base >> 12
            &&& w & 3 == base & 3
            &&& (w & 0x0F00) >> 8 == x
            &&& (w & 0x00F0) >> 4 == y
            &&& w == base | (w & 0x0FF0)
            &&& y == 0 ==> w == base | (w & 0x0F00) && base | (x << 8) == w
        }),
{
    assert(base & 0x0FFC == 0 && x <= 15 && y <= 15 ==> {
        let w = base | (x << 8) | (y << 4);
        &&& w >> 12 == base >> 12
        &&& w & 3 == base & 3
        &&& (w & 0x0F00) >> 8 == x
        &&& (w & 0x00F0) >> 4 == y
        &&& w == base | (w & 0x0FF0)
        &&& y == 0 ==> w == base | (w & 0x0F00) && base | (x << 8) == w
    }) by (bit_vector);
}

proof fn lemma_pack_ldi(x: u16, nn: u8)
    requires
        x <= 15,
    ensures
        ({
            let w = 0x4000u16 | (x << 8) | (nn as u16);
            &&& w >> 12 == 4
            &&& (w & 0x0F00) >> 8 == x
            &&& ((w & 0x00FF) as u8) == nn
            &&& w == 0x4000u16 | (w & 0x0FFF)
        }),
{
    assert(x <= 15 ==> {
        let w = 0x4000u16 | (x << 8) | (nn as u16);
        &&& w >> 12 == 4
        &&& (w & 0x0F00) >> 8 == x
        &&& ((w & 0x00FF) as u8) == nn
        &&& w == 0x4000u16 | (w & 0x0FFF)
    }) by (bit_vector);
}

proof fn lemma_small_u8(n: u8)
    requires
        n <= 15,
    ensures
        ((n & 0x0F) as u16) <= 15,
        (((n & 0x0F) as u16) as u8) == n,
{
    assert(n <= 15 ==> ((n & 0x0F) as u16) <= 15 && (((n & 0x0F) as u16) as u8) == n) by (bit_vector);
}

/// A native instruction token with its operands in range encodes to a
/// well-formed word, which reads back as the same token.
pub proof fn lemma_token_round_trip(t: Token)
    requires
        is_native(t),
        registers_in_range(t),
        immediates_fit(t),
    ensures
        valid_word(native_word(t)),
        disassemble(native_word(t)) == t,
{
    assert(0x0000u16 & 0x0FFC == 0 && 0x1000u16 & 0x0FFC == 0 && 0x1001u16 & 0x0FFC == 0
        && 0x2000u16 & 0x0FFC == 0 && 0x2001u16 & 0x0FFC == 0 && 0x2002u16 & 0x0FFC == 0
        && 0x2003u16 & 0x0FFC == 0 && 0x3000u16 & 0x0FFC == 0 && 0x3001u16 & 0x0FFC == 0
        && 0x3002u16 & 0x0FFC == 0 && 0x5000u16 & 0x0FFC == 0 && 0x5001u16 & 0x0FFC == 0
        && 0x6000u16 & 0x0FFC == 0 && 0x6001u16 & 0x0FFC == 0 && 0x7000u16 & 0x0FFC == 0
        && 0x7001u16 & 0x0FFC == 0 && 0x8000u16 & 0x0FFC == 0 && 0x8001u16 & 0x0FFC == 0
        && 0x8002u16 & 0x0FFC == 0) by (bit_vector);
    assert(0x0000u16 >> 12 == 0 && 0x1000u16 >> 12 == 1 && 0x1001u16 >> 12 == 1 && 0x2000u16
        >> 12 == 2 && 0x2001u16 >> 12 == 2 && 0x2002u16 >> 12 == 2 && 0x2003u16 >> 12 == 2
        && 0x3000u16 >> 12 == 3 && 0x3001u16 >> 12 == 3 && 0x3002u16 >> 12 == 3 && 0x5000u16
        >> 12 == 5 && 0x5001u16 >> 12 == 5 && 0x6000u16 >> 12 == 6 && 0x6001u16 >> 12 == 6
        && 0x7000u16 >> 12 == 7 && 0x7001u16 >> 12 == 7 && 0x8000u16 >> 12 == 8 && 0x8001u16
        >> 12 == 8 && 0x8002u16 >> 12 == 8) by (bit_vector);
    assert(0x0000u16 & 3 == 0 && 0x1000u16 & 3 == 0 && 0x1001u16 & 3 == 1 && 0x2000u16 & 3 == 0
        && 0x2001u16 & 3 == 1 && 0x2002u16 & 3 == 2 && 0x2003u16 & 3 == 3 && 0x3000u16 & 3 == 0
        && 0x3001u16 & 3 == 1 && 0x3002u16 & 3 == 2 && 0x5000u16 & 3 == 0 && 0x5001u16 & 3 == 1
        && 0x6000u16 & 3 == 0 && 0x6001u16 & 3 == 1 && 0x7000u16 & 3 == 0 && 0x7001u16 & 3 == 1
        && 0x8000u16 & 3 == 0 && 0x8001u16 & 3 == 1 && 0x8002u16 & 3 == 2) by (bit_vector);
    match t {
        Token::NOP => {
            assert(0u16 >> 12 == 0 && 0u16 & 3 == 0 && 0u16 == 0u16 | (0u16 & 0u16) && (0u16
                & 0x0F00) >> 8 == 0 && (0u16 & 0x00F0) >> 4 == 0) by (bit_vector);
        },
        Token::AND(x, y) => lemma_pack_fields(0x1000, x, y),
        Token::ADD(x, y) => lemma_pack_fields(0x2000, x, y),
        Token::SUB(x, y) => lemma_pack_fields(0x2001, x, y),
        Token::LDB(x, y) => lemma_pack_fields(0x3000, x, y),
        Token::LDW(x, y) => lemma_pack_fields(0x3001, x, y),
        Token::MOV(x, y) => lemma_pack_fields(0x3002, x, y),
        Token::STB(y, x) => lemma_pack_fields(0x5000, y, x),
        Token::STW(y, x) => lemma_pack_fields(0x5001, y, x),
        Token::JNZ(x, y) => lemma_pack_fields(0x6001, x, y),
        Token::NOT(x) => lemma_pack_fields(0x1001, x, 0),
        Token::INC(x) => lemma_pack_fields(0x2002, x, 0),
        Token::DEC(x) => lemma_pack_fields(0x2003, x, 0),
        Token::JMP(x) => lemma_pack_fields(0x6000, x, 0),
        Token::LDI(x, nn) => lemma_pack_ldi(x, nn),
        Token::SHR(x, n) => {
            lemma_small_u8(n);
            lemma_pack_fields(0x7000, x, (n & 0x0F) as u16);
        },
        Token::SHL(x, n) => {
            lemma_small_u8(n);
            lemma_pack_fields(0x7001, x, (n & 0x0F) as u16);
        },
        Token::TEST(n) => {
            lemma_small_u8(n);
            lemma_pack_fields(0x8000, (n & 0x0F) as u16, 0);
        },
        Token::SETF(n) => {
            lemma_small_u8(n);
            lemma_pack_fields(0x8001, (n & 0x0F) as u16, 0);
        },
        Token::CLRF(n) => {
            lemma_small_u8(n);
            lemma_pack_fields(0x8002, (n & 0x0F) as u16, 0);
        },
        _ => {},
    }
}

} // verus!
