use vstd::prelude::*;
use crate::error::AsmError;
use crate::label::{calculate_label_id, label_id};
use crate::lexer::{
    concat, concat_bytes, copy_range, is_word, parse_int_from_string, parse_u16, parse_u64,
    parse_u64_from_string, reg_name_to_num, register_number, split, split_bytes, trim, trim_bytes, views,
};
use crate::token::{Token, TRAMPOLINE_SIZE};

verus! {

/// The mnemonics of the native and pseudo-instructions.
#[derive(Clone, Copy, PartialEq, Eq, Structural, Debug)]
pub enum Mnemonic {
    Nop,
    And,
    Not,
    Add,
    Sub,
    Inc,
    Dec,
    Ldb,
    Ldw,
    Mov,
    Ldi,
    Stb,
    Stw,
    Jmp,
    Jnz,
    Shr,
    Shl,
    Test,
    Setf,
    Clrf,
    Push,
    Pop,
    Ldl,
    Call,
    Callf,
    Ret,
}

/// A three-letter word.
pub open spec fn w3(a: char, b: char, c: char) -> Seq<u8> {
    seq![a as u8, b as u8, c as u8]
}

/// A four-letter word.
pub open spec fn w4(a: char, b: char, c: char, d: char) -> Seq<u8> {
    seq![a as u8, b as u8, c as u8, d as u8]
}

/// A five-letter word.
pub open spec fn w5(a: char, b: char, c: char, d: char, e: char) -> Seq<u8> {
    seq![a as u8, b as u8, c as u8, d as u8, e as u8]
}

/// The mnemonic a word names.
pub open spec fn mnemonic_spec(m: Seq<u8>) -> Option<Mnemonic> {
    if m == w3('n', 'o', 'p') {
        Some(Mnemonic::Nop)
    } else if m == w3('a', 'n', 'd') {
        Some(Mnemonic::And)
    } else if m == w3('n', 'o', 't') {
        Some(Mnemonic::Not)
    } else if m == w3('a', 'd', 'd') {
        Some(Mnemonic::Add)
    } else if m == w3('s', 'u', 'b') {
        Some(Mnemonic::Sub)
    } else if m == w3('i', 'n', 'c') {
        Some(Mnemonic::Inc)
    } else if m == w3('d', 'e', 'c') {
        Some(Mnemonic::Dec)
    } else if m == w3('l', 'd', 'b') {
        Some(Mnemonic::Ldb)
    } else if m == w3('l', 'd', 'w') {
        Some(Mnemonic::Ldw)
    } else if m == w3('m', 'o', 'v') {
        Some(Mnemonic::Mov)
    } else if m == w3('l', 'd', 'i') {
        Some(Mnemonic::Ldi)
    } else if m == w3('s', 't', 'b') {
        Some(Mnemonic::Stb)
    } else if m == w3('s', 't', 'w') {
        Some(Mnemonic::Stw)
    } else if m == w3('j', 'm', 'p') {
        Some(Mnemonic::Jmp)
    } else if m == w3('j', 'n', 'z') {
        Some(Mnemonic::Jnz)
    } else if m == w3('s', 'h', 'r') {
        Some(Mnemonic::Shr)
    } else if m == w3('s', 'h', 'l') {
        Some(Mnemonic::Shl)
    } else if m == w4('t', 'e', 's', 't') {
        Some(Mnemonic::Test)
    } else if m == w4('s', 'e', 't', 'f') {
        Some(Mnemonic::Setf)
    } else if m == w4('c', 'l', 'r', 'f') {
        Some(Mnemonic::Clrf)
    } else if m == w4('p', 'u', 's', 'h') {
        Some(Mnemonic::Push)
    } else if m == w3('p', 'o', 'p') {
        Some(Mnemonic::Pop)
    } else if m == w3('l', 'd', 'l') {
        Some(Mnemonic::Ldl)
    } else if m == w4('c', 'a', 'l', 'l') {
        Some(Mnemonic::Call)
    } else if m == w5('c', 'a', 'l', 'l', 'f') {
        Some(Mnemonic::Callf)
    } else if m == w3('r', 'e', 't') {
        Some(Mnemonic::Ret)
    } else {
        None
    }
}

/// How many comma-separated operands a mnemonic takes.
pub open spec fn arity(m: Mnemonic) -> nat {
    match m {
        Mnemonic::Nop => 0,
        Mnemonic::Not | Mnemonic::Inc | Mnemonic::Dec | Mnemonic::Jmp => 1,
        Mnemonic::Test | Mnemonic::Setf | Mnemonic::Clrf => 1,
        Mnemonic::Push | Mnemonic::Pop | Mnemonic::Call | Mnemonic::Ret => 1,
        _ => 2,
    }
}

/// The bytes an instruction takes in the image.
pub open spec fn mnemonic_size(m: Mnemonic) -> nat {
    match m {
        Mnemonic::Push | Mnemonic::Pop | Mnemonic::Ldl => 6,
        Mnemonic::Call => 34,
        Mnemonic::Callf => 14,
        Mnemonic::Ret => 8,
        _ => 2,
    }
}

/// The operand list against the count a mnemonic takes. With no operands
/// expected, the one empty piece that an empty list splits into is accepted.
pub open spec fn arity_error(n: nat, args: Seq<Seq<u8>>) -> Option<AsmError> {
    if n == 0 {
        if args.len() > 1 || args[0].len() > 0 {
            Some(AsmError::TooManyArguments)
        } else {
            None
        }
    } else if args.len() > n {
        Some(AsmError::TooManyArguments)
    } else if args.len() < n {
        Some(AsmError::NotEnoughArguments)
    } else {
        None
    }
}

/// An integer operand that fits in a byte.
pub open spec fn small_int(s: Seq<u8>) -> Option<u8> {
    match parse_u16(s) {
        Some(v) => if v <= 255 {
            Some(v as u8)
        } else {
            None
        },
        None => None,
    }
}

/// The operand of `.short`: an integer that fits in 16 bits, or else (the
/// parse failing) the id of a label, flagged.
pub open spec fn short_operand(s: Seq<u8>) -> (u64, bool) {
    match parse_u16(s) {
        Some(v) => (v as u64, false),
        None => (label_id(s), true),
    }
}

/// The operand of `ldl`: an integer, kept as written when it fits in 64 bits,
/// or else the id of a label, flagged.
pub open spec fn ldl_operand(s: Seq<u8>) -> (u64, bool) {
    match parse_u64(s) {
        Some(v) => (v, false),
        None => (label_id(s), true),
    }
}

/// A token of one register operand.
pub open spec fn reg_token(r: Option<u16>, f: spec_fn(u16) -> Token) -> Result<Token, AsmError> {
    match r {
        Some(x) => Ok(f(x)),
        None => Err(AsmError::InvalidRegister),
    }
}

/// A token of two register operands.
pub open spec fn regs_token(a: Option<u16>, b: Option<u16>, f: spec_fn(u16, u16) -> Token) -> Result<
    Token,
    AsmError,
> {
    match (a, b) {
        (Some(x), Some(y)) => Ok(f(x, y)),
        _ => Err(AsmError::InvalidRegister),
    }
}

/// A token of a register and a byte-sized integer.
pub open spec fn reg_int_token(r: Option<u16>, n: Option<u8>, f: spec_fn(u16, u8) -> Token) -> Result<
    Token,
    AsmError,
> {
    match r {
        None => Err(AsmError::InvalidRegister),
        Some(x) => match n {
            Some(v) => Ok(f(x, v)),
            None => Err(AsmError::InvalidInteger),
        },
    }
}

/// A token of a byte-sized integer.
pub open spec fn int_token(n: Option<u8>, f: spec_fn(u8) -> Token) -> Result<Token, AsmError> {
    match n {
        Some(v) => Ok(f(v)),
        None => Err(AsmError::InvalidInteger),
    }
}

/// The token of an instruction with the right number of operands; `ret` is
/// the address after it, where a call returns to.
pub open spec fn build_token(m: Mnemonic, args: Seq<Seq<u8>>, ret: u16) -> Result<Token, AsmError> {
    let r0 = register_number(args[0]);
    let r1 = register_number(args[1]);
    match m {
        Mnemonic::Nop => Ok(Token::NOP),
        Mnemonic::And => regs_token(r0, r1, |x: u16, y: u16| Token::AND(x, y)),
        Mnemonic::Not => reg_token(r0, |x: u16| Token::NOT(x)),
        Mnemonic::Add => regs_token(r0, r1, |x: u16, y: u16| Token::ADD(x, y)),
        Mnemonic::Sub => regs_token(r0, r1, |x: u16, y: u16| Token::SUB(x, y)),
        Mnemonic::Inc => reg_token(r0, |x: u16| Token::INC(x)),
        Mnemonic::Dec => reg_token(r0, |x: u16| Token::DEC(x)),
        Mnemonic::Ldb => regs_token(r0, r1, |x: u16, y: u16| Token::LDB(x, y)),
        Mnemonic::Ldw => regs_token(r0, r1, |x: u16, y: u16| Token::LDW(x, y)),
        Mnemonic::Mov => regs_token(r0, r1, |x: u16, y: u16| Token::MOV(x, y)),
        Mnemonic::Ldi => reg_int_token(r0, small_int(args[1]), |x: u16, n: u8| Token::LDI(x, n)),
        Mnemonic::Stb => regs_token(r0, r1, |x: u16, y: u16| Token::STB(x, y)),
        Mnemonic::Stw => regs_token(r0, r1, |x: u16, y: u16| Token::STW(x, y)),
        Mnemonic::Jmp => reg_token(r0, |x: u16| Token::JMP(x)),
        Mnemonic::Jnz => regs_token(r0, r1, |x: u16, y: u16| Token::JNZ(x, y)),
        Mnemonic::Shr => reg_int_token(r0, small_int(args[1]), |x: u16, n: u8| Token::SHR(x, n)),
        Mnemonic::Shl => reg_int_token(r0, small_int(args[1]), |x: u16, n: u8| Token::SHL(x, n)),
        Mnemonic::Test => int_token(small_int(args[0]), |n: u8| Token::TEST(n)),
        Mnemonic::Setf => int_token(small_int(args[0]), |n: u8| Token::SETF(n)),
        Mnemonic::Clrf => int_token(small_int(args[0]), |n: u8| Token::CLRF(n)),
        Mnemonic::Push => reg_token(r0, |x: u16| Token::PUSH(x)),
        Mnemonic::Pop => reg_token(r0, |x: u16| Token::POP(x)),
        Mnemonic::Ldl => reg_token(
            r0,
            |x: u16| Token::LDL(x, ldl_operand(args[1]).0, ldl_operand(args[1]).1),
        ),
        Mnemonic::Call => reg_token(r0, |x: u16| Token::CALL(x, ret)),
        Mnemonic::Callf => regs_token(r0, r1, |x: u16, y: u16| Token::CALLF(x, y, ret)),
        Mnemonic::Ret => reg_token(r0, |x: u16| Token::RET(x)),
    }
}

/// An instruction line: its token and the cursor after it.
pub open spec fn instruction_spec(head: Seq<u8>, tail: Seq<u8>, cursor: nat) -> Result<(Token, nat), AsmError> {
    let args = split(tail, ',' as u8);
    match mnemonic_spec(head) {
        None => Err(AsmError::InvalidInstruction),
        Some(m) => match arity_error(arity(m), args) {
            Some(e) => Err(e),
            None => {
                let next = cursor + mnemonic_size(m);
                match build_token(m, args, next as u16) {
                    Ok(t) => Ok((t, next)),
                    Err(e) => Err(e),
                }
            },
        },
    }
}

/// A directive line (`name` without its dot): its token and the cursor after it.
pub open spec fn directive_spec(name: Seq<u8>, tail: Seq<u8>, cursor: nat) -> Result<(Token, nat), AsmError> {
    let args = split(tail, ',' as u8);
    if name == w5('s', 'h', 'o', 'r', 't') {
        if args.len() > 1 {
            Err(AsmError::TooManyArguments)
        } else {
            Ok((Token::SHORT(short_operand(args[0]).0, short_operand(args[0]).1), cursor + 2))
        }
    } else if name == w4('a', 'd', 'd', 'r') {
        if args.len() > 1 {
            Err(AsmError::TooManyArguments)
        } else {
            match parse_u16(args[0]) {
                None => Err(AsmError::InvalidInteger),
                Some(a) => if a % 2 != 0 {
                    Err(AsmError::UnalignedAddress)
                } else {
                    Ok((Token::ADDR(a), a as nat))
                },
            }
        }
    } else {
        Err(AsmError::InvalidDirective)
    }
}

/// A label line (`name` without its colon): its token, the cursor and whether
/// the trampoline is still pending. The entry label met at the address right
/// after a pending trampoline takes its place.
pub open spec fn label_spec(name: Seq<u8>, cursor: nat, tramp: bool, entry: Seq<u8>) -> (Token, nat, bool) {
    if tramp && name == entry && cursor == TRAMPOLINE_SIZE {
        (Token::LABEL(label_id(name), 0), 0, false)
    } else {
        (Token::LABEL(label_id(name), cursor as u16), cursor, tramp)
    }
}

/// One code line: its token, the cursor after it and whether the trampoline is still pending.
/// The line splits at its first space into a head and a tail with all spaces removed.
pub open spec fn gen_token_spec(line: Seq<u8>, cursor: nat, tramp: bool, entry: Seq<u8>) -> Result<
    (Token, nat, bool),
    AsmError,
> {
    let parts = split(line, ' ' as u8);
    let head = parts[0];
    let tail = concat(parts.skip(1));
    if head.len() > 0 && head[0] == '.' as u8 && tail.len() > 0 {
        match directive_spec(head.skip(1), tail, cursor) {
            Ok((t, c)) => Ok((t, c, tramp)),
            Err(e) => Err(e),
        }
    } else if head.len() > 0 && head.last() == ':' as u8 && tail.len() == 0 {
        Ok(label_spec(head.drop_last(), cursor, tramp, entry))
    } else {
        match instruction_spec(head, tail, cursor) {
            Ok((t, c)) => Ok((t, c, tramp)),
            Err(e) => Err(e),
        }
    }
}

/// Pass one over code lines from a cursor and trampoline state: the tokens, the
/// final cursor and trampoline state, or the first failure. No line may leave
/// the cursor past `0xFFFF`.
pub open spec fn pass1(lines: Seq<Seq<u8>>, cursor: nat, tramp: bool, entry: Seq<u8>) -> Result<
    (Seq<Token>, nat, bool),
    AsmError,
>
    decreases lines.len(),
{
    if lines.len() == 0 {
        Ok((Seq::empty(), cursor, tramp))
    } else {
        match pass1(lines.drop_last(), cursor, tramp, entry) {
            Err(e) => Err(e),
            Ok((ts, c, tr)) => match gen_token_spec(lines.last(), c, tr, entry) {
                Err(e) => Err(e),
                Ok((t, c2, tr2)) => if c2 > 0xFFFF {
                    Err(AsmError::SizeExceeded)
                } else {
                    Ok((ts.push(t), c2, tr2))
                },
            },
        }
    }
}

/// The trimmed pieces that are not empty.
pub open spec fn code_lines(parts: Seq<Seq<u8>>) -> Seq<Seq<u8>>
    decreases parts.len(),
{
    if parts.len() == 0 {
        Seq::empty()
    } else {
        let r = code_lines(parts.drop_last());
        let t = trim(parts.last());
        if t.len() == 0 {
            r
        } else {
            r.push(t)
        }
    }
}

/// The code lines of all sources, in order.
pub open spec fn all_lines(sources: Seq<Seq<u8>>) -> Seq<Seq<u8>>
    decreases sources.len(),
{
    if sources.len() == 0 {
        Seq::empty()
    } else {
        all_lines(sources.drop_last()) + code_lines(split(sources.last(), '\n' as u8))
    }
}

/// Every byte is 7-bit ASCII.
pub open spec fn is_ascii_bytes(s: Seq<u8>) -> bool {
    forall|i: int| 0 <= i < s.len() ==> s[i] < 128
}

/// The index of the first source that is not 7-bit ASCII.
pub open spec fn first_non_ascii(sources: Seq<Seq<u8>>) -> Option<nat>
    decreases sources.len(),
{
    if sources.len() == 0 {
        None
    } else {
        match first_non_ascii(sources.drop_last()) {
            Some(k) => Some(k),
            None => if is_ascii_bytes(sources.last()) {
                None
            } else {
                Some((sources.len() - 1) as nat)
            },
        }
    }
}

/// `ldl r0, entry; jmp r0`.
pub open spec fn trampoline_tokens(entry: Seq<u8>) -> Seq<Token> {
    seq![Token::LDL(0, label_id(entry), true), Token::JMP(0)]
}

/// Pass one over whole sources: the token stream (behind the trampoline when it
/// is still pending), the final cursor and trampoline state, or the first failure.
/// The final cursor may not pass `0xFFFF`, even with no code line.
pub open spec fn tokenize_spec(sources: Seq<Seq<u8>>, cursor: nat, tramp: bool, entry: Seq<u8>) -> Result<
    (Seq<Token>, nat, bool),
    AsmError,
> {
    if sources.len() == 0 {
        Err(AsmError::NoInput)
    } else {
        match first_non_ascii(sources) {
            Some(k) => Err(AsmError::NotAscii(k as usize)),
            None => match pass1(all_lines(sources), cursor, tramp, entry) {
                Err(e) => Err(e),
                Ok((ts, c, tr)) => if c > 0xFFFF {
                    Err(AsmError::SizeExceeded)
                } else {
                    Ok(
                        (if tr {
                            trampoline_tokens(entry) + ts
                        } else {
                            ts
                        }, c, tr),
                    )
                },
            },
        }
    }
}

/// An assembly job: the input files, the entry label, the output path,
/// whether a trampoline is pending, and the cursor of pass one.
pub struct Job {
    files: Vec<String>,
    entry: Vec<u8>,
    output: String,
    trampoline: bool,
    address: u64,
}

fn mnemonic(m: &[u8]) -> (r: Option<Mnemonic>)
    ensures
        r == mnemonic_spec(m@),
{
    if is_word(m, &['n' as u8, 'o' as u8, 'p' as u8]) {
        Some(Mnemonic::Nop)
    } else if is_word(m, &['a' as u8, 'n' as u8, 'd' as u8]) {
        Some(Mnemonic::And)
    } else if is_word(m, &['n' as u8, 'o' as u8, 't' as u8]) {
        Some(Mnemonic::Not)
    } else if is_word(m, &['a' as u8, 'd' as u8, 'd' as u8]) {
        Some(Mnemonic::Add)
    } else if is_word(m, &['s' as u8, 'u' as u8, 'b' as u8]) {
        Some(Mnemonic::Sub)
    } else if is_word(m, &['i' as u8, 'n' as u8, 'c' as u8]) {
        Some(Mnemonic::Inc)
    } else if is_word(m, &['d' as u8, 'e' as u8, 'c' as u8]) {
        Some(Mnemonic::Dec)
    } else if is_word(m, &['l' as u8, 'd' as u8, 'b' as u8]) {
        Some(Mnemonic::Ldb)
    } else if is_word(m, &['l' as u8, 'd' as u8, 'w' as u8]) {
        Some(Mnemonic::Ldw)
    } else if is_word(m, &['m' as u8, 'o' as u8, 'v' as u8]) {
        Some(Mnemonic::Mov)
    } else if is_word(m, &['l' as u8, 'd' as u8, 'i' as u8]) {
        Some(Mnemonic::Ldi)
    } else if is_word(m, &['s' as u8, 't' as u8, 'b' as u8]) {
        Some(Mnemonic::Stb)
    } else if is_word(m, &['s' as u8, 't' as u8, 'w' as u8]) {
        Some(Mnemonic::Stw)
    } else if is_word(m, &['j' as u8, 'm' as u8, 'p' as u8]) {
        Some(Mnemonic::Jmp)
    } else if is_word(m, &['j' as u8, 'n' as u8, 'z' as u8]) {
        Some(Mnemonic::Jnz)
    } else if is_word(m, &['s' as u8, 'h' as u8, 'r' as u8]) {
        Some(Mnemonic::Shr)
    } else if is_word(m, &['s' as u8, 'h' as u8, 'l' as u8]) {
        Some(Mnemonic::Shl)
    } else if is_word(m, &['t' as u8, 'e' as u8, 's' as u8, 't' as u8]) {
        Some(Mnemonic::Test)
    } else if is_word(m, &['s' as u8, 'e' as u8, 't' as u8, 'f' as u8]) {
        Some(Mnemonic::Setf)
    } else if is_word(m, &['c' as u8, 'l' as u8, 'r' as u8, 'f' as u8]) {
        Some(Mnemonic::Clrf)
    } else if is_word(m, &['p' as u8, 'u' as u8, 's' as u8, 'h' as u8]) {
        Some(Mnemonic::Push)
    } else if is_word(m, &['p' as u8, 'o' as u8, 'p' as u8]) {
        Some(Mnemonic::Pop)
    } else if is_word(m, &['l' as u8, 'd' as u8, 'l' as u8]) {
        Some(Mnemonic::Ldl)
    } else if is_word(m, &['c' as u8, 'a' as u8, 'l' as u8, 'l' as u8]) {
        Some(Mnemonic::Call)
    } else if is_word(m, &['c' as u8, 'a' as u8, 'l' as u8, 'l' as u8, 'f' as u8]) {
        Some(Mnemonic::Callf)
    } else if is_word(m, &['r' as u8, 'e' as u8, 't' as u8]) {
        Some(Mnemonic::Ret)
    } else {
        None
    }
}

fn short_operand_of(s: &[u8]) -> (r: (u64, bool))
    ensures
        r == short_operand(s@),
{
    match parse_int_from_string(s) {
        Some(v) => (v as u64, false),
        None => (calculate_label_id(s), true),
    }
}

fn ldl_operand_of(s: &[u8]) -> (r: (u64, bool))
    ensures
        r == ldl_operand(s@),
{
    match parse_u64_from_string(s) {
        Some(v) => (v, false),
        None => (calculate_label_id(s), true),
    }
}

fn small_int_of(s: &[u8]) -> (r: Option<u8>)
    ensures
        r == small_int(s@),
{
    match parse_int_from_string(s) {
        Some(v) => if v <= 255 {
            Some(v as u8)
        } else {
            None
        },
        None => None,
    }
}

impl Job {
    pub closed spec fn wf(&self) -> bool {
        self.address <= 0xFFFF + (if self.trampoline { TRAMPOLINE_SIZE } else { 0 })
    }

    /// The cursor of pass one.
    pub closed spec fn cursor(&self) -> nat {
        self.address as nat
    }

    /// Whether a trampoline is pending.
    pub closed spec fn pending_trampoline(&self) -> bool {
        self.trampoline
    }

    /// The bytes of the entry label's name.
    pub closed spec fn entry_name(&self) -> Seq<u8> {
        self.entry@
    }

    pub closed spec fn inputs(&self) -> Seq<String> {
        self.files@
    }

    pub closed spec fn output_path(&self) -> Seq<char> {
        self.output@
    }

    /// No files, entry `_start`, output `a.out`, no trampoline, cursor 0.
    pub fn new() -> (r: Self)
        ensures
            r.wf(),
            r.inputs().len() == 0,
            r.entry_name() == seq!['_' as u8, 's' as u8, 't' as u8, 'a' as u8, 'r' as u8, 't' as u8],
            r.output_path() == seq!['a', '.', 'o', 'u', 't'],
            !r.pending_trampoline(),
            r.cursor() == 0,
    {
        let entry: Vec<u8> = vec!['_' as u8, 's' as u8, 't' as u8, 'a' as u8, 'r' as u8, 't' as u8];
        let output = String::from_str("a.out");
        proof {
            reveal_strlit("a.out");
        }
        assert(output@ =~= seq!['a', '.', 'o', 'u', 't']);
        Job { files: Vec::new(), entry, output, trampoline: false, address: 0 }
    }

    pub fn add_file(&mut self, path: String)
        requires
            old(self).wf(),
        ensures
            final(self).wf(),
            final(self).inputs() == old(self).inputs().push(path),
            final(self).entry_name() == old(self).entry_name(),
            final(self).output_path() == old(self).output_path(),
            final(self).pending_trampoline() == old(self).pending_trampoline(),
            final(self).cursor() == old(self).cursor(),
    {
        self.files.push(path);
    }

    pub fn set_entry(&mut self, entry: String)
        requires
            old(self).wf(),
        ensures
            final(self).wf(),
            final(self).entry_name() == vstd::utf8::encode_utf8(entry@),
            final(self).inputs() == old(self).inputs(),
            final(self).output_path() == old(self).output_path(),
            final(self).pending_trampoline() == old(self).pending_trampoline(),
            final(self).cursor() == old(self).cursor(),
    {
        let bytes: &[u8] = entry.as_str().as_bytes();
        self.entry = copy_range(bytes, 0, bytes.len());
        assert(self.entry@ =~= vstd::utf8::encode_utf8(entry@));
    }

    pub fn set_output(&mut self, path: String)
        requires
            old(self).wf(),
        ensures
            final(self).wf(),
            final(self).output_path() == path@,
            final(self).inputs() == old(self).inputs(),
            final(self).entry_name() == old(self).entry_name(),
            final(self).pending_trampoline() == old(self).pending_trampoline(),
            final(self).cursor() == old(self).cursor(),
    {
        self.output = path;
    }

    /// Asks for a trampoline: the first 8 bytes are reserved for it.
    pub fn trampoline(&mut self)
        requires
            old(self).wf(),
        ensures
            final(self).wf(),
            final(self).pending_trampoline(),
            final(self).cursor() == old(self).cursor() + (if old(self).pending_trampoline() {
                0
            } else {
                TRAMPOLINE_SIZE
            }),
            final(self).inputs() == old(self).inputs(),
            final(self).entry_name() == old(self).entry_name(),
            final(self).output_path() == old(self).output_path(),
    {
        if !self.trampoline {
            self.address = self.address + TRAMPOLINE_SIZE;
            self.trampoline = true;
        }
    }

    pub fn files(&self) -> (r: &Vec<String>)
        ensures
            r@ == self.inputs(),
    {
        &self.files
    }

    pub fn output(&self) -> (r: &String)
        ensures
            r@ == self.output_path(),
    {
        &self.output
    }

    /// The code lines of all sources: each source split at line feeds, each
    /// line trimmed, blank lines dropped.
    fn get_lines(&self, sources: &Vec<Vec<u8>>) -> (r: Result<Vec<Vec<u8>>, AsmError>)
        ensures
            sources@.len() == 0 ==> r == Err::<Vec<Vec<u8>>, AsmError>(AsmError::NoInput),
            sources@.len() > 0 ==> match first_non_ascii(views(sources@)) {
                Some(k) => r == Err::<Vec<Vec<u8>>, AsmError>(AsmError::NotAscii(k as usize)),
                None => r is Ok && views(r->Ok_0@) == all_lines(views(sources@)),
            },
    {
        if sources.len() == 0 {
            return Err(AsmError::NoInput);
        }
        let mut code: Vec<Vec<u8>> = Vec::new();
        let mut k: usize = 0;
        while k < sources.len()
            invariant
                k <= sources@.len(),
                first_non_ascii(views(sources@.take(k as int))) is None,
                views(code@) == all_lines(views(sources@.take(k as int))),
            decreases sources.len() - k,
        {
            let ghost before = views(sources@.take(k as int));
            let ghost next = views(sources@.take(k + 1));
            assert(next.drop_last() =~= before);
            assert(next.last() == sources@[k as int]@);
            let src: &Vec<u8> = &sources[k];
            assert(views(sources@).take(k as int) =~= before);
            assert(views(sources@)[k as int] == src@);
            let mut j: usize = 0;
            while j < src.len()
                invariant
                    k < sources@.len(),
                    first_non_ascii(views(sources@).take(k as int)) is None,
                    views(sources@)[k as int] == src@,
                    j <= src@.len(),
                    forall|i: int| 0 <= i < j ==> src@[i] < 128,
                decreases src.len() - j,
            {
                if src[j] >= 128 {
                    proof {
                        lemma_first_non_ascii_at(views(sources@), k as nat);
                    }
                    return Err(AsmError::NotAscii(k));
                }
                j = j + 1;
            }
            let parts = split_bytes(src.as_slice(), '\n' as u8);
            let ghost code0 = views(code@);
            let mut p: usize = 0;
            assert(views(parts@).take(0) =~= Seq::<Seq<u8>>::empty());
            while p < parts.len()
                invariant
                    p <= parts@.len(),
                    views(code@) == code0 + code_lines(views(parts@).take(p as int)),
                decreases parts.len() - p,
            {
                assert(views(parts@).take(p + 1).drop_last() =~= views(parts@).take(p as int));
                assert(views(parts@).take(p + 1).last() == parts@[p as int]@);
                let line = trim_bytes(parts[p].as_slice());
                if line.len() > 0 {
                    let ghost cv = views(code@);
                    let ghost lv = line@;
                    code.push(line);
                    assert(views(code@) =~= cv.push(lv));
                }
                p = p + 1;
                assert(views(code@) =~= code0 + code_lines(views(parts@).take(p as int)));
            }
            assert(views(parts@).take(parts@.len() as int) =~= views(parts@));
            k = k + 1;
            assert(views(code@) =~= all_lines(next));
        }
        assert(sources@.take(sources@.len() as int) =~= sources@);
        Ok(code)
    }

    fn gen_label_token(&self, name: &[u8], cursor: u64, tramp: bool) -> (r: (Token, u64, bool))
        requires
            cursor <= 0xFFFF + TRAMPOLINE_SIZE,
        ensures
            (r.0, r.1 as nat, r.2) == label_spec(name@, cursor as nat, tramp, self.entry@),
    {
        let id = calculate_label_id(name);
        if tramp && is_word(name, self.entry.as_slice()) && cursor == TRAMPOLINE_SIZE {
            return (Token::LABEL(id, 0), 0, false);
        }
        (Token::LABEL(id, #[verifier::truncate] (cursor as u16)), cursor, tramp)
    }

    fn gen_directive_token(&self, name: &[u8], tail: &[u8], cursor: u64) -> (r: Result<(Token, u64), AsmError>)
        requires
            cursor <= 0xFFFF + TRAMPOLINE_SIZE,
        ensures
            match directive_spec(name@, tail@, cursor as nat) {
                Ok((t, c)) => r == Ok::<(Token, u64), AsmError>((t, c as u64)),
                Err(e) => r == Err::<(Token, u64), AsmError>(e),
            },
    {
        let args = split_bytes(tail, ',' as u8);
        if is_word(name, &['s' as u8, 'h' as u8, 'o' as u8, 'r' as u8, 't' as u8]) {
            if args.len() > 1 {
                return Err(AsmError::TooManyArguments);
            }
            let (v, l) = short_operand_of(args[0].as_slice());
            Ok((Token::SHORT(v, l), cursor + 2))
        } else if is_word(name, &['a' as u8, 'd' as u8, 'd' as u8, 'r' as u8]) {
            if args.len() > 1 {
                return Err(AsmError::TooManyArguments);
            }
            match parse_int_from_string(args[0].as_slice()) {
                None => Err(AsmError::InvalidInteger),
                Some(a) => if a % 2 != 0 {
                    Err(AsmError::UnalignedAddress)
                } else {
                    Ok((Token::ADDR(a), a as u64))
                },
            }
        } else {
            Err(AsmError::InvalidDirective)
        }
    }

    fn gen_pseudo_instruction_token(&self, m: Mnemonic, args: &Vec<Vec<u8>>, ret: u16) -> (r: Result<Token, AsmError>)
        requires
            m == Mnemonic::Push || m == Mnemonic::Pop || m == Mnemonic::Ldl || m == Mnemonic::Call
                || m == Mnemonic::Callf || m == Mnemonic::Ret,
            args@.len() == arity(m),
        ensures
            r == build_token(m, views(args@), ret),
    {
        assert(views(args@)[0] == args@[0]@);
        let r0 = reg_name_to_num(args[0].as_slice());
        match m {
            Mnemonic::Ldl => {
                assert(views(args@)[1] == args@[1]@);
                let (v, l) = ldl_operand_of(args[1].as_slice());
                match r0 {
                    None => Err(AsmError::InvalidRegister),
                    Some(x) => Ok(Token::LDL(x, v, l)),
                }
            },
            Mnemonic::Callf => {
                assert(views(args@)[1] == args@[1]@);
                let r1 = reg_name_to_num(args[1].as_slice());
                match (r0, r1) {
                    (Some(x), Some(y)) => Ok(Token::CALLF(x, y, ret)),
                    _ => Err(AsmError::InvalidRegister),
                }
            },
            _ => match r0 {
                None => Err(AsmError::InvalidRegister),
                Some(x) => match m {
                    Mnemonic::Push => Ok(Token::PUSH(x)),
                    Mnemonic::Pop => Ok(Token::POP(x)),
                    Mnemonic::Call => Ok(Token::CALL(x, ret)),
                    _ => Ok(Token::RET(x)),
                },
            },
        }
    }

    fn gen_instruction_token(&self, head: &[u8], tail: &[u8], cursor: u64) -> (r: Result<(Token, u64), AsmError>)
        requires
            cursor <= 0xFFFF + TRAMPOLINE_SIZE,
        ensures
            match instruction_spec(head@, tail@, cursor as nat) {
                Ok((t, c)) => r == Ok::<(Token, u64), AsmError>((t, c as u64)),
                Err(e) => r == Err::<(Token, u64), AsmError>(e),
            },
    {
        let args = split_bytes(tail, ',' as u8);
        let ghost a = views(args@);
        let m = match mnemonic(head) {
            Some(m) => m,
            None => {
                return Err(AsmError::InvalidInstruction);
            },
        };
        let n: usize = match m {
            Mnemonic::Nop => 0,
            Mnemonic::Not | Mnemonic::Inc | Mnemonic::Dec | Mnemonic::Jmp => 1,
            Mnemonic::Test | Mnemonic::Setf | Mnemonic::Clrf => 1,
            Mnemonic::Push | Mnemonic::Pop | Mnemonic::Call | Mnemonic::Ret => 1,
            _ => 2,
        };
        assert(a[0] == args@[0]@);
        if n == 0 {
            if args.len() > 1 || args[0].len() > 0 {
                return Err(AsmError::TooManyArguments);
            }
        } else if args.len() > n {
            return Err(AsmError::TooManyArguments);
        } else if args.len() < n {
            return Err(AsmError::NotEnoughArguments);
        }
        let size: u64 = match m {
            Mnemonic::Push | Mnemonic::Pop | Mnemonic::Ldl => 6,
            Mnemonic::Call => 34,
            Mnemonic::Callf => 14,
            Mnemonic::Ret => 8,
            _ => 2,
        };
        let next: u64 = cursor + size;
        let ret: u16 = #[verifier::truncate] (next as u16);
        let t = match m {
            Mnemonic::Push | Mnemonic::Pop | Mnemonic::Ldl | Mnemonic::Call | Mnemonic::Callf
            | Mnemonic::Ret => self.gen_pseudo_instruction_token(m, &args, ret),
            Mnemonic::Nop => Ok(Token::NOP),
            Mnemonic::Test | Mnemonic::Setf | Mnemonic::Clrf => match small_int_of(args[0].as_slice()) {
                None => Err(AsmError::InvalidInteger),
                Some(v) => Ok(
                    match m {
                        Mnemonic::Test => Token::TEST(v),
                        Mnemonic::Setf => Token::SETF(v),
                        _ => Token::CLRF(v),
                    },
                ),
            },
            Mnemonic::Not | Mnemonic::Inc | Mnemonic::Dec | Mnemonic::Jmp => match reg_name_to_num(
                args[0].as_slice(),
            ) {
                None => Err(AsmError::InvalidRegister),
                Some(x) => Ok(
                    match m {
                        Mnemonic::Not => Token::NOT(x),
                        Mnemonic::Inc => Token::INC(x),
                        Mnemonic::Dec => Token::DEC(x),
                        _ => Token::JMP(x),
                    },
                ),
            },
            Mnemonic::Ldi | Mnemonic::Shr | Mnemonic::Shl => {
                assert(a[1] == args@[1]@);
                match reg_name_to_num(args[0].as_slice()) {
                    None => Err(AsmError::InvalidRegister),
                    Some(x) => match small_int_of(args[1].as_slice()) {
                        None => Err(AsmError::InvalidInteger),
                        Some(v) => Ok(
                            match m {
                                Mnemonic::Ldi => Token::LDI(x, v),
                                Mnemonic::Shr => Token::SHR(x, v),
                                _ => Token::SHL(x, v),
                            },
                        ),
                    },
                }
            },
            _ => {
                assert(a[1] == args@[1]@);
                let r0 = reg_name_to_num(args[0].as_slice());
                let r1 = reg_name_to_num(args[1].as_slice());
                match (r0, r1) {
                    (Some(x), Some(y)) => Ok(
                        match m {
                            Mnemonic::And => Token::AND(x, y),
                            Mnemonic::Add => Token::ADD(x, y),
                            Mnemonic::Sub => Token::SUB(x, y),
                            Mnemonic::Ldb => Token::LDB(x, y),
                            Mnemonic::Ldw => Token::LDW(x, y),
                            Mnemonic::Mov => Token::MOV(x, y),
                            Mnemonic::Stb => Token::STB(x, y),
                            Mnemonic::Stw => Token::STW(x, y),
                            _ => Token::JNZ(x, y),
                        },
                    ),
                    _ => Err(AsmError::InvalidRegister),
                }
            },
        };
        match t {
            Ok(t) => Ok((t, next)),
            Err(e) => Err(e),
        }
    }

    fn gen_token(&self, line: &[u8], cursor: u64, tramp: bool) -> (r: Result<(Token, u64, bool), AsmError>)
        requires
            cursor <= 0xFFFF + TRAMPOLINE_SIZE,
        ensures
            match gen_token_spec(line@, cursor as nat, tramp, self.entry@) {
                Ok((t, c, tr)) => r == Ok::<(Token, u64, bool), AsmError>((t, c as u64, tr)),
                Err(e) => r == Err::<(Token, u64, bool), AsmError>(e),
            },
    {
        let parts = split_bytes(line, ' ' as u8);
        let head: &[u8] = parts[0].as_slice();
        let rest = copy_parts(&parts, 1);
        let tail = concat_bytes(rest.as_slice());
        assert(views(parts@)[0] == parts@[0]@);
        if head.len() > 0 && head[0] == '.' as u8 && tail.len() > 0 {
            let name = copy_range(head, 1, head.len());
            assert(name@ =~= head@.skip(1));
            match self.gen_directive_token(name.as_slice(), tail.as_slice(), cursor) {
                Ok((t, c)) => Ok((t, c, tramp)),
                Err(e) => Err(e),
            }
        } else if head.len() > 0 && head[head.len() - 1] == ':' as u8 && tail.len() == 0 {
            let name = copy_range(head, 0, head.len() - 1);
            assert(name@ =~= head@.drop_last());
            Ok(self.gen_label_token(name.as_slice(), cursor, tramp))
        } else {
            match self.gen_instruction_token(head, tail.as_slice(), cursor) {
                Ok((t, c)) => Ok((t, c, tramp)),
                Err(e) => Err(e),
            }
        }
    }

    /// Pass one: the token stream of the sources, one token per code line, with
    /// the trampoline in front when it is still pending at the end.
    pub fn tokenize(&mut self, sources: &Vec<Vec<u8>>) -> (r: Result<Vec<Token>, AsmError>)
        requires
            old(self).wf(),
        ensures
            final(self).wf(),
            final(self).inputs() == old(self).inputs(),
            final(self).entry_name() == old(self).entry_name(),
            final(self).output_path() == old(self).output_path(),
            match tokenize_spec(
                views(sources@),
                old(self).cursor(),
                old(self).pending_trampoline(),
                old(self).entry_name(),
            ) {
                Ok((ts, c, tr)) => r is Ok && r->Ok_0@ == ts && final(self).cursor() == c
                    && final(self).pending_trampoline() == tr,
                Err(e) => r == Err::<Vec<Token>, AsmError>(e),
            },
            r is Ok ==> final(self).cursor() <= 0xFFFF,
            r is Err ==> final(self).cursor() == old(self).cursor()
                && final(self).pending_trampoline() == old(self).pending_trampoline(),
    {
        let lines = match self.get_lines(sources) {
            Ok(lines) => lines,
            Err(e) => {
                return Err(e);
            },
        };
        let ghost entry = self.entry@;
        let ghost c0 = self.address as nat;
        let ghost tr0 = self.trampoline;
        let mut tokens: Vec<Token> = Vec::new();
        let mut cursor: u64 = self.address;
        let mut tramp: bool = self.trampoline;
        let mut i: usize = 0;
        while i < lines.len()
            invariant
                i <= lines@.len(),
                sources@.len() > 0,
                first_non_ascii(views(sources@)) is None,
                views(lines@) == all_lines(views(sources@)),
                old(self).wf(),
                entry == self.entry@,
                self.entry == old(self).entry,
                self.files == old(self).files,
                self.output == old(self).output,
                self.address == old(self).address,
                self.trampoline == old(self).trampoline,
                c0 == old(self).cursor(),
                tr0 == old(self).pending_trampoline(),
                cursor <= 0xFFFF + (if tramp { TRAMPOLINE_SIZE } else { 0 }),
                pass1(views(lines@).take(i as int), c0, tr0, entry) == Ok::<
                    (Seq<Token>, nat, bool),
                    AsmError,
                >((tokens@, cursor as nat, tramp)),
            decreases lines.len() - i,
        {
            assert(views(lines@).take(i + 1).drop_last() =~= views(lines@).take(i as int));
            assert(views(lines@).take(i + 1).last() == lines@[i as int]@);
            match self.gen_token(lines[i].as_slice(), cursor, tramp) {
                Err(e) => {
                    proof {
                        lemma_pass1_error_persists(views(lines@), c0, tr0, entry, (i + 1) as nat);
                    }
                    assert(views(lines@).take(lines@.len() as int) =~= views(lines@));
                    return Err(e);
                },
                Ok((t, c, tr)) => {
                    if c > 0xFFFF {
                        proof {
                            lemma_pass1_error_persists(views(lines@), c0, tr0, entry, (i + 1) as nat);
                        }
                        assert(views(lines@).take(lines@.len() as int) =~= views(lines@));
                        return Err(AsmError::SizeExceeded);
                    }
                    tokens.push(t);
                    cursor = c;
                    tramp = tr;
                },
            }
            i = i + 1;
        }
        assert(views(lines@).take(lines@.len() as int) =~= views(lines@));
        if cursor > 0xFFFF {
            return Err(AsmError::SizeExceeded);
        }
        self.address = cursor;
        self.trampoline = tramp;
        if tramp {
            let id = calculate_label_id(self.entry.as_slice());
            let mut out: Vec<Token> = vec![Token::LDL(0, id, true), Token::JMP(0)];
            let mut k: usize = 0;
            while k < tokens.len()
                invariant
                    k <= tokens@.len(),
                    out@ == trampoline_tokens(entry) + tokens@.take(k as int),
                    entry == self.entry@,
                decreases tokens.len() - k,
            {
                out.push(tokens[k]);
                k = k + 1;
                assert(out@ =~= trampoline_tokens(entry) + tokens@.take(k as int));
            }
            assert(tokens@.take(tokens@.len() as int) =~= tokens@);
            return Ok(out);
        }
        Ok(tokens)
    }
}

/// Copies of the pieces from index `from` on.
fn copy_parts(parts: &Vec<Vec<u8>>, from: usize) -> (r: Vec<Vec<u8>>)
    requires
        from <= parts@.len(),
    ensures
        views(r@) == views(parts@).skip(from as int),
{
    let mut r: Vec<Vec<u8>> = Vec::new();
    let mut k: usize = from;
    while k < parts.len()
        invariant
            from <= k <= parts@.len(),
            views(r@) == views(parts@).subrange(from as int, k as int),
        decreases parts.len() - k,
    {
        let piece = copy_range(parts[k].as_slice(), 0, parts[k].len());
        assert(piece@ =~= parts@[k as int]@);
        assert(views(parts@)[k as int] == parts@[k as int]@);
        let ghost r0 = views(r@);
        r.push(piece);
        assert(views(r@) =~= r0.push(piece@));
        k = k + 1;
        assert(views(r@) =~= views(parts@).subrange(from as int, k as int));
    }
    r
}

proof fn lemma_first_non_ascii_at(sources: Seq<Seq<u8>>, k: nat)
    requires
        k < sources.len(),
        first_non_ascii(sources.take(k as int)) is None,
        !is_ascii_bytes(sources[k as int]),
    ensures
        first_non_ascii(sources) == Some(k),
    decreases sources.len(),
{
    if k + 1 < sources.len() {
        assert(sources.drop_last().take(k as int) =~= sources.take(k as int));
        assert(sources.drop_last()[k as int] == sources[k as int]);
        lemma_first_non_ascii_at(sources.drop_last(), k);
    } else {
        assert(sources.drop_last() =~= sources.take(k as int));
    }
}

/// Once pass one fails, it fails with the same error whatever lines follow.
proof fn lemma_pass1_error_persists(lines: Seq<Seq<u8>>, c: nat, tr: bool, entry: Seq<u8>, k: nat)
    requires
        k <= lines.len(),
        pass1(lines.take(k as int), c, tr, entry) is Err,
    ensures
        pass1(lines, c, tr, entry) == pass1(lines.take(k as int), c, tr, entry),
    decreases lines.len() - k,
{
    if k < lines.len() {
        assert(lines.take(k + 1 as int).drop_last() =~= lines.take(k as int));
        lemma_pass1_error_persists(lines, c, tr, entry, k + 1);
    } else {
        assert(lines.take(k as int) =~= lines);
    }
}

} // verus!
