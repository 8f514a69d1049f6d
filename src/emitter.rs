use vstd::prelude::*;
use std::collections::HashMap;
use crate::error::AsmError;
use crate::executable::{write_word, Executable};
use crate::token::{
    call_words, distinct_registers, is_native, ldl_words, lemma_words_fill_size,
    native_word, pop_words, push_words, registers_in_range, token_size, token_words, Token,
};

verus! {

broadcast use vstd::std_specs::hash::group_hash_axioms;

/// Two label tokens with the same id.
pub open spec fn has_duplicate_label(tokens: Seq<Token>) -> bool {
    exists|i: int, j: int, id: u64, a: u16, b: u16|
        0 <= i < j < tokens.len() && tokens[i] == Token::LABEL(id, a) && tokens[j] == Token::LABEL(id, b)
}

/// Each label id mapped to the address its label token records.
pub open spec fn label_table(tokens: Seq<Token>) -> Map<u64, u16>
    decreases tokens.len(),
{
    if tokens.len() == 0 {
        Map::empty()
    } else {
        let m = label_table(tokens.drop_last());
        match tokens.last() {
            Token::LABEL(id, a) => m.insert(id, a),
            _ => m,
        }
    }
}

/// What the operand of a `.short` or `ldl` stands for: the address of its label,
/// or the value itself; `ldl` cannot load a value past 16 bits.
pub open spec fn resolve(t: Token, labels: Map<u64, u16>) -> Result<u16, AsmError> {
    match t {
        Token::SHORT(s, true) => if labels.contains_key(s) {
            Ok(labels[s])
        } else {
            Err(AsmError::UnknownLabel(s))
        },
        Token::SHORT(s, false) => Ok(s as u16),
        Token::LDL(_, k, true) => if labels.contains_key(k) {
            Ok(labels[k])
        } else {
            Err(AsmError::UnknownLabel(k))
        },
        Token::LDL(_, k, false) => if k <= 0xFFFF {
            Ok(k as u16)
        } else {
            Err(AsmError::InvalidInteger)
        },
        _ => Ok(0),
    }
}

/// The checks a token passes before it is lowered, and the operand value it lowers with.
pub open spec fn check_token(t: Token, labels: Map<u64, u16>) -> Result<u16, AsmError> {
    if !registers_in_range(t) {
        Err(AsmError::RegisterOutOfRange)
    } else if !distinct_registers(t) {
        Err(AsmError::SameRegister)
    } else {
        resolve(t, labels)
    }
}

/// The image with the words written one after the other from `at`.
pub open spec fn write_words(image: Seq<u8>, at: nat, words: Seq<u16>) -> Seq<u8>
    decreases words.len(),
{
    if words.len() == 0 {
        image
    } else {
        write_words(write_word(image, at, words[0]), at + 2, words.skip(1))
    }
}

/// The image and cursor after a token is lowered at cursor `c`.
pub open spec fn emit_step(image: Seq<u8>, c: nat, t: Token, labels: Map<u64, u16>) -> Result<
    (Seq<u8>, nat),
    AsmError,
> {
    match t {
        Token::ADDR(a) => Ok((image, a as nat)),
        _ => match check_token(t, labels) {
            Err(e) => Err(e),
            Ok(v) => if c + token_size(t) > 0xFFFF {
                Err(AsmError::SizeExceeded)
            } else {
                Ok((write_words(image, c, token_words(t, v)), c + token_size(t)))
            },
        },
    }
}

/// The image and cursor after a token stream is lowered from an empty image at
/// address 0, or the first failure.
pub open spec fn emit_all(tokens: Seq<Token>, labels: Map<u64, u16>) -> Result<(Seq<u8>, nat), AsmError>
    decreases tokens.len(),
{
    if tokens.len() == 0 {
        Ok((Seq::empty(), 0))
    } else {
        match emit_all(tokens.drop_last(), labels) {
            Err(e) => Err(e),
            Ok((image, c)) => emit_step(image, c, tokens.last(), labels),
        }
    }
}

/// Two label tokens with id `id`.
pub open spec fn defined_twice(tokens: Seq<Token>, id: u64) -> bool {
    exists|i: int, j: int, a: u16, b: u16|
        0 <= i < j < tokens.len() && tokens[i] == Token::LABEL(id, a) && tokens[j] == Token::LABEL(id, b)
}

/// The label table of a token stream, or the id of a label defined twice.
pub fn collect_labels(tokens: &Vec<Token>) -> (r: Result<HashMap<u64, u16>, AsmError>)
    ensures
        match r {
            Ok(m) => !has_duplicate_label(tokens@) && m@ == label_table(tokens@),
            Err(e) => has_duplicate_label(tokens@) && e is DuplicateLabel && defined_twice(
                tokens@,
                e->DuplicateLabel_0,
            ),
        },
{
    let mut labels: HashMap<u64, u16> = HashMap::new();
    let mut i: usize = 0;
    while i < tokens.len()
        invariant
            i <= tokens@.len(),
            !has_duplicate_label(tokens@.take(i as int)),
            labels@ == label_table(tokens@.take(i as int)),
            forall|id: u64| labels@.contains_key(id) <==> exists|j: int, a: u16|
                0 <= j < i && tokens@[j] == Token::LABEL(id, a),
        decreases tokens.len() - i,
    {
        let ghost prefix = tokens@.take(i as int);
        let ghost next = tokens@.take(i + 1);
        assert(next.drop_last() =~= prefix);
        match tokens[i] {
            Token::LABEL(id, address) => {
                if labels.contains_key(&id) {
                    let ghost (j, a) = choose|j: int, a: u16|
                        0 <= j < i && tokens@[j] == Token::LABEL(id, a);
                    assert(0 <= j < i && tokens@[j] == Token::LABEL(id, a) && tokens@[i as int]
                        == Token::LABEL(id, address));
                    assert(has_duplicate_label(tokens@));
                    assert(defined_twice(tokens@, id));
                    return Err(AsmError::DuplicateLabel(id));
                }
                labels.insert(id, address);
            },
            _ => {},
        }
        i = i + 1;
        proof {
            assert forall|x: int, y: int, id: u64, a: u16, b: u16|
                0 <= x < y < next.len() && next[x] == Token::LABEL(id, a) && next[y] == Token::LABEL(
                    id,
                    b,
                ) implies false by {
                if y < next.len() - 1 {
                    assert(prefix[x] == next[x] && prefix[y] == next[y]);
                } else {
                    assert(labels@.contains_key(id));
                }
            }
        }
    }
    assert(tokens@.take(tokens@.len() as int) =~= tokens@);
    Ok(labels)
}

/// Writes each word, low byte first.
fn push_words_into(exec: &mut Executable, words: &Vec<u16>)
    requires
        old(exec).cursor() + 2 * words@.len() <= 0xFFFF,
    ensures
        final(exec).image() == write_words(old(exec).image(), old(exec).cursor(), words@),
        final(exec).cursor() == old(exec).cursor() + 2 * words@.len(),
{
    let mut k: usize = 0;
    assert(words@.skip(0) =~= words@);
    while k < words.len()
        invariant
            k <= words@.len(),
            exec.cursor() == old(exec).cursor() + 2 * k,
            old(exec).cursor() + 2 * words@.len() <= 0xFFFF,
            write_words(old(exec).image(), old(exec).cursor(), words@) == write_words(
                exec.image(),
                exec.cursor(),
                words@.skip(k as int),
            ),
        decreases words.len() - k,
    {
        let ghost rest = words@.skip(k as int);
        assert(rest.skip(1) =~= words@.skip(k + 1));
        exec.push_short(words[k]);
        k = k + 1;
    }
}

/// The words of a token that passed its checks.
fn words_of(t: &Token, value: u16) -> (r: Vec<u16>)
    requires
        registers_in_range(*t),
        !(*t is ADDR),
    ensures
        r@ == token_words(*t, value),
{
    match *t {
        Token::LABEL(_, _) => Vec::new(),
        Token::ADDR(_) => Vec::new(),
        Token::SHORT(_, _) => vec![value],
        Token::NOP => vec![0x0000],
        Token::AND(x, y) => vec![0x1000 | (x << 8) | (y << 4)],
        Token::NOT(x) => vec![0x1001 | (x << 8)],
        Token::ADD(x, y) => vec![0x2000 | (x << 8) | (y << 4)],
        Token::SUB(x, y) => vec![0x2001 | (x << 8) | (y << 4)],
        Token::INC(x) => vec![0x2002 | (x << 8)],
        Token::DEC(x) => vec![0x2003 | (x << 8)],
        Token::LDB(x, y) => vec![0x3000 | (x << 8) | (y << 4)],
        Token::LDW(x, y) => vec![0x3001 | (x << 8) | (y << 4)],
        Token::MOV(x, y) => vec![0x3002 | (x << 8) | (y << 4)],
        Token::LDI(x, nn) => vec![0x4000 | (x << 8) | (nn as u16)],
        Token::STB(y, x) => vec![0x5000 | (y << 8) | (x << 4)],
        Token::STW(y, x) => vec![0x5001 | (y << 8) | (x << 4)],
        Token::JMP(x) => vec![0x6000 | (x << 8)],
        Token::JNZ(x, y) => vec![0x6001 | (x << 8) | (y << 4)],
        Token::SHR(x, n) => vec![0x7000 | (x << 8) | (((n & 0x0F) as u16) << 4)],
        Token::SHL(x, n) => vec![0x7001 | (x << 8) | (((n & 0x0F) as u16) << 4)],
        Token::TEST(n) => vec![0x8000 | (((n & 0x0F) as u16) << 8)],
        Token::SETF(n) => vec![0x8001 | (((n & 0x0F) as u16) << 8)],
        Token::CLRF(n) => vec![0x8002 | (((n & 0x0F) as u16) << 8)],
        Token::PUSH(x) => vec![0x2803, 0x2803, 0x5801 | (x << 4)],
        Token::POP(x) => vec![0x3081 | (x << 8), 0x2802, 0x2802],
        Token::LDL(x, _, _) => vec![
            0x4000 | (x << 8) | ((value & 0xFF00) >> 8),
            0x7081 | (x << 8),
            0x4000 | (x << 8) | (value & 0x00FF),
        ],
        Token::CALL(x, a) => {
            let r = vec![
                0x2803,
                0x2803,
                0x2803,
                0x2803,
                0x5801 | (x << 4),
                0x2802,
                0x2802,
                0x4000 | (x << 8) | ((a & 0xFF00) >> 8),
                0x7081 | (x << 8),
                0x4000 | (x << 8) | (a & 0x00FF),
                0x5801 | (x << 4),
                0x2803,
                0x2803,
                0x3081 | (x << 8),
                0x2802,
                0x2802,
                0x6000 | (x << 8),
            ];
            assert(r@ =~= call_words(x, a));
            r
        },
        Token::CALLF(x, y, a) => {
            let r = vec![
                0x4000 | (y << 8) | ((a & 0xFF00) >> 8),
                0x7081 | (y << 8),
                0x4000 | (y << 8) | (a & 0x00FF),
                0x2803,
                0x2803,
                0x5801 | (y << 4),
                0x6000 | (x << 8),
            ];
            assert(r@ =~= ldl_words(y, a) + push_words(y) + seq![0x6000 | (x << 8)]);
            r
        },
        Token::RET(x) => {
            let r = vec![0x3081 | (x << 8), 0x2802, 0x2802, 0x6000 | (x << 8)];
            assert(r@ =~= pop_words(x) + seq![0x6000 | (x << 8)]);
            r
        },
    }
}

/// Lowers one token at the cursor: `ADDR` moves the cursor, every other token
/// writes its words once its register operands and its label reference check out.
pub fn emit_token(exec: &mut Executable, token: &Token, labels: &HashMap<u64, u16>) -> (r: Result<
    (),
    AsmError,
>)
    ensures
        match emit_step(old(exec).image(), old(exec).cursor(), *token, labels@) {
            Ok((image, c)) => r is Ok && final(exec).image() == image && final(exec).cursor() == c,
            Err(e) => r == Err::<(), AsmError>(e),
        },
        r is Ok && is_native(*token) ==> final(exec).cursor() == old(exec).cursor() + 2
            && final(exec).image() == write_word(old(exec).image(), old(exec).cursor(), native_word(*token)),
{
    if let Token::ADDR(a) = *token {
        exec.set_address(a);
        return Ok(());
    }
    let in_range: bool = match *token {
        Token::AND(x, y) | Token::ADD(x, y) | Token::SUB(x, y) => x <= 7 && y <= 7,
        Token::NOT(x) | Token::LDI(x, _) | Token::SHR(x, _) | Token::SHL(x, _) => x <= 7,
        Token::INC(x) | Token::DEC(x) | Token::JMP(x) => x <= 8,
        Token::LDB(x, y) | Token::LDW(x, y) => x <= 7 && y <= 8,
        Token::MOV(x, y) => x <= 10 && y <= 10,
        Token::STB(y, x) | Token::STW(y, x) => y <= 8 && x <= 7,
        Token::JNZ(x, y) => x <= 8 && y <= 7,
        Token::PUSH(x) | Token::POP(x) | Token::LDL(x, _, _) | Token::CALL(x, _) => x <= 7,
        Token::RET(x) => x <= 7,
        Token::CALLF(x, y, _) => x <= 8 && y <= 7,
        _ => true,
    };
    if !in_range {
        return Err(AsmError::RegisterOutOfRange);
    }
    if let Token::CALLF(x, y, _) = *token {
        if x == y {
            return Err(AsmError::SameRegister);
        }
    }
    let value: u16 = match *token {
        Token::SHORT(s, true) => match labels.get(&s) {
            Some(v) => *v,
            None => {
                return Err(AsmError::UnknownLabel(s));
            },
        },
        Token::SHORT(s, false) => #[verifier::truncate] (s as u16),
        Token::LDL(_, k, true) => match labels.get(&k) {
            Some(v) => *v,
            None => {
                return Err(AsmError::UnknownLabel(k));
            },
        },
        Token::LDL(_, k, false) => {
            if k > 0xFFFF {
                return Err(AsmError::InvalidInteger);
            }
            k as u16
        },
        _ => 0,
    };
    let ghost image0 = exec.image();
    let ghost c0 = exec.cursor();
    let words = words_of(token, value);
    proof {
        lemma_words_fill_size(*token, value);
    }
    let size: u64 = 2 * words.len() as u64;
    if exec.address() as u64 + size > 0xFFFF {
        return Err(AsmError::SizeExceeded);
    }
    push_words_into(exec, &words);
    proof {
        if is_native(*token) {
            assert(words@.skip(1) =~= Seq::<u16>::empty());
            assert(write_words(image0, c0, words@) == write_words(
                write_word(image0, c0, words@[0]),
                c0 + 2,
                Seq::<u16>::empty(),
            ));
        }
    }
    Ok(())
}

/// Pass two: the label table first, then every token lowered in order.
pub fn gen_executable(tokens: &Vec<Token>) -> (r: Result<Executable, AsmError>)
    ensures
        has_duplicate_label(tokens@) ==> r is Err && r->Err_0 is DuplicateLabel && defined_twice(
            tokens@,
            r->Err_0->DuplicateLabel_0,
        ),
        !has_duplicate_label(tokens@) ==> match emit_all(tokens@, label_table(tokens@)) {
            Ok((image, c)) => r is Ok && r->Ok_0.image() == image && r->Ok_0.cursor() == c,
            Err(e) => r == Err::<Executable, AsmError>(e),
        },
{
    let labels = match collect_labels(tokens) {
        Ok(m) => m,
        Err(e) => {
            return Err(e);
        },
    };
    let mut exec = Executable::new();
    let mut i: usize = 0;
    while i < tokens.len()
        invariant
            i <= tokens@.len(),
            !has_duplicate_label(tokens@),
            labels@ == label_table(tokens@),
            emit_all(tokens@.take(i as int), labels@) == Ok::<(Seq<u8>, nat), AsmError>(
                (exec.image(), exec.cursor()),
            ),
        decreases tokens.len() - i,
    {
        assert(tokens@.take(i + 1).drop_last() =~= tokens@.take(i as int));
        match emit_token(&mut exec, &tokens[i], &labels) {
            Ok(()) => {},
            Err(e) => {
                proof {
                    lemma_emit_error_persists(tokens@, labels@, (i + 1) as nat);
                }
                assert(tokens@.take(tokens@.len() as int) =~= tokens@);
                return Err(e);
            },
        }
        i = i + 1;
    }
    assert(tokens@.take(tokens@.len() as int) =~= tokens@);
    Ok(exec)
}

/// Once lowering fails, it fails with the same error whatever follows.
proof fn lemma_emit_error_persists(tokens: Seq<Token>, labels: Map<u64, u16>, k: nat)
    requires
        k <= tokens.len(),
        emit_all(tokens.take(k as int), labels) is Err,
    ensures
        emit_all(tokens, labels) == emit_all(tokens.take(k as int), labels),
    decreases tokens.len() - k,
{
    if k < tokens.len() {
        assert(tokens.take(k + 1 as int).drop_last() =~= tokens.take(k as int));
        lemma_emit_error_persists(tokens, labels, k + 1);
    } else {
        assert(tokens.take(k as int) =~= tokens);
    }
}

} // verus!
