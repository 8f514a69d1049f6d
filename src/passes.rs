use vstd::prelude::*;
use crate::emitter::{emit_all, has_duplicate_label, label_table, write_words};
use crate::executable::write_word;
use crate::label::label_id;
use crate::lexer::{concat, split};
use crate::token::{
    cursor_after, cursor_from, lemma_words_fill_size, token_size, token_words, Token,
    TRAMPOLINE_SIZE,
};
use crate::tokenizer::{
    all_lines, build_token, gen_token_spec, instruction_spec, mnemonic_size, mnemonic_spec, pass1,
    tokenize_spec, trampoline_tokens,
};

verus! {

/// The address a token records, against the cursor `c` where it is laid out:
/// a label records `c`, a call the address right after itself, where it returns to.
pub open spec fn address_fits(t: Token, c: nat) -> bool {
    match t {
        Token::LABEL(_, a) => a as nat == c,
        Token::CALL(_, a) => a as nat == c + token_size(t),
        Token::CALLF(_, _, a) => a as nat == c + token_size(t),
        _ => true,
    }
}

/// Every token records the addresses that a layout from `start` gives it.
pub open spec fn addresses_placed(ts: Seq<Token>, start: nat) -> bool {
    forall|i: int| 0 <= i < ts.len() ==> address_fits(#[trigger] ts[i], cursor_from(ts.take(i), start))
}

/// The pending trampoline was dropped at an entry label that is not the first
/// line: tokens laid out before it then sit 8 bytes off from where pass one put them.
pub open spec fn rewound_late(tramp_before: bool, tramp_after: bool, tokens: Seq<Token>, entry: Seq<u8>) -> bool {
    tramp_before && !tramp_after && !(tokens.len() > 0 && tokens[0] == Token::LABEL(label_id(entry), 0))
}

/// The cursor of pass one before any line: the trampoline's room, if asked for.
pub open spec fn start_cursor(tramp: bool) -> nat {
    if tramp {
        TRAMPOLINE_SIZE as nat
    } else {
        0
    }
}

proof fn lemma_cursor_from_append(p: Seq<Token>, q: Seq<Token>, s: nat)
    ensures
        cursor_from(p + q, s) == cursor_from(q, cursor_from(p, s)),
    decreases q.len(),
{
    if q.len() == 0 {
        assert(p + q =~= p);
    } else {
        assert((p + q).drop_last() =~= p + q.drop_last());
        lemma_cursor_from_append(p, q.drop_last(), s);
    }
}

/// The token of an instruction takes the room its mnemonic reserves.
proof fn lemma_instruction_size(head: Seq<u8>, tail: Seq<u8>, c: nat)
    requires
        instruction_spec(head, tail, c) is Ok,
    ensures
        ({
            let (t, c2) = instruction_spec(head, tail, c)->Ok_0;
            &&& !(t is ADDR) && !(t is LABEL) && c2 == c + token_size(t)
            &&& t is CALL ==> t->CALL_1 == c2 as u16
            &&& t is CALLF ==> t->CALLF_2 == c2 as u16
        }),
{
    let args = split(tail, ',' as u8);
    let m = mnemonic_spec(head).unwrap();
    let next = c + mnemonic_size(m);
    let t = build_token(m, args, next as u16)->Ok_0;
    assert(token_size(t) == mnemonic_size(m));
}

/// What one line does to the cursor: an `ADDR` sets it, the entry label right
/// after a pending trampoline resets it to 0, every other token moves it on by
/// its size; a label records the cursor.
proof fn lemma_line_step(line: Seq<u8>, c: nat, tr: bool, entry: Seq<u8>)
    requires
        gen_token_spec(line, c, tr, entry) is Ok,
    ensures
        ({
            let (t, c2, tr2) = gen_token_spec(line, c, tr, entry)->Ok_0;
            ||| (tr2 == tr && c2 == (match t {
                Token::ADDR(a) => a as nat,
                _ => c + token_size(t),
            }) && (t is LABEL ==> t->LABEL_1 == c as u16) && (t is CALL ==> t->CALL_1 == c2 as u16)
                && (t is CALLF ==> t->CALLF_2 == c2 as u16))
            ||| (tr && !tr2 && c == TRAMPOLINE_SIZE && c2 == 0 && t == Token::LABEL(label_id(entry), 0))
        }),
{
    let parts = split(line, ' ' as u8);
    let head = parts[0];
    let tail = concat(parts.skip(1));
    if head.len() > 0 && head[0] == '.' as u8 && tail.len() > 0 {
    } else if head.len() > 0 && head.last() == ':' as u8 && tail.len() == 0 {
    } else {
        lemma_instruction_size(head, tail, c);
    }
}

/// What pass one keeps true line by line, from the start cursor that the
/// trampoline setting gives.
pub open spec fn pass1_layout(ts: Seq<Token>, c: nat, tr0: bool, tr: bool, entry: Seq<u8>) -> bool {
    &&& tr ==> tr0
    &&& !tr0 ==> c == cursor_from(ts, 0) && addresses_placed(ts, 0)
    &&& tr0 && tr ==> c == cursor_from(ts, TRAMPOLINE_SIZE as nat) && addresses_placed(
        ts,
        TRAMPOLINE_SIZE as nat,
    ) && (forall|id: u64| ts.len() > 0 ==> ts[0] != Token::LABEL(id, 0))
    &&& tr0 && !tr && ts.len() > 0 && ts[0] == Token::LABEL(label_id(entry), 0) ==> c == cursor_from(
        ts,
        0,
    ) && addresses_placed(ts, 0)
}

proof fn lemma_addresses_placed_push(ts: Seq<Token>, t: Token, start: nat)
    requires
        addresses_placed(ts, start),
        address_fits(t, cursor_from(ts, start)),
    ensures
        addresses_placed(ts.push(t), start),
{
    let n = ts.push(t);
    assert forall|i: int| 0 <= i < n.len() implies address_fits(#[trigger] n[i], cursor_from(n.take(i), start)) by {
        if i < ts.len() {
            assert(n.take(i) =~= ts.take(i));
            assert(n[i] == ts[i]);
        } else {
            assert(n.take(i) =~= ts);
            assert(n[i] == t);
        }
    }
}

proof fn lemma_pass1_layout(lines: Seq<Seq<u8>>, tr0: bool, entry: Seq<u8>)
    requires
        pass1(lines, start_cursor(tr0), tr0, entry) is Ok,
    ensures
        ({
            let (ts, c, tr) = pass1(lines, start_cursor(tr0), tr0, entry)->Ok_0;
            pass1_layout(ts, c, tr0, tr, entry) && c <= 0xFFFF + start_cursor(tr)
        }),
    decreases lines.len(),
{
    if lines.len() == 0 {
        assert(addresses_placed(Seq::<Token>::empty(), 0));
        assert(addresses_placed(Seq::<Token>::empty(), TRAMPOLINE_SIZE as nat));
    } else {
        lemma_pass1_layout(lines.drop_last(), tr0, entry);
        let (ts, c, tr) = pass1(lines.drop_last(), start_cursor(tr0), tr0, entry)->Ok_0;
        let (t, c2, tr2) = gen_token_spec(lines.last(), c, tr, entry)->Ok_0;
        lemma_line_step(lines.last(), c, tr, entry);
        let n = ts.push(t);
        assert(n.drop_last() =~= ts);
        assert(c2 <= 0xFFFF);
        if tr2 == tr && c2 == (match t {
            Token::ADDR(a) => a as nat,
            _ => c + token_size(t),
        }) && (t is LABEL ==> t->LABEL_1 == c as u16) && (t is CALL ==> t->CALL_1 == c2 as u16) && (
        t is CALLF ==> t->CALLF_2 == c2 as u16) {
            if t is LABEL {
                assert(c2 == c);
            }
            if !tr0 {
                lemma_addresses_placed_push(ts, t, 0);
            } else if tr {
                lemma_addresses_placed_push(ts, t, TRAMPOLINE_SIZE as nat);
                if ts.len() == 0 {
                    assert(c == TRAMPOLINE_SIZE);
                } else {
                    assert(n[0] == ts[0]);
                }
            } else {
                if ts.len() > 0 && ts[0] == Token::LABEL(label_id(entry), 0) {
                    assert(n[0] == ts[0]);
                    lemma_addresses_placed_push(ts, t, 0);
                } else if ts.len() > 0 {
                    assert(n[0] == ts[0]);
                }
            }
        } else {
            if ts.len() == 0 {
                assert(n.take(0) =~= Seq::<Token>::empty());
                assert(addresses_placed(n, 0));
            } else {
                assert(n[0] == ts[0]);
            }
        }
    }
}

/// Pass one lays tokens out as pass two will: its final cursor is where a
/// layout of the token stream from address 0 ends, each label token holds the
/// address that layout gives the label, and each call the address right after
/// it. This holds from a fresh job, unless the trampoline was dropped at an
/// entry label that is not the first line.
pub proof fn lemma_tokenizer_layout(sources: Seq<Seq<u8>>, tr0: bool, entry: Seq<u8>)
    requires
        tokenize_spec(sources, start_cursor(tr0), tr0, entry) is Ok,
        ({
            let (tokens, c, tr) = tokenize_spec(sources, start_cursor(tr0), tr0, entry)->Ok_0;
            !rewound_late(tr0, tr, tokens, entry)
        }),
    ensures
        ({
            let (tokens, c, tr) = tokenize_spec(sources, start_cursor(tr0), tr0, entry)->Ok_0;
            c == cursor_after(tokens) && addresses_placed(tokens, 0)
        }),
{
    let lines = all_lines(sources);
    lemma_pass1_layout(lines, tr0, entry);
    let (ts, c, tr) = pass1(lines, start_cursor(tr0), tr0, entry)->Ok_0;
    if tr {
        let p = trampoline_tokens(entry);
        let tokens = p + ts;
        assert(p.drop_last() =~= seq![Token::LDL(0, label_id(entry), true)]);
        assert(p.drop_last().drop_last() =~= Seq::<Token>::empty());
        assert(p.last() == Token::JMP(0));
        assert(p.drop_last().last() == Token::LDL(0, label_id(entry), true));
        assert(cursor_from(p.drop_last().drop_last(), 0) == 0);
        assert(token_size(Token::LDL(0, label_id(entry), true)) == 6);
        assert(cursor_from(p.drop_last(), 0) == 6);
        assert(cursor_from(p, 0) == TRAMPOLINE_SIZE);
        lemma_cursor_from_append(p, ts, 0);
        assert forall|i: int| 0 <= i < tokens.len() implies address_fits(#[trigger] tokens[i], cursor_from(tokens.take(i), 0)) by {
            if i < 2 {
                assert(tokens[i] == p[i]);
            } else {
            assert(tokens[i] == ts[i - 2]);
            assert(tokens.take(i) =~= p + ts.take(i - 2));
            lemma_cursor_from_append(p, ts.take(i - 2), 0);
            }
        }
    }
}

/// The image and cursor after a prefix of a stream that lowers without failure.
proof fn lemma_emit_prefix_ok(tokens: Seq<Token>, labels: Map<u64, u16>, k: nat)
    requires
        k <= tokens.len(),
        emit_all(tokens, labels) is Ok,
    ensures
        emit_all(tokens.take(k as int), labels) is Ok,
        emit_all(tokens.take(k as int), labels)->Ok_0.1 == cursor_after(tokens.take(k as int)),
    decreases tokens.len(),
{
    lemma_emit_cursor(tokens, labels);
    if k < tokens.len() {
        assert(tokens.drop_last().take(k as int) =~= tokens.take(k as int));
        lemma_emit_prefix_ok(tokens.drop_last(), labels, k);
    } else {
        assert(tokens.take(k as int) =~= tokens);
    }
}

/// The end of the furthest write when a token stream is laid out from address
/// 0: the length of its image.
pub open spec fn high_water(tokens: Seq<Token>) -> nat
    decreases tokens.len(),
{
    if tokens.len() == 0 {
        0
    } else {
        let h = high_water(tokens.drop_last());
        if token_size(tokens.last()) > 0 && cursor_after(tokens) > h {
            cursor_after(tokens)
        } else {
            h
        }
    }
}

proof fn lemma_write_words_extent(image: Seq<u8>, at: nat, words: Seq<u16>)
    ensures
        words.len() == 0 ==> write_words(image, at, words) == image,
        words.len() > 0 ==> write_words(image, at, words).len() == (if image.len() > at + 2
            * words.len() {
            image.len()
        } else {
            at + 2 * words.len()
        }),
    decreases words.len(),
{
    if words.len() > 0 {
        let next = write_word(image, at, words[0]);
        lemma_write_words_extent(next, at + 2, words.skip(1));
    }
}

/// Without `ADDR` the cursor only moves forward, so the furthest write ends at the cursor.
proof fn lemma_high_water_without_addr(tokens: Seq<Token>)
    requires
        forall|i: int| 0 <= i < tokens.len() ==> !(#[trigger] tokens[i] is ADDR),
    ensures
        high_water(tokens) == cursor_after(tokens),
    decreases tokens.len(),
{
    if tokens.len() > 0 {
        let prefix = tokens.drop_last();
        assert forall|i: int| 0 <= i < prefix.len() implies !(#[trigger] prefix[i] is ADDR) by {
            assert(prefix[i] == tokens[i]);
        }
        lemma_high_water_without_addr(prefix);
        assert(tokens[tokens.len() - 1] == tokens.last());
    }
}

/// Each `ADDR` moves the cursor forward or leaves it, never back.
pub open spec fn addr_forward_only(tokens: Seq<Token>) -> bool {
    forall|i: int|
        0 <= i < tokens.len() && (#[trigger] tokens[i]) is ADDR ==> tokens[i]->ADDR_0 as nat
            >= cursor_after(tokens.take(i))
}

/// Every `ADDR` has a token that writes bytes somewhere after it.
pub open spec fn no_trailing_addr(tokens: Seq<Token>) -> bool {
    forall|i: int|
        0 <= i < tokens.len() && (#[trigger] tokens[i]) is ADDR ==> exists|j: int|
            i < j < tokens.len() && token_size(#[trigger] tokens[j]) > 0
}

/// When `ADDR` never moves the cursor back, the furthest write is never past
/// the cursor, and reaches it unless an `ADDR` comes after the last write.
proof fn lemma_high_water_forward(tokens: Seq<Token>)
    requires
        addr_forward_only(tokens),
    ensures
        high_water(tokens) <= cursor_after(tokens),
        no_trailing_addr(tokens) ==> high_water(tokens) == cursor_after(tokens),
    decreases tokens.len(),
{
    if tokens.len() > 0 {
        let n = tokens.len() - 1;
        let prefix = tokens.drop_last();
        assert forall|i: int| 0 <= i < prefix.len() && (#[trigger] prefix[i]) is ADDR implies prefix[i]->ADDR_0 as nat
            >= cursor_after(prefix.take(i)) by {
            assert(prefix[i] == tokens[i]);
            assert(prefix.take(i) =~= tokens.take(i));
        }
        lemma_high_water_forward(prefix);
        let t = tokens.last();
        assert(tokens[n] == t);
        if t is ADDR {
            assert(tokens.take(n) =~= prefix);
        } else if token_size(t) == 0 {
            if no_trailing_addr(tokens) {
                assert forall|i: int| 0 <= i < prefix.len() && (#[trigger] prefix[i]) is ADDR implies exists|j: int|
                    i < j < prefix.len() && token_size(#[trigger] prefix[j]) > 0 by {
                    assert(prefix[i] == tokens[i]);
                    let j = choose|j: int| i < j < tokens.len() && token_size(#[trigger] tokens[j]) > 0;
                    assert(j != n);
                    assert(prefix[j] == tokens[j]);
                }
            }
        }
    }
}

/// Lowering ends at the cursor that the layout of the stream gives, with an
/// image that reaches to the furthest write.
proof fn lemma_emit_cursor(tokens: Seq<Token>, labels: Map<u64, u16>)
    requires
        emit_all(tokens, labels) is Ok,
    ensures
        emit_all(tokens, labels)->Ok_0.1 == cursor_after(tokens),
        emit_all(tokens, labels)->Ok_0.0.len() == high_water(tokens),
    decreases tokens.len(),
{
    if tokens.len() > 0 {
        let prefix = tokens.drop_last();
        lemma_emit_cursor(prefix, labels);
        let t = tokens.last();
        let (image, c) = emit_all(prefix, labels)->Ok_0;
        if !(t is ADDR) {
            let v = crate::emitter::check_token(t, labels)->Ok_0;
            lemma_words_fill_size(t, v);
            lemma_write_words_extent(image, c, token_words(t, v));
        }
    }
}

/// The two passes agree. Run on a fresh job (cursor 0, or 8 with the
/// trampoline), pass one ends at the cursor where pass two ends; the image
/// reaches to the furthest write, which is that cursor when every `.addr`
/// moves forward and some code follows the last one (always so without
/// `.addr`); the address pass one
/// records for each label is the cursor of pass two when it reaches that
/// label, and the return address of each call is the cursor of pass two right
/// after the call. The one exception: the trampoline dropped at an entry label
/// that is not the first line.
pub proof fn lemma_passes_agree(sources: Seq<Seq<u8>>, tr0: bool, entry: Seq<u8>)
    requires
        tokenize_spec(sources, start_cursor(tr0), tr0, entry) is Ok,
        ({
            let (tokens, c, tr) = tokenize_spec(sources, start_cursor(tr0), tr0, entry)->Ok_0;
            &&& !rewound_late(tr0, tr, tokens, entry)
            &&& !has_duplicate_label(tokens)
            &&& emit_all(tokens, label_table(tokens)) is Ok
        }),
    ensures
        ({
            let (tokens, c, tr) = tokenize_spec(sources, start_cursor(tr0), tr0, entry)->Ok_0;
            let (image, end) = emit_all(tokens, label_table(tokens))->Ok_0;
            &&& c == end
            &&& image.len() == high_water(tokens)
            &&& (forall|i: int| 0 <= i < tokens.len() ==> !(#[trigger] tokens[i] is ADDR)) ==> image.len() == c
            &&& addr_forward_only(tokens) && no_trailing_addr(tokens) ==> image.len() == c
            &&& forall|i: int|
                0 <= i < tokens.len() && (#[trigger] tokens[i]) is LABEL ==> tokens[i]->LABEL_1 as nat
                    == emit_all(tokens.take(i), label_table(tokens))->Ok_0.1
            &&& forall|i: int|
                0 <= i < tokens.len() && (#[trigger] tokens[i]) is CALL ==> tokens[i]->CALL_1 as nat
                    == emit_all(tokens.take(i + 1), label_table(tokens))->Ok_0.1
            &&& forall|i: int|
                0 <= i < tokens.len() && (#[trigger] tokens[i]) is CALLF ==> tokens[i]->CALLF_2 as nat
                    == emit_all(tokens.take(i + 1), label_table(tokens))->Ok_0.1
        }),
{
    let (tokens, c, tr) = tokenize_spec(sources, start_cursor(tr0), tr0, entry)->Ok_0;
    let labels = label_table(tokens);
    lemma_tokenizer_layout(sources, tr0, entry);
    lemma_emit_cursor(tokens, labels);
    if forall|i: int| 0 <= i < tokens.len() ==> !(#[trigger] tokens[i] is ADDR) {
        lemma_high_water_without_addr(tokens);
    }
    if addr_forward_only(tokens) {
        lemma_high_water_forward(tokens);
    }
    assert forall|i: int| 0 <= i < tokens.len() && (#[trigger] tokens[i]) is LABEL implies tokens[i]->LABEL_1 as nat
        == emit_all(tokens.take(i), labels)->Ok_0.1 by {
        assert(address_fits(tokens[i], cursor_from(tokens.take(i), 0)));
        lemma_emit_prefix_ok(tokens, labels, i as nat);
    }
    assert forall|i: int| 0 <= i < tokens.len() && (#[trigger] tokens[i]) is CALL implies tokens[i]->CALL_1 as nat
        == emit_all(tokens.take(i + 1), labels)->Ok_0.1 by {
        assert(address_fits(tokens[i], cursor_from(tokens.take(i), 0)));
        assert(tokens.take(i + 1).drop_last() =~= tokens.take(i));
        lemma_emit_prefix_ok(tokens, labels, (i + 1) as nat);
    }
    assert forall|i: int| 0 <= i < tokens.len() && (#[trigger] tokens[i]) is CALLF implies tokens[i]->CALLF_2 as nat
        == emit_all(tokens.take(i + 1), labels)->Ok_0.1 by {
        assert(address_fits(tokens[i], cursor_from(tokens.take(i), 0)));
        assert(tokens.take(i + 1).drop_last() =~= tokens.take(i));
        lemma_emit_prefix_ok(tokens, labels, (i + 1) as nat);
    }
}

} // verus!
