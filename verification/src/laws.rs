//! Laws of the decoder, stated over the whole decoding pipeline: the known
//! table is honoured, push operands round-trip, degraded mode is sticky,
//! and decoding ignores whitespace.

use crate::disassembler::{
    bytes_of, chars_end, chars_ok, chars_seq, clean_eof, decode_known, is_push_op,
    lemma_chars_cases, lemma_chars_eof_extend, lemma_chars_props, lemma_chars_strip,
    lemma_spec_step_bounds, spec_decode, spec_step, strip_from, strip_ws, ws_end, DisasmError,
};
use crate::hex::{be_val, hex_ascii, hex_value, is_hex_digit, is_space, pair_byte};
use crate::instruction::Instruction;
use vstd::prelude::*;

verus! {

/// Lowercase hexadecimal text encoding of a byte sequence: two digit
/// characters per byte, without whitespace.
pub open spec fn hex_text(b: Seq<u8>) -> Seq<u8>
    decreases b.len(),
{
    if b.len() == 0 {
        Seq::empty()
    } else {
        seq![hex_ascii((b[0] / 16) as u8), hex_ascii((b[0] % 16) as u8)] + hex_text(b.skip(1))
    }
}

/// A hexadecimal digit character is a non-whitespace hex digit with the
/// value it was made from.
proof fn lemma_hex_ascii(d: u8)
    requires
        d < 16,
    ensures
        is_hex_digit(hex_ascii(d)),
        !is_space(hex_ascii(d)),
        hex_value(hex_ascii(d)) == d,
{
}

/// The encoding writes two characters per byte.
pub proof fn lemma_hex_text_len(b: Seq<u8>)
    ensures
        hex_text(b).len() == 2 * b.len(),
    decreases b.len(),
{
    if b.len() > 0 {
        lemma_hex_text_len(b.skip(1));
    }
}

/// Reading `b.len()` bytes from a stretch of input that holds exactly the
/// hexadecimal text of `b` succeeds and yields `b` back.
pub proof fn lemma_hex_text_read(s: Seq<u8>, i: int, b: Seq<u8>)
    requires
        0 <= i,
        i + 2 * b.len() <= s.len(),
        s.subrange(i, i + 2 * b.len()) == hex_text(b),
    ensures
        chars_ok(s, i, 2 * b.len()),
        chars_end(s, i, 2 * b.len()) == i + 2 * b.len(),
        bytes_of(chars_seq(s, i, 2 * b.len())) == b,
    decreases b.len(),
{
    if b.len() == 0 {
        assert(bytes_of(chars_seq(s, i, 0)) =~= b);
    } else {
        let c0 = hex_ascii((b[0] / 16) as u8);
        let c1 = hex_ascii((b[0] % 16) as u8);
        lemma_hex_ascii((b[0] / 16) as u8);
        lemma_hex_ascii((b[0] % 16) as u8);
        lemma_hex_text_len(b);
        lemma_hex_text_len(b.skip(1));
        let k: nat = 2 * b.len();
        assert(s[i] == hex_text(b)[0] && s[i + 1] == hex_text(b)[1]) by {
            assert(s.subrange(i, i + k)[0] == s[i]);
            assert(s.subrange(i, i + k)[1] == s[i + 1]);
        }
        assert(hex_text(b)[0] == c0 && hex_text(b)[1] == c1);
        assert(ws_end(s, i) == i);
        assert(ws_end(s, i + 1) == i + 1);
        assert(pair_byte(c0, c1) == b[0]);
        assert(s.subrange(i + 2, i + 2 + 2 * b.skip(1).len()) =~= hex_text(b.skip(1))) by {
            assert(hex_text(b) == seq![c0, c1] + hex_text(b.skip(1)));
            assert(forall|t: int|
                0 <= t < 2 * b.skip(1).len() ==> #[trigger] s.subrange(
                    i + 2,
                    i + 2 + 2 * b.skip(1).len(),
                )[t] == s.subrange(i, i + k)[t + 2]);
        }
        lemma_hex_text_read(s, i + 2, b.skip(1));
        let k2: nat = 2 * b.skip(1).len();
        assert(chars_ok(s, i + 1, (k - 1) as nat)) by {
            assert(chars_ok(s, i + 2, k2));
            assert((k - 1) as nat - 1 == k2);
        }
        assert(chars_ok(s, i, k));
        assert(chars_end(s, i, k) == chars_end(s, i + 1, (k - 1) as nat));
        assert(chars_end(s, i + 1, (k - 1) as nat) == chars_end(s, i + 2, k2));
        let cs = chars_seq(s, i, k);
        assert(chars_seq(s, i, k) == seq![s[i]] + chars_seq(s, i + 1, (k - 1) as nat));
        assert(chars_seq(s, i + 1, (k - 1) as nat) == seq![s[i + 1]] + chars_seq(s, i + 2, k2));
        assert(cs == seq![s[i]] + (seq![s[i + 1]] + chars_seq(s, i + 2, k2)));
        assert(cs.len() == k) by {
            lemma_chars_props(s, i, k);
        }
        assert(cs[0] == c0 && cs[1] == c1);
        assert(cs.skip(2) =~= chars_seq(s, i + 2, k2));
        assert(bytes_of(cs) == seq![pair_byte(cs[0], cs[1])] + bytes_of(cs.skip(2)));
        assert(bytes_of(cs) =~= b);
    }
}

/// The opcode table never yields `Unknown`.
pub proof fn lemma_decode_known_not_unknown(op: u8, offset: usize)
    ensures
        decode_known(op, offset) matches Some(m) ==> !(m is Unknown),
{
}

/// Law: a byte that stands in the known opcode table, decoded alone,
/// yields exactly its table instruction — and never `Unknown`.
pub proof fn lemma_known_opcode_decodes(op: u8, m: Instruction<nat>)
    requires
        !is_push_op(op),
        decode_known(op, 0) == Some(m),
    ensures
        spec_decode(hex_text(seq![op]), 0, 0, false) == Ok::<Seq<Instruction<nat>>, DisasmError>(
            seq![m],
        ),
        !(m is Unknown),
{
    let hx = hex_text(seq![op]);
    assert(seq![op].skip(1) =~= Seq::<u8>::empty());
    lemma_hex_text_len(seq![op]);
    assert(hx.subrange(0, 2) =~= hx);
    lemma_hex_text_read(hx, 0, seq![op]);
    lemma_chars_props(hx, 0, 2);
    lemma_chars_cases(hx, 0, 2);
    let c0 = hex_ascii((op / 16) as u8);
    lemma_hex_ascii((op / 16) as u8);
    assert(hx[0] == c0);
    assert(ws_end(hx, 0) == 0);
    assert(!clean_eof(hx, 0));
    let cs = chars_seq(hx, 0, 2);
    assert(bytes_of(cs) == seq![pair_byte(cs[0], cs[1])] + bytes_of(cs.skip(2)));
    assert(bytes_of(cs)[0] == op);
    assert(pair_byte(cs[0], cs[1]) == op);
    assert(ws_end(hx, 2) == 2);
    assert(clean_eof(hx, 2));
    assert(spec_decode(hx, 2, 1, false) == Ok::<Seq<Instruction<nat>>, DisasmError>(Seq::empty()));
    assert(spec_step(hx, 0, 0, false).0 == Ok::<Option<Instruction<nat>>, DisasmError>(Some(m)));
    assert(seq![m] + Seq::<Instruction<nat>>::empty() =~= seq![m]);
    lemma_decode_known_not_unknown(op, 0);
}

/// Law: a push opcode followed by exactly its declared number of operand
/// bytes decodes to one `Push` whose value is the big-endian reading of
/// those bytes.
pub proof fn lemma_push_decodes(n: u8, operand: Seq<u8>)
    requires
        1 <= n <= 32,
        operand.len() == n,
    ensures
        spec_decode(hex_text(seq![(0x5f + n) as u8] + operand), 0, 0, false) == Ok::<
            Seq<Instruction<nat>>,
            DisasmError,
        >(seq![Instruction::Push(n, be_val(operand))]),
{
    let op = (0x5f + n) as u8;
    let all = seq![op] + operand;
    let hx = hex_text(all);
    lemma_hex_text_len(all);
    assert(all[0] == op);
    assert(all.skip(1) =~= operand);
    let c0 = hex_ascii((op / 16) as u8);
    let c1 = hex_ascii((op % 16) as u8);
    lemma_hex_ascii((op / 16) as u8);
    lemma_hex_ascii((op % 16) as u8);
    assert(hex_text(seq![op]) =~= seq![c0, c1]) by {
        assert(seq![op].skip(1) =~= Seq::<u8>::empty());
        assert(hex_text(Seq::<u8>::empty()) == Seq::<u8>::empty());
        assert(seq![op][0] == op);
    }
    assert(hx == seq![c0, c1] + hex_text(operand));
    assert(hx.subrange(0, 2) =~= hex_text(seq![op]));
    lemma_hex_text_read(hx, 0, seq![op]);
    lemma_chars_props(hx, 0, 2);
    lemma_chars_cases(hx, 0, 2);
    assert(hx[0] == c0);
    assert(ws_end(hx, 0) == 0);
    assert(!clean_eof(hx, 0));
    let cs = chars_seq(hx, 0, 2);
    assert(bytes_of(cs) == seq![pair_byte(cs[0], cs[1])] + bytes_of(cs.skip(2)));
    assert(bytes_of(cs)[0] == op);
    assert(pair_byte(cs[0], cs[1]) == op);
    assert(is_push_op(op));
    assert((op - 0x5f) as nat == n as nat);
    lemma_hex_text_len(operand);
    assert(hx.subrange(2, 2 + 2 * operand.len() as int) =~= hex_text(operand)) by {
        assert(forall|t: int|
            0 <= t < 2 * operand.len() ==> #[trigger] hx.subrange(
                2,
                2 + 2 * operand.len() as int,
            )[t] == hx[t + 2]);
    }
    lemma_hex_text_read(hx, 2, operand);
    lemma_chars_cases(hx, 2, 2 * n as nat);
    assert(chars_end(hx, 2, 2 * n as nat) == hx.len() as int);
    assert(ws_end(hx, hx.len() as int) == hx.len() as int);
    assert(clean_eof(hx, hx.len() as int));
    assert(spec_decode(hx, hx.len() as int, (1 + n) as nat, false) == Ok::<
        Seq<Instruction<nat>>,
        DisasmError,
    >(Seq::empty()));
    let m = Instruction::<nat>::Push(n, be_val(operand));
    assert(spec_step(hx, 0, 0, false).0 == Ok::<Option<Instruction<nat>>, DisasmError>(Some(m)));
    assert(seq![m] + Seq::<Instruction<nat>>::empty() =~= seq![m]);
}

/// Law: a push opcode followed by fewer operand bytes than it declares is
/// a truncation error, not a shorter push.
pub proof fn lemma_push_truncated(n: u8, operand: Seq<u8>)
    requires
        1 <= n <= 32,
        operand.len() < n,
    ensures
        spec_decode(hex_text(seq![(0x5f + n) as u8] + operand), 0, 0, false) == Err::<
            Seq<Instruction<nat>>,
            DisasmError,
        >(DisasmError::Truncated),
{
    let op = (0x5f + n) as u8;
    let all = seq![op] + operand;
    let hx = hex_text(all);
    lemma_hex_text_len(all);
    assert(all[0] == op);
    assert(all.skip(1) =~= operand);
    let c0 = hex_ascii((op / 16) as u8);
    let c1 = hex_ascii((op % 16) as u8);
    lemma_hex_ascii((op / 16) as u8);
    lemma_hex_ascii((op % 16) as u8);
    assert(hex_text(seq![op]) =~= seq![c0, c1]) by {
        assert(seq![op].skip(1) =~= Seq::<u8>::empty());
        assert(hex_text(Seq::<u8>::empty()) == Seq::<u8>::empty());
        assert(seq![op][0] == op);
    }
    assert(hx == seq![c0, c1] + hex_text(operand));
    assert(hx.subrange(0, 2) =~= hex_text(seq![op]));
    lemma_hex_text_read(hx, 0, seq![op]);
    lemma_chars_props(hx, 0, 2);
    lemma_chars_cases(hx, 0, 2);
    assert(hx[0] == c0);
    assert(ws_end(hx, 0) == 0);
    assert(!clean_eof(hx, 0));
    let cs = chars_seq(hx, 0, 2);
    assert(bytes_of(cs) == seq![pair_byte(cs[0], cs[1])] + bytes_of(cs.skip(2)));
    assert(bytes_of(cs)[0] == op);
    assert(pair_byte(cs[0], cs[1]) == op);
    assert(is_push_op(op));
    lemma_hex_text_len(operand);
    assert(hx.subrange(2, 2 + 2 * operand.len() as int) =~= hex_text(operand)) by {
        assert(forall|t: int|
            0 <= t < 2 * operand.len() ==> #[trigger] hx.subrange(
                2,
                2 + 2 * operand.len() as int,
            )[t] == hx[t + 2]);
    }
    lemma_hex_text_read(hx, 2, operand);
    lemma_chars_props(hx, 2, 2 * operand.len());
    assert(chars_end(hx, 2, 2 * operand.len()) == hx.len() as int);
    assert(ws_end(hx, hx.len() as int) == hx.len() as int);
    lemma_chars_eof_extend(hx, 2, 2 * operand.len(), 2 * (op - 0x5f) as nat);
    lemma_chars_cases(hx, 2, 2 * (op - 0x5f) as nat);
    assert(spec_step(hx, 0, 0, false).0 == Err::<Option<Instruction<nat>>, DisasmError>(
        DisasmError::Truncated,
    ));
}

/// Law (sticky unknown, degraded half): once degraded, every further
/// instruction the decoder produces is `Unknown`.
pub proof fn lemma_sticky_unknown(s: Seq<u8>, i: int, offset: nat)
    requires
        0 <= i <= s.len(),
    ensures
        spec_decode(s, i, offset, true) matches Ok(ms) ==> forall|k: int|
            0 <= k < ms.len() ==> (#[trigger] ms[k]) is Unknown,
    decreases s.len() - i,
{
    lemma_spec_step_bounds(s, i, offset, true);
    let step = spec_step(s, i, offset, true);
    match step.0 {
        Ok(Some(m)) => {
            lemma_sticky_unknown(s, step.1, step.2);
            match spec_decode(s, i, offset, true) {
                Ok(ms) => {
                    let rest = spec_decode(s, step.1, step.2, step.3)->Ok_0;
                    assert(ms == seq![m] + rest);
                    assert(forall|k: int| 0 <= k < ms.len() ==> (#[trigger] ms[k]) is Unknown)
                        by {
                        assert(m is Unknown);
                        assert(forall|k: int|
                            1 <= k < ms.len() ==> ms[k] == (#[trigger] rest[k - 1]));
                    }
                },
                _ => {},
            }
        },
        _ => {},
    }
}

/// Law (sticky unknown): in any successful decode, every instruction after
/// the first `Unknown` is `Unknown` too — the decoder never returns to
/// table lookups.
pub proof fn lemma_unknown_suffix(s: Seq<u8>, i: int, offset: nat)
    requires
        0 <= i <= s.len(),
    ensures
        spec_decode(s, i, offset, false) matches Ok(ms) ==> forall|j: int, k: int|
            0 <= j <= k < ms.len() && (#[trigger] ms[j]) is Unknown ==> (#[trigger] ms[k])
                is Unknown,
    decreases s.len() - i,
{
    lemma_spec_step_bounds(s, i, offset, false);
    let step = spec_step(s, i, offset, false);
    match step.0 {
        Ok(Some(m)) => {
            if step.3 {
                lemma_sticky_unknown(s, step.1, step.2);
            } else {
                lemma_unknown_suffix(s, step.1, step.2);
                assert(!(m is Unknown)) by {
                    let cs = chars_seq(s, i, 2);
                    lemma_decode_known_not_unknown(pair_byte(cs[0], cs[1]), offset as usize);
                }
            }
            match spec_decode(s, i, offset, false) {
                Ok(ms) => {
                    let rest = spec_decode(s, step.1, step.2, step.3)->Ok_0;
                    assert(ms == seq![m] + rest);
                    assert(forall|j: int, k: int|
                        0 <= j <= k < ms.len() && (#[trigger] ms[j]) is Unknown ==> (
                        #[trigger] ms[k]) is Unknown) by {
                        assert(forall|k: int|
                            1 <= k < ms.len() ==> ms[k] == (#[trigger] rest[k - 1]));
                    }
                },
                _ => {},
            }
        },
        _ => {},
    }
}

/// Decoding depends only on the non-whitespace characters that remain.
#[verifier::rlimit(100)]
pub proof fn lemma_decode_strip(s1: Seq<u8>, i1: int, s2: Seq<u8>, i2: int, offset: nat, deg: bool)
    requires
        0 <= i1 <= s1.len(),
        0 <= i2 <= s2.len(),
        strip_from(s1, i1) == strip_from(s2, i2),
    ensures
        spec_decode(s1, i1, offset, deg) == spec_decode(s2, i2, offset, deg),
    decreases s1.len() - i1,
{
    lemma_spec_step_bounds(s1, i1, offset, deg);
    lemma_spec_step_bounds(s2, i2, offset, deg);
    lemma_chars_strip(s1, i1, s2, i2, 2);
    lemma_chars_cases(s1, i1, 2);
    lemma_chars_cases(s2, i2, 2);
    let step1 = spec_step(s1, i1, offset, deg);
    let step2 = spec_step(s2, i2, offset, deg);
    if !clean_eof(s1, i1) && chars_ok(s1, i1, 2) {
        lemma_chars_props(s1, i1, 2);
        lemma_chars_props(s2, i2, 2);
        let cs = chars_seq(s1, i1, 2);
        assert(chars_seq(s2, i2, 2) == cs);
        let op = pair_byte(cs[0], cs[1]);
        let j1 = chars_end(s1, i1, 2);
        let j2 = chars_end(s2, i2, 2);
        assert(strip_from(s1, j1) == strip_from(s2, j2));
        if deg {
            assert(step1.0 == step2.0);
            lemma_decode_strip(s1, j1, s2, j2, offset + 1, true);
            assert(spec_decode(s1, j1, offset + 1, true) == spec_decode(s2, j2, offset + 1, true));
        } else if is_push_op(op) {
            let n = (op - 0x5f) as nat;
            lemma_chars_strip(s1, j1, s2, j2, 2 * n);
            lemma_chars_cases(s1, j1, 2 * n);
            lemma_chars_cases(s2, j2, 2 * n);
            if chars_ok(s1, j1, 2 * n) {
                lemma_chars_props(s1, j1, 2 * n);
                lemma_chars_props(s2, j2, 2 * n);
                assert(chars_seq(s2, j2, 2 * n) == chars_seq(s1, j1, 2 * n));
                assert(step1.0 == step2.0);
                lemma_decode_strip(
                    s1,
                    chars_end(s1, j1, 2 * n),
                    s2,
                    chars_end(s2, j2, 2 * n),
                    offset + 1 + n,
                    false,
                );
                assert(spec_decode(s1, step1.1, step1.2, step1.3) == spec_decode(
                    s2,
                    step2.1,
                    step2.2,
                    step2.3,
                ));
            } else {
                assert(step1.0 == step2.0);
            }
        } else {
            match decode_known(op, offset as usize) {
                Some(m) => {
                    assert(step1.0 == step2.0);
                    lemma_decode_strip(s1, j1, s2, j2, offset + 1, false);
                    assert(spec_decode(s1, step1.1, step1.2, step1.3) == spec_decode(
                        s2,
                        step2.1,
                        step2.2,
                        step2.3,
                    ));
                },
                None => {
                    assert(step1.0 == step2.0);
                    lemma_decode_strip(s1, j1, s2, j2, offset + 1, true);
                    assert(spec_decode(s1, step1.1, step1.2, step1.3) == spec_decode(
                        s2,
                        step2.1,
                        step2.2,
                        step2.3,
                    ));
                },
            }
        }
    } else {
        assert(step1.0 == step2.0);
    }
}

/// Law (whitespace tolerance): two inputs that agree once every ASCII
/// whitespace character is removed decode to the very same result.
pub proof fn lemma_whitespace_insensitive(s1: Seq<u8>, s2: Seq<u8>)
    requires
        strip_ws(s1) == strip_ws(s2),
    ensures
        spec_decode(s1, 0, 0, false) == spec_decode(s2, 0, 0, false),
{
    lemma_decode_strip(s1, 0, s2, 0, 0, false);
}

} // verus!
