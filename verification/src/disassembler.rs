//! The disassembler: a whitespace-tolerant hex stream reader over an input
//! byte sequence, and the instruction decoder with its sticky degraded mode.

use crate::hex::{
    be_val, byte_is_hex_digit, byte_is_space, hex_digit_value, is_hex_digit, is_space, pair_byte,
    zero_extend32,
};
use crate::instruction::{Instruction, Word};
use vstd::prelude::*;

verus! {

/// Errors that abort a decode session.
#[derive(Clone, Copy, Debug, PartialEq, Eq, Structural)]
pub enum DisasmError {
    /// A non-whitespace character that is not a hexadecimal digit stood
    /// where a digit was expected.
    InvalidHex,
    /// The input ended in the middle of a byte or of a push operand.
    Truncated,
}

impl DisasmError {
    /// A short description of the error.
    pub fn describe(&self) -> (r: &'static str)
        ensures
            self is InvalidHex ==> r@ == "invalid hexadecimal character"@,
            self is Truncated ==> r@ == "unexpected end of input"@,
    {
        match self {
            DisasmError::InvalidHex => "invalid hexadecimal character",
            DisasmError::Truncated => "unexpected end of input",
        }
    }
}

/// Errors of the low-level character reader.
#[derive(Clone, Copy, Debug, PartialEq, Eq, Structural)]
pub enum ReadError {
    /// The input ended; the payload counts the characters already read.
    Eof(usize),
    /// A non-whitespace character that is not a hexadecimal digit.
    NonHex,
}

/// Index of the first non-whitespace character at or after `i`, or the
/// length of `s` if only whitespace remains.
pub open spec fn ws_end(s: Seq<u8>, i: int) -> int
    decreases s.len() - i when 0 <= i <= s.len()
{
    if i == s.len() {
        i
    } else if is_space(s[i]) {
        ws_end(s, i + 1)
    } else {
        i
    }
}

/// `k` hexadecimal digit characters can be read starting at `i`, skipping
/// whitespace before each one.
pub open spec fn chars_ok(s: Seq<u8>, i: int, k: nat) -> bool
    decreases k,
{
    if k == 0 {
        true
    } else {
        let w = ws_end(s, i);
        &&& w < s.len()
        &&& is_hex_digit(s[w])
        &&& chars_ok(s, w + 1, (k - 1) as nat)
    }
}

/// The `k` digit characters read starting at `i`.
pub open spec fn chars_seq(s: Seq<u8>, i: int, k: nat) -> Seq<u8>
    decreases k,
{
    if k == 0 {
        Seq::empty()
    } else {
        let w = ws_end(s, i);
        seq![s[w]] + chars_seq(s, w + 1, (k - 1) as nat)
    }
}

/// Position just after the `k`-th digit character read starting at `i`.
pub open spec fn chars_end(s: Seq<u8>, i: int, k: nat) -> int
    decreases k,
{
    if k == 0 {
        i
    } else {
        let w = ws_end(s, i);
        chars_end(s, w + 1, (k - 1) as nat)
    }
}

/// Reading `k` digit characters at `i` runs off the end of the input.
pub open spec fn chars_eof(s: Seq<u8>, i: int, k: nat) -> bool
    decreases k,
{
    k > 0 && {
        let w = ws_end(s, i);
        if w == s.len() {
            true
        } else {
            is_hex_digit(s[w]) && chars_eof(s, w + 1, (k - 1) as nat)
        }
    }
}

/// Reading `k` digit characters at `i` hits a character that is neither
/// whitespace nor a hexadecimal digit.
pub open spec fn chars_bad(s: Seq<u8>, i: int, k: nat) -> bool
    decreases k,
{
    k > 0 && {
        let w = ws_end(s, i);
        &&& w < s.len()
        &&& (!is_hex_digit(s[w]) || (is_hex_digit(s[w]) && chars_bad(s, w + 1, (k - 1) as nat)))
    }
}

/// How many digit characters are read before a failure.
pub open spec fn chars_read(s: Seq<u8>, i: int, k: nat) -> nat
    decreases k,
{
    if k == 0 {
        0
    } else {
        let w = ws_end(s, i);
        if w == s.len() || !is_hex_digit(s[w]) {
            0
        } else {
            1 + chars_read(s, w + 1, (k - 1) as nat)
        }
    }
}

/// Position of the character at which a failing read stops: the input's
/// end, or the offending character.
pub open spec fn chars_fail_pos(s: Seq<u8>, i: int, k: nat) -> int
    decreases k,
{
    if k == 0 {
        i
    } else {
        let w = ws_end(s, i);
        if w == s.len() || !is_hex_digit(s[w]) {
            w
        } else {
            chars_fail_pos(s, w + 1, (k - 1) as nat)
        }
    }
}

/// Only whitespace remains at or after `i`.
pub open spec fn clean_eof(s: Seq<u8>, i: int) -> bool {
    ws_end(s, i) == s.len()
}

/// `ws_end` stays within bounds and lands on a non-whitespace character.
pub proof fn lemma_ws_end(s: Seq<u8>, i: int)
    requires
        0 <= i <= s.len(),
    ensures
        i <= ws_end(s, i) <= s.len(),
        ws_end(s, i) < s.len() ==> !is_space(s[ws_end(s, i)]),
    decreases s.len() - i,
{
    if i < s.len() && is_space(s[i]) {
        lemma_ws_end(s, i + 1);
    }
}

/// Bounds and lengths of a successful read: each character consumes at
/// least one input position, and every character read is a hex digit.
pub proof fn lemma_chars_props(s: Seq<u8>, i: int, k: nat)
    requires
        0 <= i <= s.len(),
        chars_ok(s, i, k),
    ensures
        i + k <= chars_end(s, i, k) <= s.len(),
        chars_seq(s, i, k).len() == k,
        forall|t: int| 0 <= t < k ==> is_hex_digit(#[trigger] chars_seq(s, i, k)[t]),
    decreases k,
{
    if k > 0 {
        let w = ws_end(s, i);
        lemma_ws_end(s, i);
        lemma_chars_props(s, w + 1, (k - 1) as nat);
    }
}

/// Exactly one of success, end-of-input, and bad character holds.
pub proof fn lemma_chars_cases(s: Seq<u8>, i: int, k: nat)
    requires
        0 <= i <= s.len(),
    ensures
        chars_ok(s, i, k) || chars_eof(s, i, k) || chars_bad(s, i, k),
        chars_ok(s, i, k) ==> !chars_eof(s, i, k) && !chars_bad(s, i, k),
        chars_eof(s, i, k) ==> !chars_bad(s, i, k),
    decreases k,
{
    if k > 0 {
        let w = ws_end(s, i);
        lemma_ws_end(s, i);
        if w < s.len() && is_hex_digit(s[w]) {
            lemma_chars_cases(s, w + 1, (k - 1) as nat);
        }
    }
}

/// A successful read of `k` characters extends by one more digit found
/// after it.
pub proof fn lemma_chars_extend(s: Seq<u8>, i: int, k: nat)
    requires
        0 <= i <= s.len(),
        chars_ok(s, i, k),
        ws_end(s, chars_end(s, i, k)) < s.len(),
        is_hex_digit(s[ws_end(s, chars_end(s, i, k))]),
    ensures
        chars_ok(s, i, k + 1),
        chars_seq(s, i, k + 1) == chars_seq(s, i, k).push(s[ws_end(s, chars_end(s, i, k))]),
        chars_end(s, i, k + 1) == ws_end(s, chars_end(s, i, k)) + 1,
    decreases k,
{
    let e = chars_end(s, i, k);
    let w = ws_end(s, e);
    if k == 0 {
        assert(chars_ok(s, w + 1, 0));
        assert(chars_seq(s, w + 1, 0) == Seq::<u8>::empty());
        assert(chars_end(s, w + 1, 0) == w + 1);
        assert(chars_seq(s, i, 1) =~= chars_seq(s, i, 0).push(s[w]));
    } else {
        let w0 = ws_end(s, i);
        lemma_ws_end(s, i);
        lemma_chars_extend(s, w0 + 1, (k - 1) as nat);
        assert(chars_seq(s, i, k + 1) =~= chars_seq(s, i, k).push(s[w]));
    }
}

/// A successful read of `k` characters followed by end of input means a
/// longer read fails with exactly `k` characters consumed.
pub proof fn lemma_chars_eof_extend(s: Seq<u8>, i: int, k: nat, n: nat)
    requires
        0 <= i <= s.len(),
        k < n,
        chars_ok(s, i, k),
        ws_end(s, chars_end(s, i, k)) == s.len(),
    ensures
        chars_eof(s, i, n),
        chars_read(s, i, n) == k,
        chars_fail_pos(s, i, n) == s.len(),
    decreases k,
{
    if k > 0 {
        let w0 = ws_end(s, i);
        lemma_ws_end(s, i);
        lemma_chars_eof_extend(s, w0 + 1, (k - 1) as nat, (n - 1) as nat);
    }
}

/// A successful read of `k` characters followed by a character that is
/// neither whitespace nor a digit means a longer read fails on it.
pub proof fn lemma_chars_bad_extend(s: Seq<u8>, i: int, k: nat, n: nat)
    requires
        0 <= i <= s.len(),
        k < n,
        chars_ok(s, i, k),
        ws_end(s, chars_end(s, i, k)) < s.len(),
        !is_hex_digit(s[ws_end(s, chars_end(s, i, k))]),
    ensures
        chars_bad(s, i, n),
        chars_fail_pos(s, i, n) == ws_end(s, chars_end(s, i, k)),
    decreases k,
{
    if k > 0 {
        let w0 = ws_end(s, i);
        lemma_ws_end(s, i);
        lemma_chars_bad_extend(s, w0 + 1, (k - 1) as nat, (n - 1) as nat);
    }
}

/// A failing read stops between `i` and the input's end.
pub proof fn lemma_chars_fail_pos_bounds(s: Seq<u8>, i: int, k: nat)
    requires
        0 <= i <= s.len(),
    ensures
        i <= chars_fail_pos(s, i, k) <= s.len(),
    decreases k,
{
    if k > 0 {
        let w = ws_end(s, i);
        lemma_ws_end(s, i);
        if w < s.len() && is_hex_digit(s[w]) {
            lemma_chars_fail_pos_bounds(s, w + 1, (k - 1) as nat);
        }
    }
}

/// The non-whitespace characters of `s` from position `i` on.
pub open spec fn strip_from(s: Seq<u8>, i: int) -> Seq<u8>
    decreases s.len() - i when 0 <= i <= s.len()
{
    if i == s.len() {
        Seq::empty()
    } else if is_space(s[i]) {
        strip_from(s, i + 1)
    } else {
        seq![s[i]] + strip_from(s, i + 1)
    }
}

/// The non-whitespace characters of the whole input.
pub open spec fn strip_ws(s: Seq<u8>) -> Seq<u8> {
    strip_from(s, 0)
}

/// Skipping leading whitespace does not change the stripped remainder.
pub proof fn lemma_strip_skip_ws(s: Seq<u8>, i: int)
    requires
        0 <= i <= s.len(),
    ensures
        strip_from(s, i) == strip_from(s, ws_end(s, i)),
    decreases s.len() - i,
{
    if i < s.len() && is_space(s[i]) {
        lemma_strip_skip_ws(s, i + 1);
    }
}

/// The stripped remainder is empty exactly on a clean end of input;
/// otherwise its head is the next non-whitespace character.
pub proof fn lemma_strip_head(s: Seq<u8>, i: int)
    requires
        0 <= i <= s.len(),
    ensures
        strip_from(s, i).len() == 0 <==> clean_eof(s, i),
        !clean_eof(s, i) ==> strip_from(s, i)[0] == s[ws_end(s, i)] && strip_from(s, i).skip(1)
            == strip_from(s, ws_end(s, i) + 1),
{
    lemma_ws_end(s, i);
    lemma_strip_skip_ws(s, i);
    let w = ws_end(s, i);
    if w < s.len() {
        assert(strip_from(s, w) == seq![s[w]] + strip_from(s, w + 1));
        assert((seq![s[w]] + strip_from(s, w + 1)).skip(1) =~= strip_from(s, w + 1));
    }
}

/// The character reader behaves the same on two inputs whose stripped
/// remainders agree.
pub proof fn lemma_chars_strip(s1: Seq<u8>, i1: int, s2: Seq<u8>, i2: int, k: nat)
    requires
        0 <= i1 <= s1.len(),
        0 <= i2 <= s2.len(),
        strip_from(s1, i1) == strip_from(s2, i2),
    ensures
        clean_eof(s1, i1) == clean_eof(s2, i2),
        chars_ok(s1, i1, k) == chars_ok(s2, i2, k),
        chars_eof(s1, i1, k) == chars_eof(s2, i2, k),
        chars_bad(s1, i1, k) == chars_bad(s2, i2, k),
        chars_ok(s1, i1, k) ==> chars_seq(s1, i1, k) == chars_seq(s2, i2, k) && strip_from(
            s1,
            chars_end(s1, i1, k),
        ) == strip_from(s2, chars_end(s2, i2, k)),
    decreases k,
{
    lemma_ws_end(s1, i1);
    lemma_ws_end(s2, i2);
    lemma_strip_head(s1, i1);
    lemma_strip_head(s2, i2);
    if k > 0 && !clean_eof(s1, i1) {
        let w1 = ws_end(s1, i1);
        let w2 = ws_end(s2, i2);
        assert(s1[w1] == s2[w2]);
        if is_hex_digit(s1[w1]) {
            lemma_chars_strip(s1, w1 + 1, s2, w2 + 1, (k - 1) as nat);
            if chars_ok(s1, i1, k) {
                assert(chars_seq(s1, i1, k) == seq![s1[w1]] + chars_seq(s1, w1 + 1, (k - 1) as nat));
                assert(chars_seq(s2, i2, k) == seq![s2[w2]] + chars_seq(s2, w2 + 1, (k - 1) as nat));
            }
        }
    }
}

/// The bytes encoded by an even-length sequence of hexadecimal digit
/// characters, two characters per byte.
pub open spec fn bytes_of(cs: Seq<u8>) -> Seq<u8>
    decreases cs.len(),
{
    if cs.len() < 2 {
        Seq::empty()
    } else {
        seq![pair_byte(cs[0], cs[1])] + bytes_of(cs.skip(2))
    }
}

/// Appending two digit characters appends one byte.
pub proof fn lemma_bytes_of_snoc(cs: Seq<u8>, hi: u8, lo: u8)
    requires
        cs.len() % 2 == 0,
    ensures
        bytes_of(cs.push(hi).push(lo)) == bytes_of(cs).push(pair_byte(hi, lo)),
    decreases cs.len(),
{
    let ext = cs.push(hi).push(lo);
    if cs.len() == 0 {
        assert(ext =~= seq![hi, lo]);
        assert(ext.skip(2) =~= Seq::<u8>::empty());
        assert(bytes_of(Seq::<u8>::empty()) == Seq::<u8>::empty());
        assert(ext[0] == hi && ext[1] == lo);
        assert(bytes_of(ext) =~= bytes_of(cs).push(pair_byte(hi, lo)));
    } else {
        assert(cs.len() >= 2);
        assert(ext.skip(2) =~= cs.skip(2).push(hi).push(lo));
        lemma_bytes_of_snoc(cs.skip(2), hi, lo);
        assert(ext[0] == cs[0] && ext[1] == cs[1]);
        let p = pair_byte(cs[0], cs[1]);
        let q = pair_byte(hi, lo);
        let x = bytes_of(cs.skip(2));
        assert(bytes_of(ext.skip(2)) == x.push(q));
        assert(bytes_of(ext) == seq![p] + x.push(q));
        assert(bytes_of(cs) == seq![p] + x);
        assert(seq![p] + x.push(q) =~= (seq![p] + x).push(q));
    }
}

/// `bytes_of` yields one byte per character pair.
pub proof fn lemma_bytes_of_len(cs: Seq<u8>)
    ensures
        bytes_of(cs).len() == cs.len() / 2,
    decreases cs.len(),
{
    if cs.len() >= 2 {
        lemma_bytes_of_len(cs.skip(2));
    }
}

/// Opcode of a push instruction, carrying an operand of 1 to 32 bytes.
pub open spec fn is_push_op(op: u8) -> bool {
    0x60 <= op <= 0x7f
}

/// The fixed opcode table for every opcode that is not a push: the
/// instruction a byte decodes to in normal mode, or `None` for an
/// unrecognized byte. `offset` is the decoded-byte position stamped onto a
/// jump destination.
pub open spec fn decode_known(op: u8, offset: usize) -> Option<Instruction<nat>> {
    if op == 0x00 {
        Some(Instruction::Stop)
    } else if op == 0x01 {
        Some(Instruction::Add)
    } else if op == 0x02 {
        Some(Instruction::Mul)
    } else if op == 0x03 {
        Some(Instruction::Sub)
    } else if op == 0x04 {
        Some(Instruction::Div)
    } else if op == 0x05 {
        Some(Instruction::Sdiv)
    } else if op == 0x06 {
        Some(Instruction::Mod)
    } else if op == 0x07 {
        Some(Instruction::Smod)
    } else if op == 0x08 {
        Some(Instruction::AddMod)
    } else if op == 0x09 {
        Some(Instruction::MulMod)
    } else if op == 0x0a {
        Some(Instruction::Exp)
    } else if op == 0x0b {
        Some(Instruction::SignExtend)
    } else if op == 0x10 {
        Some(Instruction::Lt)
    } else if op == 0x11 {
        Some(Instruction::Gt)
    } else if op == 0x12 {
        Some(Instruction::Slt)
    } else if op == 0x13 {
        Some(Instruction::Sgt)
    } else if op == 0x14 {
        Some(Instruction::Eq)
    } else if op == 0x15 {
        Some(Instruction::IsZero)
    } else if op == 0x16 {
        Some(Instruction::And)
    } else if op == 0x17 {
        Some(Instruction::Or)
    } else if op == 0x18 {
        Some(Instruction::Xor)
    } else if op == 0x19 {
        Some(Instruction::Not)
    } else if op == 0x1a {
        Some(Instruction::Byte)
    } else if op == 0x1b {
        Some(Instruction::Shl)
    } else if op == 0x1c {
        Some(Instruction::Shr)
    } else if op == 0x1d {
        Some(Instruction::Sar)
    } else if op == 0x20 {
        Some(Instruction::Keccak256)
    } else if op == 0x30 {
        Some(Instruction::Address)
    } else if op == 0x31 {
        Some(Instruction::Balance)
    } else if op == 0x32 {
        Some(Instruction::Origin)
    } else if op == 0x33 {
        Some(Instruction::Caller)
    } else if op == 0x34 {
        Some(Instruction::CallValue)
    } else if op == 0x35 {
        Some(Instruction::CallDataLoad)
    } else if op == 0x36 {
        Some(Instruction::CallDataSize)
    } else if op == 0x37 {
        Some(Instruction::CallDataCopy)
    } else if op == 0x38 {
        Some(Instruction::CodeSize)
    } else if op == 0x39 {
        Some(Instruction::CodeCopy)
    } else if op == 0x3a {
        Some(Instruction::GasPrice)
    } else if op == 0x3b {
        Some(Instruction::ExtCodeSize)
    } else if op == 0x3c {
        Some(Instruction::ExtCodeCopy)
    } else if op == 0x3d {
        Some(Instruction::ReturnDataSize)
    } else if op == 0x3e {
        Some(Instruction::ReturnDataCopy)
    } else if op == 0x3f {
        Some(Instruction::ExtCodeHash)
    } else if op == 0x40 {
        Some(Instruction::BlockHash)
    } else if op == 0x41 {
        Some(Instruction::Coinbase)
    } else if op == 0x42 {
        Some(Instruction::Timestamp)
    } else if op == 0x43 {
        Some(Instruction::Number)
    } else if op == 0x44 {
        Some(Instruction::Difficulty)
    } else if op == 0x45 {
        Some(Instruction::GasLimit)
    } else if op == 0x46 {
        Some(Instruction::ChainId)
    } else if op == 0x50 {
        Some(Instruction::Pop)
    } else if op == 0x51 {
        Some(Instruction::MLoad)
    } else if op == 0x52 {
        Some(Instruction::MStore)
    } else if op == 0x53 {
        Some(Instruction::MStore8)
    } else if op == 0x54 {
        Some(Instruction::SLoad)
    } else if op == 0x55 {
        Some(Instruction::SStore)
    } else if op == 0x56 {
        Some(Instruction::Jump)
    } else if op == 0x57 {
        Some(Instruction::JumpI)
    } else if op == 0x58 {
        Some(Instruction::GetPc)
    } else if op == 0x59 {
        Some(Instruction::MSize)
    } else if op == 0x5a {
        Some(Instruction::Gas)
    } else if op == 0x5b {
        Some(Instruction::JumpDest(offset))
    } else if 0x80 <= op && op <= 0x8f {
        Some(Instruction::Dup((op - 0x7f) as u8))
    } else if 0x90 <= op && op <= 0x9f {
        Some(Instruction::Swap((op - 0x8f) as u8))
    } else if 0xa0 <= op && op <= 0xa4 {
        Some(Instruction::Log((op - 0xa0) as u8))
    } else if op == 0xf0 {
        Some(Instruction::Create)
    } else if op == 0xf1 {
        Some(Instruction::Call)
    } else if op == 0xf2 {
        Some(Instruction::CallCode)
    } else if op == 0xf3 {
        Some(Instruction::Return)
    } else if op == 0xf4 {
        Some(Instruction::DelegateCall)
    } else if op == 0xf5 {
        Some(Instruction::Create2)
    } else if op == 0xfa {
        Some(Instruction::StaticCall)
    } else if op == 0xfd {
        Some(Instruction::Revert)
    } else if op == 0xfe {
        Some(Instruction::Invalid)
    } else if op == 0xff {
        Some(Instruction::SelfDestruct)
    } else {
        None
    }
}

/// One decode step from the given reader state: the produced result, the
/// reading position, the decoded-byte offset, and the degraded-mode flag
/// after the step.
pub open spec fn spec_step(s: Seq<u8>, i: int, offset: nat, degraded: bool) -> (
    Result<Option<Instruction<nat>>, DisasmError>,
    int,
    nat,
    bool,
) {
    if clean_eof(s, i) {
        (Ok(None), s.len() as int, offset, degraded)
    } else if chars_bad(s, i, 2) {
        (Err(DisasmError::InvalidHex), chars_fail_pos(s, i, 2), offset, degraded)
    } else if chars_eof(s, i, 2) {
        (Err(DisasmError::Truncated), chars_fail_pos(s, i, 2), offset, degraded)
    } else {
        let cs = chars_seq(s, i, 2);
        let op = pair_byte(cs[0], cs[1]);
        let j = chars_end(s, i, 2);
        if degraded {
            (Ok(Some(Instruction::Unknown(op))), j, offset + 1, true)
        } else if is_push_op(op) {
            let n = (op - 0x5f) as nat;
            if chars_ok(s, j, 2 * n) {
                (
                    Ok(
                        Some(
                            Instruction::Push(
                                (op - 0x5f) as u8,
                                be_val(bytes_of(chars_seq(s, j, 2 * n))),
                            ),
                        ),
                    ),
                    chars_end(s, j, 2 * n),
                    offset + 1 + n,
                    false,
                )
            } else if chars_bad(s, j, 2 * n) {
                (Err(DisasmError::InvalidHex), chars_fail_pos(s, j, 2 * n), offset + 1, false)
            } else {
                (Err(DisasmError::Truncated), chars_fail_pos(s, j, 2 * n), offset + 1, false)
            }
        } else {
            match decode_known(op, offset as usize) {
                Some(m) => (Ok(Some(m)), j, offset + 1, false),
                None => (Ok(Some(Instruction::Unknown(op))), j, offset + 1, true),
            }
        }
    }
}

/// A decode step never moves the position backwards, and moves it
/// strictly forwards whenever it produces an instruction.
pub proof fn lemma_spec_step_bounds(s: Seq<u8>, i: int, offset: nat, degraded: bool)
    requires
        0 <= i <= s.len(),
    ensures
        i <= spec_step(s, i, offset, degraded).1 <= s.len(),
        spec_step(s, i, offset, degraded).0 matches Ok(p) && p is Some ==> i < spec_step(
            s,
            i,
            offset,
            degraded,
        ).1,
{
    lemma_ws_end(s, i);
    lemma_chars_cases(s, i, 2);
    lemma_chars_fail_pos_bounds(s, i, 2);
    if !clean_eof(s, i) && chars_ok(s, i, 2) {
        lemma_chars_props(s, i, 2);
        let cs = chars_seq(s, i, 2);
        let op = pair_byte(cs[0], cs[1]);
        let j = chars_end(s, i, 2);
        if !degraded && is_push_op(op) {
            let n = (op - 0x5f) as nat;
            lemma_chars_cases(s, j, 2 * n);
            lemma_chars_fail_pos_bounds(s, j, 2 * n);
            if chars_ok(s, j, 2 * n) {
                lemma_chars_props(s, j, 2 * n);
            }
        }
    }
}

/// The instructions decoded from position `i` onwards, or the error that
/// aborts the session.
pub open spec fn spec_decode(s: Seq<u8>, i: int, offset: nat, degraded: bool) -> Result<
    Seq<Instruction<nat>>,
    DisasmError,
>
    decreases s.len() - i
        when 0 <= i <= s.len()
        via spec_decode_decreases
{
    let step = spec_step(s, i, offset, degraded);
    match step.0 {
        Err(e) => Err(e),
        Ok(None) => Ok(Seq::empty()),
        Ok(Some(m)) => match spec_decode(s, step.1, step.2, step.3) {
            Ok(rest) => Ok(seq![m] + rest),
            Err(e) => Err(e),
        },
    }
}

#[via_fn]
proof fn spec_decode_decreases(s: Seq<u8>, i: int, offset: nat, degraded: bool) {
    lemma_spec_step_bounds(s, i, offset, degraded);
}

/// The model of a decode result: push operands replaced by their values.
pub open spec fn model_result(r: Result<Option<Instruction<Word>>, DisasmError>) -> Result<
    Option<Instruction<nat>>,
    DisasmError,
> {
    match r {
        Ok(None) => Ok(None),
        Ok(Some(ins)) => Ok(Some(ins.model())),
        Err(e) => Err(e),
    }
}

/// The executable counterpart of `decode_known`.
fn lookup(op: u8, offset: usize) -> (r: Option<Instruction<Word>>)
    ensures
        match (r, decode_known(op, offset)) {
            (Some(ins), Some(m)) => ins.model() == m && ins.wf() && !(ins is Unknown),
            (None, None) => true,
            _ => false,
        },
{
    if op == 0x00 {
        Some(Instruction::Stop)
    } else if op == 0x01 {
        Some(Instruction::Add)
    } else if op == 0x02 {
        Some(Instruction::Mul)
    } else if op == 0x03 {
        Some(Instruction::Sub)
    } else if op == 0x04 {
        Some(Instruction::Div)
    } else if op == 0x05 {
        Some(Instruction::Sdiv)
    } else if op == 0x06 {
        Some(Instruction::Mod)
    } else if op == 0x07 {
        Some(Instruction::Smod)
    } else if op == 0x08 {
        Some(Instruction::AddMod)
    } else if op == 0x09 {
        Some(Instruction::MulMod)
    } else if op == 0x0a {
        Some(Instruction::Exp)
    } else if op == 0x0b {
        Some(Instruction::SignExtend)
    } else if op == 0x10 {
        Some(Instruction::Lt)
    } else if op == 0x11 {
        Some(Instruction::Gt)
    } else if op == 0x12 {
        Some(Instruction::Slt)
    } else if op == 0x13 {
        Some(Instruction::Sgt)
    } else if op == 0x14 {
        Some(Instruction::Eq)
    } else if op == 0x15 {
        Some(Instruction::IsZero)
    } else if op == 0x16 {
        Some(Instruction::And)
    } else if op == 0x17 {
        Some(Instruction::Or)
    } else if op == 0x18 {
        Some(Instruction::Xor)
    } else if op == 0x19 {
        Some(Instruction::Not)
    } else if op == 0x1a {
        Some(Instruction::Byte)
    } else if op == 0x1b {
        Some(Instruction::Shl)
    } else if op == 0x1c {
        Some(Instruction::Shr)
    } else if op == 0x1d {
        Some(Instruction::Sar)
    } else if op == 0x20 {
        Some(Instruction::Keccak256)
    } else if op == 0x30 {
        Some(Instruction::Address)
    } else if op == 0x31 {
        Some(Instruction::Balance)
    } else if op == 0x32 {
        Some(Instruction::Origin)
    } else if op == 0x33 {
        Some(Instruction::Caller)
    } else if op == 0x34 {
        Some(Instruction::CallValue)
    } else if op == 0x35 {
        Some(Instruction::CallDataLoad)
    } else if op == 0x36 {
        Some(Instruction::CallDataSize)
    } else if op == 0x37 {
        Some(Instruction::CallDataCopy)
    } else if op == 0x38 {
        Some(Instruction::CodeSize)
    } else if op == 0x39 {
        Some(Instruction::CodeCopy)
    } else if op == 0x3a {
        Some(Instruction::GasPrice)
    } else if op == 0x3b {
        Some(Instruction::ExtCodeSize)
    } else if op == 0x3c {
        Some(Instruction::ExtCodeCopy)
    } else if op == 0x3d {
        Some(Instruction::ReturnDataSize)
    } else if op == 0x3e {
        Some(Instruction::ReturnDataCopy)
    } else if op == 0x3f {
        Some(Instruction::ExtCodeHash)
    } else if op == 0x40 {
        Some(Instruction::BlockHash)
    } else if op == 0x41 {
        Some(Instruction::Coinbase)
    } else if op == 0x42 {
        Some(Instruction::Timestamp)
    } else if op == 0x43 {
        Some(Instruction::Number)
    } else if op == 0x44 {
        Some(Instruction::Difficulty)
    } else if op == 0x45 {
        Some(Instruction::GasLimit)
    } else if op == 0x46 {
        Some(Instruction::ChainId)
    } else if op == 0x50 {
        Some(Instruction::Pop)
    } else if op == 0x51 {
        Some(Instruction::MLoad)
    } else if op == 0x52 {
        Some(Instruction::MStore)
    } else if op == 0x53 {
        Some(Instruction::MStore8)
    } else if op == 0x54 {
        Some(Instruction::SLoad)
    } else if op == 0x55 {
        Some(Instruction::SStore)
    } else if op == 0x56 {
        Some(Instruction::Jump)
    } else if op == 0x57 {
        Some(Instruction::JumpI)
    } else if op == 0x58 {
        Some(Instruction::GetPc)
    } else if op == 0x59 {
        Some(Instruction::MSize)
    } else if op == 0x5a {
        Some(Instruction::Gas)
    } else if op == 0x5b {
        Some(Instruction::JumpDest(offset))
    } else if 0x80 <= op && op <= 0x8f {
        Some(Instruction::Dup(op - 0x7f))
    } else if 0x90 <= op && op <= 0x9f {
        Some(Instruction::Swap(op - 0x8f))
    } else if 0xa0 <= op && op <= 0xa4 {
        Some(Instruction::Log(op - 0xa0))
    } else if op == 0xf0 {
        Some(Instruction::Create)
    } else if op == 0xf1 {
        Some(Instruction::Call)
    } else if op == 0xf2 {
        Some(Instruction::CallCode)
    } else if op == 0xf3 {
        Some(Instruction::Return)
    } else if op == 0xf4 {
        Some(Instruction::DelegateCall)
    } else if op == 0xf5 {
        Some(Instruction::Create2)
    } else if op == 0xfa {
        Some(Instruction::StaticCall)
    } else if op == 0xfd {
        Some(Instruction::Revert)
    } else if op == 0xfe {
        Some(Instruction::Invalid)
    } else if op == 0xff {
        Some(Instruction::SelfDestruct)
    } else {
        None
    }
}

/// Reads hex-encoded EVM instructions from an in-memory stream of
/// hexadecimal text.
pub struct Disassembler {
    input: Vec<u8>,
    pos: usize,
    offset: usize,
    unknown: bool,
}

impl Disassembler {
    /// The whole input text.
    pub closed spec fn input(&self) -> Seq<u8> {
        self.input@
    }

    /// The reading position within the input text.
    pub closed spec fn pos(&self) -> int {
        self.pos as int
    }

    /// How many bytecode bytes have been decoded so far.
    pub closed spec fn offset(&self) -> nat {
        self.offset as nat
    }

    /// Whether an unrecognized opcode has been seen.
    pub closed spec fn degraded(&self) -> bool {
        self.unknown
    }

    /// The position lies within the input, and each decoded byte consumed
    /// at least two characters.
    pub open spec fn wf(&self) -> bool {
        0 <= self.pos() <= self.input().len() && 2 * self.offset() <= self.pos()
    }

    /// Creates a new disassembler for the given input text.
    pub fn new(input: Vec<u8>) -> (r: Disassembler)
        ensures
            r.input() == input@,
            r.pos() == 0,
            r.offset() == 0,
            !r.degraded(),
            r.wf(),
    {
        Disassembler { input, pos: 0, offset: 0, unknown: false }
    }

    /// Reads `count` hexadecimal digit characters, skipping whitespace
    /// before each one.
    #[verifier::loop_isolation(false)]
    pub fn read(&mut self, count: usize) -> (r: Result<Vec<u8>, ReadError>)
        requires
            old(self).wf(),
        ensures
            final(self).wf(),
            final(self).input() == old(self).input(),
            final(self).offset() == old(self).offset(),
            final(self).degraded() == old(self).degraded(),
            ({
                let s = old(self).input();
                let i = old(self).pos();
                let k = count as nat;
                &&& (chars_ok(s, i, k) ==> (r matches Ok(v) && v@ == chars_seq(s, i, k))
                    && final(self).pos() == chars_end(s, i, k))
                &&& (chars_eof(s, i, k) ==> (r matches Err(e) && e matches ReadError::Eof(g)
                    && (g as nat) == chars_read(s, i, k)) && final(self).pos()
                    == chars_fail_pos(s, i, k))
                &&& (chars_bad(s, i, k) ==> (r matches Err(e) && e is NonHex) && final(self).pos()
                    == chars_fail_pos(s, i, k))
            }),
    {
        let ghost s = self.input@;
        let ghost i0 = self.pos as int;
        let mut out: Vec<u8> = Vec::new();
        let mut k: usize = 0;
        while k < count
            invariant
                k <= count,
                self.input@ == s,
                self.offset == old(self).offset,
                self.unknown == old(self).unknown,
                i0 <= self.pos as int <= s.len(),
                chars_ok(s, i0, k as nat),
                out@ == chars_seq(s, i0, k as nat),
                self.pos as int == chars_end(s, i0, k as nat),
            decreases count - k,
        {
            let ghost e = self.pos as int;
            while self.pos < self.input.len() && byte_is_space(self.input[self.pos])
                invariant
                    self.input@ == s,
                    self.offset == old(self).offset,
                    self.unknown == old(self).unknown,
                    e <= self.pos as int <= s.len(),
                    ws_end(s, e) == ws_end(s, self.pos as int),
                decreases s.len() - self.pos,
            {
                self.pos = self.pos + 1;
            }
            proof {
                assert(ws_end(s, e) == self.pos as int);
            }
            if self.pos == self.input.len() {
                proof {
                    lemma_chars_eof_extend(s, i0, k as nat, count as nat);
                    lemma_chars_cases(s, i0, count as nat);
                }
                return Err(ReadError::Eof(k));
            }
            let c = self.input[self.pos];
            if !byte_is_hex_digit(c) {
                proof {
                    lemma_chars_bad_extend(s, i0, k as nat, count as nat);
                    lemma_chars_cases(s, i0, count as nat);
                }
                return Err(ReadError::NonHex);
            }
            proof {
                lemma_chars_extend(s, i0, k as nat);
            }
            out.push(c);
            self.pos = self.pos + 1;
            k = k + 1;
        }
        proof {
            lemma_chars_cases(s, i0, count as nat);
        }
        Ok(out)
    }

    /// Reads the next bytecode byte: two hexadecimal digit characters.
    /// Returns `None` on a clean end of input, before any digit of the
    /// byte was seen.
    pub fn next_byte(&mut self) -> (r: Result<Option<u8>, DisasmError>)
        requires
            old(self).wf(),
        ensures
            final(self).wf(),
            final(self).input() == old(self).input(),
            final(self).degraded() == old(self).degraded(),
            ({
                let s = old(self).input();
                let i = old(self).pos();
                &&& (clean_eof(s, i) ==> r == Ok::<Option<u8>, DisasmError>(None) && final(self).offset() == old(self).offset() && final(self).pos() == s.len())
                &&& (chars_ok(s, i, 2) ==> r == Ok::<Option<u8>, DisasmError>(
                    Some(pair_byte(chars_seq(s, i, 2)[0], chars_seq(s, i, 2)[1])),
                ) && final(self).pos() == chars_end(s, i, 2) && final(self).offset() == old(self).offset() + 1)
                &&& (chars_eof(s, i, 2) && !clean_eof(s, i) ==> r == Err::<Option<u8>,
                    DisasmError,
                >(DisasmError::Truncated) && final(self).offset() == old(self).offset() && final(self).pos() == chars_fail_pos(s, i, 2))
                &&& (chars_bad(s, i, 2) ==> r == Err::<Option<u8>, DisasmError>(
                    DisasmError::InvalidHex,
                ) && final(self).offset() == old(self).offset() && final(self).pos()
                    == chars_fail_pos(s, i, 2))
            }),
    {
        let ghost s = self.input@;
        let ghost i0 = self.pos as int;
        proof {
            lemma_chars_cases(s, i0, 2);
        }
        match self.read(2) {
            Err(ReadError::Eof(got)) => {
                if got == 0 {
                    proof {
                        assert(clean_eof(s, i0));
                        assert(chars_fail_pos(s, i0, 2) == s.len());
                    }
                    Ok(None)
                } else {
                    proof {
                        assert(!clean_eof(s, i0));
                    }
                    Err(DisasmError::Truncated)
                }
            },
            Err(ReadError::NonHex) => {
                proof {
                    assert(!clean_eof(s, i0));
                }
                Err(DisasmError::InvalidHex)
            },
            Ok(v) => {
                proof {
                    lemma_chars_props(s, i0, 2);
                    assert(v@[0] == chars_seq(s, i0, 2)[0]);
                    assert(v@[1] == chars_seq(s, i0, 2)[1]);
                    assert(!clean_eof(s, i0));
                }
                let hi = hex_digit_value(v[0]);
                let lo = hex_digit_value(v[1]);
                proof {
                    assert(2 * (old(self).offset() + 1) <= chars_end(s, i0, 2));
                }
                self.offset = self.offset + 1;
                Ok(Some(hi * 16 + lo))
            },
        }
    }

    /// Reads a big-endian push operand of `size` bytes. Any end of input
    /// inside the operand, even between two of its bytes, is an error.
    pub fn next_word(&mut self, size: u8) -> (r: Result<Word, DisasmError>)
        requires
            old(self).wf(),
            1 <= size <= 32,
        ensures
            final(self).wf(),
            final(self).input() == old(self).input(),
            final(self).degraded() == old(self).degraded(),
            ({
                let s = old(self).input();
                let i = old(self).pos();
                let k = (2 * size) as nat;
                &&& (chars_ok(s, i, k) ==> (r matches Ok(w) && w@ == zero_extend32(
                    bytes_of(chars_seq(s, i, k)),
                ) && w.wf() && w.value() == be_val(bytes_of(chars_seq(s, i, k))))
                    && final(self).pos() == chars_end(s, i, k)
                    && final(self).offset() == old(self).offset() + size)
                &&& (chars_eof(s, i, k) ==> r == Err::<Word, DisasmError>(DisasmError::Truncated)
                    && final(self).offset() == old(self).offset() && final(self).pos()
                    == chars_fail_pos(s, i, k))
                &&& (chars_bad(s, i, k) ==> r == Err::<Word, DisasmError>(DisasmError::InvalidHex)
                    && final(self).offset() == old(self).offset() && final(self).pos()
                    == chars_fail_pos(s, i, k))
            }),
    {
        let ghost s = self.input@;
        let ghost i0 = self.pos as int;
        let n: usize = 2 * (size as usize);
        proof {
            lemma_chars_cases(s, i0, n as nat);
        }
        match self.read(n) {
            Err(ReadError::Eof(_)) => Err(DisasmError::Truncated),
            Err(ReadError::NonHex) => Err(DisasmError::InvalidHex),
            Ok(cs) => {
                proof {
                    lemma_chars_props(s, i0, n as nat);
                }
                let mut bytes: Vec<u8> = Vec::new();
                let mut j: usize = 0;
                proof {
                    assert(cs@.take(0) =~= Seq::<u8>::empty());
                }
                while j < size as usize
                    invariant
                        j <= size,
                        1 <= size <= 32,
                        n == 2 * size,
                        cs@ == chars_seq(s, i0, n as nat),
                        cs@.len() == n,
                        forall|t: int| 0 <= t < n ==> is_hex_digit(#[trigger] cs@[t]),
                        bytes@ == bytes_of(cs@.take(2 * j as int)),
                        bytes@.len() == j,
                    decreases size as usize - j,
                {
                    let hi = cs[2 * j];
                    let lo = cs[2 * j + 1];
                    let hv = hex_digit_value(hi);
                    let lv = hex_digit_value(lo);
                    proof {
                        let taken = cs@.take(2 * j as int);
                        lemma_bytes_of_snoc(taken, hi, lo);
                        assert(taken.push(hi).push(lo) =~= cs@.take(2 * (j + 1) as int));
                        assert((hv * 16 + lv) as u8 == pair_byte(hi, lo));
                    }
                    bytes.push(hv * 16 + lv);
                    j = j + 1;
                }
                proof {
                    assert(cs@.take(2 * size as int) =~= cs@);
                }
                let w = Word::from_be_bytes(&bytes);
                proof {
                    assert(2 * (old(self).offset() + size) <= chars_end(s, i0, n as nat));
                    assert(old(self).offset() + size <= usize::MAX);
                }
                self.offset = self.offset + size as usize;
                Ok(w)
            },
        }
    }

    /// Reads the next instruction from the input stream. Returns
    /// `Ok(None)` on a clean end of input. The whole behaviour — result,
    /// new position, new offset, and degraded flag — is the decode step
    /// `spec_step` describes.
    pub fn next_instruction(&mut self) -> (r: Result<Option<Instruction<Word>>, DisasmError>)
        requires
            old(self).wf(),
        ensures
            final(self).wf(),
            final(self).input() == old(self).input(),
            ({
                let step = spec_step(
                    old(self).input(),
                    old(self).pos(),
                    old(self).offset(),
                    old(self).degraded(),
                );
                &&& model_result(r) == step.0
                &&& final(self).pos() == step.1
                &&& final(self).offset() == step.2
                &&& final(self).degraded() == step.3
                &&& (r matches Ok(Some(ins)) ==> ins.wf())
            }),
    {
        let ghost s = self.input@;
        let ghost i0 = self.pos as int;
        let ghost off0 = self.offset as nat;
        let ghost deg0 = self.unknown;
        proof {
            lemma_chars_cases(s, i0, 2);
        }
        let op = match self.next_byte() {
            Ok(Some(op)) => op,
            Ok(None) => {
                return Ok(None);
            },
            Err(e) => {
                return Err(e);
            },
        };
        if self.unknown {
            return Ok(Some(Instruction::Unknown(op)));
        }
        if 0x60 <= op && op <= 0x7f {
            let size = op - 0x5f;
            let ghost j = self.pos as int;
            proof {
                lemma_chars_props(s, i0, 2);
                lemma_chars_cases(s, j, (2 * size) as nat);
            }
            match self.next_word(size) {
                Ok(w) => {
                    proof {
                        let operand = bytes_of(chars_seq(s, j, (2 * size) as nat));
                        lemma_chars_props(s, j, (2 * size) as nat);
                        lemma_bytes_of_len(chars_seq(s, j, (2 * size) as nat));
                        assert(operand.len() == size);
                        assert(forall|t: int|
                            0 <= t < 32 - size ==> #[trigger] zero_extend32(operand)[t] == 0);
                    }
                    return Ok(Some(Instruction::Push(size, w)));
                },
                Err(e) => {
                    return Err(e);
                },
            }
        }
        let jd = self.offset - 1;
        proof {
            assert(jd == off0);
        }
        match lookup(op, jd) {
            Some(ins) => Ok(Some(ins)),
            None => {
                self.unknown = true;
                Ok(Some(Instruction::Unknown(op)))
            },
        }
    }
}

/// Decodes a whole stream of hexadecimal text and renders each decoded
/// instruction as one line, in decode order. An error aborts decoding and
/// is returned in place of the lines.
pub fn disassemble(input: &[u8]) -> (r: Result<Vec<String>, DisasmError>)
    ensures
        ({
            let d = spec_decode(input@, 0, 0, false);
            match (r, d) {
                (Ok(lines), Ok(ms)) => lines@.len() == ms.len() && (forall|t: int|
                    0 <= t < ms.len() ==> (#[trigger] lines@[t])@ == crate::instruction::spec_render(
                        ms[t],
                    )),
                (Err(e1), Err(e2)) => e1 == e2,
                _ => false,
            }
        }),
{
    let ghost s = input@;
    let mut d = Disassembler::new(vstd::slice::slice_to_vec(input));
    let mut lines: Vec<String> = Vec::new();
    let ghost mut done: Seq<Instruction<nat>> = Seq::empty();
    proof {
        if spec_decode(s, 0, 0, false) is Ok {
            assert(Seq::<Instruction<nat>>::empty() + spec_decode(s, 0, 0, false)->Ok_0
                =~= spec_decode(s, 0, 0, false)->Ok_0);
        }
    }
    loop
        invariant
            s == input@,
            d.wf(),
            d.input() == s,
            lines@.len() == done.len(),
            forall|t: int|
                0 <= t < done.len() ==> (#[trigger] lines@[t])@ == crate::instruction::spec_render(
                    done[t],
                ),
            spec_decode(s, 0, 0, false) == (match spec_decode(s, d.pos(), d.offset(), d.degraded()) {
                Ok(rest) => Ok::<Seq<Instruction<nat>>, DisasmError>(done + rest),
                Err(e) => Err::<Seq<Instruction<nat>>, DisasmError>(e),
            }),
        decreases s.len() - d.pos(),
    {
        let ghost p0 = d.pos();
        let ghost o0 = d.offset();
        let ghost g0 = d.degraded();
        proof {
            lemma_spec_step_bounds(s, p0, o0, g0);
        }
        match d.next_instruction() {
            Ok(Some(ins)) => {
                let line = ins.render();
                lines.push(line);
                proof {
                    let m = ins.model();
                    let rest0 = spec_decode(s, p0, o0, g0);
                    let rest1 = spec_decode(s, d.pos(), d.offset(), d.degraded());
                    assert(rest0 == (match rest1 {
                        Ok(rest) => Ok::<Seq<Instruction<nat>>, DisasmError>(seq![m] + rest),
                        Err(e) => Err::<Seq<Instruction<nat>>, DisasmError>(e),
                    }));
                    if rest1 is Ok {
                        assert(done + (seq![m] + rest1->Ok_0) =~= (done + seq![m])
                            + rest1->Ok_0);
                    }
                    done = done + seq![m];
                }
            },
            Ok(None) => {
                proof {
                    assert(spec_decode(s, p0, o0, g0) == Ok::<Seq<Instruction<nat>>, DisasmError>(
                        Seq::empty(),
                    ));
                    assert(done + Seq::<Instruction<nat>>::empty() =~= done);
                    assert(spec_decode(s, 0, 0, false) == Ok::<Seq<Instruction<nat>>, DisasmError>(
                        done,
                    ));
                }
                return Ok(lines);
            },
            Err(e) => {
                proof {
                    assert(model_result(Err(e)) == Err::<Option<Instruction<nat>>, DisasmError>(e));
                    assert(spec_decode(s, p0, o0, g0) == Err::<Seq<Instruction<nat>>, DisasmError>(
                        e,
                    ));
                    assert(spec_decode(s, 0, 0, false) == Err::<Seq<Instruction<nat>>, DisasmError>(
                        e,
                    ));
                }
                return Err(e);
            },
        }
    }
}

} // verus!
