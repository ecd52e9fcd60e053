//! The instruction model: the closed set of instruction variants, the
//! 256-bit operand word carried by push instructions, and the canonical
//! one-line lowercase rendering of each instruction.

use crate::hex::{be_val, lemma_be_val_zero_prefix, zero_extend32};
use vstd::arithmetic::div_mod::lemma_fundamental_div_mod_converse;
use vstd::prelude::*;

verus! {

/// A 256-bit unsigned operand, stored as 32 big-endian bytes.
#[derive(Clone, Debug, PartialEq, Eq)]
pub struct Word {
    bytes: Vec<u8>,
}

impl View for Word {
    type V = Seq<u8>;

    closed spec fn view(&self) -> Seq<u8> {
        self.bytes@
    }
}

impl Word {
    /// A word always holds exactly 32 bytes.
    pub open spec fn wf(&self) -> bool {
        self@.len() == 32
    }

    /// The unsigned value the word stands for.
    pub open spec fn value(&self) -> nat {
        be_val(self@)
    }

    /// Builds the word whose big-endian bytes are `b`, zero-extended on the
    /// left to 32 bytes.
    pub fn from_be_bytes(b: &Vec<u8>) -> (r: Word)
        requires
            b@.len() <= 32,
        ensures
            r@ == zero_extend32(b@),
            r.wf(),
            r.value() == be_val(b@),
    {
        let pad: usize = 32 - b.len();
        let mut bytes: Vec<u8> = Vec::new();
        let mut j: usize = 0;
        while j < pad
            invariant
                j <= pad <= 32,
                pad == 32 - b@.len(),
                bytes@.len() == j,
                forall|t: int| 0 <= t < j ==> bytes@[t] == 0,
            decreases pad - j,
        {
            bytes.push(0u8);
            j = j + 1;
        }
        let mut k: usize = 0;
        while k < b.len()
            invariant
                k <= b@.len() <= 32,
                pad == 32 - b@.len(),
                bytes@.len() == pad + k,
                forall|t: int| 0 <= t < pad ==> bytes@[t] == 0,
                forall|t: int| 0 <= t < k ==> bytes@[pad + t] == b@[t],
            decreases b@.len() - k,
        {
            bytes.push(b[k]);
            k = k + 1;
        }
        let r = Word { bytes };
        proof {
            assert(r@ =~= zero_extend32(b@));
            lemma_be_val_zero_prefix(r@.subrange(0, 32 - b@.len() as int), b@);
            assert(r@.subrange(0, 32 - b@.len() as int) + b@ =~= r@);
        }
        r
    }

    /// The 32 big-endian bytes of the word.
    pub fn as_be_bytes(&self) -> (r: &Vec<u8>)
        ensures
            r@ == self@,
    {
        &self.bytes
    }
}

/// An EVM instruction. `W` is the carrier of the push operand: the
/// executable decoder produces `Instruction<Word>`, while specifications
/// speak of `Instruction<nat>`, where the operand is its unsigned value.
#[derive(Clone, Debug, PartialEq, Eq)]
pub enum Instruction<W> {
    /// Halts execution.
    Stop,
    /// Addition operation.
    Add,
    /// Multiplication operation.
    Mul,
    /// Subtraction operation.
    Sub,
    /// Integer division operation.
    Div,
    /// Signed integer division operation (truncated).
    Sdiv,
    /// Modulo remainder operation.
    Mod,
    /// Signed modulo remainder operation.
    Smod,
    /// Modulo addition operation.
    AddMod,
    /// Modulo multiplication operation.
    MulMod,
    /// Exponential operation.
    Exp,
    /// Extend length of two's complement signed integer.
    SignExtend,
    /// Less-than comparison.
    Lt,
    /// Greater-than comparison.
    Gt,
    /// Signed less-than comparison.
    Slt,
    /// Signed greater-than comparison.
    Sgt,
    /// Equality comparison.
    Eq,
    /// Simple not operator.
    IsZero,
    /// Bitwise AND operation.
    And,
    /// Bitwise OR operation.
    Or,
    /// Bitwise XOR operation.
    Xor,
    /// Bitwise NOT operation.
    Not,
    /// Retrieve single byte from word.
    Byte,
    /// Shift left.
    Shl,
    /// Logical shift right.
    Shr,
    /// Arithmetic shift right.
    Sar,
    /// Compute Keccak-256 hash.
    Keccak256,
    /// Get address of currently executing account.
    Address,
    /// Get balance of the given account.
    Balance,
    /// Get execution origination address.
    Origin,
    /// Get caller address.
    Caller,
    /// Get deposited value by the instruction/transaction responsible for
    /// this execution.
    CallValue,
    /// Get input data of current environment.
    CallDataLoad,
    /// Get size of input data in current environment.
    CallDataSize,
    /// Copy input data in current environment to memory.
    CallDataCopy,
    /// Get size of code running in current environment.
    CodeSize,
    /// Copy code running in current environment to memory.
    CodeCopy,
    /// Get price of gas in current environment.
    GasPrice,
    /// Get size of an account's code.
    ExtCodeSize,
    /// Copy an account's code to memory.
    ExtCodeCopy,
    /// Pushes the size of the return data buffer onto the stack.
    ReturnDataSize,
    /// Copies data from the return data buffer to memory.
    ReturnDataCopy,
    /// Returns the keccak256 hash of a contract's code.
    ExtCodeHash,
    /// Get the hash of one of the 256 most recent complete blocks.
    BlockHash,
    /// Get the block's beneficiary address.
    Coinbase,
    /// Get the block's timestamp.
    Timestamp,
    /// Get the block's number.
    Number,
    /// Get the block's difficulty.
    Difficulty,
    /// Get the block's gas limit.
    GasLimit,
    /// Returns the current chain's EIP-155 unique identifier.
    ChainId,
    /// Remove word from stack.
    Pop,
    /// Load word from memory.
    MLoad,
    /// Save word to memory.
    MStore,
    /// Save byte to memory.
    MStore8,
    /// Load word from storage.
    SLoad,
    /// Save word to storage.
    SStore,
    /// Alter the program counter.
    Jump,
    /// Conditionally alter the program counter.
    JumpI,
    /// Get the value of the program counter prior to the increment.
    GetPc,
    /// Get the size of active memory in bytes.
    MSize,
    /// Get the amount of available gas.
    Gas,
    /// Mark a valid destination for jumps, at the given byte offset.
    JumpDest(usize),
    /// Place a value of the given byte width on the stack.
    Push(u8, W),
    /// Duplicate n-th stack item.
    Dup(u8),
    /// Exchange 1st and (n+1)-th stack items.
    Swap(u8),
    /// Append log record with n topics.
    Log(u8),
    /// Create a new account with associated code.
    Create,
    /// Message-call into an account.
    Call,
    /// Message-call into this account with alternative account's code.
    CallCode,
    /// Halt execution returning output data.
    Return,
    /// Message-call into this account with an alternative account's code,
    /// but persisting into this account.
    DelegateCall,
    /// Create a new account with a deterministic creation address.
    Create2,
    /// Like a message-call, but does not modify state.
    StaticCall,
    /// Stop execution and revert state changes.
    Revert,
    /// Designated invalid instruction.
    Invalid,
    /// Halt execution and register account for later deletion.
    SelfDestruct,
    /// Unknown binary data.
    Unknown(u8),
}

/// Lowercase character of the hexadecimal digit `d` (digits below ten are
/// also the decimal digit characters).
pub open spec fn hex_char(d: nat) -> char {
    if d == 0 {
        '0'
    } else if d == 1 {
        '1'
    } else if d == 2 {
        '2'
    } else if d == 3 {
        '3'
    } else if d == 4 {
        '4'
    } else if d == 5 {
        '5'
    } else if d == 6 {
        '6'
    } else if d == 7 {
        '7'
    } else if d == 8 {
        '8'
    } else if d == 9 {
        '9'
    } else if d == 10 {
        'a'
    } else if d == 11 {
        'b'
    } else if d == 12 {
        'c'
    } else if d == 13 {
        'd'
    } else if d == 14 {
        'e'
    } else {
        'f'
    }
}

/// Hexadecimal rendering of `n`, lowercase, without padding (`0` renders
/// as a single `'0'`).
pub open spec fn hex_digits(n: nat) -> Seq<char>
    decreases n,
{
    if n < 16 {
        seq![hex_char(n)]
    } else {
        hex_digits(n / 16).push(hex_char(n % 16))
    }
}

/// Decimal rendering of `n`, without padding.
pub open spec fn dec_digits(n: nat) -> Seq<char>
    decreases n,
{
    if n < 10 {
        seq![hex_char(n)]
    } else {
        dec_digits(n / 10).push(hex_char(n % 10))
    }
}

/// The low `width` hexadecimal digits of `v`, zero-padded, lowercase.
pub open spec fn hex_pad(v: nat, width: nat) -> Seq<char>
    decreases width,
{
    if width == 0 {
        Seq::empty()
    } else {
        hex_pad(v / 16, (width - 1) as nat).push(hex_char(v % 16))
    }
}

/// Two zero-padded hexadecimal digits for each byte, in order.
pub open spec fn hex_bytes(b: Seq<u8>) -> Seq<char>
    decreases b.len(),
{
    if b.len() == 0 {
        Seq::empty()
    } else {
        hex_bytes(b.drop_last()) + hex_pad(b.last() as nat, 2)
    }
}

/// The zero-padded hexadecimal rendering of a byte sequence's value is the
/// rendering of its bytes, two digits each.
pub proof fn lemma_hex_pad_bytes(b: Seq<u8>)
    ensures
        hex_pad(be_val(b), 2 * b.len()) == hex_bytes(b),
    decreases b.len(),
{
    if b.len() == 0 {
    } else {
        let v = be_val(b.drop_last()) as int;
        let l = b.last() as int;
        let x = be_val(b) as int;
        assert(x == v * 256 + l);
        assert(x == (v * 16 + l / 16) * 16 + l % 16) by {
            assert(l == (l / 16) * 16 + l % 16) by {
                vstd::arithmetic::div_mod::lemma_fundamental_div_mod(l, 16);
            }
            assert((v * 16 + l / 16) * 16 == v * 256 + (l / 16) * 16) by (nonlinear_arith);
        }
        lemma_fundamental_div_mod_converse(x, 16, v * 16 + l / 16, l % 16);
        let y = v * 16 + l / 16;
        assert(y == v * 16 + (l / 16) % 16 && 0 <= (l / 16) % 16 < 16) by {
            assert(0 <= l / 16 < 16);
            vstd::arithmetic::div_mod::lemma_small_mod((l / 16) as nat, 16);
        }
        lemma_fundamental_div_mod_converse(y, 16, v, l / 16);
        lemma_hex_pad_bytes(b.drop_last());
        let w2 = 2 * b.len();
        assert(hex_pad(be_val(b), w2) == hex_pad(y as nat, (w2 - 1) as nat).push(
            hex_char((l % 16) as nat),
        ));
        assert(hex_pad(y as nat, (w2 - 1) as nat) == hex_pad(v as nat, (w2 - 2) as nat).push(
            hex_char((l / 16) as nat),
        ));
        assert((l / 16) % 16 == l / 16) by {
            vstd::arithmetic::div_mod::lemma_small_mod((l / 16) as nat, 16);
        }
        assert(hex_pad(l as nat, 2) == hex_pad((l / 16) as nat, 1).push(hex_char((l % 16) as nat)));
        assert(hex_pad(((l / 16) / 16) as nat, 0) == Seq::<char>::empty());
        assert(hex_pad((l / 16) as nat, 1) =~= Seq::<char>::empty().push(hex_char((l / 16) as nat)));
        assert(hex_pad(be_val(b), 2 * b.len()) =~= hex_bytes(b));
    }
}

/// The canonical one-line rendering of an instruction, over its
/// mathematical model.
pub open spec fn spec_render(m: Instruction<nat>) -> Seq<char> {
    match m {
        Instruction::Stop => "stop"@,
        Instruction::Add => "add"@,
        Instruction::Mul => "mul"@,
        Instruction::Sub => "sub"@,
        Instruction::Div => "div"@,
        Instruction::Sdiv => "sdiv"@,
        Instruction::Mod => "mod"@,
        Instruction::Smod => "smod"@,
        Instruction::AddMod => "addmod"@,
        Instruction::MulMod => "mulmod"@,
        Instruction::Exp => "exp"@,
        Instruction::SignExtend => "signextend"@,
        Instruction::Lt => "lt"@,
        Instruction::Gt => "gt"@,
        Instruction::Slt => "slt"@,
        Instruction::Sgt => "sgt"@,
        Instruction::Eq => "eq"@,
        Instruction::IsZero => "iszero"@,
        Instruction::And => "and"@,
        Instruction::Or => "or"@,
        Instruction::Xor => "xor"@,
        Instruction::Not => "not"@,
        Instruction::Byte => "byte"@,
        Instruction::Shl => "shl"@,
        Instruction::Shr => "shr"@,
        Instruction::Sar => "sar"@,
        Instruction::Keccak256 => "keccak256"@,
        Instruction::Address => "address"@,
        Instruction::Balance => "balance"@,
        Instruction::Origin => "origin"@,
        Instruction::Caller => "caller"@,
        Instruction::CallValue => "callvalue"@,
        Instruction::CallDataLoad => "calldataload"@,
        Instruction::CallDataSize => "calldatasize"@,
        Instruction::CallDataCopy => "calldatacopy"@,
        Instruction::CodeSize => "codesize"@,
        Instruction::CodeCopy => "codecopy"@,
        Instruction::GasPrice => "gasprice"@,
        Instruction::ExtCodeSize => "extcodesize"@,
        Instruction::ExtCodeCopy => "extcodecopy"@,
        Instruction::ReturnDataSize => "returndatasize"@,
        Instruction::ReturnDataCopy => "returndatacopy"@,
        Instruction::ExtCodeHash => "extcodehash"@,
        Instruction::BlockHash => "blockhash"@,
        Instruction::Coinbase => "coinbase"@,
        Instruction::Timestamp => "timestamp"@,
        Instruction::Number => "number"@,
        Instruction::Difficulty => "difficulty"@,
        Instruction::GasLimit => "gaslimit"@,
        Instruction::ChainId => "chainid"@,
        Instruction::Pop => "pop"@,
        Instruction::MLoad => "mload"@,
        Instruction::MStore => "mstore"@,
        Instruction::MStore8 => "mstore8"@,
        Instruction::SLoad => "sload"@,
        Instruction::SStore => "sstore"@,
        Instruction::Jump => "jump"@,
        Instruction::JumpI => "jumpi"@,
        Instruction::GetPc => "getpc"@,
        Instruction::MSize => "msize"@,
        Instruction::Gas => "gas"@,
        Instruction::JumpDest(offset) => "jumpdest :"@ + hex_digits(offset as nat),
        Instruction::Push(size, value) => "push"@ + dec_digits(size as nat) + " "@ + hex_pad(
            value,
            2 * size as nat,
        ),
        Instruction::Dup(slot) => "dup"@ + dec_digits(slot as nat),
        Instruction::Swap(slot) => "swap"@ + dec_digits(slot as nat),
        Instruction::Log(topics) => "log"@ + dec_digits(topics as nat),
        Instruction::Create => "create"@,
        Instruction::Call => "call"@,
        Instruction::CallCode => "callcode"@,
        Instruction::Return => "return"@,
        Instruction::DelegateCall => "delegatecall"@,
        Instruction::Create2 => "create2"@,
        Instruction::StaticCall => "staticcall"@,
        Instruction::Revert => "revert"@,
        Instruction::Invalid => "invalid"@,
        Instruction::SelfDestruct => "selfdestruct"@,
        Instruction::Unknown(op) => "?"@ + hex_pad(op as nat, 2) + "?"@,
    }
}

impl Instruction<Word> {
    /// The mathematical model of an instruction: the push operand is
    /// replaced by its unsigned value.
    pub open spec fn model(&self) -> Instruction<nat> {
        match self {
            Instruction::Stop => Instruction::Stop,
            Instruction::Add => Instruction::Add,
            Instruction::Mul => Instruction::Mul,
            Instruction::Sub => Instruction::Sub,
            Instruction::Div => Instruction::Div,
            Instruction::Sdiv => Instruction::Sdiv,
            Instruction::Mod => Instruction::Mod,
            Instruction::Smod => Instruction::Smod,
            Instruction::AddMod => Instruction::AddMod,
            Instruction::MulMod => Instruction::MulMod,
            Instruction::Exp => Instruction::Exp,
            Instruction::SignExtend => Instruction::SignExtend,
            Instruction::Lt => Instruction::Lt,
            Instruction::Gt => Instruction::Gt,
            Instruction::Slt => Instruction::Slt,
            Instruction::Sgt => Instruction::Sgt,
            Instruction::Eq => Instruction::Eq,
            Instruction::IsZero => Instruction::IsZero,
            Instruction::And => Instruction::And,
            Instruction::Or => Instruction::Or,
            Instruction::Xor => Instruction::Xor,
            Instruction::Not => Instruction::Not,
            Instruction::Byte => Instruction::Byte,
            Instruction::Shl => Instruction::Shl,
            Instruction::Shr => Instruction::Shr,
            Instruction::Sar => Instruction::Sar,
            Instruction::Keccak256 => Instruction::Keccak256,
            Instruction::Address => Instruction::Address,
            Instruction::Balance => Instruction::Balance,
            Instruction::Origin => Instruction::Origin,
            Instruction::Caller => Instruction::Caller,
            Instruction::CallValue => Instruction::CallValue,
            Instruction::CallDataLoad => Instruction::CallDataLoad,
            Instruction::CallDataSize => Instruction::CallDataSize,
            Instruction::CallDataCopy => Instruction::CallDataCopy,
            Instruction::CodeSize => Instruction::CodeSize,
            Instruction::CodeCopy => Instruction::CodeCopy,
            Instruction::GasPrice => Instruction::GasPrice,
            Instruction::ExtCodeSize => Instruction::ExtCodeSize,
            Instruction::ExtCodeCopy => Instruction::ExtCodeCopy,
            Instruction::ReturnDataSize => Instruction::ReturnDataSize,
            Instruction::ReturnDataCopy => Instruction::ReturnDataCopy,
            Instruction::ExtCodeHash => Instruction::ExtCodeHash,
            Instruction::BlockHash => Instruction::BlockHash,
            Instruction::Coinbase => Instruction::Coinbase,
            Instruction::Timestamp => Instruction::Timestamp,
            Instruction::Number => Instruction::Number,
            Instruction::Difficulty => Instruction::Difficulty,
            Instruction::GasLimit => Instruction::GasLimit,
            Instruction::ChainId => Instruction::ChainId,
            Instruction::Pop => Instruction::Pop,
            Instruction::MLoad => Instruction::MLoad,
            Instruction::MStore => Instruction::MStore,
            Instruction::MStore8 => Instruction::MStore8,
            Instruction::SLoad => Instruction::SLoad,
            Instruction::SStore => Instruction::SStore,
            Instruction::Jump => Instruction::Jump,
            Instruction::JumpI => Instruction::JumpI,
            Instruction::GetPc => Instruction::GetPc,
            Instruction::MSize => Instruction::MSize,
            Instruction::Gas => Instruction::Gas,
            Instruction::JumpDest(offset) => Instruction::JumpDest(*offset),
            Instruction::Push(size, value) => Instruction::Push(*size, value.value()),
            Instruction::Dup(slot) => Instruction::Dup(*slot),
            Instruction::Swap(slot) => Instruction::Swap(*slot),
            Instruction::Log(topics) => Instruction::Log(*topics),
            Instruction::Create => Instruction::Create,
            Instruction::Call => Instruction::Call,
            Instruction::CallCode => Instruction::CallCode,
            Instruction::Return => Instruction::Return,
            Instruction::DelegateCall => Instruction::DelegateCall,
            Instruction::Create2 => Instruction::Create2,
            Instruction::StaticCall => Instruction::StaticCall,
            Instruction::Revert => Instruction::Revert,
            Instruction::Invalid => Instruction::Invalid,
            Instruction::SelfDestruct => Instruction::SelfDestruct,
            Instruction::Unknown(op) => Instruction::Unknown(*op),
        }
    }

    /// Structural invariant of a decoded instruction: operands lie in the
    /// ranges the opcode encoding admits, and a push operand fits its
    /// declared byte width.
    pub open spec fn wf(&self) -> bool {
        match self {
            Instruction::Push(size, value) => {
                &&& 1 <= *size <= 32
                &&& value.wf()
                &&& forall|j: int| 0 <= j < 32 - *size ==> value@[j] == 0
            },
            Instruction::Dup(slot) => 1 <= *slot <= 16,
            Instruction::Swap(slot) => 1 <= *slot <= 16,
            Instruction::Log(topics) => *topics <= 4,
            _ => true,
        }
    }

    /// Renders the instruction as its canonical line of lowercase text.
    pub fn render(&self) -> (r: String)
        requires
            self.wf(),
        ensures
            r@ == spec_render(self.model()),
    {
        match self {
            Instruction::Stop => String::from_str("stop"),
            Instruction::Add => String::from_str("add"),
            Instruction::Mul => String::from_str("mul"),
            Instruction::Sub => String::from_str("sub"),
            Instruction::Div => String::from_str("div"),
            Instruction::Sdiv => String::from_str("sdiv"),
            Instruction::Mod => String::from_str("mod"),
            Instruction::Smod => String::from_str("smod"),
            Instruction::AddMod => String::from_str("addmod"),
            Instruction::MulMod => String::from_str("mulmod"),
            Instruction::Exp => String::from_str("exp"),
            Instruction::SignExtend => String::from_str("signextend"),
            Instruction::Lt => String::from_str("lt"),
            Instruction::Gt => String::from_str("gt"),
            Instruction::Slt => String::from_str("slt"),
            Instruction::Sgt => String::from_str("sgt"),
            Instruction::Eq => String::from_str("eq"),
            Instruction::IsZero => String::from_str("iszero"),
            Instruction::And => String::from_str("and"),
            Instruction::Or => String::from_str("or"),
            Instruction::Xor => String::from_str("xor"),
            Instruction::Not => String::from_str("not"),
            Instruction::Byte => String::from_str("byte"),
            Instruction::Shl => String::from_str("shl"),
            Instruction::Shr => String::from_str("shr"),
            Instruction::Sar => String::from_str("sar"),
            Instruction::Keccak256 => String::from_str("keccak256"),
            Instruction::Address => String::from_str("address"),
            Instruction::Balance => String::from_str("balance"),
            Instruction::Origin => String::from_str("origin"),
            Instruction::Caller => String::from_str("caller"),
            Instruction::CallValue => String::from_str("callvalue"),
            Instruction::CallDataLoad => String::from_str("calldataload"),
            Instruction::CallDataSize => String::from_str("calldatasize"),
            Instruction::CallDataCopy => String::from_str("calldatacopy"),
            Instruction::CodeSize => String::from_str("codesize"),
            Instruction::CodeCopy => String::from_str("codecopy"),
            Instruction::GasPrice => String::from_str("gasprice"),
            Instruction::ExtCodeSize => String::from_str("extcodesize"),
            Instruction::ExtCodeCopy => String::from_str("extcodecopy"),
            Instruction::ReturnDataSize => String::from_str("returndatasize"),
            Instruction::ReturnDataCopy => String::from_str("returndatacopy"),
            Instruction::ExtCodeHash => String::from_str("extcodehash"),
            Instruction::BlockHash => String::from_str("blockhash"),
            Instruction::Coinbase => String::from_str("coinbase"),
            Instruction::Timestamp => String::from_str("timestamp"),
            Instruction::Number => String::from_str("number"),
            Instruction::Difficulty => String::from_str("difficulty"),
            Instruction::GasLimit => String::from_str("gaslimit"),
            Instruction::ChainId => String::from_str("chainid"),
            Instruction::Pop => String::from_str("pop"),
            Instruction::MLoad => String::from_str("mload"),
            Instruction::MStore => String::from_str("mstore"),
            Instruction::MStore8 => String::from_str("mstore8"),
            Instruction::SLoad => String::from_str("sload"),
            Instruction::SStore => String::from_str("sstore"),
            Instruction::Jump => String::from_str("jump"),
            Instruction::JumpI => String::from_str("jumpi"),
            Instruction::GetPc => String::from_str("getpc"),
            Instruction::MSize => String::from_str("msize"),
            Instruction::Gas => String::from_str("gas"),
            Instruction::JumpDest(offset) => {
                let mut s = String::from_str("jumpdest :");
                append_hex_usize(&mut s, *offset);
                s
            },
            Instruction::Push(size, value) => {
                let mut s = String::from_str("push");
                append_dec_u8(&mut s, *size);
                s.append(" ");
                let start: usize = 32 - (*size as usize);
                let mut k: usize = start;
                proof {
                    assert(value@.subrange(start as int, start as int) =~= Seq::<u8>::empty());
                }
                while k < 32
                    invariant
                        start <= k <= 32,
                        start == 32 - *size,
                        1 <= *size <= 32,
                        value.wf(),
                        s@ == "push"@ + dec_digits(*size as nat) + " "@ + hex_bytes(
                            value@.subrange(start as int, k as int),
                        ),
                    decreases 32 - k,
                {
                    append_hex_byte(&mut s, value.bytes[k]);
                    k = k + 1;
                    proof {
                        let part = value@.subrange(start as int, k as int);
                        assert(part.drop_last() =~= value@.subrange(start as int, k - 1));
                        assert(part.last() == value@[k - 1]);
                        assert(s@ =~= "push"@ + dec_digits(*size as nat) + " "@ + hex_bytes(part));
                    }
                }
                proof {
                    let suffix = value@.subrange(start as int, 32);
                    let prefix = value@.subrange(0, start as int);
                    assert(forall|j: int| 0 <= j < prefix.len() ==> prefix[j] == 0);
                    assert(prefix + suffix =~= value@);
                    lemma_be_val_zero_prefix(prefix, suffix);
                    lemma_hex_pad_bytes(suffix);
                }
                s
            },
            Instruction::Dup(slot) => {
                let mut s = String::from_str("dup");
                append_dec_u8(&mut s, *slot);
                s
            },
            Instruction::Swap(slot) => {
                let mut s = String::from_str("swap");
                append_dec_u8(&mut s, *slot);
                s
            },
            Instruction::Log(topics) => {
                let mut s = String::from_str("log");
                append_dec_u8(&mut s, *topics);
                s
            },
            Instruction::Create => String::from_str("create"),
            Instruction::Call => String::from_str("call"),
            Instruction::CallCode => String::from_str("callcode"),
            Instruction::Return => String::from_str("return"),
            Instruction::DelegateCall => String::from_str("delegatecall"),
            Instruction::Create2 => String::from_str("create2"),
            Instruction::StaticCall => String::from_str("staticcall"),
            Instruction::Revert => String::from_str("revert"),
            Instruction::Invalid => String::from_str("invalid"),
            Instruction::SelfDestruct => String::from_str("selfdestruct"),
            Instruction::Unknown(op) => {
                let mut s = String::from_str("?");
                append_hex_byte(&mut s, *op);
                s.append("?");
                s
            },
        }
    }
}

/// Appends the single lowercase digit character of `d`.
fn append_digit(s: &mut String, d: u8)
    requires
        d < 16,
    ensures
        final(s)@ == old(s)@.push(hex_char(d as nat)),
{
    let ghost before = s@;
    if d == 0 {
        s.append("0");
        proof {
            reveal_strlit("0");
        }
    } else if d == 1 {
        s.append("1");
        proof {
            reveal_strlit("1");
        }
    } else if d == 2 {
        s.append("2");
        proof {
            reveal_strlit("2");
        }
    } else if d == 3 {
        s.append("3");
        proof {
            reveal_strlit("3");
        }
    } else if d == 4 {
        s.append("4");
        proof {
            reveal_strlit("4");
        }
    } else if d == 5 {
        s.append("5");
        proof {
            reveal_strlit("5");
        }
    } else if d == 6 {
        s.append("6");
        proof {
            reveal_strlit("6");
        }
    } else if d == 7 {
        s.append("7");
        proof {
            reveal_strlit("7");
        }
    } else if d == 8 {
        s.append("8");
        proof {
            reveal_strlit("8");
        }
    } else if d == 9 {
        s.append("9");
        proof {
            reveal_strlit("9");
        }
    } else if d == 10 {
        s.append("a");
        proof {
            reveal_strlit("a");
        }
    } else if d == 11 {
        s.append("b");
        proof {
            reveal_strlit("b");
        }
    } else if d == 12 {
        s.append("c");
        proof {
            reveal_strlit("c");
        }
    } else if d == 13 {
        s.append("d");
        proof {
            reveal_strlit("d");
        }
    } else if d == 14 {
        s.append("e");
        proof {
            reveal_strlit("e");
        }
    } else {
        s.append("f");
        proof {
            reveal_strlit("f");
        }
    }
    proof {
        assert(s@ =~= before.push(hex_char(d as nat)));
    }
}

/// Appends the unpadded lowercase hexadecimal rendering of `n`.
fn append_hex_usize(s: &mut String, n: usize)
    ensures
        final(s)@ == old(s)@ + hex_digits(n as nat),
    decreases n,
{
    if n < 16 {
        append_digit(s, n as u8);
        proof {
            assert(old(s)@ + hex_digits(n as nat) =~= old(s)@.push(hex_char(n as nat)));
        }
    } else {
        append_hex_usize(s, n / 16);
        append_digit(s, (n % 16) as u8);
        proof {
            assert(old(s)@ + hex_digits(n as nat) =~= (old(s)@ + hex_digits((n / 16) as nat)).push(
                hex_char((n % 16) as nat),
            ));
        }
    }
}

/// Appends the unpadded decimal rendering of `n`.
fn append_dec_u8(s: &mut String, n: u8)
    ensures
        final(s)@ == old(s)@ + dec_digits(n as nat),
    decreases n,
{
    if n < 10 {
        append_digit(s, n);
        proof {
            assert(old(s)@ + dec_digits(n as nat) =~= old(s)@.push(hex_char(n as nat)));
        }
    } else {
        append_dec_u8(s, n / 10);
        append_digit(s, n % 10);
        proof {
            assert(old(s)@ + dec_digits(n as nat) =~= (old(s)@ + dec_digits((n / 10) as nat)).push(
                hex_char((n % 10) as nat),
            ));
        }
    }
}

/// Appends the two zero-padded lowercase hexadecimal digits of one byte.
fn append_hex_byte(s: &mut String, b: u8)
    ensures
        final(s)@ == old(s)@ + hex_pad(b as nat, 2),
{
    append_digit(s, b / 16);
    append_digit(s, b % 16);
    proof {
        assert((b / 16) % 16 == b / 16) by {
            vstd::arithmetic::div_mod::lemma_small_mod((b / 16) as nat, 16);
        }
        assert(hex_pad(b as nat, 2) == hex_pad((b / 16) as nat, 1).push(hex_char((b % 16) as nat)));
        assert(hex_pad(((b / 16) / 16) as nat, 0) == Seq::<char>::empty());
        assert(hex_pad((b / 16) as nat, 1) =~= Seq::<char>::empty().push(hex_char((b / 16) as nat)));
        assert(s@ =~= old(s)@ + hex_pad(b as nat, 2));
    }
}

} // verus!
