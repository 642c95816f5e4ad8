//! Instructions in the form in which multisig proposals carry them: a binary
//! encoding of the program, the accounts and the payload, written in Base64.

use vstd::prelude::*;
use vstd::string::StringExecFns;
use crate::instruction::{AccountMeta, Instruction, InstructionView};
use crate::pubkey::{base58_text, Pubkey};

verus! {

/// One account of a serialized instruction.
#[derive(Debug, Clone, Copy, PartialEq, Eq)]
pub struct TransactionAccount {
    pub pubkey: Pubkey,
    pub is_signer: bool,
    pub is_writable: bool,
}

/// An instruction as it is serialized.
#[derive(Debug)]
pub struct TransactionInstruction {
    /// Target program to execute against.
    pub program_id: Pubkey,
    /// Accounts required for the transaction.
    pub accounts: Vec<TransactionAccount>,
    /// Instruction data for the transaction.
    pub data: Vec<u8>,
}

/// What a serialized instruction holds.
pub struct TransactionInstructionView {
    pub program_id: Pubkey,
    pub accounts: Seq<TransactionAccount>,
    pub data: Seq<u8>,
}

impl View for TransactionInstruction {
    type V = TransactionInstructionView;

    open spec fn view(&self) -> TransactionInstructionView {
        TransactionInstructionView {
            program_id: self.program_id,
            accounts: self.accounts@,
            data: self.data@,
        }
    }
}

/// Why bytes or lengths cannot be turned into one another.
#[derive(Debug, Clone, Copy, PartialEq, Eq)]
pub enum CodecError {
    /// A list is longer than its 32-bit length prefix can say.
    TooLong,
    /// The bytes end before the instruction does.
    UnexpectedEnd,
    /// A flag is neither 0 nor 1.
    InvalidBool,
    /// Bytes follow the end of the instruction.
    TrailingBytes,
    /// The text is not Base64.
    InvalidBase64,
}

/// The account reference that stands for a serialized account.
pub open spec fn account_meta_of(account: TransactionAccount) -> AccountMeta {
    AccountMeta {
        pubkey: account.pubkey,
        is_signer: account.is_signer,
        is_writable: account.is_writable,
    }
}

/// The serialized account that stands for an account reference.
pub open spec fn transaction_account_of(meta: AccountMeta) -> TransactionAccount {
    TransactionAccount {
        pubkey: meta.pubkey,
        is_signer: meta.is_signer,
        is_writable: meta.is_writable,
    }
}

/// The instruction that stands for a serialized instruction.
pub open spec fn instruction_of(instruction: TransactionInstructionView) -> InstructionView {
    InstructionView {
        program_id: instruction.program_id,
        accounts: Seq::new(instruction.accounts.len(), |i: int| account_meta_of(instruction.accounts[i])),
        data: instruction.data,
    }
}

/// The serialized instruction that stands for an instruction.
pub open spec fn transaction_instruction_of(instruction: InstructionView) -> TransactionInstructionView {
    TransactionInstructionView {
        program_id: instruction.program_id,
        accounts: Seq::new(
            instruction.accounts.len(),
            |i: int| transaction_account_of(instruction.accounts[i]),
        ),
        data: instruction.data,
    }
}

impl TransactionAccount {
    /// The account reference with the same key and flags: a writable one or a
    /// read-only one, as the flag says.
    pub fn to_account_meta(&self) -> (meta: AccountMeta)
        ensures
            meta == account_meta_of(*self),
    {
        if self.is_writable {
            AccountMeta::new(self.pubkey, self.is_signer)
        } else {
            AccountMeta::new_readonly(self.pubkey, self.is_signer)
        }
    }

    /// The serialized account with the key and flags of `meta`.
    pub fn from_account_meta(meta: &AccountMeta) -> (account: TransactionAccount)
        ensures
            account == transaction_account_of(*meta),
    {
        TransactionAccount {
            pubkey: meta.pubkey,
            is_signer: meta.is_signer,
            is_writable: meta.is_writable,
        }
    }
}

/// An account reference that is serialized and read back is the same as before.
pub proof fn lemma_account_meta_round_trip(meta: AccountMeta)
    ensures
        account_meta_of(transaction_account_of(meta)) == meta,
{
}

/// A serialized account that is turned into an account reference and back is the
/// same as before.
pub proof fn lemma_transaction_account_round_trip(account: TransactionAccount)
    ensures
        transaction_account_of(account_meta_of(account)) == account,
{
}

/// An instruction that is serialized and read back has the same program, the same
/// accounts and the same data as before.
pub proof fn lemma_instruction_round_trip(instruction: InstructionView)
    ensures
        instruction_of(transaction_instruction_of(instruction)) == instruction,
{
    let back = instruction_of(transaction_instruction_of(instruction));
    assert(back.accounts =~= instruction.accounts);
}

impl TransactionInstruction {
    /// The instruction with the same program, accounts and data.
    pub fn to_instruction(&self) -> (instruction: Instruction)
        ensures
            instruction@ == instruction_of(self@),
    {
        let mut accounts: Vec<AccountMeta> = Vec::new();
        let mut i: usize = 0;
        while i < self.accounts.len()
            invariant
                i <= self.accounts.len(),
                accounts@.len() == i,
                forall|j: int| 0 <= j < i ==> accounts@[j] == account_meta_of(self.accounts@[j]),
            decreases self.accounts.len() - i,
        {
            accounts.push(self.accounts[i].to_account_meta());
            i += 1;
        }
        let instruction = Instruction {
            program_id: self.program_id,
            accounts,
            data: crate::instruction::copy_bytes(&self.data),
        };
        assert(instruction@.accounts =~= instruction_of(self@).accounts);
        instruction
    }

    /// The serialized form of `instruction`.
    pub fn from_instruction(instruction: &Instruction) -> (serialized: TransactionInstruction)
        ensures
            serialized@ == transaction_instruction_of(instruction@),
    {
        let mut accounts: Vec<TransactionAccount> = Vec::new();
        let mut i: usize = 0;
        while i < instruction.accounts.len()
            invariant
                i <= instruction.accounts.len(),
                accounts@.len() == i,
                forall|j: int|
                    0 <= j < i ==> accounts@[j] == transaction_account_of(instruction.accounts@[j]),
            decreases instruction.accounts.len() - i,
        {
            accounts.push(TransactionAccount::from_account_meta(&instruction.accounts[i]));
            i += 1;
        }
        let serialized = TransactionInstruction {
            program_id: instruction.program_id,
            accounts,
            data: crate::instruction::copy_bytes(&instruction.data),
        };
        assert(serialized@.accounts =~= transaction_instruction_of(instruction@).accounts);
        serialized
    }
}

impl Clone for TransactionInstruction {
    fn clone(&self) -> (copy: Self)
        ensures
            copy@ == self@,
    {
        let mut accounts: Vec<TransactionAccount> = Vec::new();
        let mut i: usize = 0;
        while i < self.accounts.len()
            invariant
                i <= self.accounts.len(),
                accounts@ == self.accounts@.subrange(0, i as int),
            decreases self.accounts.len() - i,
        {
            accounts.push(self.accounts[i]);
            assert(accounts@ =~= self.accounts@.subrange(0, i + 1));
            i += 1;
        }
        assert(self.accounts@.subrange(0, i as int) =~= self.accounts@);
        TransactionInstruction {
            program_id: self.program_id,
            accounts,
            data: crate::instruction::copy_bytes(&self.data),
        }
    }
}

/// The four bytes of a 32-bit length, least significant first.
pub open spec fn u32_le(n: nat) -> Seq<u8> {
    seq![
        (n % 256) as u8,
        ((n / 256) % 256) as u8,
        ((n / 65536) % 256) as u8,
        ((n / 16777216) % 256) as u8,
    ]
}

/// The length that four bytes stand for, least significant first.
pub open spec fn u32_from_le(bytes: Seq<u8>) -> nat {
    (bytes[0] + 256 * bytes[1] + 65536 * bytes[2] + 16777216 * bytes[3]) as nat
}

/// The byte of a flag.
pub open spec fn flag_byte(flag: bool) -> u8 {
    if flag {
        1
    } else {
        0
    }
}

/// The 34 bytes of one account: the key and the two flags.
pub open spec fn account_encoding(account: TransactionAccount) -> Seq<u8> {
    account.pubkey.bytes@ + seq![flag_byte(account.is_signer), flag_byte(account.is_writable)]
}

/// The bytes of the accounts, one after the other.
pub open spec fn accounts_encoding(accounts: Seq<TransactionAccount>) -> Seq<u8>
    decreases accounts.len(),
{
    if accounts.len() == 0 {
        Seq::empty()
    } else {
        accounts_encoding(accounts.drop_last()) + account_encoding(accounts.last())
    }
}

/// Whether the lists of the instruction are short enough for a 32-bit length.
pub open spec fn lengths_fit(instruction: TransactionInstructionView) -> bool {
    instruction.accounts.len() <= u32::MAX && instruction.data.len() <= u32::MAX
}

/// The binary encoding of an instruction: the program's key, the number of
/// accounts and the accounts, the length of the data and the data.
pub open spec fn instruction_encoding(instruction: TransactionInstructionView) -> Seq<u8> {
    instruction.program_id.bytes@ + u32_le(instruction.accounts.len()) + accounts_encoding(
        instruction.accounts,
    ) + u32_le(instruction.data.len()) + instruction.data
}

/// Appends the four bytes of `n`, least significant first.
fn append_u32(out: &mut Vec<u8>, n: u32)
    ensures
        final(out)@ == old(out)@ + u32_le(n as nat),
{
    out.push((n % 256) as u8);
    out.push(((n / 256) % 256) as u8);
    out.push(((n / 65536) % 256) as u8);
    out.push(((n / 16777216) % 256) as u8);
    assert(out@ =~= old(out)@ + u32_le(n as nat));
}

/// Appends the 32 bytes of `key`.
fn append_key(out: &mut Vec<u8>, key: &Pubkey)
    ensures
        final(out)@ == old(out)@ + key.bytes@,
{
    let mut i: usize = 0;
    while i < 32
        invariant
            i <= 32,
            out@ == old(out)@ + key.bytes@.subrange(0, i as int),
        decreases 32 - i,
    {
        out.push(key.bytes[i]);
        assert(out@ =~= old(out)@ + key.bytes@.subrange(0, i + 1));
        i += 1;
    }
    assert(key.bytes@.subrange(0, 32) =~= key.bytes@);
}

impl TransactionInstruction {
    /// The binary encoding of the instruction, unless a list is too long for its
    /// length prefix.
    pub fn try_to_vec(&self) -> (encoded: Result<Vec<u8>, CodecError>)
        ensures
            match encoded {
                Ok(bytes) => lengths_fit(self@) && bytes@ == instruction_encoding(self@),
                Err(reason) => !lengths_fit(self@) && reason == CodecError::TooLong,
            },
    {
        if self.accounts.len() > u32::MAX as usize || self.data.len() > u32::MAX as usize {
            return Err(CodecError::TooLong);
        }
        let mut bytes: Vec<u8> = Vec::new();
        append_key(&mut bytes, &self.program_id);
        append_u32(&mut bytes, self.accounts.len() as u32);
        let ghost head = bytes@;
        let mut i: usize = 0;
        assert(accounts_encoding(self.accounts@.subrange(0, 0)) =~= Seq::<u8>::empty());
        while i < self.accounts.len()
            invariant
                i <= self.accounts.len(),
                bytes@ == head + accounts_encoding(self.accounts@.subrange(0, i as int)),
            decreases self.accounts.len() - i,
        {
            let account = &self.accounts[i];
            let ghost before = bytes@;
            append_key(&mut bytes, &account.pubkey);
            bytes.push(if account.is_signer { 1 } else { 0 });
            bytes.push(if account.is_writable { 1 } else { 0 });
            proof {
                let longer = self.accounts@.subrange(0, i + 1);
                assert(longer.drop_last() =~= self.accounts@.subrange(0, i as int));
                assert(longer.last() == *account);
                assert(bytes@ =~= before + account_encoding(*account));
                assert(bytes@ =~= head + accounts_encoding(longer));
            }
            i += 1;
        }
        assert(self.accounts@.subrange(0, i as int) =~= self.accounts@);
        append_u32(&mut bytes, self.data.len() as u32);
        let ghost framed = bytes@;
        let mut j: usize = 0;
        while j < self.data.len()
            invariant
                j <= self.data.len(),
                bytes@ == framed + self.data@.subrange(0, j as int),
            decreases self.data.len() - j,
        {
            bytes.push(self.data[j]);
            assert(bytes@ =~= framed + self.data@.subrange(0, j + 1));
            j += 1;
        }
        assert(self.data@.subrange(0, j as int) =~= self.data@);
        Ok(bytes)
    }
}

/// The text of these bytes in Base64, with the standard alphabet and padding.
pub uninterp spec fn base64_text(bytes: Seq<u8>) -> Seq<char>;

/// The bytes that this text stands for in Base64, where it stands for any.
pub uninterp spec fn base64_bytes(text: Seq<char>) -> Option<Seq<u8>>;

/// `base64::encode`: the standard Base64 text of the bytes, from which
/// `base64::decode` gets the same bytes back. It fails where the length of the
/// text does not fit `usize`, which the bound on the input rules out.
#[verifier::external_body]
#[allow(deprecated)]
fn encode_base64(bytes: &Vec<u8>) -> (text: String)
    requires
        bytes@.len() <= usize::MAX / 2,
    ensures
        text@ == base64_text(bytes@),
        base64_bytes(text@) == Some(bytes@),
{
    base64::encode(bytes)
}

/// `base64::decode`: the bytes of a standard Base64 text, or nothing where the
/// text is not one.
#[verifier::external_body]
#[allow(deprecated)]
fn decode_base64(text: &str) -> (bytes: Option<Vec<u8>>)
    ensures
        match bytes {
            Some(decoded) => base64_bytes(text@) == Some(decoded@),
            None => base64_bytes(text@) is None,
        },
{
    base64::decode(text).ok()
}

/// What is wrong with the account that should start at `at`, if anything.
pub open spec fn account_defect(bytes: Seq<u8>, at: int) -> Option<CodecError> {
    if bytes.len() < at + 33 {
        Some(CodecError::UnexpectedEnd)
    } else if bytes[at + 32] > 1 {
        Some(CodecError::InvalidBool)
    } else if bytes.len() < at + 34 {
        Some(CodecError::UnexpectedEnd)
    } else if bytes[at + 33] > 1 {
        Some(CodecError::InvalidBool)
    } else {
        None
    }
}

/// What is wrong with the first of the first `count` accounts that has a defect.
pub open spec fn accounts_defect(bytes: Seq<u8>, count: nat) -> Option<CodecError>
    decreases count,
{
    if count == 0 {
        None
    } else {
        match accounts_defect(bytes, (count - 1) as nat) {
            Some(defect) => Some(defect),
            None => account_defect(bytes, 36 + 34 * (count - 1)),
        }
    }
}

/// What keeps `bytes` from being the encoding of an instruction: the first defect
/// met when reading from the start; nothing where they are an encoding.
pub open spec fn decode_defect(bytes: Seq<u8>) -> Option<CodecError> {
    if bytes.len() < 36 {
        Some(CodecError::UnexpectedEnd)
    } else {
        let count = u32_from_le(bytes.subrange(32, 36));
        match accounts_defect(bytes, count) {
            Some(defect) => Some(defect),
            None => {
                let at: int = 36 + 34 * (count as int);
                if bytes.len() < at + 4 {
                    Some(CodecError::UnexpectedEnd)
                } else {
                    let len = u32_from_le(bytes.subrange(at, at + 4));
                    if bytes.len() < at + 4 + len {
                        Some(CodecError::UnexpectedEnd)
                    } else if bytes.len() > at + 4 + len {
                        Some(CodecError::TrailingBytes)
                    } else {
                        None
                    }
                }
            },
        }
    }
}

/// Four bytes are the bytes of the length that they stand for.
pub proof fn lemma_u32_bytes(bytes: Seq<u8>)
    requires
        bytes.len() == 4,
    ensures
        u32_from_le(bytes) <= u32::MAX,
        u32_le(u32_from_le(bytes)) == bytes,
{
    let n = u32_from_le(bytes);
    assert(n % 256 == bytes[0] as nat);
    assert((n / 256) % 256 == bytes[1] as nat);
    assert((n / 65536) % 256 == bytes[2] as nat);
    assert((n / 16777216) % 256 == bytes[3] as nat);
    assert(u32_le(n) =~= bytes);
}

/// A 32-bit length is the length that its bytes stand for.
pub proof fn lemma_u32_value(n: nat)
    requires
        n <= u32::MAX,
    ensures
        u32_from_le(u32_le(n)) == n,
{
    let x = n as int;
    let q1 = x / 256;
    let q2 = q1 / 256;
    let q3 = q2 / 256;
    vstd::arithmetic::div_mod::lemma_fundamental_div_mod(x, 256);
    vstd::arithmetic::div_mod::lemma_fundamental_div_mod(q1, 256);
    vstd::arithmetic::div_mod::lemma_fundamental_div_mod(q2, 256);
    vstd::arithmetic::div_mod::lemma_div_denominator(x, 256, 256);
    vstd::arithmetic::div_mod::lemma_div_denominator(x, 65536, 256);
    assert(q2 == x / 65536);
    assert(q3 == x / 16777216);
    assert(0 <= q3 < 256);
    assert(q3 % 256 == q3);
    let bytes = u32_le(n);
    assert(bytes[0] == x % 256);
    assert(bytes[1] == q1 % 256);
    assert(bytes[2] == q2 % 256);
    assert(bytes[3] == q3);
    assert(x == x % 256 + 256 * (q1 % 256) + 65536 * (q2 % 256) + 16777216 * q3);
}

/// The encoding of `n` accounts has 34 bytes for each.
pub proof fn lemma_accounts_encoding_len(accounts: Seq<TransactionAccount>)
    ensures
        accounts_encoding(accounts).len() == 34 * accounts.len(),
    decreases accounts.len(),
{
    if accounts.len() > 0 {
        lemma_accounts_encoding_len(accounts.drop_last());
    }
}

/// The encoding of the accounts holds the encoding of each at its place.
pub proof fn lemma_accounts_encoding_at(accounts: Seq<TransactionAccount>, i: int)
    requires
        0 <= i < accounts.len(),
    ensures
        accounts_encoding(accounts).len() == 34 * accounts.len(),
        accounts_encoding(accounts).subrange(34 * i, 34 * i + 34) == account_encoding(accounts[i]),
    decreases accounts.len(),
{
    lemma_accounts_encoding_len(accounts);
    lemma_accounts_encoding_len(accounts.drop_last());
    if i < accounts.len() - 1 {
        lemma_accounts_encoding_at(accounts.drop_last(), i);
        assert(accounts_encoding(accounts).subrange(34 * i, 34 * i + 34) =~= accounts_encoding(
            accounts.drop_last(),
        ).subrange(34 * i, 34 * i + 34));
    } else {
        assert(accounts_encoding(accounts).subrange(34 * i, 34 * i + 34) =~= account_encoding(
            accounts[i],
        ));
    }
}

/// Once an account has a defect, reading more accounts reports the same defect.
proof fn lemma_defect_persists(bytes: Seq<u8>, found: nat, count: nat)
    requires
        found <= count,
        accounts_defect(bytes, found) is Some,
    ensures
        accounts_defect(bytes, count) == accounts_defect(bytes, found),
    decreases count - found,
{
    if found < count {
        lemma_defect_persists(bytes, found, (count - 1) as nat);
    }
}

/// The key of the 32 bytes from `at` on.
fn read_key(bytes: &[u8], at: usize) -> (key: Pubkey)
    requires
        at + 32 <= bytes@.len(),
    ensures
        key.bytes@ == bytes@.subrange(at as int, at + 32),
{
    let mut raw: [u8; 32] = [0u8; 32];
    let total = bytes.len();
    let mut i: usize = 0;
    while i < 32
        invariant
            i <= 32,
            total == bytes@.len(),
            at + 32 <= total,
            forall|j: int| 0 <= j < i ==> raw@[j] == bytes@[at + j],
        decreases 32 - i,
    {
        raw[i] = bytes[at + i];
        i += 1;
    }
    assert(raw@ =~= bytes@.subrange(at as int, at + 32));
    Pubkey { bytes: raw }
}

/// The length that the four bytes from `at` on stand for.
fn read_u32(bytes: &[u8], at: usize) -> (n: u32)
    requires
        at + 4 <= bytes@.len(),
    ensures
        n == u32_from_le(bytes@.subrange(at as int, at + 4)),
{
    let b0: u32 = bytes[at] as u32;
    let b1: u32 = bytes[at + 1] as u32;
    let b2: u32 = bytes[at + 2] as u32;
    let b3: u32 = bytes[at + 3] as u32;
    b0 + 256 * b1 + 65536 * b2 + 16777216 * b3
}

impl TransactionInstruction {
    /// The instruction of which `bytes` are the binary encoding; or what keeps
    /// them from being one.
    pub fn try_from_slice(bytes: &[u8]) -> (decoded: Result<TransactionInstruction, CodecError>)
        ensures
            match decoded {
                Ok(instruction) => {
                    &&& decode_defect(bytes@) is None
                    &&& lengths_fit(instruction@)
                    &&& instruction_encoding(instruction@) == bytes@
                },
                Err(reason) => decode_defect(bytes@) == Some(reason),
            },
    {
        if bytes.len() < 36 {
            return Err(CodecError::UnexpectedEnd);
        }
        let program_id = read_key(bytes, 0);
        let count = read_u32(bytes, 32) as usize;
        let mut accounts: Vec<TransactionAccount> = Vec::new();
        let mut at: usize = 36;
        let mut i: usize = 0;
        proof {
            assert(accounts_encoding(accounts@) =~= bytes@.subrange(36, 36));
        }
        while i < count
            invariant
                i <= count,
                at == 36 + 34 * i,
                at <= bytes@.len(),
                count == u32_from_le(bytes@.subrange(32, 36)),
                accounts_defect(bytes@, i as nat) is None,
                accounts@.len() == i,
                accounts_encoding(accounts@) == bytes@.subrange(36, at as int),
            decreases count - i,
        {
            if bytes.len() - at < 33 {
                proof {
                    lemma_defect_persists(bytes@, (i + 1) as nat, count as nat);
                }
                return Err(CodecError::UnexpectedEnd);
            }
            let pubkey = read_key(bytes, at);
            let signer = bytes[at + 32];
            if signer > 1 {
                proof {
                    lemma_defect_persists(bytes@, (i + 1) as nat, count as nat);
                }
                return Err(CodecError::InvalidBool);
            }
            if bytes.len() - at < 34 {
                proof {
                    lemma_defect_persists(bytes@, (i + 1) as nat, count as nat);
                }
                return Err(CodecError::UnexpectedEnd);
            }
            let writable = bytes[at + 33];
            if writable > 1 {
                proof {
                    lemma_defect_persists(bytes@, (i + 1) as nat, count as nat);
                }
                return Err(CodecError::InvalidBool);
            }
            let account = TransactionAccount {
                pubkey,
                is_signer: signer == 1,
                is_writable: writable == 1,
            };
            let ghost before = accounts@;
            accounts.push(account);
            proof {
                assert(accounts@.drop_last() =~= before);
                assert(account_encoding(account) =~= bytes@.subrange(at as int, at + 34));
                assert(accounts_encoding(accounts@) =~= bytes@.subrange(36, at + 34));
            }
            at += 34;
            i += 1;
        }
        if bytes.len() - at < 4 {
            return Err(CodecError::UnexpectedEnd);
        }
        let len = read_u32(bytes, at) as usize;
        if bytes.len() - at - 4 < len {
            return Err(CodecError::UnexpectedEnd);
        }
        if bytes.len() - at - 4 > len {
            return Err(CodecError::TrailingBytes);
        }
        let mut data: Vec<u8> = Vec::new();
        let total = bytes.len();
        let mut j: usize = 0;
        while j < len
            invariant
                j <= len,
                total == bytes@.len(),
                at + 4 + len == total,
                data@ == bytes@.subrange(at + 4, at + 4 + j),
            decreases len - j,
        {
            data.push(bytes[at + 4 + j]);
            assert(data@ =~= bytes@.subrange(at + 4, at + 4 + j + 1));
            j += 1;
        }
        let instruction = TransactionInstruction { program_id, accounts, data };
        proof {
            lemma_u32_bytes(bytes@.subrange(32, 36));
            lemma_u32_bytes(bytes@.subrange(at as int, at + 4));
            assert(instruction_encoding(instruction@) =~= bytes@);
        }
        Ok(instruction)
    }

    /// The encoding of the instruction in Base64, unless the instruction is too
    /// long to be encoded.
    pub fn to_base64(&self) -> (text: Result<String, CodecError>)
        ensures
            match text {
                Ok(written) => {
                    &&& lengths_fit(self@)
                    &&& instruction_encoding(self@).len() <= usize::MAX / 2
                    &&& written@ == base64_text(instruction_encoding(self@))
                    &&& base64_bytes(written@) == Some(instruction_encoding(self@))
                },
                Err(reason) => reason == CodecError::TooLong && (!lengths_fit(self@)
                    || instruction_encoding(self@).len() > usize::MAX / 2),
            },
    {
        match self.try_to_vec() {
            Ok(bytes) => {
                if bytes.len() > usize::MAX / 2 {
                    Err(CodecError::TooLong)
                } else {
                    Ok(encode_base64(&bytes))
                }
            },
            Err(reason) => Err(reason),
        }
    }

    /// The instruction that `text` holds in Base64; or what keeps it from holding
    /// one.
    pub fn from_base64(text: &str) -> (decoded: Result<TransactionInstruction, CodecError>)
        ensures
            match decoded {
                Ok(instruction) => {
                    &&& lengths_fit(instruction@)
                    &&& base64_bytes(text@) == Some(instruction_encoding(instruction@))
                },
                Err(reason) => match base64_bytes(text@) {
                    Some(bytes) => decode_defect(bytes) == Some(reason),
                    None => reason == CodecError::InvalidBase64,
                },
            },
    {
        match decode_base64(text) {
            Some(bytes) => TransactionInstruction::try_from_slice(bytes.as_slice()),
            None => Err(CodecError::InvalidBase64),
        }
    }
}

/// The block in which an instruction is printed: its program, and its encoding in
/// Base64 on a line of its own.
pub open spec fn base64_block(instruction: InstructionView) -> Seq<char> {
    "program: "@ + base58_text(instruction.program_id.bytes@) + "\n  "@ + base64_text(
        instruction_encoding(transaction_instruction_of(instruction)),
    )
}

/// Whether an instruction can be written in Base64.
pub open spec fn printable(instruction: InstructionView) -> bool {
    let serialized = transaction_instruction_of(instruction);
    lengths_fit(serialized) && instruction_encoding(serialized).len() <= usize::MAX / 2
}

/// The blocks in which the instructions are printed, in order; or an error where
/// one of them is too long to be encoded.
pub fn base64_blocks(instructions: &Vec<Instruction>) -> (blocks: Result<Vec<String>, CodecError>)
    ensures
        match blocks {
            Ok(written) => {
                &&& written@.len() == instructions@.len()
                &&& forall|i: int|
                    0 <= i < written@.len() ==> printable(instructions@[i]@) && (
                    #[trigger] written@[i])@ == base64_block(instructions@[i]@)
            },
            Err(reason) => reason == CodecError::TooLong && exists|i: int|
                0 <= i < instructions@.len() && !printable(#[trigger] instructions@[i]@),
        },
{
    let mut blocks: Vec<String> = Vec::new();
    let mut i: usize = 0;
    while i < instructions.len()
        invariant
            i <= instructions.len(),
            blocks@.len() == i,
            forall|j: int| 0 <= j < i ==> printable(#[trigger] instructions@[j]@),
            forall|j: int| 0 <= j < i ==> (#[trigger] blocks@[j])@ == base64_block(instructions@[j]@),
        decreases instructions.len() - i,
    {
        let serialized = TransactionInstruction::from_instruction(&instructions[i]);
        match serialized.to_base64() {
            Ok(text) => {
                let mut block = String::from_str("program: ");
                let key = instructions[i].program_id.to_string();
                block.append(key.as_str());
                block.append("\n  ");
                block.append(text.as_str());
                blocks.push(block);
            },
            Err(reason) => {
                assert(!printable(instructions@[i as int]@));
                return Err(reason);
            },
        }
        i += 1;
    }
    Ok(blocks)
}

/// The encoding of an instruction is read without a defect.
pub proof fn lemma_encoding_has_no_defect(instruction: TransactionInstructionView)
    requires
        lengths_fit(instruction),
    ensures
        decode_defect(instruction_encoding(instruction)) is None,
{
    lemma_encoding_parts(instruction);
    lemma_u32_value(instruction.accounts.len());
    lemma_u32_value(instruction.data.len());
    lemma_accounts_have_no_defect(instruction, instruction.accounts.len());
}

proof fn lemma_accounts_have_no_defect(instruction: TransactionInstructionView, k: nat)
    requires
        lengths_fit(instruction),
        k <= instruction.accounts.len(),
    ensures
        accounts_defect(instruction_encoding(instruction), k) is None,
    decreases k,
{
    if k > 0 {
        lemma_accounts_have_no_defect(instruction, (k - 1) as nat);
        let bytes = instruction_encoding(instruction);
        let i = k - 1;
        let at = 36 + 34 * i;
        lemma_accounts_encoding_at(instruction.accounts, i);
        let all = accounts_encoding(instruction.accounts);
        let one = account_encoding(instruction.accounts[i]);
        assert(all.subrange(34 * i, 34 * i + 34)[32] == all[34 * i + 32]);
        assert(all.subrange(34 * i, 34 * i + 34)[33] == all[34 * i + 33]);
        assert(bytes[at + 32] == all[34 * i + 32]);
        assert(bytes[at + 33] == all[34 * i + 33]);
        assert(one[32] == flag_byte(instruction.accounts[i].is_signer));
        assert(one[33] == flag_byte(instruction.accounts[i].is_writable));
    }
}

/// Where each part of an instruction stands in its encoding.
proof fn lemma_encoding_parts(instruction: TransactionInstructionView)
    ensures
        ({
            let bytes = instruction_encoding(instruction);
            let count = instruction.accounts.len() as int;
            let len = instruction.data.len() as int;
            let at = 36 + 34 * count;
            &&& bytes.len() == 40 + 34 * count + len
            &&& bytes.subrange(0, 32) == instruction.program_id.bytes@
            &&& bytes.subrange(32, 36) == u32_le(instruction.accounts.len())
            &&& bytes.subrange(36, at) == accounts_encoding(instruction.accounts)
            &&& bytes.subrange(at, at + 4) == u32_le(instruction.data.len())
            &&& bytes.subrange(at + 4, at + 4 + len) == instruction.data
        }),
{
    let bytes = instruction_encoding(instruction);
    let count = instruction.accounts.len() as int;
    let len = instruction.data.len() as int;
    let at = 36 + 34 * count;
    lemma_accounts_encoding_len(instruction.accounts);
    assert(bytes.subrange(0, 32) =~= instruction.program_id.bytes@);
    assert(bytes.subrange(32, 36) =~= u32_le(instruction.accounts.len()));
    assert(bytes.subrange(36, at) =~= accounts_encoding(instruction.accounts));
    assert(bytes.subrange(at, at + 4) =~= u32_le(instruction.data.len()));
    assert(bytes.subrange(at + 4, at + 4 + len) =~= instruction.data);
}

/// Two accounts with the same encoding are the same.
proof fn lemma_account_injective(x: TransactionAccount, y: TransactionAccount)
    requires
        account_encoding(x) == account_encoding(y),
    ensures
        x == y,
{
    assert(x.pubkey.bytes@ =~= account_encoding(x).subrange(0, 32));
    assert(y.pubkey.bytes@ =~= account_encoding(y).subrange(0, 32));
    assert(x.pubkey.bytes =~= y.pubkey.bytes);
    assert(account_encoding(x)[32] == flag_byte(x.is_signer));
    assert(account_encoding(y)[32] == flag_byte(y.is_signer));
    assert(account_encoding(x)[33] == flag_byte(x.is_writable));
    assert(account_encoding(y)[33] == flag_byte(y.is_writable));
}

/// Two lists of as many accounts with the same encoding are the same.
proof fn lemma_accounts_injective(xs: Seq<TransactionAccount>, ys: Seq<TransactionAccount>)
    requires
        xs.len() == ys.len(),
        accounts_encoding(xs) == accounts_encoding(ys),
    ensures
        xs == ys,
{
    assert forall|i: int| 0 <= i < xs.len() implies xs[i] == ys[i] by {
        lemma_accounts_encoding_at(xs, i);
        lemma_accounts_encoding_at(ys, i);
        lemma_account_injective(xs[i], ys[i]);
    }
    assert(xs =~= ys);
}

/// Two instructions with the same encoding are the same.
pub proof fn lemma_encoding_injective(a: TransactionInstructionView, b: TransactionInstructionView)
    requires
        lengths_fit(a),
        lengths_fit(b),
        instruction_encoding(a) == instruction_encoding(b),
    ensures
        a == b,
{
    lemma_encoding_parts(a);
    lemma_encoding_parts(b);
    assert(a.program_id.bytes =~= b.program_id.bytes);
    lemma_u32_value(a.accounts.len());
    lemma_u32_value(b.accounts.len());
    assert(a.accounts.len() == b.accounts.len());
    lemma_accounts_injective(a.accounts, b.accounts);
    lemma_u32_value(a.data.len());
    lemma_u32_value(b.data.len());
    assert(a.data.len() == b.data.len());
}

/// Reading the encoding of an instruction gives the instruction back: the encoding
/// has no defect, and whatever instruction has the same encoding has the same
/// program, accounts and data.
pub proof fn lemma_decoding_inverts_encoding(written: TransactionInstructionView, read: TransactionInstructionView)
    requires
        lengths_fit(written),
        lengths_fit(read),
        instruction_encoding(read) == instruction_encoding(written),
    ensures
        decode_defect(instruction_encoding(written)) is None,
        read == written,
        instruction_of(read) == instruction_of(written),
{
    lemma_encoding_has_no_defect(written);
    lemma_encoding_injective(read, written);
}

} // verus!
