//! L2 rollup data types and their byte encodings.

use vstd::prelude::*;
use crate::bytes::{
    lemma_split_prefix, DecodeFault, eq32, lemma_read_le_u32, lemma_read_le_u64, copy_range, le_u32, le_u64, push_bytes, push_u32_le, push_u64_le, read_array20_at,
    read_array32_at, read_le_u32, read_le_u64, read_u32_at, read_u64_at,
};
use crate::crypto::{sha256, spec_sha256};

verus! {

/// Address size in bytes (Ethereum-style address)
pub const ADDRESS_SIZE: usize = 20;
/// Blocks before a batch can be finalized
pub const CHALLENGE_PERIOD: u64 = 100;
/// Maximum transactions per batch
pub const MAX_BATCH_SIZE: usize = 10000;
/// Blocks between batch submissions
pub const BATCH_INTERVAL: u64 = 10;
/// Minimum bond amount for sequencer
pub const SEQUENCER_BOND: u64 = 100000;

/// Ethereum-style address
#[derive(Debug, Clone, Copy, PartialEq, Eq, Hash)]
pub struct Address(pub [u8; 20]);

/// All twenty bytes are zero.
pub open spec fn zero_bytes(s: Seq<u8>) -> bool {
    forall|i: int| 0 <= i < s.len() ==> #[trigger] s[i] == 0
}

impl Address {
    /// Create a new address from bytes
    pub fn new(bytes: [u8; 20]) -> (a: Self)
        ensures
            a.0 == bytes,
    {
        Address(bytes)
    }

    /// Create a zero address
    pub fn zero() -> (a: Self)
        ensures
            zero_bytes(a.0@),
    {
        Address([0u8; 20])
    }

    /// Check if address is zero
    pub fn is_zero(&self) -> (b: bool)
        ensures
            b == zero_bytes(self.0@),
    {
        let mut i: usize = 0;
        while i < 20
            invariant
                i <= 20,
                forall|j: int| 0 <= j < i ==> self.0@[j] == 0,
            decreases 20 - i,
        {
            if self.0[i] != 0 {
                return false;
            }
            i = i + 1;
        }
        true
    }

    /// Get address as bytes
    pub fn as_bytes(&self) -> (b: &[u8; 20])
        ensures
            *b == self.0,
    {
        &self.0
    }

    /// Whether two addresses hold the same bytes.
    pub fn same_as(&self, other: &Address) -> (b: bool)
        ensures
            b == (self.0@ == other.0@),
    {
        let mut i: usize = 0;
        while i < 20
            invariant
                i <= 20,
                forall|j: int| 0 <= j < i ==> self.0@[j] == other.0@[j],
            decreases 20 - i,
        {
            if self.0[i] != other.0[i] {
                return false;
            }
            i = i + 1;
        }
        assert(self.0@ =~= other.0@);
        true
    }
}

impl Default for Address {
    fn default() -> (a: Self)
        ensures
            zero_bytes(a.0@),
    {
        Self::zero()
    }
}

/// Transaction types
#[derive(Debug, Clone, Copy, PartialEq, Eq, Structural)]
pub enum TxType {
    /// Simple value transfer
    Transfer,
    /// Contract call
    Call,
    /// Contract creation
    Create,
    /// Batch withdrawal
    Withdrawal,
}

/// The byte of each transaction type.
pub open spec fn tx_type_byte(t: TxType) -> u8 {
    match t {
        TxType::Transfer => 0,
        TxType::Call => 1,
        TxType::Create => 2,
        TxType::Withdrawal => 3,
    }
}

/// The transaction type a byte names, if any.
pub open spec fn tx_type_of_byte(b: u8) -> Option<TxType> {
    if b == 0 {
        Some(TxType::Transfer)
    } else if b == 1 {
        Some(TxType::Call)
    } else if b == 2 {
        Some(TxType::Create)
    } else if b == 3 {
        Some(TxType::Withdrawal)
    } else {
        None
    }
}

impl TxType {
    /// The transaction type a byte names, if any.
    pub fn from_byte(b: u8) -> (r: Option<Self>)
        ensures
            r == tx_type_of_byte(b),
    {
        match b {
            0 => Some(TxType::Transfer),
            1 => Some(TxType::Call),
            2 => Some(TxType::Create),
            3 => Some(TxType::Withdrawal),
            _ => None,
        }
    }

    /// The byte of this transaction type.
    pub fn to_byte(&self) -> (b: u8)
        ensures
            b == tx_type_byte(*self),
    {
        match self {
            TxType::Transfer => 0,
            TxType::Call => 1,
            TxType::Create => 2,
            TxType::Withdrawal => 3,
        }
    }
}

/// Reading back the byte of a transaction type gives the type.
pub proof fn lemma_tx_type_roundtrip(t: TxType)
    ensures
        tx_type_of_byte(tx_type_byte(t)) == Some(t),
{
}

/// A simple transaction type for the rollup
#[derive(Debug, Clone, PartialEq, Eq)]
pub struct Transaction {
    /// Transaction type
    pub tx_type: TxType,
    /// Sender address
    pub from: Address,
    /// Recipient address (None for contract creation)
    pub to: Option<Address>,
    /// Transaction data/payload
    pub data: Vec<u8>,
    /// Transaction nonce
    pub nonce: u64,
    /// Fee for the transaction
    pub fee: u64,
}

/// The content of a [`Transaction`], with byte arrays as sequences.
pub struct TxModel {
    pub tx_type: TxType,
    pub from: Seq<u8>,
    pub to: Option<Seq<u8>>,
    pub data: Seq<u8>,
    pub nonce: u64,
    pub fee: u64,
}

impl View for Transaction {
    type V = TxModel;

    open spec fn view(&self) -> TxModel {
        TxModel {
            tx_type: self.tx_type,
            from: self.from.0@,
            to: match self.to {
                Some(a) => Some(a.0@),
                None => None,
            },
            data: self.data@,
            nonce: self.nonce,
            fee: self.fee,
        }
    }
}

/// The encoding of a transaction: type byte, sender, a flag and the
/// recipient when present, the data with a 4-byte length, nonce and fee.
pub open spec fn ser_tx(t: TxModel) -> Seq<u8> {
    seq![tx_type_byte(t.tx_type)] + t.from + (match t.to {
        Some(a) => seq![1u8] + a,
        None => seq![0u8],
    }) + le_u32(t.data.len() as u32) + t.data + le_u64(t.nonce) + le_u64(t.fee)
}

/// The size a transaction declares for itself.
pub open spec fn spec_tx_size(t: TxModel) -> int {
    1 + 20 + 1 + (if t.to is Some { 20int } else { 0int }) + 4 + t.data.len() + 8 + 8
}

impl Transaction {
    /// Create a new transaction
    pub fn new(tx_type: TxType, from: Address, to: Option<Address>, data: Vec<u8>, nonce: u64, fee: u64) -> (t: Self)
        ensures
            t == (Transaction { tx_type, from, to, data, nonce, fee }),
    {
        Self { tx_type, from, to, data, nonce, fee }
    }

    /// Get serialized size
    pub fn serialized_size(&self) -> (n: usize)
        requires
            spec_tx_size(self@) <= usize::MAX,
        ensures
            n == spec_tx_size(self@),
    {
        1 + ADDRESS_SIZE + 1 + (if self.to.is_some() { ADDRESS_SIZE } else { 0 }) + 4 + self.data.len() + 8 + 8
    }

    /// A copy of the transaction.
    pub fn duplicate(&self) -> (t: Self)
        ensures
            t@ == self@,
    {
        let data = copy_range(self.data.as_slice(), 0, self.data.len());
        assert(data@ =~= self.data@);
        Transaction { tx_type: self.tx_type, from: self.from, to: self.to, data, nonce: self.nonce, fee: self.fee }
    }
}

/// A batch of transactions to be submitted to L1
#[derive(Debug, Clone, PartialEq, Eq)]
pub struct RollupBatch {
    /// Unique batch number
    pub batch_number: u64,
    /// Hash of the parent batch
    pub parent_hash: [u8; 32],
    /// Transactions in this batch
    pub transactions: Vec<Transaction>,
    /// State root before this batch
    pub pre_state_root: [u8; 32],
    /// State root after this batch
    pub post_state_root: [u8; 32],
    /// Timestamp when batch was created
    pub timestamp: u64,
    /// Sequencer that created this batch
    pub sequencer: Address,
    /// Aggregated signature (if using multi-party)
    pub signature: Option<Vec<u8>>,
}

/// The content of a [`RollupBatch`], with byte arrays as sequences.
pub struct BatchModel {
    pub batch_number: u64,
    pub parent_hash: Seq<u8>,
    pub transactions: Seq<TxModel>,
    pub pre_state_root: Seq<u8>,
    pub post_state_root: Seq<u8>,
    pub timestamp: u64,
    pub sequencer: Seq<u8>,
    pub signature: Option<Seq<u8>>,
}

impl View for RollupBatch {
    type V = BatchModel;

    open spec fn view(&self) -> BatchModel {
        BatchModel {
            batch_number: self.batch_number,
            parent_hash: self.parent_hash@,
            transactions: self.transactions@.map_values(|t: Transaction| t@),
            pre_state_root: self.pre_state_root@,
            post_state_root: self.post_state_root@,
            timestamp: self.timestamp,
            sequencer: self.sequencer.0@,
            signature: match self.signature {
                Some(s) => Some(s@),
                None => None,
            },
        }
    }
}

/// The encodings of the transactions, one after the other.
pub open spec fn ser_txs(ts: Seq<TxModel>) -> Seq<u8>
    decreases ts.len(),
{
    if ts.len() == 0 {
        Seq::empty()
    } else {
        ser_txs(ts.drop_last()) + ser_tx(ts.last())
    }
}

/// The encoding of a batch: number, parent hash, the transactions with a
/// 4-byte count, both state roots, timestamp, sequencer, then a flag and
/// the signature with a 4-byte length (a zero length when there is none).
pub open spec fn ser_batch(b: BatchModel) -> Seq<u8> {
    le_u64(b.batch_number) + b.parent_hash + le_u32(b.transactions.len() as u32) + ser_txs(b.transactions)
        + b.pre_state_root + b.post_state_root + le_u64(b.timestamp) + b.sequencer + (match b.signature {
        Some(s) => seq![1u8] + le_u32(s.len() as u32) + s,
        None => seq![0u8] + le_u32(0),
    })
}

/// The sum of the declared sizes of the first `n` transactions.
pub open spec fn txs_size(ts: Seq<TxModel>, n: nat) -> int
    decreases n,
{
    if n == 0 || n > ts.len() {
        0
    } else {
        txs_size(ts, (n - 1) as nat) + spec_tx_size(ts[n - 1])
    }
}

/// The size of a batch's encoding: the fixed fields, the transactions, the
/// signature flag, the signature's length and the signature.
pub open spec fn spec_batch_size(b: BatchModel) -> int {
    8 + 32 + 4 + txs_size(b.transactions, b.transactions.len()) + 32 + 32 + 8 + 20 + 1 + 4 + match b.signature {
        Some(s) => s.len() as int,
        None => 0,
    }
}


/// Decoding one transaction at `p`: the transaction and the position after it.
pub open spec fn parse_tx(s: Seq<u8>, p: int) -> Result<(TxModel, int), DecodeFault> {
    if p < 0 || p >= s.len() {
        Err(DecodeFault::OutOfBounds)
    } else if tx_type_of_byte(s[p]) is None {
        Err(DecodeFault::BadTag)
    } else if p + 22 > s.len() {
        Err(DecodeFault::OutOfBounds)
    } else {
        let tag = tx_type_of_byte(s[p]).unwrap();
        let from = s.subrange(p + 1, p + 21);
        let has_to = s[p + 21] != 0;
        let q = if has_to { p + 42 } else { p + 22 };
        if q > s.len() {
            Err(DecodeFault::OutOfBounds)
        } else {
            let to = if has_to { Some(s.subrange(p + 22, p + 42)) } else { None };
            if q + 4 > s.len() {
                Err(DecodeFault::OutOfBounds)
            } else {
                let dl = read_le_u32(s, q) as int;
                let q2 = q + 4;
                if q2 + dl + 16 > s.len() {
                    Err(DecodeFault::OutOfBounds)
                } else {
                    let data = s.subrange(q2, q2 + dl);
                    let nonce = read_le_u64(s, q2 + dl);
                    let fee = read_le_u64(s, q2 + dl + 8);
                    Ok((TxModel { tx_type: tag, from, to, data, nonce, fee }, q2 + dl + 16))
                }
            }
        }
    }
}

/// Decoding `count` transactions from `p`.
pub open spec fn parse_txs(s: Seq<u8>, p: int, count: nat) -> Result<(Seq<TxModel>, int), DecodeFault>
    decreases count,
{
    if count == 0 {
        Ok((Seq::empty(), p))
    } else {
        match parse_tx(s, p) {
            Err(e) => Err(e),
            Ok((t, q)) => match parse_txs(s, q, (count - 1) as nat) {
                Err(e) => Err(e),
                Ok((rest, r)) => Ok((seq![t] + rest, r)),
            },
        }
    }
}

/// Decoding a batch: what it holds, or why it fails. Bytes after it are
/// ignored, and so are the four length bytes when the flag says there is
/// no signature.
pub open spec fn parse_batch(s: Seq<u8>) -> Result<BatchModel, DecodeFault> {
    if s.len() < 44 {
        Err(DecodeFault::OutOfBounds)
    } else {
        let bn = read_le_u64(s, 0);
        let parent = s.subrange(8, 40);
        let count = read_le_u32(s, 40) as nat;
        match parse_txs(s, 44, count) {
            Err(e) => Err(e),
            Ok((txs, p)) => {
                if p + 32 + 32 + 8 + 20 + 1 > s.len() {
                    Err(DecodeFault::OutOfBounds)
                } else {
                    let pre = s.subrange(p, p + 32);
                    let post = s.subrange(p + 32, p + 64);
                    let ts = read_le_u64(s, p + 64);
                    let sequencer = s.subrange(p + 72, p + 92);
                    let has_sig = s[p + 92] != 0;
                    if has_sig {
                        if p + 97 > s.len() {
                            Err(DecodeFault::OutOfBounds)
                        } else {
                            let sl = read_le_u32(s, p + 93) as int;
                            if p + 97 + sl > s.len() {
                                Err(DecodeFault::OutOfBounds)
                            } else {
                                Ok(BatchModel {
                                    batch_number: bn,
                                    parent_hash: parent,
                                    transactions: txs,
                                    pre_state_root: pre,
                                    post_state_root: post,
                                    timestamp: ts,
                                    sequencer,
                                    signature: Some(s.subrange(p + 97, p + 97 + sl)),
                                })
                            }
                        }
                    } else {
                        Ok(BatchModel {
                            batch_number: bn,
                            parent_hash: parent,
                            transactions: txs,
                            pre_state_root: pre,
                            post_state_root: post,
                            timestamp: ts,
                            sequencer,
                            signature: None,
                        })
                    }
                }
            },
        }
    }
}

/// The bytes the batch hash is taken over: number, parent hash, both state
/// roots, timestamp, sequencer and the transaction count as 8 bytes.
pub open spec fn batch_hash_input(b: BatchModel) -> Seq<u8> {
    le_u64(b.batch_number) + b.parent_hash + b.pre_state_root + b.post_state_root + le_u64(b.timestamp)
        + b.sequencer + le_u64(b.transactions.len() as u64)
}

/// Where each field stands in the bytes a batch hash is taken over: the
/// number in the first 8 bytes, then the parent hash, the two state roots,
/// the timestamp and the sequencer, and the transaction count in the last 8
/// bytes, 140 bytes in all. So two batches that differ only in how many
/// transactions they hold are hashed over different bytes.
pub proof fn lemma_batch_hash_input_layout(b: BatchModel, c: BatchModel)
    requires
        b.parent_hash.len() == 32,
        b.pre_state_root.len() == 32,
        b.post_state_root.len() == 32,
        b.sequencer.len() == 20,
        b.transactions.len() <= u64::MAX,
        c.transactions.len() <= u64::MAX,
    ensures
        batch_hash_input(b).len() == 140,
        read_le_u64(batch_hash_input(b), 0) == b.batch_number,
        batch_hash_input(b).subrange(8, 40) == b.parent_hash,
        batch_hash_input(b).subrange(40, 72) == b.pre_state_root,
        batch_hash_input(b).subrange(72, 104) == b.post_state_root,
        read_le_u64(batch_hash_input(b), 104) == b.timestamp,
        batch_hash_input(b).subrange(112, 132) == b.sequencer,
        batch_hash_input(b).subrange(132, 140) == le_u64(b.transactions.len() as u64),
        read_le_u64(batch_hash_input(b), 132) == b.transactions.len(),
        c == (BatchModel { transactions: c.transactions, ..b }) && c.transactions.len() != b.transactions.len()
            ==> batch_hash_input(c) != batch_hash_input(b),
{
    let s = batch_hash_input(b);
    assert(s.subrange(0, 8) =~= le_u64(b.batch_number));
    lemma_read_le_u64(s, 0, b.batch_number);
    assert(s.subrange(8, 40) =~= b.parent_hash);
    assert(s.subrange(40, 72) =~= b.pre_state_root);
    assert(s.subrange(72, 104) =~= b.post_state_root);
    assert(s.subrange(104, 112) =~= le_u64(b.timestamp));
    lemma_read_le_u64(s, 104, b.timestamp);
    assert(s.subrange(112, 132) =~= b.sequencer);
    assert(s.subrange(132, 140) =~= le_u64(b.transactions.len() as u64));
    lemma_read_le_u64(s, 132, b.transactions.len() as u64);
    if c == (BatchModel { transactions: c.transactions, ..b }) && c.transactions.len() != b.transactions.len() {
        let t = batch_hash_input(c);
        assert(t.subrange(132, 140) =~= le_u64(c.transactions.len() as u64));
        lemma_read_le_u64(t, 132, c.transactions.len() as u64);
    }
}

impl RollupBatch {
    /// Create a new rollup batch, without a signature
    pub fn new(
        batch_number: u64,
        parent_hash: [u8; 32],
        transactions: Vec<Transaction>,
        pre_state_root: [u8; 32],
        post_state_root: [u8; 32],
        timestamp: u64,
        sequencer: Address,
    ) -> (b: Self)
        ensures
            b == (RollupBatch {
                batch_number,
                parent_hash,
                transactions,
                pre_state_root,
                post_state_root,
                timestamp,
                sequencer,
                signature: None,
            }),
    {
        Self {
            batch_number,
            parent_hash,
            transactions,
            pre_state_root,
            post_state_root,
            timestamp,
            sequencer,
            signature: None,
        }
    }

    /// Get the number of transactions in the batch
    pub fn len(&self) -> (n: usize)
        ensures
            n == self.transactions@.len(),
    {
        self.transactions.len()
    }

    /// Check if batch is empty
    pub fn is_empty(&self) -> (b: bool)
        ensures
            b == (self.transactions@.len() == 0),
    {
        self.transactions.len() == 0
    }

    /// Compute the batch hash with SHA-256 over its header fields and its
    /// transaction count.
    pub fn hash(&self) -> (h: [u8; 32])
        ensures
            h@ == spec_sha256(batch_hash_input(self@)),
    {
        let mut input: Vec<u8> = Vec::new();
        push_u64_le(&mut input, self.batch_number);
        push_bytes(&mut input, &self.parent_hash);
        push_bytes(&mut input, &self.pre_state_root);
        push_bytes(&mut input, &self.post_state_root);
        push_u64_le(&mut input, self.timestamp);
        push_bytes(&mut input, &self.sequencer.0);
        push_u64_le(&mut input, self.transactions.len() as u64);
        assert(input@ =~= batch_hash_input(self@));
        sha256(input.as_slice())
    }

    /// Get serialized size
    pub fn serialized_size(&self) -> (n: usize)
        requires
            spec_batch_size(self@) <= usize::MAX,
        ensures
            n == spec_batch_size(self@),
            n == ser_batch(self@).len(),
    {
        let ghost m = self@;
        let mut total: usize = 0;
        let k = self.transactions.len();
        let mut i: usize = 0;
        proof {
            lemma_txs_size_monotone(m.transactions, m.transactions.len());
        }
        while i < k
            invariant
                i <= k,
                k == m.transactions.len(),
                m == self@,
                total == txs_size(m.transactions, i as nat),
                forall|j: nat| j <= k ==> txs_size(m.transactions, j) <= txs_size(m.transactions, k as nat),
                spec_batch_size(m) <= usize::MAX,
            decreases k - i,
        {
            assert(txs_size(m.transactions, (i + 1) as nat) == total + spec_tx_size(m.transactions[i as int]));
            assert(m.transactions[i as int] == self.transactions@[i as int]@);
            let s = self.transactions[i].serialized_size();
            total = total + s;
            i = i + 1;
        }
        let sig = match &self.signature {
            Some(s) => s.len(),
            None => 0,
        };
        proof {
            let ts = m.transactions;
            assert forall|i: int| 0 <= i < ts.len() implies (#[trigger] ts[i]).from.len() == 20 && (ts[i].to matches Some(a) ==> a.len() == 20) by {
                assert(ts[i] == self.transactions@[i]@);
            }
            lemma_ser_txs_len(ts);
        }
        8 + 32 + 4 + total + 32 + 32 + 8 + ADDRESS_SIZE + 1 + 4 + sig
    }

    /// Serialize to bytes
    pub fn to_bytes(&self) -> (out: Vec<u8>)
        ensures
            out@ == ser_batch(self@),
    {
        let ghost m = self@;
        let mut result: Vec<u8> = Vec::new();
        push_u64_le(&mut result, self.batch_number);
        push_bytes(&mut result, &self.parent_hash);
        push_u32_le(&mut result, self.transactions.len() as u32);
        let ghost head = result@;
        let k = self.transactions.len();
        let mut i: usize = 0;
        while i < k
            invariant
                i <= k,
                k == self.transactions@.len(),
                m == self@,
                result@ == head + ser_txs(m.transactions.subrange(0, i as int)),
            decreases k - i,
        {
            let tx = &self.transactions[i];
            let ghost before = result@;
            push_tx(&mut result, tx);
            proof {
                assert(result@ =~= before + ser_tx(tx@));
                assert(m.transactions.subrange(0, i + 1).drop_last() =~= m.transactions.subrange(0, i as int));
                assert(m.transactions[i as int] == tx@);
            }
            i = i + 1;
        }
        assert(m.transactions.subrange(0, k as int) =~= m.transactions);
        push_bytes(&mut result, &self.pre_state_root);
        push_bytes(&mut result, &self.post_state_root);
        push_u64_le(&mut result, self.timestamp);
        push_bytes(&mut result, &self.sequencer.0);
        match &self.signature {
            Some(sig) => {
                result.push(1u8);
                push_u32_le(&mut result, sig.len() as u32);
                push_bytes(&mut result, sig.as_slice());
            },
            None => {
                result.push(0u8);
                push_u32_le(&mut result, 0u32);
            },
        }
        assert(result@ =~= ser_batch(m));
        result
    }

    /// Deserialize from bytes.
    ///
    /// `None` when a transaction type byte names no type or when the input
    /// is too short for what it announces.
    pub fn from_bytes(data: &[u8]) -> (r: Option<Self>)
        ensures
            match parse_batch(data@) {
                Ok(b) => r is Some && r->0@ == b,
                Err(_) => r is None,
            },
    {
        let n = data.len();
        if n < 44 {
            return None;
        }
        let batch_number = read_u64_at(data, 0);
        let parent_hash = read_array32_at(data, 8);
        let tx_count = read_u32_at(data, 40);
        let mut pos: usize = 44;
        let mut transactions: Vec<Transaction> = Vec::new();
        let mut k: u32 = 0;
        while k < tx_count
            invariant
                n == data@.len(),
                44 <= pos <= n,
                k <= tx_count,
                tx_count == read_le_u32(data@, 40),
                parse_txs(data@, 44, tx_count as nat) == (match parse_txs(data@, pos as int, (tx_count - k) as nat) {
                    Ok((rest, e)) => Ok((transactions@.map_values(|t: Transaction| t@) + rest, e)),
                    Err(f) => Err::<(Seq<TxModel>, int), DecodeFault>(f),
                }),
            decreases tx_count - k,
        {
            match parse_one_tx(data, pos) {
                None => {
                    return None;
                },
                Some((tx, next)) => {
                    let ghost before = transactions@.map_values(|t: Transaction| t@);
                    transactions.push(tx);
                    proof {
                        assert(transactions@.map_values(|t: Transaction| t@) =~= before.push(tx@));
                        match parse_txs(data@, next as int, (tx_count - k - 1) as nat) {
                            Ok((rest, e)) => {
                                assert(before.push(tx@) + rest =~= before + (seq![tx@] + rest));
                            },
                            Err(_) => {},
                        }
                    }
                    pos = next;
                },
            }
            k = k + 1;
        }
        assert(transactions@.map_values(|t: Transaction| t@) + Seq::<TxModel>::empty() =~= transactions@.map_values(|t: Transaction| t@));
        if n - pos < 93 {
            return None;
        }
        let pre_state_root = read_array32_at(data, pos);
        let post_state_root = read_array32_at(data, pos + 32);
        let timestamp = read_u64_at(data, pos + 64);
        let sequencer = Address::new(read_array20_at(data, pos + 72));
        let has_sig = data[pos + 92] != 0;
        let signature = if has_sig {
            if n - pos < 97 {
                return None;
            }
            let sig_len = read_u32_at(data, pos + 93) as usize;
            if n - pos - 97 < sig_len {
                return None;
            }
            Some(copy_range(data, pos + 97, pos + 97 + sig_len))
        } else {
            None
        };
        Some(RollupBatch {
            batch_number,
            parent_hash,
            transactions,
            pre_state_root,
            post_state_root,
            timestamp,
            sequencer,
            signature,
        })
    }
}

/// Appends the encoding of a transaction.
fn push_tx(result: &mut Vec<u8>, tx: &Transaction)
    ensures
        final(result)@ == old(result)@ + ser_tx(tx@),
{
    result.push(tx.tx_type.to_byte());
    push_bytes(result, &tx.from.0);
    match &tx.to {
        Some(to) => {
            result.push(1u8);
            push_bytes(result, &to.0);
        },
        None => {
            result.push(0u8);
        },
    }
    push_u32_le(result, tx.data.len() as u32);
    push_bytes(result, tx.data.as_slice());
    push_u64_le(result, tx.nonce);
    push_u64_le(result, tx.fee);
    assert(result@ =~= old(result)@ + ser_tx(tx@));
}

/// Decodes one transaction at `pos`, with the position after it; `None`
/// when the decoding fails.
fn parse_one_tx(data: &[u8], pos: usize) -> (r: Option<(Transaction, usize)>)
    requires
        pos <= data@.len(),
    ensures
        match parse_tx(data@, pos as int) {
            Ok((t, e)) => r matches Some((tx, end)) && tx@ == t && end == e,
            Err(_) => r is None,
        },
{
    let n = data.len();
    if pos >= n {
        return None;
    }
    let tx_type = match TxType::from_byte(data[pos]) {
        Some(t) => t,
        None => {
            return None;
        },
    };
    if n - pos < 22 {
        return None;
    }
    let from = Address::new(read_array20_at(data, pos + 1));
    let has_to = data[pos + 21] != 0;
    let mut q: usize = pos + 22;
    let to = if has_to {
        if n - q < 20 {
            return None;
        }
        let a = Address::new(read_array20_at(data, q));
        q = q + 20;
        Some(a)
    } else {
        None
    };
    if n - q < 4 {
        return None;
    }
    let dl = read_u32_at(data, q) as usize;
    let q2 = q + 4;
    if n - q2 < dl || n - q2 - dl < 16 {
        return None;
    }
    let tx_data = copy_range(data, q2, q2 + dl);
    let nonce = read_u64_at(data, q2 + dl);
    let fee = read_u64_at(data, q2 + dl + 8);
    Some((Transaction { tx_type, from, to, data: tx_data, nonce, fee }, q2 + dl + 16))
}

/// The sizes of a prefix do not depend on what follows it.
proof fn lemma_txs_size_prefix(ts: Seq<TxModel>, k: nat)
    requires
        ts.len() > 0,
        k < ts.len(),
    ensures
        txs_size(ts.drop_last(), k) == txs_size(ts, k),
    decreases k,
{
    if k > 0 {
        lemma_txs_size_prefix(ts, (k - 1) as nat);
    }
}

/// The encoding of transactions is as long as their declared sizes add up to.
proof fn lemma_ser_txs_len(ts: Seq<TxModel>)
    requires
        forall|i: int| 0 <= i < ts.len() ==> (#[trigger] ts[i]).from.len() == 20 && (ts[i].to matches Some(a) ==> a.len() == 20),
    ensures
        ser_txs(ts).len() == txs_size(ts, ts.len()),
    decreases ts.len(),
{
    if ts.len() > 0 {
        let p = ts.drop_last();
        assert forall|i: int| 0 <= i < p.len() implies (#[trigger] p[i]).from.len() == 20 && (p[i].to matches Some(a) ==> a.len() == 20) by {
            assert(p[i] == ts[i]);
        }
        lemma_ser_txs_len(p);
        lemma_txs_size_prefix(ts, p.len());
        let t = ts.last();
        assert(ts[ts.len() - 1] == t);
        assert(ser_tx(t).len() == spec_tx_size(t));
    }
}

proof fn lemma_txs_size_monotone(ts: Seq<TxModel>, k: nat)
    requires
        k <= ts.len(),
    ensures
        forall|j: nat| j <= k ==> txs_size(ts, j) <= txs_size(ts, k),
    decreases k,
{
    if k > 0 {
        lemma_txs_size_monotone(ts, (k - 1) as nat);
        assert(txs_size(ts, (k - 1) as nat) <= txs_size(ts, k));
    }
}

/// Current state of the L2 rollup
#[derive(Debug, Clone)]
pub struct RollupState {
    /// Current batch number
    pub batch_number: u64,
    /// Current state root
    pub state_root: [u8; 32],
    /// Pending withdrawals
    pub pending_withdrawals: Vec<Withdrawal>,
    /// Active sequencer
    pub sequencer: Address,
    /// Whether the sequencer is bonded
    pub sequencer_bonded: bool,
    /// Last finalized batch number
    pub finalized_batch: u64,
}

/// Whether a batch is past the last finalized one and its challenge period
/// has run out at the current batch number.
pub open spec fn spec_can_finalize(current: u64, finalized: u64, batch_number: u64) -> bool {
    batch_number > finalized && current >= batch_number + CHALLENGE_PERIOD
}

impl RollupState {
    /// Create a new rollup state: batch zero, a zero root, nothing pending,
    /// an unbonded sequencer and nothing finalized.
    pub fn new(sequencer: Address) -> (st: Self)
        ensures
            st.batch_number == 0,
            zero_bytes(st.state_root@),
            st.pending_withdrawals@.len() == 0,
            st.sequencer == sequencer,
            !st.sequencer_bonded,
            st.finalized_batch == 0,
    {
        Self {
            batch_number: 0,
            state_root: [0u8; 32],
            pending_withdrawals: Vec::new(),
            sequencer,
            sequencer_bonded: false,
            finalized_batch: 0,
        }
    }

    /// A copy of the state.
    pub fn duplicate(&self) -> (st: Self)
        ensures
            st.batch_number == self.batch_number,
            st.state_root == self.state_root,
            st.pending_withdrawals@ == self.pending_withdrawals@,
            st.sequencer == self.sequencer,
            st.sequencer_bonded == self.sequencer_bonded,
            st.finalized_batch == self.finalized_batch,
    {
        let mut pending: Vec<Withdrawal> = Vec::new();
        let mut i: usize = 0;
        while i < self.pending_withdrawals.len()
            invariant
                i <= self.pending_withdrawals@.len(),
                pending@ == self.pending_withdrawals@.subrange(0, i as int),
            decreases self.pending_withdrawals@.len() - i,
        {
            pending.push(self.pending_withdrawals[i].duplicate());
            i = i + 1;
            assert(pending@ =~= self.pending_withdrawals@.subrange(0, i as int));
        }
        assert(pending@ =~= self.pending_withdrawals@);
        RollupState {
            batch_number: self.batch_number,
            state_root: self.state_root,
            pending_withdrawals: pending,
            sequencer: self.sequencer,
            sequencer_bonded: self.sequencer_bonded,
            finalized_batch: self.finalized_batch,
        }
    }

    /// Check if a batch can be finalized
    pub fn can_finalize(&self, batch_number: u64) -> (b: bool)
        requires
            batch_number + CHALLENGE_PERIOD <= u64::MAX,
        ensures
            b == spec_can_finalize(self.batch_number, self.finalized_batch, batch_number),
    {
        batch_number > self.finalized_batch && self.batch_number >= batch_number + CHALLENGE_PERIOD
    }
}

/// A withdrawal request from L2 to L1
#[derive(Debug, Clone)]
pub struct Withdrawal {
    /// Unique withdrawal ID
    pub withdrawal_id: u64,
    /// Recipient address on L1
    pub recipient: Address,
    /// Amount being withdrawn
    pub amount: u64,
    /// Batch number where withdrawal was included
    pub batch_number: u64,
    /// Timestamp of withdrawal
    pub timestamp: u64,
    /// Whether withdrawal has been finalized
    pub finalized: bool,
    /// L1 transaction hash (after finalization)
    pub l1_tx_hash: Option<[u8; 32]>,
}

/// The content of a [`Withdrawal`], with byte arrays as sequences.
pub struct WithdrawalModel {
    pub withdrawal_id: u64,
    pub recipient: Seq<u8>,
    pub amount: u64,
    pub batch_number: u64,
    pub timestamp: u64,
    pub finalized: bool,
    pub l1_tx_hash: Option<Seq<u8>>,
}

impl View for Withdrawal {
    type V = WithdrawalModel;

    open spec fn view(&self) -> WithdrawalModel {
        WithdrawalModel {
            withdrawal_id: self.withdrawal_id,
            recipient: self.recipient.0@,
            amount: self.amount,
            batch_number: self.batch_number,
            timestamp: self.timestamp,
            finalized: self.finalized,
            l1_tx_hash: match self.l1_tx_hash {
                Some(h) => Some(h@),
                None => None,
            },
        }
    }
}

/// The encoding of a withdrawal: id, recipient, amount, batch number and
/// timestamp, a finalized flag, then a flag and the L1 hash when present.
pub open spec fn ser_withdrawal(w: WithdrawalModel) -> Seq<u8> {
    le_u64(w.withdrawal_id) + w.recipient + le_u64(w.amount) + le_u64(w.batch_number) + le_u64(w.timestamp)
        + seq![if w.finalized { 1u8 } else { 0u8 }] + (match w.l1_tx_hash {
        Some(h) => seq![1u8] + h,
        None => seq![0u8],
    })
}

/// Whether the decoder can read a withdrawal from `s` without running past
/// its end: the fixed part with both flags, and the hash when its flag is set.
pub open spec fn withdrawal_readable(s: Seq<u8>) -> bool {
    s.len() >= 54 && (s[53] != 0 ==> s.len() >= 86)
}

/// What the decoder reads from `s`; bytes after it are ignored.
pub open spec fn parse_withdrawal(s: Seq<u8>) -> WithdrawalModel {
    WithdrawalModel {
        withdrawal_id: read_le_u64(s, 0),
        recipient: s.subrange(8, 28),
        amount: read_le_u64(s, 28),
        batch_number: read_le_u64(s, 36),
        timestamp: read_le_u64(s, 44),
        finalized: s[52] != 0,
        l1_tx_hash: if s[53] != 0 { Some(s.subrange(54, 86)) } else { None },
    }
}

impl Withdrawal {
    /// Create a new withdrawal, not finalized and without an L1 hash
    pub fn new(withdrawal_id: u64, recipient: Address, amount: u64, batch_number: u64, timestamp: u64) -> (w: Self)
        ensures
            w.withdrawal_id == withdrawal_id,
            w.recipient == recipient,
            w.amount == amount,
            w.batch_number == batch_number,
            w.timestamp == timestamp,
            !w.finalized,
            w.l1_tx_hash is None,
    {
        Self { withdrawal_id, recipient, amount, batch_number, timestamp, finalized: false, l1_tx_hash: None }
    }

    /// Finalize the withdrawal with the hash of its L1 transaction
    pub fn finalize(&mut self, l1_tx_hash: [u8; 32])
        ensures
            final(self).finalized,
            final(self).l1_tx_hash == Some(l1_tx_hash),
            final(self).withdrawal_id == old(self).withdrawal_id,
            final(self).recipient == old(self).recipient,
            final(self).amount == old(self).amount,
            final(self).batch_number == old(self).batch_number,
            final(self).timestamp == old(self).timestamp,
    {
        self.finalized = true;
        self.l1_tx_hash = Some(l1_tx_hash);
    }

    /// A copy of the withdrawal.
    pub fn duplicate(&self) -> (w: Self)
        ensures
            w == *self,
    {
        Withdrawal {
            withdrawal_id: self.withdrawal_id,
            recipient: self.recipient,
            amount: self.amount,
            batch_number: self.batch_number,
            timestamp: self.timestamp,
            finalized: self.finalized,
            l1_tx_hash: self.l1_tx_hash,
        }
    }

    /// Serialize to bytes
    pub fn to_bytes(&self) -> (out: Vec<u8>)
        ensures
            out@ == ser_withdrawal(self@),
    {
        let mut result: Vec<u8> = Vec::new();
        push_u64_le(&mut result, self.withdrawal_id);
        push_bytes(&mut result, &self.recipient.0);
        push_u64_le(&mut result, self.amount);
        push_u64_le(&mut result, self.batch_number);
        push_u64_le(&mut result, self.timestamp);
        result.push(if self.finalized { 1u8 } else { 0u8 });
        match &self.l1_tx_hash {
            Some(hash) => {
                result.push(1u8);
                push_bytes(&mut result, hash);
            },
            None => {
                result.push(0u8);
            },
        }
        assert(result@ =~= ser_withdrawal(self@));
        result
    }

    /// Deserialize from bytes; `None` when the input is too short for what
    /// it announces.
    pub fn from_bytes(data: &[u8]) -> (r: Option<Self>)
        ensures
            withdrawal_readable(data@) ==> (r matches Some(w) && w@ == parse_withdrawal(data@)),
            !withdrawal_readable(data@) ==> r is None,
    {
        if data.len() < 54 || (data[53] != 0 && data.len() < 86) {
            return None;
        }
        let withdrawal_id = read_u64_at(data, 0);
        let recipient = Address::new(read_array20_at(data, 8));
        let amount = read_u64_at(data, 28);
        let batch_number = read_u64_at(data, 36);
        let timestamp = read_u64_at(data, 44);
        let finalized = data[52] != 0;
        let l1_tx_hash = if data[53] != 0 {
            Some(read_array32_at(data, 54))
        } else {
            None
        };
        Some(Withdrawal { withdrawal_id, recipient, amount, batch_number, timestamp, finalized, l1_tx_hash })
    }
}

/// Decoding the encoding of a withdrawal gives it back.
pub proof fn lemma_withdrawal_roundtrip(w: WithdrawalModel)
    requires
        w.recipient.len() == 20,
        w.l1_tx_hash matches Some(h) ==> h.len() == 32,
    ensures
        withdrawal_readable(ser_withdrawal(w)),
        parse_withdrawal(ser_withdrawal(w)) == w,
{
    let s = ser_withdrawal(w);
    assert(s.subrange(0, 8) =~= le_u64(w.withdrawal_id));
    lemma_read_le_u64(s, 0, w.withdrawal_id);
    assert(s.subrange(8, 28) =~= w.recipient);
    assert(s.subrange(28, 36) =~= le_u64(w.amount));
    lemma_read_le_u64(s, 28, w.amount);
    assert(s.subrange(36, 44) =~= le_u64(w.batch_number));
    lemma_read_le_u64(s, 36, w.batch_number);
    assert(s.subrange(44, 52) =~= le_u64(w.timestamp));
    lemma_read_le_u64(s, 44, w.timestamp);
    match w.l1_tx_hash {
        Some(h) => {
            assert(s.subrange(54, 86) =~= h);
        },
        None => {},
    }
}

/// Operations that can be performed on the rollup
#[derive(Debug, Clone)]
pub enum RollupOperation {
    /// Submit a new batch
    SubmitBatch {
        /// The batch being submitted
        batch: RollupBatch,
        /// Proof bytes for the batch (empty without a prover)
        proof: Vec<u8>,
    },
    /// Challenge a submitted batch (fraud proof)
    ChallengeBatch {
        /// Batch being challenged
        batch_number: u64,
        /// Fraud proof
        proof: FraudProof,
    },
    /// Finalize a withdrawal
    FinalizeWithdrawal {
        /// Withdrawal to finalize
        withdrawal_id: u64,
    },
    /// Update sequencer
    UpdateSequencer {
        /// New sequencer address
        new_sequencer: Address,
        /// Bond amount
        bond: u64,
    },
}

/// Fraud proof for challenging invalid batches
#[derive(Debug, Clone)]
pub struct FraudProof {
    /// Batch number being challenged
    pub batch_number: u64,
    /// Index of the fraudulent transaction
    pub transaction_index: u64,
    /// State root before the transaction
    pub pre_state_root: [u8; 32],
    /// Expected state root after the transaction
    pub expected_post_root: [u8; 32],
    /// Claimed state root (incorrect)
    pub claimed_post_root: [u8; 32],
    /// Merkle proof for the transaction
    pub proof: Vec<u8>,
    /// Input that caused the fraud
    pub input: Vec<u8>,
    /// Expected output
    pub expected_output: Vec<u8>,
    /// Claimed output (incorrect)
    pub claimed_output: Vec<u8>,
}

impl FraudProof {
    /// Create a new fraud proof with empty proof, input and outputs
    pub fn new(
        batch_number: u64,
        transaction_index: u64,
        pre_state_root: [u8; 32],
        expected_post_root: [u8; 32],
        claimed_post_root: [u8; 32],
    ) -> (fp: Self)
        ensures
            fp.batch_number == batch_number,
            fp.transaction_index == transaction_index,
            fp.pre_state_root == pre_state_root,
            fp.expected_post_root == expected_post_root,
            fp.claimed_post_root == claimed_post_root,
            fp.proof@.len() == 0,
            fp.input@.len() == 0,
            fp.expected_output@.len() == 0,
            fp.claimed_output@.len() == 0,
    {
        Self {
            batch_number,
            transaction_index,
            pre_state_root,
            expected_post_root,
            claimed_post_root,
            proof: Vec::new(),
            input: Vec::new(),
            expected_output: Vec::new(),
            claimed_output: Vec::new(),
        }
    }

    /// Verify the fraud proof: the claimed post root must differ from the
    /// expected one.
    pub fn verify(&self) -> (b: bool)
        ensures
            b == (self.claimed_post_root@ != self.expected_post_root@),
    {
        !eq32(&self.claimed_post_root, &self.expected_post_root)
    }
}

/// A transaction whose byte arrays have their fixed sizes and whose data
/// length fits the 4-byte length field.
pub open spec fn tx_wf(t: TxModel) -> bool {
    &&& t.from.len() == 20
    &&& (t.to matches Some(a) ==> a.len() == 20)
    &&& t.data.len() <= u32::MAX
}

/// A batch whose byte arrays have their fixed sizes and whose counts and
/// lengths fit their 4-byte fields.
pub open spec fn batch_wf(b: BatchModel) -> bool {
    &&& b.parent_hash.len() == 32
    &&& b.pre_state_root.len() == 32
    &&& b.post_state_root.len() == 32
    &&& b.sequencer.len() == 20
    &&& b.transactions.len() <= u32::MAX
    &&& forall|i: int| 0 <= i < b.transactions.len() ==> tx_wf(#[trigger] b.transactions[i])
    &&& (b.signature matches Some(sg) ==> sg.len() <= u32::MAX)
}

proof fn lemma_ser_txs_cons(t: TxModel, rest: Seq<TxModel>)
    ensures
        ser_txs(seq![t] + rest) == ser_tx(t) + ser_txs(rest),
    decreases rest.len(),
{
    if rest.len() == 0 {
        assert(seq![t] + rest =~= seq![t]);
        assert(seq![t].drop_last() =~= Seq::<TxModel>::empty());
        assert(rest =~= Seq::<TxModel>::empty());
        assert(ser_txs(Seq::<TxModel>::empty()) == Seq::<u8>::empty());
        assert(ser_txs(seq![t]) == ser_txs(seq![t].drop_last()) + ser_tx(seq![t].last()));
        assert(Seq::<u8>::empty() + ser_tx(t) =~= ser_tx(t));
        assert(ser_tx(t) + Seq::<u8>::empty() =~= ser_tx(t));
    } else {
        let whole = seq![t] + rest;
        assert(whole.drop_last() =~= seq![t] + rest.drop_last());
        assert(whole.last() == rest.last());
        lemma_ser_txs_cons(t, rest.drop_last());
        assert(ser_txs(whole) =~= ser_tx(t) + ser_txs(rest));
    }
}

proof fn lemma_parse_tx_ser(s: Seq<u8>, p: int, t: TxModel)
    requires
        tx_wf(t),
        0 <= p,
        p + ser_tx(t).len() <= s.len(),
        s.subrange(p, p + ser_tx(t).len()) == ser_tx(t),
    ensures
        ser_tx(t).len() == spec_tx_size(t),
        parse_tx(s, p) == Ok::<(TxModel, int), DecodeFault>((t, p + ser_tx(t).len())),
{
    let w = ser_tx(t);
    let dl = t.data.len();
    assert forall|i: int| 0 <= i < w.len() implies s[p + i] == #[trigger] w[i] by {
        assert(s.subrange(p, p + w.len())[i] == s[p + i]);
    }
    lemma_tx_type_roundtrip(t.tx_type);
    assert(s[p] == w[0]);
    let off: int = if t.to is Some { 42 } else { 22 };
    assert(w.len() == off + 4 + dl + 16);
    assert(s.subrange(p + 1, p + 21) =~= t.from) by {
        assert forall|i: int| 0 <= i < 20 implies #[trigger] s.subrange(p + 1, p + 21)[i] == t.from[i] by {
            assert(w[1 + i] == t.from[i]);
            assert(s[p + 1 + i] == w[1 + i]);
        }
    }
    assert(s[p + 21] == w[21]);
    if let Some(a) = t.to {
        assert(w[21] == 1u8);
        assert(s.subrange(p + 22, p + 42) =~= a) by {
            assert forall|i: int| 0 <= i < 20 implies #[trigger] s.subrange(p + 22, p + 42)[i] == a[i] by {
                assert(w[22 + i] == a[i]);
                assert(s[p + 22 + i] == w[22 + i]);
            }
        }
    } else {
        assert(w[21] == 0u8);
    }
    let q = p + off;
    assert(s.subrange(q, q + 4) =~= le_u32(dl as u32)) by {
        assert forall|i: int| 0 <= i < 4 implies #[trigger] s.subrange(q, q + 4)[i] == le_u32(dl as u32)[i] by {
            assert(w[off + i] == le_u32(dl as u32)[i]);
            assert(s[p + off + i] == w[off + i]);
        }
    }
    lemma_read_le_u32(s, q, dl as u32);
    let q2 = q + 4;
    assert(s.subrange(q2, q2 + dl) =~= t.data) by {
        assert forall|i: int| 0 <= i < dl implies #[trigger] s.subrange(q2, q2 + dl)[i] == t.data[i] by {
            assert(w[off + 4 + i] == t.data[i]);
            assert(s[p + off + 4 + i] == w[off + 4 + i]);
        }
    }
    assert(s.subrange(q2 + dl, q2 + dl + 8) =~= le_u64(t.nonce)) by {
        assert forall|i: int| 0 <= i < 8 implies #[trigger] s.subrange(q2 + dl, q2 + dl + 8)[i] == le_u64(t.nonce)[i] by {
            assert(w[off + 4 + dl + i] == le_u64(t.nonce)[i]);
            assert(s[p + off + 4 + dl + i] == w[off + 4 + dl + i]);
        }
    }
    lemma_read_le_u64(s, q2 + dl, t.nonce);
    assert(s.subrange(q2 + dl + 8, q2 + dl + 16) =~= le_u64(t.fee)) by {
        assert forall|i: int| 0 <= i < 8 implies #[trigger] s.subrange(q2 + dl + 8, q2 + dl + 16)[i] == le_u64(t.fee)[i] by {
            assert(w[off + 12 + dl + i] == le_u64(t.fee)[i]);
            assert(s[p + off + 12 + dl + i] == w[off + 12 + dl + i]);
        }
    }
    lemma_read_le_u64(s, q2 + dl + 8, t.fee);
}

proof fn lemma_parse_txs_ser(s: Seq<u8>, p: int, ts: Seq<TxModel>)
    requires
        forall|i: int| 0 <= i < ts.len() ==> tx_wf(#[trigger] ts[i]),
        0 <= p,
        p + ser_txs(ts).len() <= s.len(),
        s.subrange(p, p + ser_txs(ts).len()) == ser_txs(ts),
    ensures
        parse_txs(s, p, ts.len()) == Ok::<(Seq<TxModel>, int), DecodeFault>((ts, p + ser_txs(ts).len())),
    decreases ts.len(),
{
    if ts.len() == 0 {
        assert(ts =~= Seq::<TxModel>::empty());
    } else {
        let t = ts[0];
        let rest = ts.subrange(1, ts.len() as int);
        assert(ts =~= seq![t] + rest);
        lemma_ser_txs_cons(t, rest);
        let w = ser_txs(ts);
        let lt = ser_tx(t).len();
        assert(s.subrange(p, p + lt) =~= ser_tx(t)) by {
            assert forall|i: int| 0 <= i < lt implies #[trigger] s.subrange(p, p + lt)[i] == ser_tx(t)[i] by {
                assert(s.subrange(p, p + w.len())[i] == s[p + i]);
                assert(w[i] == ser_tx(t)[i]);
            }
        }
        assert(tx_wf(ts[0]));
        lemma_parse_tx_ser(s, p, t);
        assert(s.subrange(p + lt, p + lt + ser_txs(rest).len()) =~= ser_txs(rest)) by {
            assert forall|i: int| 0 <= i < ser_txs(rest).len() implies
                #[trigger] s.subrange(p + lt, p + lt + ser_txs(rest).len())[i] == ser_txs(rest)[i] by {
                assert(s.subrange(p, p + w.len())[lt + i] == s[p + lt + i]);
                assert(w[lt + i] == ser_txs(rest)[i]);
            }
        }
        assert forall|i: int| 0 <= i < rest.len() implies tx_wf(#[trigger] rest[i]) by {
            assert(rest[i] == ts[i + 1]);
        }
        lemma_parse_txs_ser(s, p + lt, rest);
        assert(rest.len() == (ts.len() - 1) as nat);
    }
}

/// Decoding the encoding of a well-formed batch gives the batch back.
#[verifier::spinoff_prover]
#[verifier::rlimit(60)]
pub proof fn lemma_batch_roundtrip(b: BatchModel)
    requires
        batch_wf(b),
    ensures
        parse_batch(ser_batch(b)) == Ok::<BatchModel, DecodeFault>(b),
{
    let s = ser_batch(b);
    let n = b.transactions.len();
    let tx = ser_txs(b.transactions);
    let tail = match b.signature {
        Some(sg) => seq![1u8] + le_u32(sg.len() as u32) + sg,
        None => seq![0u8] + le_u32(0),
    };
    let s1 = le_u64(b.batch_number);
    let s2 = s1 + b.parent_hash;
    let s3 = s2 + le_u32(n as u32);
    let s4 = s3 + tx;
    let s5 = s4 + b.pre_state_root;
    let s6 = s5 + b.post_state_root;
    let s7 = s6 + le_u64(b.timestamp);
    let s8 = s7 + b.sequencer;
    assert(s == s8 + tail);
    let p: int = 44 + tx.len() as int;
    assert(s.subrange(0, s8.len() as int) =~= s8);
    lemma_split_prefix(s, s7, b.sequencer);
    lemma_split_prefix(s, s6, le_u64(b.timestamp));
    lemma_split_prefix(s, s5, b.post_state_root);
    lemma_split_prefix(s, s4, b.pre_state_root);
    lemma_split_prefix(s, s3, tx);
    lemma_split_prefix(s, s2, le_u32(n as u32));
    lemma_split_prefix(s, s1, b.parent_hash);
    lemma_read_le_u64(s, 0, b.batch_number);
    lemma_read_le_u32(s, 40, n as u32);
    lemma_parse_txs_ser(s, 44, b.transactions);
    lemma_read_le_u64(s, p + 64, b.timestamp);
    assert(s.subrange(s8.len() as int, s.len() as int) =~= tail);
    assert(s[p + 92] == tail[0]);
    match b.signature {
        Some(sg) => {
            assert(s.subrange(p + 93, p + 97) =~= le_u32(sg.len() as u32)) by {
                assert forall|i: int| 0 <= i < 4 implies #[trigger] s.subrange(p + 93, p + 97)[i] == le_u32(sg.len() as u32)[i] by {
                    assert(s[p + 93 + i] == tail[1 + i]);
                }
            }
            lemma_read_le_u32(s, p + 93, sg.len() as u32);
            assert(s.subrange(p + 97, p + 97 + sg.len()) =~= sg) by {
                assert forall|i: int| 0 <= i < sg.len() implies #[trigger] s.subrange(p + 97, p + 97 + sg.len())[i] == sg[i] by {
                    assert(s[p + 97 + i] == tail[5 + i]);
                }
            }
        },
        None => {},
    }
}

} // verus!
