//! Confidential query types: encrypted queries with committed filter
//! values, and results made of commitments, with their byte encodings.

use vstd::prelude::*;
use crate::bytes::{
    copy_range, eq32, le_u32, le_u64, lemma_read_le_u32, lemma_read_le_u64, lemma_split_prefix, lemma_sub_of_sub, push_bytes,
    push_u32_le, push_u64_le, read_array32_at, read_le_u32, read_le_u64, read_u32_at, read_u64_at,
    DecodeFault,
};
use crate::crypto::{blake3_hash, spec_blake3};
use super::commitment::{opens, pedersen_commit, Commitment};

verus! {

/// Filter comparison operators
#[derive(Debug, Clone, Copy, PartialEq, Eq, Structural)]
pub enum FilterOp {
    /// Equal (=)
    Equal,
    /// Not Equal (!=)
    NotEqual,
    /// Less Than (<)
    LessThan,
    /// Greater Than (>)
    GreaterThan,
    /// Less Than or Equal (<=)
    LessThanOrEqual,
    /// Greater Than or Equal (>=)
    GreaterThanOrEqual,
}

/// The byte of an operator.
pub open spec fn filter_op_byte(op: FilterOp) -> u8 {
    match op {
        FilterOp::Equal => 1,
        FilterOp::NotEqual => 2,
        FilterOp::LessThan => 3,
        FilterOp::GreaterThan => 4,
        FilterOp::LessThanOrEqual => 5,
        FilterOp::GreaterThanOrEqual => 6,
    }
}

/// The operator of a byte, if it names one.
pub open spec fn filter_op_of_byte(b: u8) -> Option<FilterOp> {
    if b == 1 {
        Some(FilterOp::Equal)
    } else if b == 2 {
        Some(FilterOp::NotEqual)
    } else if b == 3 {
        Some(FilterOp::LessThan)
    } else if b == 4 {
        Some(FilterOp::GreaterThan)
    } else if b == 5 {
        Some(FilterOp::LessThanOrEqual)
    } else if b == 6 {
        Some(FilterOp::GreaterThanOrEqual)
    } else {
        None
    }
}

impl FilterOp {
    /// Serialize to byte
    pub fn to_byte(&self) -> (b: u8)
        ensures
            b == filter_op_byte(*self),
    {
        match self {
            FilterOp::Equal => 0x01,
            FilterOp::NotEqual => 0x02,
            FilterOp::LessThan => 0x03,
            FilterOp::GreaterThan => 0x04,
            FilterOp::LessThanOrEqual => 0x05,
            FilterOp::GreaterThanOrEqual => 0x06,
        }
    }

    /// Deserialize from byte
    pub fn from_byte(b: u8) -> (r: Option<FilterOp>)
        ensures
            r == filter_op_of_byte(b),
    {
        match b {
            0x01 => Some(FilterOp::Equal),
            0x02 => Some(FilterOp::NotEqual),
            0x03 => Some(FilterOp::LessThan),
            0x04 => Some(FilterOp::GreaterThan),
            0x05 => Some(FilterOp::LessThanOrEqual),
            0x06 => Some(FilterOp::GreaterThanOrEqual),
            _ => None,
        }
    }
}

/// Reading back the byte of an operator gives the operator, and exactly the
/// bytes one to six name operators.
pub proof fn lemma_filter_op_roundtrip(op: FilterOp, b: u8)
    ensures
        filter_op_of_byte(filter_op_byte(op)) == Some(op),
        filter_op_of_byte(b) is Some <==> 1 <= b <= 6,
        filter_op_of_byte(b) matches Some(o) ==> filter_op_byte(o) == b,
{
}

/// Encrypted filter condition
///
/// Represents an encrypted WHERE clause with a commitment to the value.
#[derive(Debug, Clone)]
pub struct EncryptedFilter {
    /// Encrypted column name
    pub column: Vec<u8>,
    /// Comparison operator
    pub operator: FilterOp,
    /// Commitment to the filter value
    pub value_commitment: Commitment,
    /// Nonce used for encryption
    pub nonce: [u8; 32],
}

/// The content of an [`EncryptedFilter`], with byte arrays as sequences.
pub struct FilterModel {
    pub column: Seq<u8>,
    pub operator: FilterOp,
    pub value_commitment: Seq<u8>,
    pub nonce: Seq<u8>,
}

impl View for EncryptedFilter {
    type V = FilterModel;

    open spec fn view(&self) -> FilterModel {
        FilterModel {
            column: self.column@,
            operator: self.operator,
            value_commitment: self.value_commitment@,
            nonce: self.nonce@,
        }
    }
}

impl EncryptedFilter {
    /// Create a new encrypted filter
    pub fn new(column: Vec<u8>, operator: FilterOp, value_commitment: Commitment, nonce: [u8; 32]) -> (f: Self)
        ensures
            f.column@ == column@,
            f.operator == operator,
            f.value_commitment == value_commitment,
            f.nonce == nonce,
    {
        Self { column, operator, value_commitment, nonce }
    }
}

/// Encrypted query input
///
/// Represents a fully encrypted SQL query where table name,
/// columns, and filter values are all committed.
#[derive(Debug, Clone)]
pub struct EncryptedQuery {
    /// Encrypted table name
    pub table: Vec<u8>,
    /// List of encrypted filter conditions
    pub filters: Vec<EncryptedFilter>,
    /// Encryption nonce
    pub nonce: [u8; 32],
    /// Query commitment (hash of entire query)
    pub query_commitment: Commitment,
}

/// The content of an [`EncryptedQuery`], with byte arrays as sequences.
pub struct QueryModel {
    pub table: Seq<u8>,
    pub filters: Seq<FilterModel>,
    pub nonce: Seq<u8>,
    pub query_commitment: Seq<u8>,
}

impl View for EncryptedQuery {
    type V = QueryModel;

    open spec fn view(&self) -> QueryModel {
        QueryModel {
            table: self.table@,
            filters: self.filters@.map_values(|f: EncryptedFilter| f@),
            nonce: self.nonce@,
            query_commitment: self.query_commitment@,
        }
    }
}

/// What the query commitment is taken over for the filters: each column,
/// its operator byte and its value commitment, one filter after the other.
pub open spec fn filters_commit_input(fs: Seq<FilterModel>) -> Seq<u8>
    decreases fs.len(),
{
    if fs.len() == 0 {
        Seq::empty()
    } else {
        filters_commit_input(fs.drop_last()) + fs.last().column + seq![filter_op_byte(fs.last().operator)]
            + fs.last().value_commitment
    }
}

/// The encoding of a filter: column with a 4-byte length, operator byte,
/// value commitment and nonce.
pub open spec fn ser_filter(f: FilterModel) -> Seq<u8> {
    le_u32(f.column.len() as u32) + f.column + seq![filter_op_byte(f.operator)] + f.value_commitment + f.nonce
}

/// The encodings of the filters, one after the other.
pub open spec fn ser_filters(fs: Seq<FilterModel>) -> Seq<u8>
    decreases fs.len(),
{
    if fs.len() == 0 {
        Seq::empty()
    } else {
        ser_filters(fs.drop_last()) + ser_filter(fs.last())
    }
}

/// The encoding of a query: table with a 4-byte length, the filters with a
/// 4-byte count, the nonce and the query commitment.
pub open spec fn ser_query(q: QueryModel) -> Seq<u8> {
    le_u32(q.table.len() as u32) + q.table + le_u32(q.filters.len() as u32) + ser_filters(q.filters) + q.nonce
        + q.query_commitment
}

/// The sum of the declared sizes of the filters.
pub open spec fn filters_size(fs: Seq<FilterModel>) -> int
    decreases fs.len(),
{
    if fs.len() == 0 {
        0
    } else {
        filters_size(fs.drop_last()) + 4 + fs.last().column.len() + 1 + 32 + 32
    }
}

/// The size a query declares for itself.
pub open spec fn query_size(q: QueryModel) -> int {
    4 + q.table.len() + 4 + filters_size(q.filters) + 32 + 32
}

impl EncryptedQuery {
    /// Create a new encrypted query; its commitment is the BLAKE3 hash of
    /// the table and, for each filter, its column, operator byte and value
    /// commitment.
    pub fn new(table: Vec<u8>, filters: Vec<EncryptedFilter>, nonce: [u8; 32]) -> (q: Self)
        ensures
            q.table@ == table@,
            q.filters@ == filters@,
            q.nonce == nonce,
            q.query_commitment@ == spec_blake3(
                table@ + filters_commit_input(filters@.map_values(|f: EncryptedFilter| f@)),
            ),
    {
        let ghost fs = filters@.map_values(|f: EncryptedFilter| f@);
        let mut input: Vec<u8> = Vec::new();
        push_bytes(&mut input, table.as_slice());
        let mut i: usize = 0;
        while i < filters.len()
            invariant
                i <= filters@.len(),
                fs == filters@.map_values(|f: EncryptedFilter| f@),
                input@ == table@ + filters_commit_input(fs.subrange(0, i as int)),
            decreases filters@.len() - i,
        {
            let f = &filters[i];
            push_bytes(&mut input, f.column.as_slice());
            input.push(f.operator.to_byte());
            push_bytes(&mut input, &f.value_commitment);
            proof {
                let t = fs.subrange(0, i + 1);
                assert(t.drop_last() =~= fs.subrange(0, i as int));
                assert(t.last() == f@);
                assert(input@ =~= table@ + filters_commit_input(t));
            }
            i = i + 1;
        }
        assert(fs.subrange(0, filters@.len() as int) =~= fs);
        let query_commitment = blake3_hash(input.as_slice());
        Self { table, filters, nonce, query_commitment }
    }

    /// Get serialized size
    pub fn serialized_size(&self) -> (n: usize)
        requires
            query_size(self@) <= usize::MAX,
        ensures
            n == query_size(self@),
    {
        let ghost fs = self@.filters;
        let mut total: usize = 0;
        let mut i: usize = 0;
        proof {
            lemma_filters_size_monotone(fs, fs.len());
            assert(fs.subrange(0, fs.len() as int) =~= fs);
            assert(fs.subrange(0, 0) =~= Seq::<FilterModel>::empty());
        }
        while i < self.filters.len()
            invariant
                i <= fs.len(),
                fs == self@.filters,
                total == filters_size(fs.subrange(0, i as int)),
                filters_size(fs.subrange(0, i as int)) <= filters_size(fs),
                query_size(self@) <= usize::MAX,
                forall|k: int| 0 <= k <= fs.len() ==> #[trigger] filters_size(fs.subrange(0, k)) <= filters_size(fs),
            decreases fs.len() - i,
        {
            proof {
                let t = fs.subrange(0, i + 1);
                assert(t.drop_last() =~= fs.subrange(0, i as int));
                assert(t.last() == self.filters@[i as int]@);
                assert(filters_size(t) <= filters_size(fs));
            }
            total = total + 4 + self.filters[i].column.len() + 1 + 32 + 32;
            i = i + 1;
        }
        assert(fs.subrange(0, fs.len() as int) =~= fs);
        4 + self.table.len() + 4 + total + 32 + 32
    }

    /// Serialize to bytes
    pub fn to_bytes(&self) -> (out: Vec<u8>)
        ensures
            out@ == ser_query(self@),
    {
        let ghost m = self@;
        let mut result: Vec<u8> = Vec::new();
        push_u32_le(&mut result, self.table.len() as u32);
        push_bytes(&mut result, self.table.as_slice());
        push_u32_le(&mut result, self.filters.len() as u32);
        let ghost head = result@;
        let mut i: usize = 0;
        while i < self.filters.len()
            invariant
                i <= m.filters.len(),
                m == self@,
                result@ == head + ser_filters(m.filters.subrange(0, i as int)),
            decreases m.filters.len() - i,
        {
            let f = &self.filters[i];
            let ghost before = result@;
            push_u32_le(&mut result, f.column.len() as u32);
            push_bytes(&mut result, f.column.as_slice());
            result.push(f.operator.to_byte());
            push_bytes(&mut result, &f.value_commitment);
            push_bytes(&mut result, &f.nonce);
            proof {
                let t = m.filters.subrange(0, i + 1);
                assert(t.drop_last() =~= m.filters.subrange(0, i as int));
                assert(t.last() == f@);
                assert(result@ =~= before + ser_filter(f@));
            }
            i = i + 1;
        }
        assert(m.filters.subrange(0, m.filters.len() as int) =~= m.filters);
        push_bytes(&mut result, &self.nonce);
        push_bytes(&mut result, &self.query_commitment);
        assert(result@ =~= ser_query(m));
        result
    }
}

proof fn lemma_filters_size_monotone(fs: Seq<FilterModel>, k: nat)
    requires
        k <= fs.len(),
    ensures
        forall|j: int| 0 <= j <= k ==> #[trigger] filters_size(fs.subrange(0, j)) <= filters_size(fs.subrange(0, k as int)),
        filters_size(fs.subrange(0, k as int)) >= 0,
    decreases k,
{
    if k > 0 {
        lemma_filters_size_monotone(fs, (k - 1) as nat);
        assert(fs.subrange(0, k as int).drop_last() =~= fs.subrange(0, k - 1));
    }
    if k == fs.len() {
        assert(fs.subrange(0, k as int) =~= fs);
    }
}

/// Decoding one filter at `p`: the filter and the position after it. The
/// checks come in the decoder's order: the length field, the column, the
/// operator byte, whether it names an operator, then the two arrays.
pub open spec fn parse_filter(s: Seq<u8>, p: int) -> Result<(FilterModel, int), DecodeFault> {
    if p < 0 || p + 4 > s.len() {
        Err(DecodeFault::OutOfBounds)
    } else {
        let cl = read_le_u32(s, p) as int;
        let q = p + 4;
        if q + cl >= s.len() {
            Err(DecodeFault::OutOfBounds)
        } else if filter_op_of_byte(s[q + cl]) is None {
            Err(DecodeFault::BadTag)
        } else if q + cl + 65 > s.len() {
            Err(DecodeFault::OutOfBounds)
        } else {
            Ok(
                (
                    FilterModel {
                        column: s.subrange(q, q + cl),
                        operator: filter_op_of_byte(s[q + cl]).unwrap(),
                        value_commitment: s.subrange(q + cl + 1, q + cl + 33),
                        nonce: s.subrange(q + cl + 33, q + cl + 65),
                    },
                    q + cl + 65,
                ),
            )
        }
    }
}

/// Decoding `count` filters from `p`.
pub open spec fn parse_filters(s: Seq<u8>, p: int, count: nat) -> Result<(Seq<FilterModel>, int), DecodeFault>
    decreases count,
{
    if count == 0 {
        Ok((Seq::empty(), p))
    } else {
        match parse_filter(s, p) {
            Err(e) => Err(e),
            Ok((f, q)) => match parse_filters(s, q, (count - 1) as nat) {
                Err(e) => Err(e),
                Ok((rest, r)) => Ok((seq![f] + rest, r)),
            },
        }
    }
}

/// Decoding a query: what it holds, or why it fails. Bytes after it are
/// ignored.
pub open spec fn parse_query(s: Seq<u8>) -> Result<QueryModel, DecodeFault> {
    if s.len() < 4 {
        Err(DecodeFault::OutOfBounds)
    } else {
        let tl = read_le_u32(s, 0) as int;
        if 4 + tl + 4 > s.len() {
            Err(DecodeFault::OutOfBounds)
        } else {
            let fc = read_le_u32(s, 4 + tl) as nat;
            match parse_filters(s, 8 + tl, fc) {
                Err(e) => Err(e),
                Ok((fs, p)) => if p + 64 > s.len() {
                    Err(DecodeFault::OutOfBounds)
                } else {
                    Ok(
                        QueryModel {
                            table: s.subrange(4, 4 + tl),
                            filters: fs,
                            nonce: s.subrange(p, p + 32),
                            query_commitment: s.subrange(p + 32, p + 64),
                        },
                    )
                },
            }
        }
    }
}

/// Decodes one filter at `pos`, with the position after it; `None` when
/// the decoding fails.
fn parse_one_filter(data: &[u8], pos: usize) -> (r: Option<(EncryptedFilter, usize)>)
    requires
        pos <= data@.len(),
    ensures
        match parse_filter(data@, pos as int) {
            Ok((f, e)) => r matches Some((x, end)) && x@ == f && end == e,
            Err(_) => r is None,
        },
{
    let n = data.len();
    if n - pos < 4 {
        return None;
    }
    let cl = read_u32_at(data, pos) as usize;
    let q = pos + 4;
    if n - q <= cl {
        return None;
    }
    let operator = match FilterOp::from_byte(data[q + cl]) {
        Some(op) => op,
        None => {
            return None;
        },
    };
    if n - q - cl < 65 {
        return None;
    }
    let column = copy_range(data, q, q + cl);
    let value_commitment = read_array32_at(data, q + cl + 1);
    let nonce = read_array32_at(data, q + cl + 33);
    Some((EncryptedFilter { column, operator, value_commitment, nonce }, q + cl + 65))
}

impl EncryptedQuery {
    /// Deserialize from bytes.
    ///
    /// `None` when an operator byte names no operator or when the input is
    /// too short for what it announces.
    pub fn from_bytes(data: &[u8]) -> (r: Option<Self>)
        ensures
            match parse_query(data@) {
                Ok(q) => r matches Some(x) && x@ == q,
                Err(_) => r is None,
            },
    {
        let n = data.len();
        if n < 4 {
            return None;
        }
        let tl = read_u32_at(data, 0) as usize;
        if n - 4 < tl || n - 4 - tl < 4 {
            return None;
        }
        let table = copy_range(data, 4, 4 + tl);
        let fc = read_u32_at(data, 4 + tl);
        let mut pos: usize = 8 + tl;
        let mut filters: Vec<EncryptedFilter> = Vec::new();
        let mut k: u32 = 0;
        while k < fc
            invariant
                n == data@.len(),
                8 + tl <= pos <= n,
                k <= fc,
                tl == read_le_u32(data@, 0),
                fc == read_le_u32(data@, 4 + tl),
                parse_filters(data@, 8 + tl, fc as nat) == (match parse_filters(data@, pos as int, (fc - k) as nat) {
                    Ok((rest, e)) => Ok((filters@.map_values(|f: EncryptedFilter| f@) + rest, e)),
                    Err(f) => Err::<(Seq<FilterModel>, int), DecodeFault>(f),
                }),
            decreases fc - k,
        {
            match parse_one_filter(data, pos) {
                None => {
                    assert(parse_filters(data@, pos as int, (fc - k) as nat) is Err);
                    return None;
                },
                Some((f, next)) => {
                    let ghost before = filters@.map_values(|f: EncryptedFilter| f@);
                    filters.push(f);
                    proof {
                        assert(filters@.map_values(|f: EncryptedFilter| f@) =~= before.push(f@));
                        match parse_filters(data@, next as int, (fc - k - 1) as nat) {
                            Ok((rest, e)) => {
                                assert(before.push(f@) + rest =~= before + (seq![f@] + rest));
                            },
                            Err(_) => {},
                        }
                    }
                    pos = next;
                },
            }
            k = k + 1;
        }
        assert(filters@.map_values(|f: EncryptedFilter| f@) + Seq::<FilterModel>::empty() =~= filters@.map_values(
            |f: EncryptedFilter| f@,
        ));
        if n - pos < 64 {
            return None;
        }
        let nonce = read_array32_at(data, pos);
        let query_commitment = read_array32_at(data, pos + 32);
        Some(EncryptedQuery { table, filters, nonce, query_commitment })
    }
}

/// A query whose arrays have 32 bytes and whose lengths and count fit their
/// 4-byte fields.
pub open spec fn query_wf(q: QueryModel) -> bool {
    &&& q.table.len() <= u32::MAX
    &&& q.filters.len() <= u32::MAX
    &&& q.nonce.len() == 32
    &&& q.query_commitment.len() == 32
    &&& forall|i: int| 0 <= i < q.filters.len() ==> filter_wf(#[trigger] q.filters[i])
}

/// A filter whose arrays have 32 bytes and whose column length fits its
/// 4-byte field.
pub open spec fn filter_wf(f: FilterModel) -> bool {
    &&& f.column.len() <= u32::MAX
    &&& f.value_commitment.len() == 32
    &&& f.nonce.len() == 32
}

proof fn lemma_ser_filters_cons(f: FilterModel, rest: Seq<FilterModel>)
    ensures
        ser_filters(seq![f] + rest) == ser_filter(f) + ser_filters(rest),
    decreases rest.len(),
{
    if rest.len() == 0 {
        assert(seq![f] + rest =~= seq![f]);
        assert(seq![f].drop_last() =~= Seq::<FilterModel>::empty());
        assert(rest =~= Seq::<FilterModel>::empty());
        assert(ser_filters(seq![f]) == ser_filters(seq![f].drop_last()) + ser_filter(seq![f].last()));
        assert(Seq::<u8>::empty() + ser_filter(f) =~= ser_filter(f));
        assert(ser_filter(f) + Seq::<u8>::empty() =~= ser_filter(f));
    } else {
        let whole = seq![f] + rest;
        assert(whole.drop_last() =~= seq![f] + rest.drop_last());
        assert(whole.last() == rest.last());
        lemma_ser_filters_cons(f, rest.drop_last());
        assert(ser_filters(whole) =~= ser_filter(f) + ser_filters(rest));
    }
}

proof fn lemma_parse_filter_ser(s: Seq<u8>, p: int, f: FilterModel)
    requires
        filter_wf(f),
        0 <= p,
        p + ser_filter(f).len() <= s.len(),
        s.subrange(p, p + ser_filter(f).len()) == ser_filter(f),
    ensures
        ser_filter(f).len() == 4 + f.column.len() + 65,
        parse_filter(s, p) == Ok::<(FilterModel, int), DecodeFault>((f, p + ser_filter(f).len())),
{
    let w = ser_filter(f);
    let cl = f.column.len() as int;
    lemma_filter_op_roundtrip(f.operator, 0);
    lemma_sub_of_sub(s, p, w, 0, 4);
    assert(w.subrange(0, 4) =~= le_u32(cl as u32));
    lemma_read_le_u32(s, p, cl as u32);
    lemma_sub_of_sub(s, p, w, 4, 4 + cl);
    assert(w.subrange(4, 4 + cl) =~= f.column);
    assert(s[p + 4 + cl] == s.subrange(p, p + w.len())[4 + cl]);
    assert(w[4 + cl] == filter_op_byte(f.operator));
    lemma_sub_of_sub(s, p, w, 5 + cl, 37 + cl);
    assert(w.subrange(5 + cl, 37 + cl) =~= f.value_commitment);
    lemma_sub_of_sub(s, p, w, 37 + cl, 69 + cl);
    assert(w.subrange(37 + cl, 69 + cl) =~= f.nonce);
}

proof fn lemma_parse_filters_ser(s: Seq<u8>, p: int, fs: Seq<FilterModel>)
    requires
        forall|i: int| 0 <= i < fs.len() ==> filter_wf(#[trigger] fs[i]),
        0 <= p,
        p + ser_filters(fs).len() <= s.len(),
        s.subrange(p, p + ser_filters(fs).len()) == ser_filters(fs),
    ensures
        parse_filters(s, p, fs.len()) == Ok::<(Seq<FilterModel>, int), DecodeFault>((fs, p + ser_filters(fs).len())),
    decreases fs.len(),
{
    if fs.len() == 0 {
        assert(fs =~= Seq::<FilterModel>::empty());
    } else {
        let f = fs[0];
        let rest = fs.subrange(1, fs.len() as int);
        assert(fs =~= seq![f] + rest);
        lemma_ser_filters_cons(f, rest);
        let w = ser_filters(fs);
        let lf = ser_filter(f).len() as int;
        lemma_sub_of_sub(s, p, w, 0, lf);
        assert(w.subrange(0, lf) =~= ser_filter(f));
        assert(filter_wf(fs[0]));
        lemma_parse_filter_ser(s, p, f);
        lemma_sub_of_sub(s, p, w, lf, w.len() as int);
        assert(w.subrange(lf, w.len() as int) =~= ser_filters(rest));
        assert forall|i: int| 0 <= i < rest.len() implies filter_wf(#[trigger] rest[i]) by {
            assert(rest[i] == fs[i + 1]);
        }
        lemma_parse_filters_ser(s, p + lf, rest);
    }
}

/// Decoding the encoding of a well-formed query gives the query back.
#[verifier::spinoff_prover]
#[verifier::rlimit(40)]
pub proof fn lemma_query_roundtrip(q: QueryModel)
    requires
        query_wf(q),
    ensures
        parse_query(ser_query(q)) == Ok::<QueryModel, DecodeFault>(q),
{
    let s = ser_query(q);
    let tl = q.table.len() as int;
    let fsb = ser_filters(q.filters);
    let s1 = le_u32(tl as u32);
    let s2 = s1 + q.table;
    let s3 = s2 + le_u32(q.filters.len() as u32);
    let s4 = s3 + fsb;
    let s5 = s4 + q.nonce;
    assert(s == s5 + q.query_commitment);
    let p = 8 + tl + fsb.len();
    assert(s.subrange(0, s5.len() as int) =~= s5);
    lemma_split_prefix(s, s4, q.nonce);
    lemma_split_prefix(s, s3, fsb);
    lemma_split_prefix(s, s2, le_u32(q.filters.len() as u32));
    lemma_split_prefix(s, s1, q.table);
    lemma_read_le_u32(s, 0, tl as u32);
    lemma_read_le_u32(s, 4 + tl, q.filters.len() as u32);
    lemma_parse_filters_ser(s, 8 + tl, q.filters);
    assert(s.subrange(p + 32, p + 64) =~= q.query_commitment);
}

proof fn lemma_ser_filters_len(fs: Seq<FilterModel>)
    requires
        forall|i: int| 0 <= i < fs.len() ==> filter_wf(#[trigger] fs[i]),
    ensures
        ser_filters(fs).len() == filters_size(fs),
    decreases fs.len(),
{
    if fs.len() > 0 {
        assert forall|i: int| 0 <= i < fs.drop_last().len() implies filter_wf(#[trigger] fs.drop_last()[i]) by {
            assert(fs.drop_last()[i] == fs[i]);
        }
        lemma_ser_filters_len(fs.drop_last());
        assert(filter_wf(fs[fs.len() - 1]));
    }
}

/// The encoding of a well-formed query is as long as the size it declares.
pub proof fn lemma_query_size(q: QueryModel)
    requires
        query_wf(q),
    ensures
        ser_query(q).len() == query_size(q),
{
    lemma_ser_filters_len(q.filters);
}

/// Range proof for confidential comparisons
///
/// A proof that demonstrates a committed value falls within
/// a specified range without revealing the value.
#[derive(Debug, Clone)]
pub struct RangeProof {
    /// Commitment to the value
    pub commitment: Commitment,
    /// Proof data (serialized)
    pub proof_data: Vec<u8>,
    /// Lower bound of range
    pub lower_bound: i64,
    /// Upper bound of range
    pub upper_bound: i64,
}

impl RangeProof {
    /// Create a new range proof
    pub fn new(commitment: Commitment, proof_data: Vec<u8>, lower_bound: i64, upper_bound: i64) -> (r: Self)
        ensures
            r.commitment == commitment,
            r.proof_data@ == proof_data@,
            r.lower_bound == lower_bound,
            r.upper_bound == upper_bound,
    {
        Self { commitment, proof_data, lower_bound, upper_bound }
    }

    /// Check the range proof's shape: it holds proof data and its range is
    /// not empty. The proof data itself is not checked.
    pub fn verify(&self) -> (b: bool)
        ensures
            b == (self.proof_data@.len() > 0 && self.lower_bound <= self.upper_bound),
    {
        self.proof_data.len() > 0 && self.lower_bound <= self.upper_bound
    }
}

/// Confidential query result
///
/// Contains the results of a confidential query along with
/// proofs that enable verification without revealing data.
#[derive(Debug, Clone)]
pub struct ConfidentialResult {
    /// Number of rows returned
    pub row_count: u64,
    /// Commitments to each row's values
    pub row_commitments: Vec<Commitment>,
    /// Commitments to aggregate results (COUNT, SUM, etc.)
    pub aggregate_commitments: Vec<Commitment>,
    /// Proof of query execution
    pub proof: Vec<u8>,
    /// Query that was executed (committed)
    pub query_commitment: Commitment,
}

/// The content of a [`ConfidentialResult`], with byte arrays as sequences.
pub struct ResultModel {
    pub row_count: u64,
    pub row_commitments: Seq<Seq<u8>>,
    pub aggregate_commitments: Seq<Seq<u8>>,
    pub proof: Seq<u8>,
    pub query_commitment: Seq<u8>,
}

/// The byte arrays of a list, as sequences.
pub open spec fn commitments_view(cs: Seq<Commitment>) -> Seq<Seq<u8>> {
    cs.map_values(|c: Commitment| c@)
}

impl View for ConfidentialResult {
    type V = ResultModel;

    open spec fn view(&self) -> ResultModel {
        ResultModel {
            row_count: self.row_count,
            row_commitments: commitments_view(self.row_commitments@),
            aggregate_commitments: commitments_view(self.aggregate_commitments@),
            proof: self.proof@,
            query_commitment: self.query_commitment@,
        }
    }
}

/// The commitments one after the other.
pub open spec fn flatten(cs: Seq<Seq<u8>>) -> Seq<u8>
    decreases cs.len(),
{
    if cs.len() == 0 {
        Seq::empty()
    } else {
        flatten(cs.drop_last()) + cs.last()
    }
}

/// The encoding of a result: row count, the row commitments and the
/// aggregate commitments each with a 4-byte count, the proof with a 4-byte
/// length, and the query commitment.
pub open spec fn ser_result(r: ResultModel) -> Seq<u8> {
    le_u64(r.row_count) + le_u32(r.row_commitments.len() as u32) + flatten(r.row_commitments) + le_u32(
        r.aggregate_commitments.len() as u32,
    ) + flatten(r.aggregate_commitments) + le_u32(r.proof.len() as u32) + r.proof + r.query_commitment
}

/// The size a result declares for itself.
pub open spec fn result_size(r: ResultModel) -> int {
    (8 + 4 + r.row_commitments.len() * 32 + 4 + r.aggregate_commitments.len() * 32 + 4 + r.proof.len() + 32) as int
}

/// Decoding `count` commitments of 32 bytes from `p`; `None` when they run
/// past the end.
pub open spec fn parse_commitments(s: Seq<u8>, p: int, count: nat) -> Option<(Seq<Seq<u8>>, int)>
    decreases count,
{
    if count == 0 {
        Some((Seq::empty(), p))
    } else if p < 0 || p + 32 > s.len() {
        None
    } else {
        match parse_commitments(s, p + 32, (count - 1) as nat) {
            None => None,
            Some((rest, q)) => Some((seq![s.subrange(p, p + 32)] + rest, q)),
        }
    }
}

/// Decoding a result; `None` when the bytes end before what they announce.
/// Bytes after it are ignored.
pub open spec fn parse_result(s: Seq<u8>) -> Option<ResultModel> {
    if s.len() < 12 {
        None
    } else {
        match parse_commitments(s, 12, read_le_u32(s, 8) as nat) {
            None => None,
            Some((rows, p)) => if p + 4 > s.len() {
                None
            } else {
                match parse_commitments(s, p + 4, read_le_u32(s, p) as nat) {
                    None => None,
                    Some((aggs, q)) => if q + 4 > s.len() {
                        None
                    } else {
                        let pl = read_le_u32(s, q) as int;
                        if q + 4 + pl + 32 > s.len() {
                            None
                        } else {
                            Some(
                                ResultModel {
                                    row_count: read_le_u64(s, 0),
                                    row_commitments: rows,
                                    aggregate_commitments: aggs,
                                    proof: s.subrange(q + 4, q + 4 + pl),
                                    query_commitment: s.subrange(q + 4 + pl, q + 4 + pl + 32),
                                },
                            )
                        }
                    },
                }
            },
        }
    }
}

/// The 32 zero bytes.
pub open spec fn zero32() -> Seq<u8> {
    Seq::new(32, |i: int| 0u8)
}

/// The bytes a result's proof is checked against: the expected root, the
/// row count, the query commitment and the row commitments.
pub open spec fn result_check_bytes(r: ResultModel, expected_root: Seq<u8>) -> Seq<u8> {
    expected_root + le_u64(r.row_count) + r.query_commitment + flatten(r.row_commitments)
}

/// The shape checks of a result: a query commitment that is not zero and as
/// many row commitments as the row count says.
pub open spec fn result_shape_ok(r: ConfidentialResult) -> bool {
    r.query_commitment@ != zero32() && r.row_count as usize == r.row_commitments@.len()
}

/// Appends each commitment's bytes, in order.
fn push_commitments(out: &mut Vec<u8>, cs: &Vec<Commitment>)
    ensures
        final(out)@ == old(out)@ + flatten(commitments_view(cs@)),
{
    let ghost start = out@;
    let ghost v = commitments_view(cs@);
    let mut i: usize = 0;
    while i < cs.len()
        invariant
            i <= cs@.len(),
            v == commitments_view(cs@),
            out@ == start + flatten(v.subrange(0, i as int)),
        decreases cs@.len() - i,
    {
        push_bytes(out, &cs[i]);
        proof {
            let t = v.subrange(0, i + 1);
            assert(t.drop_last() =~= v.subrange(0, i as int));
            assert(t.last() == cs@[i as int]@);
            assert(out@ =~= start + flatten(t));
        }
        i = i + 1;
    }
    assert(v.subrange(0, cs@.len() as int) =~= v);
}

/// Reads `count` commitments from `pos`, with the position after them.
fn read_commitments(data: &[u8], pos: usize, count: u32) -> (r: Option<(Vec<Commitment>, usize)>)
    requires
        pos <= data@.len(),
    ensures
        match parse_commitments(data@, pos as int, count as nat) {
            Some((cs, e)) => r matches Some((v, end)) && commitments_view(v@) == cs && end == e,
            None => r is None,
        },
        r matches Some((v, end)) ==> pos <= end <= data@.len(),
{
    let n = data.len();
    let mut out: Vec<Commitment> = Vec::new();
    let mut p: usize = pos;
    let mut k: u32 = 0;
    while k < count
        invariant
            n == data@.len(),
            pos <= p <= n,
            k <= count,
            parse_commitments(data@, pos as int, count as nat) == (match parse_commitments(data@, p as int, (count - k) as nat) {
                Some((rest, e)) => Some((commitments_view(out@) + rest, e)),
                None => None::<(Seq<Seq<u8>>, int)>,
            }),
        decreases count - k,
    {
        if n - p < 32 {
            return None;
        }
        let c = read_array32_at(data, p);
        let ghost before = commitments_view(out@);
        out.push(c);
        proof {
            assert(commitments_view(out@) =~= before.push(c@));
            match parse_commitments(data@, p + 32, (count - k - 1) as nat) {
                Some((rest, e)) => {
                    assert(before.push(c@) + rest =~= before + (seq![c@] + rest));
                },
                None => {},
            }
        }
        p = p + 32;
        k = k + 1;
    }
    assert(commitments_view(out@) + Seq::<Seq<u8>>::empty() =~= commitments_view(out@));
    Some((out, p))
}

impl ConfidentialResult {
    /// Create a new confidential result
    pub fn new(
        row_count: u64,
        row_commitments: Vec<Commitment>,
        aggregate_commitments: Vec<Commitment>,
        proof: Vec<u8>,
        query_commitment: Commitment,
    ) -> (r: Self)
        ensures
            r.row_count == row_count,
            r.row_commitments@ == row_commitments@,
            r.aggregate_commitments@ == aggregate_commitments@,
            r.proof@ == proof@,
            r.query_commitment == query_commitment,
    {
        Self { row_count, row_commitments, aggregate_commitments, proof, query_commitment }
    }

    /// Get serialized size
    pub fn serialized_size(&self) -> (n: usize)
        requires
            result_size(self@) <= usize::MAX,
        ensures
            n == result_size(self@),
    {
        assert(self.row_commitments@.len() * 32 <= usize::MAX) by (nonlinear_arith)
            requires
                self.row_commitments@.len() * 32 <= result_size(self@) <= usize::MAX,
        ;
        8 + 4 + self.row_commitments.len() * 32 + 4 + self.aggregate_commitments.len() * 32 + 4 + self.proof.len()
            + 32
    }

    /// Check the result's shape: its query commitment is not zero and it
    /// holds as many row commitments as its row count says. The expected
    /// root is not used.
    pub fn verify(&self, _expected_root: [u8; 32]) -> (b: bool)
        ensures
            b == result_shape_ok(*self),
    {
        let zero = [0u8; 32];
        assert(zero@ =~= zero32());
        !eq32(&self.query_commitment, &zero) && self.row_count as usize == self.row_commitments.len()
    }

    /// The bytes the proof is checked against for an expected root.
    pub fn verification_input(&self, expected_root: [u8; 32]) -> (out: Vec<u8>)
        ensures
            out@ == result_check_bytes(self@, expected_root@),
    {
        let mut out: Vec<u8> = Vec::new();
        push_bytes(&mut out, &expected_root);
        push_u64_le(&mut out, self.row_count);
        push_bytes(&mut out, &self.query_commitment);
        push_commitments(&mut out, &self.row_commitments);
        out
    }

    /// Verify the result when the proof plugin may be available:
    /// `plugin_verdict` is the plugin's verdict on the verification input,
    /// or `None` when no plugin could be loaded. A result of bad shape
    /// fails; one without a proof passes on its shape; otherwise the
    /// plugin's verdict counts, and with no plugin the result passes when
    /// it has rows.
    pub fn verify_with_plugin(&self, _expected_root: [u8; 32], plugin_verdict: Option<bool>) -> (b: bool)
        ensures
            b == (result_shape_ok(*self) && (self.proof@.len() == 0 || match plugin_verdict {
                Some(ok) => ok,
                None => self.row_count > 0,
            })),
    {
        let zero = [0u8; 32];
        assert(zero@ =~= zero32());
        if eq32(&self.query_commitment, &zero) {
            return false;
        }
        if self.row_count as usize != self.row_commitments.len() {
            return false;
        }
        if self.proof.len() == 0 {
            return true;
        }
        match plugin_verdict {
            Some(ok) => ok,
            None => self.proof.len() > 0 && self.row_count > 0,
        }
    }

    /// Open a commitment to reveal the underlying value: not possible
    /// without the values and randomness it was made from, so always `None`.
    pub fn open_commitment(&self, _index: usize) -> (r: Option<i64>)
        ensures
            r is None,
    {
        None
    }

    /// Verify that a value and randomness open the row commitment at an index
    pub fn verify_value_commitment(&self, index: usize, value: i64, randomness: u64) -> (b: bool)
        ensures
            b == (index < self.row_commitments@.len() && opens(self.row_commitments@[index as int]@, value, randomness)),
    {
        if index >= self.row_commitments.len() {
            return false;
        }
        let computed = pedersen_commit(value, randomness);
        eq32(&computed, &self.row_commitments[index])
    }

    /// Serialize to bytes
    pub fn to_bytes(&self) -> (out: Vec<u8>)
        ensures
            out@ == ser_result(self@),
    {
        let mut result: Vec<u8> = Vec::new();
        push_u64_le(&mut result, self.row_count);
        push_u32_le(&mut result, self.row_commitments.len() as u32);
        push_commitments(&mut result, &self.row_commitments);
        push_u32_le(&mut result, self.aggregate_commitments.len() as u32);
        push_commitments(&mut result, &self.aggregate_commitments);
        push_u32_le(&mut result, self.proof.len() as u32);
        push_bytes(&mut result, self.proof.as_slice());
        push_bytes(&mut result, &self.query_commitment);
        assert(result@ =~= ser_result(self@));
        result
    }

    /// Deserialize from bytes; `None` when the input is too short for what it
    /// announces.
    pub fn from_bytes(data: &[u8]) -> (r: Option<Self>)
        ensures
            match parse_result(data@) {
                Some(m) => r matches Some(x) && x@ == m,
                None => r is None,
            },
    {
        let n = data.len();
        if n < 12 {
            return None;
        }
        let row_count = read_u64_at(data, 0);
        let rn = read_u32_at(data, 8);
        let (row_commitments, p) = match read_commitments(data, 12, rn) {
            Some(x) => x,
            None => {
                return None;
            },
        };
        if n - p < 4 {
            return None;
        }
        let an = read_u32_at(data, p);
        let (aggregate_commitments, q) = match read_commitments(data, p + 4, an) {
            Some(x) => x,
            None => {
                return None;
            },
        };
        if n - q < 4 {
            return None;
        }
        let pl = read_u32_at(data, q) as usize;
        if n - q - 4 < pl || n - q - 4 - pl < 32 {
            return None;
        }
        let proof = copy_range(data, q + 4, q + 4 + pl);
        let query_commitment = read_array32_at(data, q + 4 + pl);
        Some(ConfidentialResult { row_count, row_commitments, aggregate_commitments, proof, query_commitment })
    }
}

/// A result whose arrays have 32 bytes and whose counts and proof length fit
/// their 4-byte fields.
pub open spec fn result_wf(r: ResultModel) -> bool {
    &&& r.row_commitments.len() <= u32::MAX
    &&& r.aggregate_commitments.len() <= u32::MAX
    &&& r.proof.len() <= u32::MAX
    &&& r.query_commitment.len() == 32
    &&& forall|i: int| 0 <= i < r.row_commitments.len() ==> (#[trigger] r.row_commitments[i]).len() == 32
    &&& forall|i: int| 0 <= i < r.aggregate_commitments.len() ==> (#[trigger] r.aggregate_commitments[i]).len()
        == 32
}

proof fn lemma_flatten_cons(c: Seq<u8>, rest: Seq<Seq<u8>>)
    ensures
        flatten(seq![c] + rest) == c + flatten(rest),
    decreases rest.len(),
{
    if rest.len() == 0 {
        assert(seq![c] + rest =~= seq![c]);
        assert(seq![c].drop_last() =~= Seq::<Seq<u8>>::empty());
        assert(rest =~= Seq::<Seq<u8>>::empty());
        assert(flatten(seq![c]) == flatten(seq![c].drop_last()) + seq![c].last());
        assert(Seq::<u8>::empty() + c =~= c);
        assert(c + Seq::<u8>::empty() =~= c);
    } else {
        let whole = seq![c] + rest;
        assert(whole.drop_last() =~= seq![c] + rest.drop_last());
        assert(whole.last() == rest.last());
        lemma_flatten_cons(c, rest.drop_last());
        assert(flatten(whole) =~= c + flatten(rest));
    }
}

proof fn lemma_flatten_len(cs: Seq<Seq<u8>>)
    requires
        forall|i: int| 0 <= i < cs.len() ==> (#[trigger] cs[i]).len() == 32,
    ensures
        flatten(cs).len() == cs.len() * 32,
    decreases cs.len(),
{
    if cs.len() > 0 {
        assert forall|i: int| 0 <= i < cs.drop_last().len() implies (#[trigger] cs.drop_last()[i]).len() == 32 by {
            assert(cs.drop_last()[i] == cs[i]);
        }
        lemma_flatten_len(cs.drop_last());
        assert(cs[cs.len() - 1].len() == 32);
    }
}

proof fn lemma_parse_commitments_ser(s: Seq<u8>, p: int, cs: Seq<Seq<u8>>)
    requires
        forall|i: int| 0 <= i < cs.len() ==> (#[trigger] cs[i]).len() == 32,
        0 <= p,
        p + flatten(cs).len() <= s.len(),
        s.subrange(p, p + flatten(cs).len()) == flatten(cs),
    ensures
        parse_commitments(s, p, cs.len()) == Some((cs, p + flatten(cs).len())),
    decreases cs.len(),
{
    if cs.len() == 0 {
        assert(cs =~= Seq::<Seq<u8>>::empty());
    } else {
        let c = cs[0];
        let rest = cs.subrange(1, cs.len() as int);
        assert(cs =~= seq![c] + rest);
        lemma_flatten_cons(c, rest);
        let w = flatten(cs);
        assert(cs[0].len() == 32);
        lemma_sub_of_sub(s, p, w, 0, 32);
        assert(w.subrange(0, 32) =~= c);
        lemma_sub_of_sub(s, p, w, 32, w.len() as int);
        assert(w.subrange(32, w.len() as int) =~= flatten(rest));
        assert forall|i: int| 0 <= i < rest.len() implies (#[trigger] rest[i]).len() == 32 by {
            assert(rest[i] == cs[i + 1]);
        }
        lemma_parse_commitments_ser(s, p + 32, rest);
    }
}

/// Decoding the encoding of a well-formed result gives the result back.
#[verifier::spinoff_prover]
#[verifier::rlimit(40)]
pub proof fn lemma_result_roundtrip(r: ResultModel)
    requires
        result_wf(r),
    ensures
        parse_result(ser_result(r)) == Some(r),
{
    let s = ser_result(r);
    let rows = flatten(r.row_commitments);
    let aggs = flatten(r.aggregate_commitments);
    let s1 = le_u64(r.row_count);
    let s2 = s1 + le_u32(r.row_commitments.len() as u32);
    let s3 = s2 + rows;
    let s4 = s3 + le_u32(r.aggregate_commitments.len() as u32);
    let s5 = s4 + aggs;
    let s6 = s5 + le_u32(r.proof.len() as u32);
    let s7 = s6 + r.proof;
    assert(s == s7 + r.query_commitment);
    assert(s.subrange(0, s7.len() as int) =~= s7);
    lemma_split_prefix(s, s6, r.proof);
    lemma_split_prefix(s, s5, le_u32(r.proof.len() as u32));
    lemma_split_prefix(s, s4, aggs);
    lemma_split_prefix(s, s3, le_u32(r.aggregate_commitments.len() as u32));
    lemma_split_prefix(s, s2, rows);
    lemma_split_prefix(s, s1, le_u32(r.row_commitments.len() as u32));
    lemma_read_le_u64(s, 0, r.row_count);
    lemma_read_le_u32(s, 8, r.row_commitments.len() as u32);
    lemma_parse_commitments_ser(s, 12, r.row_commitments);
    let p = s3.len() as int;
    lemma_read_le_u32(s, p, r.aggregate_commitments.len() as u32);
    lemma_parse_commitments_ser(s, p + 4, r.aggregate_commitments);
    let q = s5.len() as int;
    lemma_read_le_u32(s, q, r.proof.len() as u32);
    assert(s.subrange(q + 4 + r.proof.len(), s.len() as int) =~= r.query_commitment);
}

/// The encoding of a well-formed result is as long as the size it declares.
pub proof fn lemma_result_size(r: ResultModel)
    requires
        result_wf(r),
    ensures
        ser_result(r).len() == result_size(r),
{
    lemma_flatten_len(r.row_commitments);
    lemma_flatten_len(r.aggregate_commitments);
}

} // verus!
