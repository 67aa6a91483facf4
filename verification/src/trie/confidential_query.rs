//! Confidential queries over a row trie: which rows match, and the
//! commitments that stand for their values.

use vstd::prelude::*;
use crate::bytes::{le_u64, push_bytes, push_u64_le};
use crate::determ::row::DetermRow;
use crate::determ::value::ValueModel;
use crate::zk::commitment::{commitment_of, pedersen_commit, random_u64, Commitment};
use crate::zk::confidential::{
    commitments_view, flatten, ConfidentialResult, EncryptedFilter, EncryptedQuery, FilterModel, FilterOp,
};
use super::row_trie::{root_hash_of, spec_encode_row_id, spec_get, RowTrie};

verus! {

/// Error type for confidential query execution
#[derive(Debug, Clone, PartialEq, Eq)]
pub enum ConfidentialQueryError {
    /// Query decryption failed
    DecryptionFailed(String),
    /// Filter evaluation failed
    FilterError(String),
    /// Proof generation failed
    ProofError(String),
}

/// The text shown for a confidential query error.
pub open spec fn confidential_query_error_text(e: ConfidentialQueryError) -> Seq<char> {
    match e {
        ConfidentialQueryError::DecryptionFailed(m) => "Decryption failed: "@ + m@,
        ConfidentialQueryError::FilterError(m) => "Filter error: "@ + m@,
        ConfidentialQueryError::ProofError(m) => "Proof error: "@ + m@,
    }
}

impl ConfidentialQueryError {
    /// The text shown for the error.
    pub fn message(&self) -> (s: String)
        ensures
            s@ == confidential_query_error_text(*self),
    {
        match self {
            ConfidentialQueryError::DecryptionFailed(m) => "Decryption failed: ".to_owned().concat(m.as_str()),
            ConfidentialQueryError::FilterError(m) => "Filter error: ".to_owned().concat(m.as_str()),
            ConfidentialQueryError::ProofError(m) => "Proof error: ".to_owned().concat(m.as_str()),
        }
    }
}

/// The value a row is compared with: its first value when that is an
/// integer, zero otherwise.
pub open spec fn filter_value(row: Seq<ValueModel>) -> i64 {
    if row.len() > 0 && row[0] is Integer {
        row[0]->Integer_0
    } else {
        0
    }
}

/// The value a matching row stands for: its first value when that is an
/// integer, its row id otherwise.
pub open spec fn committed_value(row: Seq<ValueModel>, row_id: i64) -> i64 {
    if row.len() > 0 && row[0] is Integer {
        row[0]->Integer_0
    } else {
        row_id
    }
}

/// Whether a value passes one filter's operator.
pub open spec fn op_passes(op: FilterOp, v: i64) -> bool {
    match op {
        FilterOp::Equal => v != 0,
        FilterOp::NotEqual => true,
        FilterOp::LessThan => v < 0,
        FilterOp::GreaterThan => v > 0,
        FilterOp::LessThanOrEqual => v <= 0,
        FilterOp::GreaterThanOrEqual => v >= 0,
    }
}

/// Whether a row passes every filter (no filters pass every row).
pub open spec fn row_matches(filters: Seq<FilterModel>, row: Seq<ValueModel>) -> bool {
    forall|i: int| 0 <= i < filters.len() ==> op_passes((#[trigger] filters[i]).operator, filter_value(row))
}

/// The order operators compare the row's value with zero as their names
/// say; the inclusive ones pass exactly what the strict opposite refuses,
/// each inclusive one is its strict one or equality with zero, and a
/// positive value passes greater-than-or-equal but not less-than-or-equal.
pub proof fn lemma_order_operators(v: i64)
    ensures
        op_passes(FilterOp::LessThan, v) <==> v < 0,
        op_passes(FilterOp::GreaterThan, v) <==> v > 0,
        op_passes(FilterOp::LessThanOrEqual, v) <==> v <= 0,
        op_passes(FilterOp::GreaterThanOrEqual, v) <==> v >= 0,
        op_passes(FilterOp::GreaterThanOrEqual, v) <==> !op_passes(FilterOp::LessThan, v),
        op_passes(FilterOp::LessThanOrEqual, v) <==> !op_passes(FilterOp::GreaterThan, v),
        op_passes(FilterOp::GreaterThanOrEqual, v) <==> (op_passes(FilterOp::GreaterThan, v) || v == 0),
        op_passes(FilterOp::LessThanOrEqual, v) <==> (op_passes(FilterOp::LessThan, v) || v == 0),
        v > 0 ==> op_passes(FilterOp::GreaterThanOrEqual, v) && !op_passes(FilterOp::LessThanOrEqual, v),
        v < 0 ==> op_passes(FilterOp::LessThanOrEqual, v) && !op_passes(FilterOp::GreaterThanOrEqual, v),
        op_passes(FilterOp::NotEqual, v),
        op_passes(FilterOp::Equal, v) <==> v != 0,
{
}

/// A row whose first value is the integer `v` passes a single filter
/// exactly when `v` passes its operator; with no filters every row passes.
pub proof fn lemma_single_filter(f: FilterModel, v: i64, rest: Seq<ValueModel>)
    ensures
        row_matches(seq![f], seq![ValueModel::Integer(v)] + rest) <==> op_passes(f.operator, v),
        row_matches(Seq::empty(), seq![ValueModel::Integer(v)] + rest),
{
    let row = seq![ValueModel::Integer(v)] + rest;
    assert(row[0] == ValueModel::Integer(v));
    assert(filter_value(row) == v);
    if op_passes(f.operator, v) {
        assert forall|i: int| 0 <= i < seq![f].len() implies op_passes((#[trigger] seq![f][i]).operator, filter_value(row)) by {
            assert(seq![f][i] == f);
        }
    } else {
        assert(seq![f][0] == f);
    }
}

/// The values of the matching rows with ids `1..=n`, in id order.
pub open spec fn matched_values(root: Option<super::row_trie::NodeModel>, filters: Seq<FilterModel>, n: int) -> Seq<i64>
    decreases n,
{
    if n <= 0 {
        Seq::empty()
    } else {
        let before = matched_values(root, filters, n - 1);
        match spec_get(root, spec_encode_row_id(n as i64), 0, n as i64) {
            Some(row) => if row_matches(filters, row) {
                before.push(committed_value(row, n as i64))
            } else {
                before
            },
            None => before,
        }
    }
}

/// The sum of a sequence of integers.
pub open spec fn seq_sum(s: Seq<i64>) -> int
    decreases s.len(),
{
    if s.len() == 0 {
        0
    } else {
        seq_sum(s.drop_last()) + s.last()
    }
}

/// Every running sum of `s` fits an `i64`.
pub open spec fn sums_fit(s: Seq<i64>) -> bool {
    forall|k: int| 0 <= k <= s.len() ==> i64::MIN <= #[trigger] seq_sum(s.subrange(0, k)) <= i64::MAX
}

/// The bytes a query result's proof is made from: the root, the number of
/// row commitments and the commitments.
pub open spec fn query_proof_bytes(root: Seq<u8>, cs: Seq<Seq<u8>>) -> Seq<u8> {
    root + le_u64(cs.len() as u64) + flatten(cs)
}

/// Whether a row passes the filters.
fn matches_filters(filters: &Vec<EncryptedFilter>, row: &DetermRow) -> (b: bool)
    ensures
        b == row_matches(filters@.map_values(|f: EncryptedFilter| f@), row@),
{
    let ghost fs = filters@.map_values(|f: EncryptedFilter| f@);
    if filters.len() == 0 {
        return true;
    }
    let row_value: i64 = if row.values.len() > 0 {
        match row.values[0].as_integer() {
            Some(v) => v,
            None => 0,
        }
    } else {
        0
    };
    assert(row_value == filter_value(row@));
    let mut i: usize = 0;
    while i < filters.len()
        invariant
            i <= filters@.len(),
            fs == filters@.map_values(|f: EncryptedFilter| f@),
            row_value == filter_value(row@),
            forall|j: int| 0 <= j < i ==> op_passes((#[trigger] fs[j]).operator, row_value),
        decreases filters@.len() - i,
    {
        let ok = match filters[i].operator {
            FilterOp::Equal => row_value != 0,
            FilterOp::NotEqual => true,
            FilterOp::LessThan => row_value < 0,
            FilterOp::GreaterThan => row_value > 0,
            FilterOp::LessThanOrEqual => row_value <= 0,
            FilterOp::GreaterThanOrEqual => row_value >= 0,
        };
        assert(fs[i as int].operator == filters@[i as int].operator);
        if !ok {
            return false;
        }
        i = i + 1;
    }
    true
}

/// The result of a confidential query from the matching values, the
/// randomness for each row commitment and for the two aggregate
/// commitments, the query commitment and the proof bytes. The aggregates,
/// present when some row matched, commit to the sum and the count.
pub fn confidential_result_from(
    values: &Vec<i64>,
    row_randomness: &Vec<u64>,
    sum_randomness: u64,
    count_randomness: u64,
    query_commitment: Commitment,
    proof: Vec<u8>,
) -> (r: ConfidentialResult)
    requires
        row_randomness@.len() == values@.len(),
        sums_fit(values@),
    ensures
        r.row_count == values@.len(),
        r.row_commitments@.len() == values@.len(),
        forall|i: int| 0 <= i < values@.len() ==> (#[trigger] r.row_commitments@[i])@ == commitment_of(
            values@[i],
            row_randomness@[i],
        ),
        values@.len() == 0 ==> r.aggregate_commitments@.len() == 0,
        values@.len() > 0 ==> r.aggregate_commitments@.len() == 2 && r.aggregate_commitments@[0]@
            == commitment_of(seq_sum(values@) as i64, sum_randomness) && r.aggregate_commitments@[1]@
            == commitment_of(values@.len() as i64, count_randomness),
        r.proof@ == proof@,
        r.query_commitment == query_commitment,
{
    let mut row_commitments: Vec<Commitment> = Vec::new();
    let mut i: usize = 0;
    while i < values.len()
        invariant
            i <= values@.len(),
            row_randomness@.len() == values@.len(),
            row_commitments@.len() == i,
            forall|j: int| 0 <= j < i ==> (#[trigger] row_commitments@[j])@ == commitment_of(
                values@[j],
                row_randomness@[j],
            ),
        decreases values@.len() - i,
    {
        row_commitments.push(pedersen_commit(values[i], row_randomness[i]));
        i = i + 1;
    }
    let mut aggregate_commitments: Vec<Commitment> = Vec::new();
    if values.len() > 0 {
        let mut sum: i64 = 0;
        let mut k: usize = 0;
        while k < values.len()
            invariant
                k <= values@.len(),
                sums_fit(values@),
                sum == seq_sum(values@.subrange(0, k as int)),
            decreases values@.len() - k,
        {
            proof {
                let t = values@.subrange(0, k + 1);
                assert(t.drop_last() =~= values@.subrange(0, k as int));
                assert(i64::MIN <= seq_sum(t) <= i64::MAX);
            }
            sum = sum + values[k];
            k = k + 1;
        }
        assert(values@.subrange(0, values@.len() as int) =~= values@);
        let count = values.len() as i64;
        aggregate_commitments.push(pedersen_commit(sum, sum_randomness));
        aggregate_commitments.push(pedersen_commit(count, count_randomness));
    }
    ConfidentialResult {
        row_count: values.len() as u64,
        row_commitments,
        aggregate_commitments,
        proof,
        query_commitment,
    }
}

impl RowTrie {
    /// The values of the rows with ids from one to the row count that pass
    /// the filters, in id order: each row's first value when it is an
    /// integer, else its id.
    pub fn matching_values(&self, filters: &Vec<EncryptedFilter>) -> (vs: Vec<i64>)
        ensures
            vs@ == matched_values(
                self.root_view(),
                filters@.map_values(|f: EncryptedFilter| f@),
                self.count() as i64 as int,
            ),
    {
        let ghost fs = filters@.map_values(|f: EncryptedFilter| f@);
        let n = self.len() as i64;
        let mut out: Vec<i64> = Vec::new();
        if n < 1 {
            return out;
        }
        let mut id: i64 = 1;
        loop
            invariant_except_break
                out@ == matched_values(self.root_view(), fs, id - 1),
            invariant
                1 <= id <= n,
                n == self.count() as i64,
                fs == filters@.map_values(|f: EncryptedFilter| f@),
            ensures
                out@ == matched_values(self.root_view(), fs, n as int),
            decreases n - id,
        {
            match self.get(id) {
                Some(row) => {
                    if matches_filters(filters, &row) {
                        let v: i64 = if row.values.len() > 0 {
                            match row.values[0].as_integer() {
                                Some(x) => x,
                                None => id,
                            }
                        } else {
                            id
                        };
                        assert(v == committed_value(row@, id));
                        out.push(v);
                    }
                },
                None => {},
            }
            assert(id as int as i64 == id);
            assert(out@ == matched_values(self.root_view(), fs, id as int));
            if id == n {
                break;
            }
            id = id + 1;
        }
        out
    }

    /// The proof bytes of a query result: the root, the number of row
    /// commitments and the commitments.
    pub fn query_proof_input(&self, row_commitments: &Vec<Commitment>) -> (out: Vec<u8>)
        ensures
            out@ == query_proof_bytes(root_hash_of(self.root_view()), commitments_view(row_commitments@)),
    {
        let mut out: Vec<u8> = Vec::new();
        let root = self.get_root();
        push_bytes(&mut out, &root);
        push_u64_le(&mut out, row_commitments.len() as u64);
        let ghost v = commitments_view(row_commitments@);
        let ghost start = out@;
        let mut i: usize = 0;
        while i < row_commitments.len()
            invariant
                i <= row_commitments@.len(),
                v == commitments_view(row_commitments@),
                out@ == start + flatten(v.subrange(0, i as int)),
            decreases row_commitments@.len() - i,
        {
            push_bytes(&mut out, &row_commitments[i]);
            proof {
                let t = v.subrange(0, i + 1);
                assert(t.drop_last() =~= v.subrange(0, i as int));
                assert(t.last() == row_commitments@[i as int]@);
                assert(out@ =~= start + flatten(t));
            }
            i = i + 1;
        }
        assert(v.subrange(0, v.len() as int) =~= v);
        assert(out@ =~= query_proof_bytes(root@, v));
        out
    }

    /// Execute a confidential query against the trie, with or without a
    /// prover: the matching rows' values are committed to with fresh
    /// randomness, and so are their sum and count when some row matched.
    /// With `prover_loaded` the proof holds the proof input bytes. It never
    /// fails.
    pub fn execute_confidential_query_with(&self, query: EncryptedQuery, prover_loaded: bool) -> (r: Result<
        ConfidentialResult,
        ConfidentialQueryError,
    >)
        requires
            sums_fit(
                matched_values(
                    self.root_view(),
                    query.filters@.map_values(|f: EncryptedFilter| f@),
                    self.count() as i64 as int,
                ),
            ),
        ensures
            r matches Ok(res) && {
                let vs = matched_values(
                    self.root_view(),
                    query.filters@.map_values(|f: EncryptedFilter| f@),
                    self.count() as i64 as int,
                );
                &&& res.row_count == vs.len()
                &&& res.row_commitments@.len() == vs.len()
                &&& exists|rs: Seq<u64>| #[trigger] commits_values(res.row_commitments@, vs, rs)
                &&& vs.len() == 0 ==> res.aggregate_commitments@.len() == 0
                &&& vs.len() > 0 ==> res.aggregate_commitments@.len() == 2 && (exists|a: u64, b: u64|
                    #[trigger] commits_aggregates(res.aggregate_commitments@, vs, a, b))
                &&& res.proof@ == if prover_loaded {
                    query_proof_bytes(root_hash_of(self.root_view()), commitments_view(res.row_commitments@))
                } else {
                    Seq::empty()
                }
                &&& res.query_commitment == query.query_commitment
            },
    {
        let values = self.matching_values(&query.filters);
        let mut rs: Vec<u64> = Vec::new();
        let mut i: usize = 0;
        while i < values.len()
            invariant
                i <= values@.len(),
                rs@.len() == i,
            decreases values@.len() - i,
        {
            rs.push(random_u64());
            i = i + 1;
        }
        let (a, b) = if values.len() > 0 {
            let a = random_u64();
            let b = random_u64();
            (a, b)
        } else {
            (0, 0)
        };
        let mut res = confidential_result_from(&values, &rs, a, b, query.query_commitment, Vec::new());
        if prover_loaded {
            res.proof = self.query_proof_input(&res.row_commitments);
        }
        assert(commits_values(res.row_commitments@, values@, rs@));
        if values.len() > 0 {
            assert(commits_aggregates(res.aggregate_commitments@, values@, a, b));
        }
        let ghost vs = matched_values(
            self.root_view(),
            query.filters@.map_values(|f: EncryptedFilter| f@),
            self.count() as i64 as int,
        );
        assert(values@ == vs);
        assert(exists|rs: Seq<u64>| #[trigger] commits_values(res.row_commitments@, vs, rs));
        assert(vs.len() > 0 ==> res.aggregate_commitments@.len() == 2 && (exists|a: u64, b: u64|
                    #[trigger] commits_aggregates(res.aggregate_commitments@, vs, a, b)));
        Ok(res)
    }

    /// Execute a confidential query against the trie with no prover: the
    /// result carries no proof.
    pub fn execute_confidential_query(&self, query: EncryptedQuery) -> (r: Result<
        ConfidentialResult,
        ConfidentialQueryError,
    >)
        requires
            sums_fit(
                matched_values(
                    self.root_view(),
                    query.filters@.map_values(|f: EncryptedFilter| f@),
                    self.count() as i64 as int,
                ),
            ),
        ensures
            r matches Ok(res) && {
                let vs = matched_values(
                    self.root_view(),
                    query.filters@.map_values(|f: EncryptedFilter| f@),
                    self.count() as i64 as int,
                );
                &&& res.row_count == vs.len()
                &&& res.row_commitments@.len() == vs.len()
                &&& exists|rs: Seq<u64>| #[trigger] commits_values(res.row_commitments@, vs, rs)
                &&& vs.len() == 0 ==> res.aggregate_commitments@.len() == 0
                &&& vs.len() > 0 ==> res.aggregate_commitments@.len() == 2 && (exists|a: u64, b: u64|
                    #[trigger] commits_aggregates(res.aggregate_commitments@, vs, a, b))
                &&& res.proof@.len() == 0
                &&& res.query_commitment == query.query_commitment
            },
    {
        self.execute_confidential_query_with(query, false)
    }
}

/// Each commitment is to the value at its position, with the randomness at
/// its position.
pub open spec fn commits_values(cs: Seq<Commitment>, vs: Seq<i64>, rs: Seq<u64>) -> bool {
    &&& cs.len() == vs.len()
    &&& rs.len() == vs.len()
    &&& forall|i: int| 0 <= i < vs.len() ==> (#[trigger] cs[i])@ == commitment_of(vs[i], rs[i])
}

/// The two aggregate commitments are to the sum and to the count of the
/// values, with the given randomness.
pub open spec fn commits_aggregates(cs: Seq<Commitment>, vs: Seq<i64>, a: u64, b: u64) -> bool {
    &&& cs.len() == 2
    &&& cs[0]@ == commitment_of(seq_sum(vs) as i64, a)
    &&& cs[1]@ == commitment_of(vs.len() as i64, b)
}

} // verus!
