//! Table schemas and the trie that stores them by table name.

use vstd::prelude::*;
use vstd::utf8::encode_utf8;
use super::merkle::{
    MerkleProof, hash_pair, spec_hash_pair, zero_hash, siblings_view, fold_proof, lemma_hash_pair_associative,
    lemma_hash_pair_self, lemma_hash_pair_commutative, lemma_hash_pair_zero,
};

verus! {

/// Column data types
#[derive(Debug, Clone, Copy, PartialEq, Eq, Structural)]
pub enum DataType {
    /// NULL
    Null,
    /// 64-bit integer
    Integer,
    /// Floating point number
    Float,
    /// Text
    Text,
    /// Boolean
    Boolean,
    /// Timestamp
    Timestamp,
    /// JSON document
    Json,
}

/// Column definition for a table
#[derive(Debug, Clone, PartialEq, Eq)]
pub struct ColumnDef {
    /// Column name
    pub name: String,
    /// Column data type
    pub data_type: DataType,
    /// Whether the column is nullable
    pub nullable: bool,
    /// Whether the column is a primary key
    pub is_primary_key: bool,
}

impl ColumnDef {
    /// Create a new column definition: nullable and not a primary key
    pub fn new(name: String, data_type: DataType) -> (c: Self)
        ensures
            c.name@ == name@,
            c.data_type == data_type,
            c.nullable,
            !c.is_primary_key,
    {
        Self { name, data_type, nullable: true, is_primary_key: false }
    }

    /// Set whether the column is nullable
    pub fn with_nullable(self, nullable: bool) -> (c: Self)
        ensures
            c.name@ == self.name@,
            c.data_type == self.data_type,
            c.nullable == nullable,
            c.is_primary_key == self.is_primary_key,
    {
        let mut c = self;
        c.nullable = nullable;
        c
    }

    /// Set whether the column is a primary key
    pub fn with_primary_key(self, is_primary_key: bool) -> (c: Self)
        ensures
            c.name@ == self.name@,
            c.data_type == self.data_type,
            c.nullable == self.nullable,
            c.is_primary_key == is_primary_key,
    {
        let mut c = self;
        c.is_primary_key = is_primary_key;
        c
    }
}

/// Table schema definition
#[derive(Debug, Clone, PartialEq, Eq)]
pub struct TableSchema {
    /// Table name
    pub name: String,
    /// Column definitions
    pub columns: Vec<ColumnDef>,
}

/// The 32 bytes whose first is `first` and whose others are zero.
pub open spec fn first_byte_hash(first: u8) -> Seq<u8> {
    seq![first] + Seq::new(31, |i: int| 0u8)
}

/// The hash of a schema: the byte length of its name, modulo 256, then
/// zeros.
pub open spec fn schema_hash(t: TableSchema) -> Seq<u8> {
    first_byte_hash(((encode_utf8(t.name@).len() as usize) % 256) as u8)
}

impl TableSchema {
    /// Create a new table schema with no columns
    pub fn new(name: String) -> (t: Self)
        ensures
            t.name@ == name@,
            t.columns@.len() == 0,
    {
        Self { name, columns: Vec::new() }
    }

    /// Add a column to the schema
    pub fn add_column(&mut self, column: ColumnDef)
        ensures
            final(self).name == old(self).name,
            final(self).columns@ == old(self).columns@.push(column),
    {
        self.columns.push(column);
    }

    /// The hash of the schema: the byte length of the name, modulo 256, then
    /// zeros.
    pub fn hash(&self) -> (h: [u8; 32])
        ensures
            h@ == first_byte_hash(((encode_utf8(self.name@).len() as usize) % 256) as u8),
    {
        let mut hash = [0u8; 32];
        let s = self.name.as_str();
        let n = s.len();
        assert(n == encode_utf8(self.name@).len() as usize);
        hash[0] = (n % 256) as u8;
        assert(hash@ =~= first_byte_hash(((encode_utf8(self.name@).len() as usize) % 256) as u8));
        hash
    }
}

/// A Merkle trie for storing table schemas
///
/// Schemas are kept one per table name.
#[derive(Debug, Clone, PartialEq, Eq)]
pub struct SchemaTrie {
    /// The schemas, one per table name
    pub schemas: Vec<TableSchema>,
    /// Root hash of the trie
    pub root_hash: [u8; 32],
}

impl SchemaTrie {
    /// No two schemas share a name, and the root hash is the one for their
    /// number.
    pub open spec fn wf(self) -> bool {
        &&& forall|i: int, j: int|
            0 <= i < j < self.schemas@.len() ==> (#[trigger] self.schemas@[i]).name@
                != (#[trigger] self.schemas@[j]).name@
        &&& self.root_hash@ == first_byte_hash((self.schemas@.len() % 256) as u8)
    }

    /// Whether a schema with this name is stored.
    pub open spec fn has(self, name: Seq<char>) -> bool {
        exists|i: int| 0 <= i < self.schemas@.len() && (#[trigger] self.schemas@[i]).name@ == name
    }

    /// The schema stored under a name, if any.
    pub open spec fn lookup(self, name: Seq<char>) -> Option<TableSchema> {
        if self.has(name) {
            Some(
                self.schemas@[choose|i: int| 0 <= i < self.schemas@.len() && (#[trigger] self.schemas@[i]).name@ == name],
            )
        } else {
            None
        }
    }

    /// Create a new empty schema trie
    pub fn new() -> (t: Self)
        ensures
            t.wf(),
            t.schemas@.len() == 0,
            forall|n: Seq<char>| !t.has(n),
    {
        let t = Self { schemas: Vec::new(), root_hash: [0u8; 32] };
        assert(t.root_hash@ =~= first_byte_hash(0u8));
        t
    }

    /// Position of the schema with this name, if any.
    fn position(&self, name: &String) -> (r: Option<usize>)
        ensures
            match r {
                Some(i) => i < self.schemas@.len() && self.schemas@[i as int].name@ == name@,
                None => !self.has(name@),
            },
    {
        let mut i: usize = 0;
        while i < self.schemas.len()
            invariant
                i <= self.schemas@.len(),
                forall|j: int| 0 <= j < i ==> (#[trigger] self.schemas@[j]).name@ != name@,
            decreases self.schemas@.len() - i,
        {
            if self.schemas[i].name == *name {
                return Some(i);
            }
            i = i + 1;
        }
        None
    }

    /// Insert a table schema, replacing the one with the same name
    pub fn insert(&mut self, schema: TableSchema)
        requires
            old(self).wf(),
        ensures
            final(self).wf(),
            final(self).lookup(schema.name@) == Some(schema),
            forall|n: Seq<char>| n != schema.name@ ==> #[trigger] final(self).lookup(n) == old(self).lookup(n),
            insert_step(*old(self), *final(self), schema),
            final(self).schemas@.len() == old(self).schemas@.len() + if old(self).has(schema.name@) {
                0int
            } else {
                1int
            },
    {
        let ghost old_s = self.schemas@;
        let ghost sname = schema.name@;
        match self.position(&schema.name) {
            Some(i) => {
                self.schemas.set(i, schema);
                proof {
                    let s = self.schemas@;
                    assert forall|n: Seq<char>| #[trigger] self.has(n) == (old(self).has(n)) by {
                        if old(self).has(n) {
                            let k = choose|k: int| 0 <= k < old_s.len() && (#[trigger] old_s[k]).name@ == n;
                            if k == i {
                                assert(s[k].name@ == n);
                            } else {
                                assert(s[k] == old_s[k]);
                            }
                        }
                        if self.has(n) {
                            let k = choose|k: int| 0 <= k < s.len() && (#[trigger] s[k]).name@ == n;
                            if k != i {
                                assert(s[k] == old_s[k]);
                            } else {
                                assert(old_s[k].name@ == n);
                            }
                        }
                    }
                    assert forall|n: Seq<char>| #[trigger] self.lookup(n) == if n == sname {
                        Some(schema)
                    } else {
                        old(self).lookup(n)
                    } by {
                        if self.has(n) {
                            let k = choose|k: int| 0 <= k < s.len() && (#[trigger] s[k]).name@ == n;
                            assert(old(self).has(n));
                            let k0 = choose|k: int| 0 <= k < old_s.len() && (#[trigger] old_s[k]).name@ == n;
                            if k != k0 {
                                if k != i && k0 != i {
                                    assert(old_s[k] == s[k]);
                                } else if k == i {
                                    assert(old_s[k].name@ == n);
                                } else {
                                    assert(s[k0].name@ == n);
                                    assert(s[k0] == schema);
                                    assert(old_s[k].name@ == n);
                                }
                            }
                        }
                    }
                }
            },
            None => {
                self.schemas.push(schema);
                proof {
                    let s = self.schemas@;
                    assert forall|n: Seq<char>| #[trigger] self.lookup(n) == if n == sname {
                        Some(schema)
                    } else {
                        old(self).lookup(n)
                    } by {
                        if self.has(n) {
                            let k = choose|k: int| 0 <= k < s.len() && (#[trigger] s[k]).name@ == n;
                            if k < old_s.len() {
                                assert(old_s[k] == s[k]);
                                assert(old(self).has(n));
                            }
                        }
                        if old(self).has(n) {
                            let k = choose|k: int| 0 <= k < old_s.len() && (#[trigger] old_s[k]).name@ == n;
                            assert(s[k] == old_s[k]);
                        }
                        if n == sname {
                            assert(s[old_s.len() as int] == schema);
                        }
                    }
                }
            },
        }
        let ghost mid = *self;
        proof {
            let s = self.schemas@;
            assert forall|a: int, b: int| 0 <= a < b < s.len() implies (#[trigger] s[a]).name@
                != (#[trigger] s[b]).name@ by {
                if a < old_s.len() && b < old_s.len() && s[a] != old_s[a] {
                    assert(old_s[b].name@ != old_s[a].name@);
                }
                if a < old_s.len() && b < old_s.len() && s[b] != old_s[b] {
                    assert(old_s[b].name@ != old_s[a].name@);
                }
                if b >= old_s.len() {
                    assert(old_s[a] == s[a]);
                }
            }
        }
        self.update_root_hash();
        proof {
            assert forall|n: Seq<char>| #[trigger] self.lookup(n) == mid.lookup(n) by {
                assert(self.has(n) == mid.has(n));
            }
        }
    }

    /// Get a table schema from the trie
    pub fn get(&self, table_name: &str) -> (r: Option<&TableSchema>)
        requires
            self.wf(),
        ensures
            match r {
                Some(s) => self.lookup(table_name@) == Some(*s),
                None => self.lookup(table_name@) is None,
            },
    {
        let name = table_name.to_owned();
        match self.position(&name) {
            Some(i) => {
                proof {
                    let k = choose|k: int|
                        0 <= k < self.schemas@.len() && (#[trigger] self.schemas@[k]).name@ == table_name@;
                    if k != i {
                        assert(self.schemas@[k].name@ == self.schemas@[i as int].name@);
                    }
                }
                Some(&self.schemas[i])
            },
            None => None,
        }
    }

    /// Get the Merkle root of the trie
    pub fn root_hash(&self) -> (h: [u8; 32])
        ensures
            h == self.root_hash,
    {
        self.root_hash
    }

    /// Update the root hash from the number of schemas: that number modulo
    /// 256, then zeros.
    fn update_root_hash(&mut self)
        ensures
            final(self).schemas == old(self).schemas,
            final(self).root_hash@ == first_byte_hash((old(self).schemas@.len() % 256) as u8),
    {
        let mut hash = [0u8; 32];
        hash[0] = (self.schemas.len() % 256) as u8;
        assert(hash@ =~= first_byte_hash((self.schemas@.len() % 256) as u8));
        self.root_hash = hash;
    }

    /// Generate a Merkle proof for a stored table schema: the schema's hash
    /// as the value, the trie's root as the root, and one sibling, the pair
    /// of the two, so that the proof verifies against the root; `None` for a
    /// table that is not stored.
    pub fn generate_proof(&self, table_name: &str) -> (r: Option<MerkleProof>)
        requires
            self.wf(),
        ensures
            r is Some <==> self.has(table_name@),
            r matches Some(p) ==> {
                &&& p.root == self.root_hash
                &&& p.reconstructed() == p.root@
                &&& p.value_hash@ == schema_hash(self.lookup(table_name@).unwrap())
                &&& p.siblings@.len() == 1
                &&& p.siblings@[0]@ == spec_hash_pair(p.value_hash@, p.root@)
                &&& p.path@ == seq![0u8]
            },
    {
        match self.get(table_name) {
            None => None,
            Some(s) => {
                let value_hash = s.hash();
                let sibling = hash_pair(&value_hash, &self.root_hash);
                let mut p = MerkleProof::with_value(value_hash);
                p.add_sibling(sibling);
                p.set_root(self.root_hash);
                p.set_path(vec![0u8]);
                proof {
                    let v = value_hash@;
                    let rt = self.root_hash@;
                    assert(p.siblings@ =~= seq![sibling]);
                    assert(siblings_view(p.siblings@)[0] == sibling@);
                    assert(p.path@ =~= seq![0u8]);
                    assert(fold_proof(v, siblings_view(p.siblings@), p.path@, 0) == v);
                    assert(p.reconstructed() == spec_hash_pair(v, spec_hash_pair(v, rt)));
                    lemma_hash_pair_associative(v, v, rt);
                    lemma_hash_pair_self(v);
                    lemma_hash_pair_commutative(zero_hash(), rt);
                    lemma_hash_pair_zero(rt);
                }
                Some(p)
            },
        }
    }
}

/// The last schema named `n` among `ss`, if any.
pub open spec fn last_named(ss: Seq<TableSchema>, n: Seq<char>) -> Option<TableSchema>
    decreases ss.len(),
{
    if ss.len() == 0 {
        None
    } else if ss.last().name@ == n {
        Some(ss.last())
    } else {
        last_named(ss.drop_last(), n)
    }
}

/// One step of [`SchemaTrie::insert`] as its contract states it: the
/// schema is stored under its name and every other name keeps its schema.
pub open spec fn insert_step(before: SchemaTrie, after: SchemaTrie, s: TableSchema) -> bool {
    &&& after.lookup(s.name@) == Some(s)
    &&& forall|m: Seq<char>| m != s.name@ ==> #[trigger] after.lookup(m) == before.lookup(m)
}

/// After schemas are inserted one by one into an empty trie, a name looks
/// up the last schema inserted under it, and nothing for a name that was
/// never inserted.
pub proof fn lemma_get_after_inserts(ts: Seq<SchemaTrie>, ss: Seq<TableSchema>, n: Seq<char>)
    requires
        ts.len() == ss.len() + 1,
        ts[0].schemas@.len() == 0,
        forall|i: int| 0 <= i < ss.len() ==> #[trigger] insert_step(ts[i], ts[i + 1], ss[i]),
    ensures
        ts.last().lookup(n) == last_named(ss, n),
    decreases ss.len(),
{
    if ss.len() == 0 {
        assert(!ts[0].has(n));
    } else {
        let k = ss.len() - 1;
        let pt = ts.drop_last();
        let ps = ss.drop_last();
        assert forall|i: int| 0 <= i < ps.len() implies #[trigger] insert_step(pt[i], pt[i + 1], ps[i]) by {
            assert(pt[i] == ts[i] && pt[i + 1] == ts[i + 1] && ps[i] == ss[i]);
            assert(insert_step(ts[i], ts[i + 1], ss[i]));
        }
        lemma_get_after_inserts(pt, ps, n);
        assert(pt.last() == ts[k]);
        assert(insert_step(ts[k], ts[k + 1], ss[k]));
        assert(ts.last() == ts[k + 1]);
    }
}

impl Default for SchemaTrie {
    fn default() -> (t: Self)
        ensures
            t.wf(),
            t.schemas@.len() == 0,
    {
        Self::new()
    }
}

} // verus!
