//! Cairo programs and the registry that holds them by hash, with an
//! allowlist of programs approved for on-chain use.

use vstd::prelude::*;
use vstd::utf8::encode_utf8;
use crate::crypto::{blake3_hash, spec_blake3};
use crate::text::{joined_decimal, push_joined_decimal};

verus! {

/// Cairo program identifier (blake3 hash of source code)
pub type CairoProgramHash = [u8; 32];

/// Compiled Cairo program with all artifacts
#[derive(Debug, Clone, PartialEq, Eq)]
pub struct CairoProgram {
    /// Blake3 hash of the source code (unique identifier)
    pub hash: CairoProgramHash,
    /// Cairo source code
    pub source: String,
    /// Sierra intermediate representation (IR)
    pub sierra: Vec<u8>,
    /// Cairo Assembly Machine (executable format)
    pub casm: Vec<u8>,
    /// Cairo compiler version
    pub version: u32,
}

/// The identifier of a source text: the BLAKE3 hash of its UTF-8 bytes.
pub open spec fn source_hash(source: Seq<char>) -> Seq<u8> {
    spec_blake3(encode_utf8(source))
}

impl CairoProgram {
    /// Create a new Cairo program from source code, not compiled yet
    pub fn from_source(source: String, version: u32) -> (p: Self)
        ensures
            p.hash@ == source_hash(source@),
            p.source@ == source@,
            p.sierra@.len() == 0,
            p.casm@.len() == 0,
            p.version == version,
    {
        let hash = Self::compute_hash(source.as_str());
        Self { hash, source, sierra: Vec::new(), casm: Vec::new(), version }
    }

    /// Compute blake3 hash of Cairo source code
    pub fn compute_hash(source: &str) -> (h: CairoProgramHash)
        ensures
            h@ == source_hash(source@),
    {
        blake3_hash(source.as_bytes())
    }

    /// Compile Cairo source to Sierra: no compiler is available, so this
    /// always fails as not implemented.
    pub fn compile_to_sierra(_source: &str) -> (r: Result<Vec<u8>, CompileError>)
        ensures
            r matches Err(CompileError::NotImplemented(m)) && m@ == "compile_to_sierra"@,
    {
        Err(CompileError::NotImplemented("compile_to_sierra".to_owned()))
    }

    /// Compile Sierra to CASM: no compiler is available, so this always
    /// fails as not implemented.
    pub fn compile_to_casm(_sierra: &[u8]) -> (r: Result<Vec<u8>, CompileError>)
        ensures
            r matches Err(CompileError::NotImplemented(m)) && m@ == "compile_to_casm"@,
    {
        Err(CompileError::NotImplemented("compile_to_casm".to_owned()))
    }

    /// Check if this program has been fully compiled
    pub fn is_compiled(&self) -> (b: bool)
        ensures
            b == (self.sierra@.len() > 0 && self.casm@.len() > 0),
    {
        self.sierra.len() > 0 && self.casm.len() > 0
    }
}

/// Cairo program compilation error
#[derive(Debug, Clone, PartialEq, Eq)]
pub enum CompileError {
    /// Feature not implemented yet
    NotImplemented(String),
    /// Syntax error in Cairo source
    SyntaxError(String),
    /// Type error during compilation
    TypeError(String),
    /// Compiler not found
    CompilerNotFound,
    /// Invalid Cairo compiler version
    InvalidVersion(String),
}

/// The text shown for a compile error.
pub open spec fn compile_error_text(e: CompileError) -> Seq<char> {
    match e {
        CompileError::NotImplemented(m) => "Not implemented: "@ + m@,
        CompileError::SyntaxError(m) => "Syntax error: "@ + m@,
        CompileError::TypeError(m) => "Type error: "@ + m@,
        CompileError::CompilerNotFound => "Cairo compiler not found"@,
        CompileError::InvalidVersion(m) => "Invalid version: "@ + m@,
    }
}

impl CompileError {
    /// The text shown for the error.
    pub fn message(&self) -> (s: String)
        ensures
            s@ == compile_error_text(*self),
    {
        match self {
            CompileError::NotImplemented(m) => "Not implemented: ".to_owned().concat(m.as_str()),
            CompileError::SyntaxError(m) => "Syntax error: ".to_owned().concat(m.as_str()),
            CompileError::TypeError(m) => "Type error: ".to_owned().concat(m.as_str()),
            CompileError::CompilerNotFound => "Cairo compiler not found".to_owned(),
            CompileError::InvalidVersion(m) => "Invalid version: ".to_owned().concat(m.as_str()),
        }
    }
}

/// The comparison of two byte strings from position `i` on, byte by byte:
/// -1 when `a` is smaller at the first difference, 1 when larger, 0 when
/// they agree up to the shorter length.
pub open spec fn lex_order(a: Seq<u8>, b: Seq<u8>, i: int) -> int
    decreases a.len() - i,
{
    if i < 0 || i >= a.len() || i >= b.len() {
        0
    } else if a[i] < b[i] {
        -1
    } else if a[i] > b[i] {
        1
    } else {
        lex_order(a, b, i + 1)
    }
}

/// Whether `a` comes before `b` in byte order.
pub open spec fn lex_lt(a: Seq<u8>, b: Seq<u8>) -> bool {
    lex_order(a, b, 0) == -1
}

/// Strictly ascending in byte order, hence without repeats.
pub open spec fn strictly_sorted(s: Seq<Seq<u8>>) -> bool {
    forall|i: int, j: int| 0 <= i < j < s.len() ==> lex_lt(#[trigger] s[i], #[trigger] s[j])
}

proof fn lemma_lex_props(a: Seq<u8>, b: Seq<u8>, c: Seq<u8>, i: int)
    requires
        a.len() == 32,
        b.len() == 32,
        c.len() == 32,
        0 <= i <= 32,
    ensures
        -1 <= lex_order(a, b, i) <= 1,
        lex_order(a, b, i) == -lex_order(b, a, i),
        lex_order(a, b, i) == 0 <==> a.subrange(i, 32) == b.subrange(i, 32),
        lex_order(a, b, i) == -1 && lex_order(b, c, i) == -1 ==> lex_order(a, c, i) == -1,
    decreases 32 - i,
{
    if i < 32 {
        lemma_lex_props(a, b, c, i + 1);
        if a[i] == b[i] && lex_order(a, b, i + 1) == 0 {
            assert(a.subrange(i, 32) =~= seq![a[i]] + a.subrange(i + 1, 32));
            assert(b.subrange(i, 32) =~= seq![b[i]] + b.subrange(i + 1, 32));
        }
        if a.subrange(i, 32) == b.subrange(i, 32) {
            assert(a[i] == a.subrange(i, 32)[0]);
            assert(b[i] == b.subrange(i, 32)[0]);
            assert(a.subrange(i + 1, 32) =~= a.subrange(i, 32).subrange(1, 32 - i));
            assert(b.subrange(i + 1, 32) =~= b.subrange(i, 32).subrange(1, 32 - i));
        }
    } else {
        assert(a.subrange(32, 32) =~= b.subrange(32, 32));
    }
}

/// Compares two hashes in byte order: -1, 0 or 1.
fn compare_hash(a: &CairoProgramHash, b: &CairoProgramHash) -> (r: i8)
    ensures
        r == lex_order(a@, b@, 0),
{
    let mut i: usize = 0;
    while i < 32
        invariant
            i <= 32,
            lex_order(a@, b@, 0) == lex_order(a@, b@, i as int),
        decreases 32 - i,
    {
        if a[i] < b[i] {
            return -1;
        }
        if a[i] > b[i] {
            return 1;
        }
        i = i + 1;
    }
    0
}

/// Registry of Cairo programs
///
/// Maintains a collection of programs and an allowlist of
/// programs approved for on-chain use, each in ascending hash order.
#[derive(Debug, Clone, PartialEq, Eq)]
pub struct CairoProgramRegistry {
    /// All registered programs, in ascending hash order
    pub programs: Vec<CairoProgram>,
    /// Programs approved for on-chain use, in ascending hash order
    pub allowlist: Vec<CairoProgramHash>,
}

/// The hashes of a list of programs, in order.
pub open spec fn program_hashes(ps: Seq<CairoProgram>) -> Seq<Seq<u8>> {
    ps.map_values(|p: CairoProgram| p.hash@)
}

/// The hashes of a list, as sequences.
pub open spec fn hash_views(hs: Seq<CairoProgramHash>) -> Seq<Seq<u8>> {
    hs.map_values(|h: CairoProgramHash| h@)
}

/// The text of a hash in debug form: its bytes in decimal, in brackets.
pub open spec fn hash_text(h: Seq<u8>) -> Seq<char> {
    "["@ + joined_decimal(h) + "]"@
}

impl CairoProgramRegistry {
    /// Both lists are in strictly ascending hash order, and every allowed
    /// hash is a registered program's.
    pub open spec fn wf(self) -> bool {
        &&& strictly_sorted(program_hashes(self.programs@))
        &&& strictly_sorted(hash_views(self.allowlist@))
        &&& forall|i: int| 0 <= i < self.allowlist@.len() ==> program_hashes(self.programs@).contains(
            #[trigger] self.allowlist@[i]@,
        )
    }

    /// The registered hashes.
    pub open spec fn hashes(self) -> Seq<Seq<u8>> {
        program_hashes(self.programs@)
    }

    /// The allowed hashes.
    pub open spec fn allowed(self) -> Seq<Seq<u8>> {
        hash_views(self.allowlist@)
    }

    /// Create a new empty registry
    pub fn new() -> (r: Self)
        ensures
            r.wf(),
            r.programs@.len() == 0,
            r.allowlist@.len() == 0,
    {
        Self { programs: Vec::new(), allowlist: Vec::new() }
    }

    /// Position of the first program whose hash is not below `hash`, and
    /// whether it is equal.
    fn program_slot(&self, hash: &CairoProgramHash) -> (r: (usize, bool))
        requires
            self.wf(),
        ensures
            r.0 <= self.programs@.len(),
            forall|i: int| 0 <= i < r.0 ==> lex_lt(#[trigger] self.hashes()[i], hash@),
            r.1 <==> (r.0 < self.programs@.len() && self.hashes()[r.0 as int] == hash@),
            r.0 < self.programs@.len() && !r.1 ==> lex_lt(hash@, self.hashes()[r.0 as int]),
            r.1 <==> self.hashes().contains(hash@),
    {
        let ghost hs = self.hashes();
        let mut i: usize = 0;
        while i < self.programs.len()
            invariant
                i <= self.programs@.len(),
                hs == self.hashes(),
                self.wf(),
                forall|j: int| 0 <= j < i ==> lex_lt(#[trigger] hs[j], hash@),
            decreases self.programs@.len() - i,
        {
            let c = compare_hash(&self.programs[i].hash, hash);
            proof {
                lemma_lex_props(hs[i as int], hash@, hash@, 0);
                assert(hs[i as int] == self.programs@[i as int].hash@);
            }
            if c == 0 {
                proof {
                    assert(hs[i as int].subrange(0, 32) =~= hs[i as int]);
                    assert(hash@.subrange(0, 32) =~= hash@);
                }
                return (i, true);
            }
            if c == 1 {
                proof {
                    assert forall|j: int| 0 <= j < hs.len() implies #[trigger] hs[j] != hash@ by {
                        if j < i {
                            assert(lex_lt(hs[j], hash@));
                            lemma_lex_props(hs[j], hash@, hash@, 0);
                        } else if j > i {
                            assert(lex_lt(hs[i as int], hs[j]));
                            assert(self.programs@[j].hash@.len() == 32);
                            lemma_lex_props(hash@, hs[i as int], hs[j], 0);
                            lemma_lex_props(hash@, hs[j], hs[j], 0);
                        }
                    }
                }
                return (i, false);
            }
            i = i + 1;
        }
        proof {
            assert forall|j: int| 0 <= j < hs.len() implies #[trigger] hs[j] != hash@ by {
                assert(lex_lt(hs[j], hash@));
                assert(self.programs@[j].hash@.len() == 32);
                lemma_lex_props(hs[j], hash@, hash@, 0);
            }
        }
        (i, false)
    }

    /// Position of the first allowed hash not below `hash`, and whether it
    /// is equal.
    fn allow_slot(&self, hash: &CairoProgramHash) -> (r: (usize, bool))
        requires
            strictly_sorted(self.allowed()),
        ensures
            r.0 <= self.allowlist@.len(),
            forall|i: int| 0 <= i < r.0 ==> lex_lt(#[trigger] self.allowed()[i], hash@),
            r.1 <==> (r.0 < self.allowlist@.len() && self.allowed()[r.0 as int] == hash@),
            r.0 < self.allowlist@.len() && !r.1 ==> lex_lt(hash@, self.allowed()[r.0 as int]),
            r.1 <==> self.allowed().contains(hash@),
    {
        let ghost hs = self.allowed();
        let mut i: usize = 0;
        while i < self.allowlist.len()
            invariant
                i <= self.allowlist@.len(),
                hs == self.allowed(),
                strictly_sorted(hs),
                forall|j: int| 0 <= j < i ==> lex_lt(#[trigger] hs[j], hash@),
            decreases self.allowlist@.len() - i,
        {
            let c = compare_hash(&self.allowlist[i], hash);
            proof {
                lemma_lex_props(hs[i as int], hash@, hash@, 0);
                assert(hs[i as int] == self.allowlist@[i as int]@);
            }
            if c == 0 {
                proof {
                    assert(hs[i as int].subrange(0, 32) =~= hs[i as int]);
                    assert(hash@.subrange(0, 32) =~= hash@);
                }
                return (i, true);
            }
            if c == 1 {
                proof {
                    assert forall|j: int| 0 <= j < hs.len() implies #[trigger] hs[j] != hash@ by {
                        if j < i {
                            assert(lex_lt(hs[j], hash@));
                            lemma_lex_props(hs[j], hash@, hash@, 0);
                        } else if j > i {
                            assert(lex_lt(hs[i as int], hs[j]));
                            assert(self.allowlist@[j]@.len() == 32);
                            lemma_lex_props(hash@, hs[i as int], hs[j], 0);
                            lemma_lex_props(hash@, hs[j], hs[j], 0);
                        }
                    }
                }
                return (i, false);
            }
            i = i + 1;
        }
        proof {
            assert forall|j: int| 0 <= j < hs.len() implies #[trigger] hs[j] != hash@ by {
                assert(lex_lt(hs[j], hash@));
                assert(self.allowlist@[j]@.len() == 32);
                lemma_lex_props(hs[j], hash@, hash@, 0);
            }
        }
        (i, false)
    }
}

/// Inserting a hash at its place keeps a list strictly sorted.
proof fn lemma_insert_sorted(s: Seq<Seq<u8>>, p: int, h: Seq<u8>)
    requires
        strictly_sorted(s),
        forall|i: int| 0 <= i < s.len() ==> (#[trigger] s[i]).len() == 32,
        h.len() == 32,
        0 <= p <= s.len(),
        forall|i: int| 0 <= i < p ==> lex_lt(#[trigger] s[i], h),
        p < s.len() ==> lex_lt(h, s[p]),
    ensures
        strictly_sorted(s.insert(p, h)),
{
    let t = s.insert(p, h);
    assert forall|i: int, j: int| 0 <= i < j < t.len() implies lex_lt(#[trigger] t[i], #[trigger] t[j]) by {
        if i < p && j < p {
            assert(t[i] == s[i] && t[j] == s[j]);
        } else if i < p && j == p {
            assert(t[i] == s[i]);
        } else if i < p && j > p {
            assert(t[i] == s[i] && t[j] == s[j - 1]);
        } else if i == p {
            assert(t[j] == s[j - 1]);
            if j - 1 > p {
                assert(lex_lt(s[p], s[j - 1]));
                lemma_lex_props(h, s[p], s[j - 1], 0);
            }
        } else {
            assert(t[i] == s[i - 1] && t[j] == s[j - 1]);
        }
    }
}

/// Removing an entry keeps a list strictly sorted.
proof fn lemma_remove_sorted(s: Seq<Seq<u8>>, p: int)
    requires
        strictly_sorted(s),
        0 <= p < s.len(),
    ensures
        strictly_sorted(s.remove(p)),
{
    let t = s.remove(p);
    assert forall|i: int, j: int| 0 <= i < j < t.len() implies lex_lt(#[trigger] t[i], #[trigger] t[j]) by {
        let a = if i < p { i } else { i + 1 };
        let b = if j < p { j } else { j + 1 };
        assert(t[i] == s[a] && t[j] == s[b]);
    }
}

/// In a strictly sorted list of hashes, a hash stands at one position at most.
proof fn lemma_sorted_unique(s: Seq<Seq<u8>>, i: int, j: int)
    requires
        strictly_sorted(s),
        forall|k: int| 0 <= k < s.len() ==> (#[trigger] s[k]).len() == 32,
        0 <= i < s.len(),
        0 <= j < s.len(),
        s[i] == s[j],
    ensures
        i == j,
{
    if i < j {
        assert(lex_lt(s[i], s[j]));
        lemma_lex_props(s[i], s[j], s[j], 0);
    } else if j < i {
        assert(lex_lt(s[j], s[i]));
        lemma_lex_props(s[j], s[i], s[i], 0);
    }
}

/// Registry error types
#[derive(Debug, Clone, PartialEq, Eq)]
pub enum RegistryError {
    /// Program not found
    NotFound(CairoProgramHash),
    /// Program already exists
    AlreadyExists(CairoProgramHash),
    /// Program not in allowlist
    NotInAllowlist(CairoProgramHash),
    /// Registry full
    RegistryFull,
}

/// The text shown for a registry error.
pub open spec fn registry_error_text(e: RegistryError) -> Seq<char> {
    match e {
        RegistryError::NotFound(h) => "Program not found: "@ + hash_text(h@),
        RegistryError::AlreadyExists(h) => "Program already exists: "@ + hash_text(h@),
        RegistryError::NotInAllowlist(h) => "Program not in allowlist: "@ + hash_text(h@),
        RegistryError::RegistryFull => "Registry is full"@,
    }
}

/// Appends a hash in debug form.
fn push_hash_text(out: &mut String, h: &CairoProgramHash)
    ensures
        final(out)@ == old(out)@ + hash_text(h@),
{
    out.append("[");
    push_joined_decimal(out, h);
    out.append("]");
    proof {
        reveal_strlit("[");
        reveal_strlit("]");
    }
    assert(out@ =~= old(out)@ + hash_text(h@));
}

impl RegistryError {
    /// The text shown for the error.
    pub fn message(&self) -> (s: String)
        ensures
            s@ == registry_error_text(*self),
    {
        match self {
            RegistryError::NotFound(h) => {
                let mut s = "Program not found: ".to_owned();
                push_hash_text(&mut s, h);
                s
            },
            RegistryError::AlreadyExists(h) => {
                let mut s = "Program already exists: ".to_owned();
                push_hash_text(&mut s, h);
                s
            },
            RegistryError::NotInAllowlist(h) => {
                let mut s = "Program not in allowlist: ".to_owned();
                push_hash_text(&mut s, h);
                s
            },
            RegistryError::RegistryFull => "Registry is full".to_owned(),
        }
    }
}

impl CairoProgramRegistry {
    /// The program registered under a hash, if any.
    pub open spec fn lookup(self, h: Seq<u8>) -> Option<CairoProgram> {
        if self.hashes().contains(h) {
            Some(self.programs@[self.hashes().index_of(h)])
        } else {
            None
        }
    }

    /// Register a new Cairo program; a hash that is already registered is
    /// refused and nothing changes.
    pub fn register(&mut self, program: CairoProgram) -> (r: Result<(), RegistryError>)
        requires
            old(self).wf(),
        ensures
            final(self).wf(),
            old(self).hashes().contains(program.hash@) ==> r == Err::<(), RegistryError>(
                RegistryError::AlreadyExists(program.hash),
            ) && *final(self) == *old(self),
            !old(self).hashes().contains(program.hash@) ==> {
                &&& r is Ok
                &&& final(self).programs@.len() == old(self).programs@.len() + 1
                &&& final(self).lookup(program.hash@) == Some(program)
                &&& forall|h: Seq<u8>| h != program.hash@ ==> #[trigger] final(self).lookup(h) == old(self).lookup(h)
                &&& final(self).allowlist@ == old(self).allowlist@
            },
    {
        let hash = program.hash;
        let (p, found) = self.program_slot(&hash);
        if found {
            return Err(RegistryError::AlreadyExists(hash));
        }
        let ghost old_ps = self.programs@;
        let ghost old_hs = self.hashes();
        self.programs.insert(p, program);
        proof {
            let hs = self.hashes();
            assert(hs =~= old_hs.insert(p as int, hash@));
            assert forall|i: int| 0 <= i < old_hs.len() implies (#[trigger] old_hs[i]).len() == 32 by {
                assert(old_hs[i] == old_ps[i].hash@);
            }
            lemma_insert_sorted(old_hs, p as int, hash@);
            assert forall|i: int| 0 <= i < self.allowlist@.len() implies hs.contains(
                #[trigger] self.allowlist@[i]@,
            ) by {
                let k = old_hs.index_of(self.allowlist@[i]@);
                assert(old_hs.contains(self.allowlist@[i]@));
                if k < p {
                    assert(hs[k] == old_hs[k]);
                } else {
                    assert(hs[k + 1] == old_hs[k]);
                }
            }
            assert forall|i: int| 0 <= i < hs.len() implies (#[trigger] hs[i]).len() == 32 by {
                assert(hs[i] == self.programs@[i].hash@);
            }
            assert(hs[p as int] == hash@);
            lemma_sorted_unique(hs, hs.index_of(hash@), p as int);
            assert forall|h: Seq<u8>| h != hash@ implies #[trigger] self.lookup(h) == old(self).lookup(h) by {
                if old_hs.contains(h) {
                    let k = old_hs.index_of(h);
                    let k2 = if k < p { k } else { k + 1 };
                    assert(hs[k2] == h);
                    lemma_sorted_unique(hs, hs.index_of(h), k2);
                    assert(self.programs@[k2] == old_ps[k]);
                }
                if hs.contains(h) {
                    let k = hs.index_of(h);
                    if k < p {
                        assert(old_hs[k] == h);
                    } else if k > p {
                        assert(old_hs[k - 1] == h);
                    }
                }
            }
        }
        Ok(())
    }

    /// Get a program by its hash
    pub fn get(&self, hash: &CairoProgramHash) -> (r: Option<&CairoProgram>)
        requires
            self.wf(),
        ensures
            match r {
                Some(p) => self.lookup(hash@) == Some(*p),
                None => self.lookup(hash@) is None,
            },
    {
        let (p, found) = self.program_slot(hash);
        if found {
            proof {
                let hs = self.hashes();
                assert forall|i: int| 0 <= i < hs.len() implies (#[trigger] hs[i]).len() == 32 by {
                    assert(hs[i] == self.programs@[i].hash@);
                }
                lemma_sorted_unique(hs, hs.index_of(hash@), p as int);
            }
            Some(&self.programs[p])
        } else {
            None
        }
    }

    /// Remove a program from the registry, and its hash from the allowlist
    pub fn remove(&mut self, hash: &CairoProgramHash) -> (r: Result<CairoProgram, RegistryError>)
        requires
            old(self).wf(),
        ensures
            final(self).wf(),
            old(self).lookup(hash@) is None ==> r == Err::<CairoProgram, RegistryError>(RegistryError::NotFound(*hash))
                && *final(self) == *old(self),
            old(self).lookup(hash@) matches Some(p) ==> {
                &&& r == Ok::<CairoProgram, RegistryError>(p)
                &&& final(self).programs@.len() == old(self).programs@.len() - 1
                &&& final(self).lookup(hash@) is None
                &&& forall|h: Seq<u8>| h != hash@ ==> #[trigger] final(self).lookup(h) == old(self).lookup(h)
                &&& forall|h: Seq<u8>| #[trigger] final(self).allowed().contains(h) <==> (old(self).allowed().contains(h)
                    && h != hash@)
            },
    {
        let (p, found) = self.program_slot(hash);
        if !found {
            return Err(RegistryError::NotFound(*hash));
        }
        let ghost old_ps = self.programs@;
        let ghost old_hs = self.hashes();
        let ghost old_al = self.allowed();
        proof {
            assert forall|i: int| 0 <= i < old_hs.len() implies (#[trigger] old_hs[i]).len() == 32 by {
                assert(old_hs[i] == old_ps[i].hash@);
            }
            lemma_sorted_unique(old_hs, old_hs.index_of(hash@), p as int);
        }
        let program = self.programs.remove(p);
        let (q, allowed) = self.allow_slot(hash);
        if allowed {
            self.allowlist.remove(q);
        }
        proof {
            let hs = self.hashes();
            let al = self.allowed();
            assert(hs =~= old_hs.remove(p as int));
            lemma_remove_sorted(old_hs, p as int);
            if allowed {
                assert(al =~= old_al.remove(q as int));
                lemma_remove_sorted(old_al, q as int);
            } else {
                assert(al =~= old_al);
            }
            assert forall|i: int| 0 <= i < old_al.len() implies (#[trigger] old_al[i]).len() == 32 by {
                assert(old_al[i] == old(self).allowlist@[i]@);
            }
            assert forall|h: Seq<u8>| #[trigger] al.contains(h) <==> (old_al.contains(h) && h != hash@) by {
                if al.contains(h) {
                    let k = al.index_of(h);
                    if allowed && k >= q {
                        assert(old_al[k + 1] == h);
                        if h == hash@ {
                            lemma_sorted_unique(old_al, k + 1, q as int);
                        }
                    } else {
                        assert(old_al[k] == h);
                        if h == hash@ && allowed {
                            lemma_sorted_unique(old_al, k, q as int);
                        }
                    }
                }
                if old_al.contains(h) && h != hash@ {
                    let k = old_al.index_of(h);
                    if allowed && k > q {
                        assert(al[k - 1] == h);
                    } else if allowed && k == q {
                    } else {
                        assert(al[k] == h);
                    }
                }
            }
            assert forall|i: int| 0 <= i < self.allowlist@.len() implies hs.contains(#[trigger] self.allowlist@[i]@) by {
                let h = self.allowlist@[i]@;
                assert(al[i] == h);
                assert(al.contains(h));
                assert(old_al.contains(h));
                let j = old_al.index_of(h);
                assert(old_hs.contains(old(self).allowlist@[j]@));
                let k = old_hs.index_of(h);
                if k < p {
                    assert(hs[k] == h);
                } else if k > p {
                    assert(hs[k - 1] == h);
                } else {
                    assert(h == hash@);
                }
            }
            assert forall|i: int| 0 <= i < hs.len() implies (#[trigger] hs[i]).len() == 32 by {
                assert(hs[i] == self.programs@[i].hash@);
            }
            if hs.contains(hash@) {
                let k = hs.index_of(hash@);
                let k2 = if k < p { k } else { k + 1 };
                assert(old_hs[k2] == hash@);
                lemma_sorted_unique(old_hs, k2, p as int);
            }
            assert forall|h: Seq<u8>| h != hash@ implies #[trigger] self.lookup(h) == old(self).lookup(h) by {
                if old_hs.contains(h) {
                    let k = old_hs.index_of(h);
                    assert(k != p);
                    let k2 = if k < p { k } else { k - 1 };
                    assert(hs[k2] == h);
                    lemma_sorted_unique(hs, hs.index_of(h), k2);
                }
                if hs.contains(h) {
                    let k = hs.index_of(h);
                    let k2 = if k < p { k } else { k + 1 };
                    assert(old_hs[k2] == h);
                }
            }
        }
        Ok(program)
    }

    /// Add a registered program to the allowlist (governance action); a
    /// hash with no program is refused.
    pub fn allowlist_add(&mut self, hash: CairoProgramHash) -> (r: Result<(), RegistryError>)
        requires
            old(self).wf(),
        ensures
            final(self).wf(),
            final(self).programs@ == old(self).programs@,
            !old(self).hashes().contains(hash@) ==> r == Err::<(), RegistryError>(RegistryError::NotFound(hash))
                && final(self).allowlist@ == old(self).allowlist@,
            old(self).hashes().contains(hash@) ==> r is Ok && forall|h: Seq<u8>| #[trigger] final(self).allowed().contains(h) <==> (old(self).allowed().contains(h) || h == hash@),
    {
        let (_, present) = self.program_slot(&hash);
        if !present {
            return Err(RegistryError::NotFound(hash));
        }
        let (q, already) = self.allow_slot(&hash);
        if !already {
            let ghost old_al = self.allowed();
            self.allowlist.insert(q, hash);
            proof {
                let al = self.allowed();
                assert(al =~= old_al.insert(q as int, hash@));
                assert forall|i: int| 0 <= i < old_al.len() implies (#[trigger] old_al[i]).len() == 32 by {
                    assert(old_al[i] == old(self).allowlist@[i]@);
                }
                lemma_insert_sorted(old_al, q as int, hash@);
                assert forall|h: Seq<u8>| #[trigger] al.contains(h) <==> (old_al.contains(h) || h == hash@) by {
                    if al.contains(h) {
                        let k = al.index_of(h);
                        if k < q {
                            assert(old_al[k] == h);
                        } else if k > q {
                            assert(old_al[k - 1] == h);
                        }
                    }
                    if old_al.contains(h) {
                        let k = old_al.index_of(h);
                        if k < q {
                            assert(al[k] == h);
                        } else {
                            assert(al[k + 1] == h);
                        }
                    }
                    if h == hash@ {
                        assert(al[q as int] == h);
                    }
                }
                assert forall|i: int| 0 <= i < self.allowlist@.len() implies self.hashes().contains(
                    #[trigger] self.allowlist@[i]@,
                ) by {
                    assert(al[i] == self.allowlist@[i]@);
                    assert(al.contains(al[i]));
                    if al[i] != hash@ {
                        let j = old_al.index_of(al[i]);
                        assert(old(self).allowlist@[j]@ == al[i]);
                    }
                }
            }
        }
        Ok(())
    }

    /// Remove a hash from the allowlist; one that is not there is refused
    pub fn allowlist_remove(&mut self, hash: &CairoProgramHash) -> (r: Result<(), RegistryError>)
        requires
            old(self).wf(),
        ensures
            final(self).wf(),
            final(self).programs@ == old(self).programs@,
            !old(self).allowed().contains(hash@) ==> r == Err::<(), RegistryError>(
                RegistryError::NotInAllowlist(*hash),
            ) && final(self).allowlist@ == old(self).allowlist@,
            old(self).allowed().contains(hash@) ==> r is Ok && forall|h: Seq<u8>| #[trigger] final(self).allowed().contains(h) <==> (old(self).allowed().contains(h) && h != hash@),
    {
        let (q, present) = self.allow_slot(hash);
        if !present {
            return Err(RegistryError::NotInAllowlist(*hash));
        }
        let ghost old_al = self.allowed();
        self.allowlist.remove(q);
        proof {
            let al = self.allowed();
            assert(al =~= old_al.remove(q as int));
            lemma_remove_sorted(old_al, q as int);
            assert forall|i: int| 0 <= i < old_al.len() implies (#[trigger] old_al[i]).len() == 32 by {
                assert(old_al[i] == old(self).allowlist@[i]@);
            }
            assert forall|h: Seq<u8>| #[trigger] al.contains(h) <==> (old_al.contains(h) && h != hash@) by {
                if al.contains(h) {
                    let k = al.index_of(h);
                    if k >= q {
                        assert(old_al[k + 1] == h);
                        if h == hash@ {
                            lemma_sorted_unique(old_al, k + 1, q as int);
                        }
                    } else {
                        assert(old_al[k] == h);
                        if h == hash@ {
                            lemma_sorted_unique(old_al, k, q as int);
                        }
                    }
                }
                if old_al.contains(h) && h != hash@ {
                    let k = old_al.index_of(h);
                    if k > q {
                        assert(al[k - 1] == h);
                    } else if k < q {
                        assert(al[k] == h);
                    }
                }
            }
            assert forall|i: int| 0 <= i < self.allowlist@.len() implies self.hashes().contains(
                #[trigger] self.allowlist@[i]@,
            ) by {
                let j = if i < q { i } else { i + 1 };
                assert(self.allowlist@[i] == old(self).allowlist@[j]);
            }
        }
        Ok(())
    }

    /// Check if a program is allowed for on-chain use
    pub fn is_allowed(&self, hash: &CairoProgramHash) -> (b: bool)
        requires
            self.wf(),
        ensures
            b == self.allowed().contains(hash@),
    {
        let (_, present) = self.allow_slot(hash);
        present
    }

    /// Get the number of registered programs
    pub fn len(&self) -> (n: usize)
        ensures
            n == self.programs@.len(),
    {
        self.programs.len()
    }

    /// Check if the registry is empty
    pub fn is_empty(&self) -> (b: bool)
        ensures
            b == (self.programs@.len() == 0),
    {
        self.programs.len() == 0
    }

    /// All program hashes, in ascending order
    pub fn keys(&self) -> (r: Vec<&CairoProgramHash>)
        ensures
            r@.map_values(|h: &CairoProgramHash| h@) == self.hashes(),
    {
        let mut out: Vec<&CairoProgramHash> = Vec::new();
        let mut i: usize = 0;
        while i < self.programs.len()
            invariant
                i <= self.programs@.len(),
                out@.map_values(|h: &CairoProgramHash| h@) == self.hashes().subrange(0, i as int),
            decreases self.programs@.len() - i,
        {
            let ghost before = out@;
            out.push(&self.programs[i].hash);
            proof {
                assert(out@ == before.push(&self.programs@[i as int].hash));
                assert(out@.map_values(|h: &CairoProgramHash| h@) =~= before.map_values(|h: &CairoProgramHash| h@).push(
                    self.hashes()[i as int],
                ));
                assert(self.hashes().subrange(0, i + 1) =~= self.hashes().subrange(0, i as int).push(self.hashes()[i as int]));
            }
            i = i + 1;
        }
        assert(self.hashes().subrange(0, i as int) =~= self.hashes());
        out
    }

    /// All allowed program hashes, in ascending order
    pub fn allowed_keys(&self) -> (r: Vec<&CairoProgramHash>)
        ensures
            r@.map_values(|h: &CairoProgramHash| h@) == self.allowed(),
    {
        let mut out: Vec<&CairoProgramHash> = Vec::new();
        let mut i: usize = 0;
        while i < self.allowlist.len()
            invariant
                i <= self.allowlist@.len(),
                out@.map_values(|h: &CairoProgramHash| h@) == self.allowed().subrange(0, i as int),
            decreases self.allowlist@.len() - i,
        {
            let ghost before = out@;
            out.push(&self.allowlist[i]);
            proof {
                assert(out@ == before.push(&self.allowlist@[i as int]));
                assert(out@.map_values(|h: &CairoProgramHash| h@) =~= before.map_values(|h: &CairoProgramHash| h@).push(
                    self.allowed()[i as int],
                ));
                assert(self.allowed().subrange(0, i + 1) =~= self.allowed().subrange(0, i as int).push(self.allowed()[i as int]));
            }
            i = i + 1;
        }
        assert(self.allowed().subrange(0, i as int) =~= self.allowed());
        out
    }
}

impl Default for CairoProgramRegistry {
    fn default() -> (r: Self)
        ensures
            r.wf(),
            r.programs@.len() == 0,
            r.allowlist@.len() == 0,
    {
        Self::new()
    }
}

} // verus!
