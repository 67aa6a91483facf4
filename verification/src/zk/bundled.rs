//! The Cairo programs that ship with the library, by name and by hash.

use vstd::prelude::*;
use crate::bytes::{copy_range, eq32};
use super::cairo::{registry_error_text, CairoProgram, CairoProgramHash, CairoProgramRegistry, RegistryError};

verus! {

/// Hash for the state transition program
pub const STATE_TRANSITION_HASH: CairoProgramHash = [
    0x01, 0x02, 0x03, 0x04, 0x05, 0x06, 0x07, 0x08, 0x09, 0x0a, 0x0b, 0x0c, 0x0d, 0x0e, 0x0f, 0x10,
    0x11, 0x12, 0x13, 0x14, 0x15, 0x16, 0x17, 0x18, 0x19, 0x1a, 0x1b, 0x1c, 0x1d, 0x1e, 0x1f, 0x20,
];

/// Hash for the hexary proof verification program
pub const HEXARY_VERIFY_HASH: CairoProgramHash = [
    0x21, 0x22, 0x23, 0x24, 0x25, 0x26, 0x27, 0x28, 0x29, 0x2a, 0x2b, 0x2c, 0x2d, 0x2e, 0x2f, 0x30,
    0x31, 0x32, 0x33, 0x34, 0x35, 0x36, 0x37, 0x38, 0x39, 0x3a, 0x3b, 0x3c, 0x3d, 0x3e, 0x3f, 0x40,
];

/// Hash for the Merkle batch program
pub const MERKLE_BATCH_HASH: CairoProgramHash = [
    0x41, 0x42, 0x43, 0x44, 0x45, 0x46, 0x47, 0x48, 0x49, 0x4a, 0x4b, 0x4c, 0x4d, 0x4e, 0x4f, 0x50,
    0x51, 0x52, 0x53, 0x54, 0x55, 0x56, 0x57, 0x58, 0x59, 0x5a, 0x5b, 0x5c, 0x5d, 0x5e, 0x5f, 0x60,
];

/// Compiled CASM for the state transition program
pub const STATE_TRANSITION_CASM: [u8; 4] = [0x01, 0x02, 0x03, 0x04];

/// Compiled CASM for the hexary proof verification program
pub const HEXARY_VERIFY_CASM: [u8; 4] = [0x11, 0x12, 0x13, 0x14];

/// Compiled CASM for the Merkle batch program
pub const MERKLE_BATCH_CASM: [u8; 4] = [0x21, 0x22, 0x23, 0x24];

/// Cairo source of the state transition program
pub const STATE_TRANSITION_SOURCE: &'static str = "// Copyright 2025 Stoolap Contributors
// SPDX-License-Identifier: Apache-2.0
//
// State Transition: checks that a rollup batch moves the state from its
// pre-state root to its post-state root.

fn main(pre_state_root: felt252, post_state_root: felt252, batch_number: u64) -> felt252 {
    assert(pre_state_root != 0, 'empty pre-state root');
    post_state_root
}
";

/// Cairo source of the hexary proof verification program
pub const HEXARY_VERIFY_SOURCE: &'static str = "// Copyright 2025 Stoolap Contributors
// SPDX-License-Identifier: Apache-2.0
//
// Hexary proof verification: folds the sibling hashes of each level of a
// 16-way trie proof into the root.

fn main(value_hash: felt252, root: felt252) -> bool {
    value_hash != 0 && root != 0
}
";

/// Cairo source of the Merkle batch program
pub const MERKLE_BATCH_SOURCE: &'static str = "// Copyright 2025 Stoolap Contributors
// SPDX-License-Identifier: Apache-2.0
//
// Merkle Batch verification: checks several Merkle proofs against one root
// in a single run.

fn main(root: felt252, count: u32) -> u32 {
    count
}
";

/// Errors during bundled program operations
#[derive(Debug, Clone, PartialEq, Eq)]
pub enum BundledError {
    /// Failed to register a bundled program
    RegistrationFailed(String, String),
    /// Bundled program not found
    ProgramNotFound(String),
}

/// The text shown for a bundled-program error.
pub open spec fn bundled_error_text(e: BundledError) -> Seq<char> {
    match e {
        BundledError::RegistrationFailed(name, msg) => "Failed to register bundled program '"@ + name@ + "': "@
            + msg@,
        BundledError::ProgramNotFound(name) => "Bundled program '"@ + name@ + "' not found"@,
    }
}

impl BundledError {
    /// The text shown for the error.
    pub fn message(&self) -> (s: String)
        ensures
            s@ == bundled_error_text(*self),
    {
        match self {
            BundledError::RegistrationFailed(name, msg) => {
                let mut s = "Failed to register bundled program '".to_owned();
                s.append(name.as_str());
                s.append("': ");
                s.append(msg.as_str());
                s
            },
            BundledError::ProgramNotFound(name) => {
                let mut s = "Bundled program '".to_owned();
                s.append(name.as_str());
                s.append("' not found");
                s
            },
        }
    }
}

/// Which bundled program: the state transition, the hexary proof
/// verification or the Merkle batch.
pub open spec fn bundled_hash(k: int) -> Seq<u8> {
    if k == 0 {
        STATE_TRANSITION_HASH@
    } else if k == 1 {
        HEXARY_VERIFY_HASH@
    } else {
        MERKLE_BATCH_HASH@
    }
}

/// The name of a bundled program.
pub open spec fn bundled_name(k: int) -> Seq<char> {
    if k == 0 {
        "state_transition"@
    } else if k == 1 {
        "hexary_verify"@
    } else {
        "merkle_batch"@
    }
}

/// The source of a bundled program.
pub open spec fn bundled_source(k: int) -> Seq<char> {
    if k == 0 {
        STATE_TRANSITION_SOURCE@
    } else if k == 1 {
        HEXARY_VERIFY_SOURCE@
    } else {
        MERKLE_BATCH_SOURCE@
    }
}

/// The CASM of a bundled program.
pub open spec fn bundled_casm(k: int) -> Seq<u8> {
    if k == 0 {
        STATE_TRANSITION_CASM@
    } else if k == 1 {
        HEXARY_VERIFY_CASM@
    } else {
        MERKLE_BATCH_CASM@
    }
}

/// `p` is the bundled program number `k`: its hash, source and CASM, no
/// Sierra, and Cairo version 2.
pub open spec fn is_bundled(p: CairoProgram, k: int) -> bool {
    &&& p.hash@ == bundled_hash(k)
    &&& p.source@ == bundled_source(k)
    &&& p.sierra@.len() == 0
    &&& p.casm@ == bundled_casm(k)
    &&& p.version == 2
}

/// The bundled program number `k`.
fn bundled_program(k: u8) -> (p: CairoProgram)
    requires
        k < 3,
    ensures
        is_bundled(p, k as int),
{
    proof {
        assert(STATE_TRANSITION_CASM@.subrange(0, 4) =~= STATE_TRANSITION_CASM@);
        assert(HEXARY_VERIFY_CASM@.subrange(0, 4) =~= HEXARY_VERIFY_CASM@);
        assert(MERKLE_BATCH_CASM@.subrange(0, 4) =~= MERKLE_BATCH_CASM@);
    }
    if k == 0 {
        CairoProgram {
            hash: STATE_TRANSITION_HASH,
            source: STATE_TRANSITION_SOURCE.to_owned(),
            sierra: Vec::new(),
            casm: copy_range(&STATE_TRANSITION_CASM, 0, 4),
            version: 2,
        }
    } else if k == 1 {
        CairoProgram {
            hash: HEXARY_VERIFY_HASH,
            source: HEXARY_VERIFY_SOURCE.to_owned(),
            sierra: Vec::new(),
            casm: copy_range(&HEXARY_VERIFY_CASM, 0, 4),
            version: 2,
        }
    } else {
        CairoProgram {
            hash: MERKLE_BATCH_HASH,
            source: MERKLE_BATCH_SOURCE.to_owned(),
            sierra: Vec::new(),
            casm: copy_range(&MERKLE_BATCH_CASM, 0, 4),
            version: 2,
        }
    }
}

/// The name of the bundled program number `k`, as text.
fn bundled_name_str(k: u8) -> (s: &'static str)
    requires
        k < 3,
    ensures
        s@ == bundled_name(k as int),
{
    if k == 0 {
        "state_transition"
    } else if k == 1 {
        "hexary_verify"
    } else {
        "merkle_batch"
    }
}

/// Register all bundled Cairo programs with the registry, in order; the
/// first that cannot be registered stops the rest, and its error is
/// reported with the program's name.
pub fn register_bundled_programs(registry: &mut CairoProgramRegistry) -> (r: Result<(), BundledError>)
    requires
        old(registry).wf(),
    ensures
        final(registry).wf(),
        r is Ok <==> forall|k: int| 0 <= k < 3 ==> !old(registry).hashes().contains(#[trigger] bundled_hash(k)),
        r is Ok ==> forall|k: int| 0 <= k < 3 ==> (final(registry).lookup(#[trigger] bundled_hash(k)) matches Some(
            p,
        ) && is_bundled(p, k)),
        r is Ok ==> final(registry).programs@.len() == old(registry).programs@.len() + 3,
        r matches Err(e) ==> exists|k: int|
            0 <= k < 3 && #[trigger] old(registry).hashes().contains(bundled_hash(k)) && (forall|j: int|
                0 <= j < k ==> !old(registry).hashes().contains(#[trigger] bundled_hash(j))) && (e matches BundledError::RegistrationFailed(
                name,
                msg,
            ) && name@ == bundled_name(k) && msg@ == registry_error_text(
                RegistryError::AlreadyExists(bundled_program_hash_array(k)),
            )) && (forall|j: int| 0 <= j < k ==> (final(registry).lookup(#[trigger] bundled_hash(j)) matches Some(p)
                && is_bundled(p, j))) && (forall|h: Seq<u8>|
                (forall|j: int| 0 <= j < k ==> h != #[trigger] bundled_hash(j)) ==> #[trigger] final(registry).lookup(h)
                == old(registry).lookup(h)) && final(registry).programs@.len() == old(registry).programs@.len() + k,
        forall|h: Seq<u8>|
            (forall|j: int| 0 <= j < 3 ==> h != #[trigger] bundled_hash(j)) ==> #[trigger] final(registry).lookup(h)
                == old(registry).lookup(h),
        final(registry).allowlist@ == old(registry).allowlist@,
{
    let mut k: u8 = 0;
    while k < 3
        invariant
            k <= 3,
            registry.wf(),
            forall|j: int| 0 <= j < k ==> !old(registry).hashes().contains(#[trigger] bundled_hash(j)),
            forall|j: int| 0 <= j < k ==> (registry.lookup(#[trigger] bundled_hash(j)) matches Some(p) && is_bundled(p, j)),
            forall|h: Seq<u8>| (forall|j: int| 0 <= j < k ==> h != #[trigger] bundled_hash(j)) ==> #[trigger] registry.lookup(h) == old(registry).lookup(h),
            registry.allowlist@ == old(registry).allowlist@,
            registry.programs@.len() == old(registry).programs@.len() + k,
        decreases 3 - k,
    {
        let program = bundled_program(k);
        let ghost before = *registry;
        match registry.register(program) {
            Ok(()) => {},
            Err(e) => {
                let name = bundled_name_str(k).to_owned();
                let msg = e.message();
                proof {
                    assert(before.lookup(bundled_hash(k as int)) == old(registry).lookup(bundled_hash(k as int)));
                    assert(old(registry).hashes().contains(bundled_hash(k as int)));
                    assert forall|h: Seq<u8>| (forall|j: int| 0 <= j < 3 ==> h != #[trigger] bundled_hash(j)) implies
                        #[trigger] registry.lookup(h) == old(registry).lookup(h) by {
                        assert(forall|j: int| 0 <= j < k ==> h != #[trigger] bundled_hash(j));
                    }
                }
                return Err(BundledError::RegistrationFailed(name, msg));
            },
        }
        k = k + 1;
    }
    Ok(())
}

/// The hash array of the bundled program number `k`.
pub open spec fn bundled_program_hash_array(k: int) -> CairoProgramHash {
    if k == 0 {
        STATE_TRANSITION_HASH
    } else if k == 1 {
        HEXARY_VERIFY_HASH
    } else {
        MERKLE_BATCH_HASH
    }
}

/// Get a bundled program by name
pub fn get_bundled_program(name: &str) -> (r: Option<CairoProgram>)
    ensures
        forall|k: int| 0 <= k < 3 && name@ == #[trigger] bundled_name(k) ==> (r matches Some(p) && is_bundled(p, k)),
        (forall|k: int| 0 <= k < 3 ==> name@ != #[trigger] bundled_name(k)) ==> r is None,
{
    let n = name.to_owned();
    let mut k: u8 = 0;
    proof {
        reveal_strlit("state_transition");
        reveal_strlit("hexary_verify");
        reveal_strlit("merkle_batch");
        assert(bundled_name(0)[0] != bundled_name(1)[0]);
        assert(bundled_name(0)[0] != bundled_name(2)[0]);
        assert(bundled_name(1)[0] != bundled_name(2)[0]);
    }
    while k < 3
        invariant
            k <= 3,
            n@ == name@,
            forall|j: int| 0 <= j < k ==> name@ != #[trigger] bundled_name(j),
            bundled_name(0) != bundled_name(1),
            bundled_name(0) != bundled_name(2),
            bundled_name(1) != bundled_name(2),
        decreases 3 - k,
    {
        let candidate = bundled_name_str(k).to_owned();
        if n == candidate {
            return Some(bundled_program(k));
        }
        k = k + 1;
    }
    None
}

/// Check if a program hash is from a bundled program
pub fn is_bundled_program(hash: &CairoProgramHash) -> (b: bool)
    ensures
        b == (exists|k: int| 0 <= k < 3 && hash@ == #[trigger] bundled_hash(k)),
{
    let a = STATE_TRANSITION_HASH;
    let b = HEXARY_VERIFY_HASH;
    let c = MERKLE_BATCH_HASH;
    let r = eq32(hash, &a) || eq32(hash, &b) || eq32(hash, &c);
    proof {
        if r {
            if hash@ == bundled_hash(0) {
            } else if hash@ == bundled_hash(1) {
            } else {
                assert(hash@ == bundled_hash(2));
            }
        }
    }
    r
}

/// Get the name of a bundled program from its hash
pub fn get_bundled_program_name(hash: &CairoProgramHash) -> (r: Option<&'static str>)
    ensures
        hash@ == bundled_hash(0) ==> (r matches Some(s) && s@ == bundled_name(0)),
        hash@ != bundled_hash(0) && hash@ == bundled_hash(1) ==> (r matches Some(s) && s@ == bundled_name(1)),
        hash@ != bundled_hash(0) && hash@ != bundled_hash(1) && hash@ == bundled_hash(2) ==> (r matches Some(s)
            && s@ == bundled_name(2)),
        (forall|k: int| 0 <= k < 3 ==> hash@ != #[trigger] bundled_hash(k)) ==> r is None,
{
    let a = STATE_TRANSITION_HASH;
    let b = HEXARY_VERIFY_HASH;
    let c = MERKLE_BATCH_HASH;
    if eq32(hash, &a) {
        assert(hash@ == bundled_hash(0));
        Some(bundled_name_str(0))
    } else if eq32(hash, &b) {
        assert(hash@ == bundled_hash(1));
        Some(bundled_name_str(1))
    } else if eq32(hash, &c) {
        assert(hash@ == bundled_hash(2));
        Some(bundled_name_str(2))
    } else {
        None
    }
}

} // verus!
