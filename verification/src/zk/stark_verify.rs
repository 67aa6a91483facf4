//! What the answers of the Cairo proof verifier mean: whether a proof is
//! accepted, and whether it proves the expected program with the expected
//! outputs. Parsing the proof and running the verifier is the application's
//! part.

use vstd::prelude::*;
use crate::bytes::{eq32, eq_bytes};

verus! {

/// Verification errors of the proof verifier
#[derive(Debug, Clone, PartialEq, Eq)]
pub enum VerifyError {
    /// The proof could not be parsed
    ParseError(String),
    /// The proof did not verify
    VerificationFailed(String),
    /// The proof is invalid
    InvalidProof(String),
    /// A proof could not be generated
    GenerationError(String),
}

/// The text shown for a proof verifier error.
pub open spec fn verify_error_text(e: VerifyError) -> Seq<char> {
    match e {
        VerifyError::ParseError(m) => "Failed to parse proof: "@ + m@,
        VerifyError::VerificationFailed(m) => "Verification failed: "@ + m@,
        VerifyError::InvalidProof(m) => "Proof is invalid: "@ + m@,
        VerifyError::GenerationError(m) => "Failed to generate proof: "@ + m@,
    }
}

impl VerifyError {
    /// The text shown for the error.
    pub fn message(&self) -> (s: String)
        ensures
            s@ == verify_error_text(*self),
    {
        match self {
            VerifyError::ParseError(m) => "Failed to parse proof: ".to_owned().concat(m.as_str()),
            VerifyError::VerificationFailed(m) => "Verification failed: ".to_owned().concat(m.as_str()),
            VerifyError::InvalidProof(m) => "Proof is invalid: ".to_owned().concat(m.as_str()),
            VerifyError::GenerationError(m) => "Failed to generate proof: ".to_owned().concat(m.as_str()),
        }
    }
}

/// The parse error reported for proof bytes the parser refused.
pub open spec fn parse_failure_text(e: Seq<char>) -> Seq<char> {
    "Could not parse proof as JSON: "@ + e + ". Expected CairoProofForRustVerifier JSON."@
}

/// The verifier's answer, as plain values: `None` when it accepts the
/// proof; `Some((false, e))` when the bytes do not parse as a proof, with the
/// parser's text `e`; `Some((true, e))` when the parsed proof is rejected,
/// with the verifier's text `e`.
pub open spec fn check_view(check: Option<(bool, String)>) -> Option<(bool, Seq<char>)> {
    match check {
        None => None,
        Some((p, t)) => Some((p, t@)),
    }
}

/// The verification outcome for each answer of the Cairo verifier.
pub open spec fn verify_outcome_spec(check: Option<(bool, Seq<char>)>, r: Result<bool, VerifyError>) -> bool {
    match check {
        None => r == Ok::<bool, VerifyError>(true),
        Some((false, e)) => r matches Err(VerifyError::ParseError(m)) && m@ == parse_failure_text(e),
        Some((true, e)) => r matches Err(VerifyError::VerificationFailed(m)) && m@ == e,
    }
}

/// What the Cairo verifier's answer means: an accepted proof is `Ok(true)`;
/// bytes that did not parse give a parse error carrying the parser's text; a
/// rejected proof gives a verification failure carrying the verifier's text.
pub fn verify_outcome(check: Option<(bool, String)>) -> (r: Result<bool, VerifyError>)
    ensures
        verify_outcome_spec(check_view(check), r),
{
    match check {
        None => Ok(true),
        Some((false, e)) => {
            let m = "Could not parse proof as JSON: ".to_owned().concat(e.as_str()).concat(
                ". Expected CairoProofForRustVerifier JSON.",
            );
            Err(VerifyError::ParseError(m))
        },
        Some((true, e)) => Err(VerifyError::VerificationFailed(e)),
    }
}

/// The text of the error for a proof of another program.
pub open spec fn program_mismatch_text() -> Seq<char> {
    "program hash does not match the expected program hash"@
}

/// The text of the error for a proof with other outputs.
pub open spec fn outputs_mismatch_text() -> Seq<char> {
    "outputs do not match the expected outputs"@
}

/// Verify a proof with additional validation: the verifier must accept it,
/// and the program hash and outputs that the proof states (the hash as its
/// 32 big-endian bytes, the outputs as the 32 big-endian bytes of each
/// output in turn) must be the expected ones. A proof the verifier does not
/// accept gives the outcome of [`verify_outcome`]; an accepted proof of
/// another program, or with other outputs, is an invalid proof.
pub fn verify_proof_with_validation(
    check: Option<(bool, String)>,
    program_hash: &[u8; 32],
    outputs: &[u8],
    expected_program_hash: &[u8; 32],
    expected_outputs: &[u8],
) -> (r: Result<bool, VerifyError>)
    ensures
        r == Ok::<bool, VerifyError>(true) <==> (check is None && program_hash@ == expected_program_hash@
            && outputs@ == expected_outputs@),
        check is Some ==> verify_outcome_spec(check_view(check), r),
        check is None && program_hash@ != expected_program_hash@ ==> (r matches Err(VerifyError::InvalidProof(m))
            && m@ == program_mismatch_text()),
        check is None && program_hash@ == expected_program_hash@ && outputs@ != expected_outputs@ ==> (
        r matches Err(VerifyError::InvalidProof(m)) && m@ == outputs_mismatch_text()),
{
    if check.is_some() {
        return verify_outcome(check);
    }
    if !eq32(program_hash, expected_program_hash) {
        return Err(VerifyError::InvalidProof("program hash does not match the expected program hash".to_owned()));
    }
    if !eq_bytes(outputs, expected_outputs) {
        return Err(VerifyError::InvalidProof("outputs do not match the expected outputs".to_owned()));
    }
    Ok(true)
}

} // verus!
