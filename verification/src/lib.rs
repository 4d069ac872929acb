//! ALTCHA proof-of-work (v2): creating, solving and verifying challenges, and
//! verifying server signatures, with every step proved against its contract.
use vstd::prelude::*;

pub mod algorithms;
pub mod error;
pub mod helpers;
pub mod json;
pub mod pow;
pub mod server_signature;
pub mod text;
pub mod types;

pub use error::{Error, Result};
pub use pow::{create_challenge, sign_challenge, solve_challenge, verify_solution};
pub use server_signature::{parse_verification_data, verify_fields_hash, verify_server_signature};
pub use types::{
    Challenge, ChallengeParameters, CreateChallengeOptions, HmacAlgorithm, Payload,
    ServerSignaturePayload, ServerSignatureVerificationData, Solution, SolveChallengeOptions,
    VerifyServerSignatureResult, VerifySolutionOptions, VerifySolutionResult,
};

verus! {

} // verus!
