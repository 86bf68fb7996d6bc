//! The signing algorithms of JSON Web Signature.

use vstd::prelude::*;

use crate::jose::algorithm::{identifier, Algorithm};
use crate::jose::Requirement;

pub mod family;

verus! {

/// HMAC with SHA-256.
pub fn hs256() -> (alg: Algorithm)
    ensures
        alg@ == identifier("HS256"@, Requirement::OPTIONAL),
{
    Algorithm::new("HS256", Some(Requirement::OPTIONAL))
}

/// HMAC with SHA-384.
pub fn hs384() -> (alg: Algorithm)
    ensures
        alg@ == identifier("HS384"@, Requirement::OPTIONAL),
{
    Algorithm::new("HS384", Some(Requirement::OPTIONAL))
}

/// HMAC with SHA-512.
pub fn hs512() -> (alg: Algorithm)
    ensures
        alg@ == identifier("HS512"@, Requirement::OPTIONAL),
{
    Algorithm::new("HS512", Some(Requirement::OPTIONAL))
}

/// RSASSA-PKCS1-v1_5 with SHA-256.
pub fn rs256() -> (alg: Algorithm)
    ensures
        alg@ == identifier("RS256"@, Requirement::RECOMMENDED),
{
    Algorithm::new("RS256", Some(Requirement::RECOMMENDED))
}

/// RSASSA-PKCS1-v1_5 with SHA-384.
pub fn rs384() -> (alg: Algorithm)
    ensures
        alg@ == identifier("RS384"@, Requirement::OPTIONAL),
{
    Algorithm::new("RS384", Some(Requirement::OPTIONAL))
}

/// RSASSA-PKCS1-v1_5 with SHA-512.
pub fn rs512() -> (alg: Algorithm)
    ensures
        alg@ == identifier("RS512"@, Requirement::OPTIONAL),
{
    Algorithm::new("RS512", Some(Requirement::OPTIONAL))
}

/// ECDSA with P-256 and SHA-256.
pub fn es256() -> (alg: Algorithm)
    ensures
        alg@ == identifier("ES256"@, Requirement::RECOMMENDED),
{
    Algorithm::new("ES256", Some(Requirement::RECOMMENDED))
}

/// ECDSA with secp256k1 and SHA-256.
pub fn es256k() -> (alg: Algorithm)
    ensures
        alg@ == identifier("ES256K"@, Requirement::OPTIONAL),
{
    Algorithm::new("ES256K", Some(Requirement::OPTIONAL))
}

/// ECDSA with P-384 and SHA-384.
pub fn es384() -> (alg: Algorithm)
    ensures
        alg@ == identifier("ES384"@, Requirement::OPTIONAL),
{
    Algorithm::new("ES384", Some(Requirement::OPTIONAL))
}

/// ECDSA with P-521 and SHA-512.
pub fn es512() -> (alg: Algorithm)
    ensures
        alg@ == identifier("ES512"@, Requirement::OPTIONAL),
{
    Algorithm::new("ES512", Some(Requirement::OPTIONAL))
}

/// RSASSA-PSS with SHA-256.
pub fn ps256() -> (alg: Algorithm)
    ensures
        alg@ == identifier("PS256"@, Requirement::OPTIONAL),
{
    Algorithm::new("PS256", Some(Requirement::OPTIONAL))
}

/// RSASSA-PSS with SHA-384.
pub fn ps384() -> (alg: Algorithm)
    ensures
        alg@ == identifier("PS384"@, Requirement::OPTIONAL),
{
    Algorithm::new("PS384", Some(Requirement::OPTIONAL))
}

/// RSASSA-PSS with SHA-512.
pub fn ps512() -> (alg: Algorithm)
    ensures
        alg@ == identifier("PS512"@, Requirement::OPTIONAL),
{
    Algorithm::new("PS512", Some(Requirement::OPTIONAL))
}

/// The Edwards-curve signature algorithm.
pub fn ed_dsa() -> (alg: Algorithm)
    ensures
        alg@ == identifier("EdDSA"@, Requirement::OPTIONAL),
{
    Algorithm::new("EdDSA", Some(Requirement::OPTIONAL))
}

/// What tells the names of this registry apart: the length of a name with
/// its first and its third character.
pub open spec fn mark(name: Seq<char>) -> (nat, char, char) {
    (name.len(), name[0], name[2])
}

/// The marks of the fifteen names. No two of them are equal, so no two of
/// the names are.
pub proof fn lemma_marks()
    ensures
        mark("none"@) == (4nat, 'n', 'n'),
        mark("HS256"@) == (5nat, 'H', '2'),
        mark("HS384"@) == (5nat, 'H', '3'),
        mark("HS512"@) == (5nat, 'H', '5'),
        mark("RS256"@) == (5nat, 'R', '2'),
        mark("RS384"@) == (5nat, 'R', '3'),
        mark("RS512"@) == (5nat, 'R', '5'),
        mark("PS256"@) == (5nat, 'P', '2'),
        mark("PS384"@) == (5nat, 'P', '3'),
        mark("PS512"@) == (5nat, 'P', '5'),
        mark("ES256"@) == (5nat, 'E', '2'),
        mark("ES256K"@) == (6nat, 'E', '2'),
        mark("ES384"@) == (5nat, 'E', '3'),
        mark("ES512"@) == (5nat, 'E', '5'),
        mark("EdDSA"@) == (5nat, 'E', 'D'),
{
    reveal_strlit("none");
    reveal_strlit("HS256");
    reveal_strlit("HS384");
    reveal_strlit("HS512");
    reveal_strlit("RS256");
    reveal_strlit("RS384");
    reveal_strlit("RS512");
    reveal_strlit("PS256");
    reveal_strlit("PS384");
    reveal_strlit("PS512");
    reveal_strlit("ES256");
    reveal_strlit("ES256K");
    reveal_strlit("ES384");
    reveal_strlit("ES512");
    reveal_strlit("EdDSA");
}

} // verus!
