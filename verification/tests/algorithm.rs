use std::str::FromStr;

use jose_algorithms::jose::algorithm::jws::family::{hmac_sha, rsa, signature};
use jose_algorithms::jose::algorithm::{none, resolve, Algorithm, AlgorithmBehavior, AlgorithmError};
use jose_algorithms::jose::algorithm_family::AlgorithmFamily;
use jose_algorithms::jose::Requirement;

#[test]
fn test() {
    let a = none();
    println!("{}", a.to_json_string(true));
}

#[test]
fn new_keeps_name_and_level() {
    let alg = Algorithm::new("RS256", Some(Requirement::RECOMMENDED));
    assert_eq!(alg.name(), "RS256");
    assert_eq!(alg.requirement(), Some(Requirement::RECOMMENDED));
    let bare = Algorithm::new("x", None);
    assert_eq!(bare.name(), "x");
    assert_eq!(bare.requirement(), None);
}

#[test]
fn equality_is_over_name_and_level() {
    let alg = Algorithm::new("RS256", Some(Requirement::RECOMMENDED));
    assert_eq!(alg, Algorithm::new("RS256", Some(Requirement::RECOMMENDED)));
    assert_eq!(alg, alg.clone());
    assert_ne!(alg, Algorithm::new("RS256", Some(Requirement::OPTIONAL)));
    assert_ne!(alg, Algorithm::new("RS256", None));
    assert_ne!(alg, Algorithm::new("RS384", Some(Requirement::RECOMMENDED)));
}

#[test]
fn none_is_required() {
    let alg = none();
    assert_eq!(alg.name(), "none");
    assert_eq!(alg.requirement(), Some(Requirement::REQUIRED));
}

#[test]
fn requirement_tags_are_the_names() {
    assert_eq!(Requirement::REQUIRED.tag(), "REQUIRED");
    assert_eq!(Requirement::RECOMMENDED.tag(), "RECOMMENDED");
    assert_eq!(Requirement::OPTIONAL.tag(), "OPTIONAL");
}

#[test]
fn parse_finds_every_member_of_the_signature_family() {
    let family = signature();
    assert_eq!(family.len(), 11);
    for member in family.as_slice() {
        let found = Algorithm::parse(&member.name()).unwrap();
        assert_eq!(found.name(), member.name());
        assert_eq!(found.requirement(), member.requirement());
        assert_eq!(&found, member);
    }
}

#[test]
fn parse_none_is_required() {
    let found = Algorithm::parse("none").unwrap();
    assert_eq!(found.requirement(), Some(Requirement::REQUIRED));
    assert_eq!(found, none());
}

#[test]
fn parse_of_an_unknown_name_is_not_found() {
    assert_eq!(Algorithm::parse("does-not-exist"), Err(AlgorithmError::NotFoundError));
    assert_eq!(Algorithm::parse(""), Err(AlgorithmError::NotFoundError));
    assert_eq!(Algorithm::parse("rs256"), Err(AlgorithmError::NotFoundError));
    assert_eq!(Algorithm::parse("None"), Err(AlgorithmError::NotFoundError));
    assert_eq!(Algorithm::parse("RS256 "), Err(AlgorithmError::NotFoundError));
}

#[test]
fn parse_does_not_know_the_hmac_family() {
    assert_eq!(Algorithm::parse("HS256"), Err(AlgorithmError::NotFoundError));
    for member in hmac_sha().as_slice() {
        assert_eq!(Algorithm::parse(&member.name()), Err(AlgorithmError::NotFoundError));
    }
}

#[test]
fn parse_gives_the_levels_of_the_registry() {
    assert_eq!(Algorithm::parse("RS256").unwrap().requirement(), Some(Requirement::RECOMMENDED));
    assert_eq!(Algorithm::parse("ES256").unwrap().requirement(), Some(Requirement::RECOMMENDED));
    assert_eq!(Algorithm::parse("ES256K").unwrap().requirement(), Some(Requirement::OPTIONAL));
    assert_eq!(Algorithm::parse("PS512").unwrap().requirement(), Some(Requirement::OPTIONAL));
    assert_eq!(Algorithm::parse("EdDSA").unwrap().requirement(), Some(Requirement::OPTIONAL));
}

#[test]
fn from_str_resolves_as_parse_does() {
    assert_eq!(Algorithm::from_str("ES384"), Algorithm::parse("ES384"));
    assert_eq!("none".parse::<Algorithm>(), Ok(none()));
    assert_eq!("HS512".parse::<Algorithm>(), Err(AlgorithmError::NotFoundError));
}

#[test]
fn resolve_searches_the_family_it_is_given() {
    let family = hmac_sha();
    let found = resolve("HS384", &family).unwrap();
    assert_eq!(found, Algorithm::new("HS384", Some(Requirement::OPTIONAL)));
    assert_eq!(resolve("RS256", &family), Err(AlgorithmError::NotFoundError));
    assert_eq!(resolve("none", &family), Ok(none()));
    let empty: AlgorithmFamily<Algorithm> = AlgorithmFamily::new();
    assert_eq!(resolve("none", &empty), Ok(none()));
    assert_eq!(resolve("RS256", &empty), Err(AlgorithmError::NotFoundError));
}

#[test]
fn resolve_takes_the_oldest_member_of_a_name() {
    let mut family: AlgorithmFamily<Algorithm> = AlgorithmFamily::new();
    assert!(family.add(Algorithm::new("A", Some(Requirement::OPTIONAL))));
    assert!(family.add(Algorithm::new("B", Some(Requirement::OPTIONAL))));
    assert!(family.add(Algorithm::new("B", Some(Requirement::REQUIRED))));
    assert!(family.add(Algorithm::new("none", Some(Requirement::OPTIONAL))));
    assert_eq!(resolve("B", &family).unwrap().requirement(), Some(Requirement::OPTIONAL));
    assert_eq!(resolve("none", &family).unwrap().requirement(), Some(Requirement::REQUIRED));
}

#[test]
fn resolve_by_name_is_not_membership() {
    let family = rsa();
    let other = Algorithm::new("RS256", Some(Requirement::OPTIONAL));
    assert!(!family.contains(&other));
    assert_eq!(resolve("RS256", &family).unwrap().requirement(), Some(Requirement::RECOMMENDED));
}
