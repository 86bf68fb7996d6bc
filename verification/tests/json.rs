use jose_algorithms::jose::algorithm::jws::family::signature;
use jose_algorithms::jose::algorithm::jws::rs256;
use jose_algorithms::jose::algorithm::{none, Algorithm, AlgorithmBehavior};
use jose_algorithms::jose::json::json_object_text;
use jose_algorithms::jose::Requirement;

fn level_of(tag: &str) -> Requirement {
    match tag {
        "REQUIRED" => Requirement::REQUIRED,
        "RECOMMENDED" => Requirement::RECOMMENDED,
        "OPTIONAL" => Requirement::OPTIONAL,
        other => panic!("no such level: {}", other),
    }
}

fn decode(text: &str) -> Algorithm {
    let value: serde_json::Value = serde_json::from_str(text).unwrap();
    let object = value.as_object().unwrap();
    assert_eq!(object.len(), 2);
    let name = object["name"].as_str().unwrap();
    let requirement = &object["requirement"];
    if requirement.is_null() {
        Algorithm::new(name, None)
    } else {
        Algorithm::new(name, Some(level_of(requirement.as_str().unwrap())))
    }
}

#[test]
fn compact_text_of_none() {
    assert_eq!(none().to_json_string(false), "{\"name\":\"none\",\"requirement\":\"REQUIRED\"}");
}

#[test]
fn pretty_text_of_none() {
    assert_eq!(
        none().to_json_string(true),
        "{\n  \"name\": \"none\",\n  \"requirement\": \"REQUIRED\"\n}"
    );
}

#[test]
fn texts_of_a_recommended_algorithm() {
    let alg = rs256();
    assert_eq!(alg.to_json_string(false), "{\"name\":\"RS256\",\"requirement\":\"RECOMMENDED\"}");
    assert_eq!(
        alg.to_json_string(true),
        "{\n  \"name\": \"RS256\",\n  \"requirement\": \"RECOMMENDED\"\n}"
    );
}

#[test]
fn texts_without_a_level() {
    let alg = Algorithm::new("x", None);
    assert_eq!(alg.to_json_string(false), "{\"name\":\"x\",\"requirement\":null}");
    assert_eq!(alg.to_json_string(true), "{\n  \"name\": \"x\",\n  \"requirement\": null\n}");
}

#[test]
fn a_name_is_written_as_a_string_literal() {
    let alg = Algorithm::new("a\"b\\c\nd\te\u{1}f\u{e9}/", Some(Requirement::OPTIONAL));
    assert_eq!(
        alg.to_json_string(false),
        "{\"name\":\"a\\\"b\\\\c\\nd\\te\\u0001f\u{e9}/\",\"requirement\":\"OPTIONAL\"}"
    );
    assert_eq!(decode(&alg.to_json_string(false)), alg);
    assert_eq!(decode(&alg.to_json_string(true)), alg);
}

#[test]
fn an_empty_name_is_an_empty_literal() {
    let alg = Algorithm::new("", None);
    assert_eq!(alg.to_json_string(false), "{\"name\":\"\",\"requirement\":null}");
}

#[test]
fn pretty_and_compact_differ_and_decode_alike() {
    let mut all = signature().as_slice().to_vec();
    all.push(none());
    all.push(Algorithm::new("bare", None));
    for alg in all {
        let pretty = alg.to_json_string(true);
        let compact = alg.to_json_string(false);
        assert_ne!(pretty, compact);
        assert!(pretty.contains('\n'));
        assert!(!compact.contains('\n'));
        assert!(!compact.contains(' '));
        assert_eq!(decode(&pretty), alg);
        assert_eq!(decode(&compact), alg);
    }
}

#[test]
fn the_texts_are_those_of_a_json_writer() {
    let mut all = signature().as_slice().to_vec();
    all.push(none());
    all.push(Algorithm::new("a \"quoted\" name", None));
    for alg in all {
        let compact = alg.to_json_string(false);
        let value: serde_json::Value = serde_json::from_str(&compact).unwrap();
        assert_eq!(serde_json::to_string(&value).unwrap(), compact);
        assert_eq!(serde_json::to_string_pretty(&value).unwrap(), alg.to_json_string(true));
    }
}

#[test]
fn json_object_text_frames_its_values() {
    assert_eq!(json_object_text("1", Some("2"), false), "{\"name\":1,\"requirement\":2}");
    assert_eq!(json_object_text("1", None, false), "{\"name\":1,\"requirement\":null}");
    assert_eq!(
        json_object_text("\"n\"", Some("\"r\""), true),
        "{\n  \"name\": \"n\",\n  \"requirement\": \"r\"\n}"
    );
    assert_eq!(
        json_object_text("\"n\"", None, true),
        "{\n  \"name\": \"n\",\n  \"requirement\": null\n}"
    );
    assert_eq!(json_object_text("", None, false), "{\"name\":,\"requirement\":null}");
}
