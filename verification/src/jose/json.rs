//! The JSON text of an identifier: an object with the two fields `name` and
//! `requirement`, on one line or indented over four.

use vstd::prelude::*;

verus! {

/// The JSON string literal that stands for the text `s`: `s` between double
/// quotes, with the characters that JSON does not take as they are written
/// as escapes.
pub uninterp spec fn json_string_literal(s: Seq<char>) -> Seq<char>;

/// The JSON string literal for `s`, made by `serde_json::to_string` on a
/// string slice.
///
/// Trusted: the result is a function of the characters of `s` alone, named
/// `json_string_literal`. The call cannot fail on a string slice: the
/// serializer writes into a buffer in memory, and only a failing writer, a
/// failing `Serialize` impl or a map key that is no string make it return an
/// error.
#[verifier::external_body]
pub(crate) fn quote(s: &str) -> (literal: String)
    ensures
        literal@ == json_string_literal(s@),
{
    serde_json::to_string(s).unwrap()
}

/// The text of the object with the two fields `name` and `requirement`.
/// `name_value` and `requirement_value` are the JSON texts of the two
/// values; a missing `requirement_value` is written as `null`.
///
/// The compact form has no white space. The pretty form puts each field on
/// a line of its own, indented by two spaces, with a space after the colon.
pub open spec fn json_object(
    name_value: Seq<char>,
    requirement_value: Option<Seq<char>>,
    pretty: bool,
) -> Seq<char> {
    let level = match requirement_value {
        Some(text) => text,
        None => "null"@,
    };
    if pretty {
        "{\n  \"name\": "@ + name_value + ",\n  \"requirement\": "@ + level + "\n}"@
    } else {
        "{\"name\":"@ + name_value + ",\"requirement\":"@ + level + "}"@
    }
}

/// The characters of an optional string slice.
pub open spec fn option_text(s: Option<&str>) -> Option<Seq<char>> {
    match s {
        Some(text) => Some(text@),
        None => None,
    }
}

/// Writes the object of `json_object` from the JSON texts of its two
/// values.
pub fn json_object_text(name_value: &str, requirement_value: Option<&str>, pretty: bool) -> (text:
    String)
    ensures
        text@ == json_object(name_value@, option_text(requirement_value), pretty),
{
    let level = match requirement_value {
        Some(text) => text,
        None => "null",
    };
    let mut text = String::new();
    if pretty {
        text.append("{\n  \"name\": ");
        text.append(name_value);
        text.append(",\n  \"requirement\": ");
        text.append(level);
        text.append("\n}");
    } else {
        text.append("{\"name\":");
        text.append(name_value);
        text.append(",\"requirement\":");
        text.append(level);
        text.append("}");
    }
    proof {
        if pretty {
            assert(text@ =~= "{\n  \"name\": "@ + name_value@ + ",\n  \"requirement\": "@
                + level@ + "\n}"@);
        } else {
            assert(text@ =~= "{\"name\":"@ + name_value@ + ",\"requirement\":"@ + level@
                + "}"@);
        }
    }
    text
}

/// The pretty text of an object is never its compact text: the second
/// character of the one is a line feed, that of the other a double quote.
pub proof fn lemma_pretty_differs_from_compact(
    name_value: Seq<char>,
    requirement_value: Option<Seq<char>>,
)
    ensures
        json_object(name_value, requirement_value, true) != json_object(
            name_value,
            requirement_value,
            false,
        ),
{
    reveal_strlit("{\n  \"name\": ");
    reveal_strlit("{\"name\":");
    let pretty = json_object(name_value, requirement_value, true);
    let compact = json_object(name_value, requirement_value, false);
    assert(pretty[1] == '\n');
    assert(compact[1] == '"');
}

} // verus!
