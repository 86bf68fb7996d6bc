//! Algorithm identifiers and the resolver from names to identifiers.

use vstd::prelude::*;
use vstd::std_specs::cmp::PartialEqSpecImpl;

use crate::jose::algorithm::jws::family::{
    hmac_sha_members, lemma_signature_names, signature, signature_members,
};
use crate::jose::algorithm::jws::{lemma_marks, mark};
use crate::jose::algorithm_family::{
    lemma_filter_keeps_all, lemma_filter_keeps_none, obeys_member_model, views, AlgorithmFamily,
};
use crate::jose::json::{
    json_object, json_object_text, json_string_literal, lemma_pretty_differs_from_compact, quote,
};
use crate::jose::Requirement;

pub mod jws;

verus! {

/// The mathematical value of an [`Algorithm`]: its name as a sequence of
/// characters, and its requirement level.
pub struct AlgorithmView {
    pub name: Seq<char>,
    pub requirement: Option<Requirement>,
}

/// The identifier named `name` with the level `requirement`.
pub open spec fn identifier(name: Seq<char>, requirement: Requirement) -> AlgorithmView {
    AlgorithmView { name, requirement: Some(requirement) }
}

/// What reading an algorithm can tell: its name, its requirement level and
/// its JSON text.
pub trait AlgorithmBehavior {
    /// The name.
    fn name(&self) -> String;

    /// The requirement level, if the algorithm has one.
    fn requirement(&self) -> Option<Requirement>;

    /// The JSON text, indented over several lines if `pretty` and on one
    /// line if not.
    fn to_json_string(&self, pretty: bool) -> String;
}

/// Why a name was not resolved.
#[derive(Debug, Clone, Copy, PartialEq, Eq, Structural)]
pub enum AlgorithmError {
    /// The name is neither `none` nor that of a member of the family that
    /// was searched.
    NotFoundError,
}

/// A named algorithm with an optional requirement level.
///
/// Two identifiers are equal when both the name and the level agree.
#[derive(Debug, Hash)]
pub struct Algorithm {
    name: String,
    requirement: Option<Requirement>,
}

impl View for Algorithm {
    type V = AlgorithmView;

    closed spec fn view(&self) -> AlgorithmView {
        AlgorithmView { name: self.name@, requirement: self.requirement }
    }
}

impl Clone for Algorithm {
    fn clone(&self) -> (copy: Self)
        ensures
            copy@ == self@,
    {
        Self { name: self.name.clone(), requirement: self.requirement }
    }
}

impl PartialEq for Algorithm {
    fn eq(&self, other: &Self) -> (same: bool) {
        self.name == other.name && self.requirement == other.requirement
    }
}

impl Eq for Algorithm {

}

impl PartialEqSpecImpl for Algorithm {
    open spec fn obeys_eq_spec() -> bool {
        true
    }

    open spec fn eq_spec(&self, other: &Self) -> bool {
        self@ == other@
    }
}

impl Algorithm {
    /// Makes the identifier named `name` with the level `requirement`.
    pub fn new(name: &str, requirement: Option<Requirement>) -> (alg: Self)
        ensures
            alg@ == (AlgorithmView { name: name@, requirement }),
    {
        Self { name: name.to_owned(), requirement }
    }

    /// Resolves the name `s`: `none`, or the name of a member of the
    /// signature family. Any other name is not found, and so are the names
    /// of the HMAC family.
    pub fn parse(s: &str) -> (found: Result<Algorithm, AlgorithmError>)
        ensures
            outcome(found) == parse_text(s@),
    {
        let family = signature();
        resolve(s, &family)
    }

    /// `Algorithm` meets what a family asks of its members.
    pub proof fn lemma_member_model()
        ensures
            obeys_member_model::<Algorithm>(),
    {
        reveal(vstd::laws_eq::obeys_view_eq);
    }
}

impl AlgorithmBehavior for Algorithm {
    fn name(&self) -> (name: String)
        ensures
            name@ == self@.name,
    {
        self.name.clone()
    }

    fn requirement(&self) -> (requirement: Option<Requirement>)
        ensures
            requirement == self@.requirement,
    {
        self.requirement
    }

    fn to_json_string(&self, pretty: bool) -> (text: String)
        ensures
            text@ == json_text(self@, pretty),
    {
        let name = quote(self.name.as_str());
        match self.requirement {
            Some(level) => {
                let tag = quote(level.tag());
                json_object_text(name.as_str(), Some(tag.as_str()), pretty)
            },
            None => json_object_text(name.as_str(), None, pretty),
        }
    }
}

impl std::str::FromStr for Algorithm {
    type Err = AlgorithmError;

    /// Resolves the name `s` as `Algorithm::parse` does.
    fn from_str(s: &str) -> (found: Result<Self, Self::Err>)
        ensures
            outcome(found) == parse_text(s@),
    {
        Algorithm::parse(s)
    }
}

/// The algorithm of a token that is not signed: `none`, which every
/// implementation is required to know.
pub fn none() -> (alg: Algorithm)
    ensures
        alg@ == identifier("none"@, Requirement::REQUIRED),
{
    Algorithm::new("none", Some(Requirement::REQUIRED))
}

/// The JSON text of the identifier `alg`: the object whose `name` is the
/// string literal of the name and whose `requirement` is the string literal
/// of the level's tag, or `null`.
pub open spec fn json_text(alg: AlgorithmView, pretty: bool) -> Seq<char> {
    json_object(
        json_string_literal(alg.name),
        match alg.requirement {
            Some(level) => Some(json_string_literal(level.tag_text())),
            None => None,
        },
        pretty,
    )
}

/// The members of `members` named `name`, in their order.
pub open spec fn named(members: Seq<AlgorithmView>, name: Seq<char>) -> Seq<AlgorithmView> {
    members.filter(|member: AlgorithmView| member.name == name)
}

/// What the name `name` resolves to in a family with the members `members`:
/// `none` whatever the family holds, else the first member of that name, and
/// an error where there is no such member.
pub open spec fn resolve_in(name: Seq<char>, members: Seq<AlgorithmView>) -> Result<
    AlgorithmView,
    AlgorithmError,
> {
    if name == "none"@ {
        Ok(identifier("none"@, Requirement::REQUIRED))
    } else if named(members, name).len() > 0 {
        Ok(named(members, name).first())
    } else {
        Err(AlgorithmError::NotFoundError)
    }
}

/// What the name `name` resolves to: `resolve_in` the signature family.
pub open spec fn parse_text(name: Seq<char>) -> Result<AlgorithmView, AlgorithmError> {
    resolve_in(name, signature_members())
}

/// A result of resolving, with the identifier as its view.
pub open spec fn outcome(found: Result<Algorithm, AlgorithmError>) -> Result<
    AlgorithmView,
    AlgorithmError,
> {
    match found {
        Ok(alg) => Ok(alg@),
        Err(error) => Err(error),
    }
}

/// Resolves `s` against `family`: `none` resolves without a look at the
/// family, any other name to the oldest member that has it.
pub fn resolve(s: &str, family: &AlgorithmFamily<Algorithm>) -> (found: Result<
    Algorithm,
    AlgorithmError,
>)
    ensures
        outcome(found) == resolve_in(s@, family.members()),
{
    let wanted = s.to_owned();
    let unsigned = none();
    if wanted == unsigned.name {
        return Ok(unsigned);
    }
    let members = family.as_slice();
    let mut i: usize = 0;
    while i < members.len()
        invariant
            i <= members.len(),
            wanted@ == s@,
            s@ != "none"@,
            views(members@) == family.members(),
            forall|j: int| 0 <= j < i ==> (#[trigger] views(members@)[j]).name != s@,
        decreases members.len() - i,
    {
        if members[i].name == wanted {
            proof {
                lemma_first_named(views(members@), s@, i as int);
            }
            return Ok(members[i].clone());
        }
        i += 1;
    }
    proof {
        lemma_filter_keeps_none(views(members@), |member: AlgorithmView| member.name == s@);
    }
    Err(AlgorithmError::NotFoundError)
}

/// When a name resolves, and to what. A name that resolves gives an
/// identifier of that name, which is a member of the family unless the name
/// is `none`. A name that does not resolve is not `none` and is the name of
/// no member.
pub proof fn lemma_resolve_in(name: Seq<char>, members: Seq<AlgorithmView>)
    ensures
        match resolve_in(name, members) {
            Ok(found) => found.name == name && (name == "none"@ || members.contains(found)),
            Err(error) => {
                &&& error == AlgorithmError::NotFoundError
                &&& name != "none"@
                &&& forall|i: int| 0 <= i < members.len() ==> (#[trigger] members[i]).name != name
            },
        },
{
    let has_name = |member: AlgorithmView| member.name == name;
    let hits = members.filter(has_name);
    if name != "none"@ {
        if hits.len() > 0 {
            members.lemma_filter_pred(has_name, 0);
            assert(hits.contains(hits[0]));
            members.lemma_filter_contains_rev(has_name, hits[0]);
        } else {
            assert forall|i: int| 0 <= i < members.len() implies (#[trigger] members[i]).name
                != name by {
                if members[i].name == name {
                    members.lemma_filter_contains(has_name, i);
                }
            }
        }
    }
}

/// The member at `i` is the first of its name if no member before it has
/// that name.
pub proof fn lemma_first_named(members: Seq<AlgorithmView>, name: Seq<char>, i: int)
    requires
        0 <= i < members.len(),
        members[i].name == name,
        forall|j: int| 0 <= j < i ==> (#[trigger] members[j]).name != name,
    ensures
        named(members, name).len() > 0,
        named(members, name).first() == members[i],
{
    let has_name = |member: AlgorithmView| member.name == name;
    let before = members.subrange(0, i);
    let at = members.subrange(i, i + 1);
    let after = members.subrange(i + 1, members.len() as int);
    assert(members =~= before + at + after);
    lemma_filter_keeps_none(before, has_name);
    lemma_filter_keeps_all(at, has_name);
    Seq::filter_distributes_over_add(before + at, after, has_name);
    Seq::filter_distributes_over_add(before, at, has_name);
    assert((Seq::<AlgorithmView>::empty() + at + after.filter(has_name))[0] == members[i]);
}

/// In a family in which no two members share a name and none is named
/// `none`, the name of a member resolves to that member.
pub proof fn lemma_member_resolves(members: Seq<AlgorithmView>, i: int)
    requires
        0 <= i < members.len(),
        forall|j: int, k: int|
            0 <= j < k < members.len() ==> (#[trigger] members[j]).name != (
            #[trigger] members[k]).name,
        members[i].name != "none"@,
    ensures
        resolve_in(members[i].name, members) == Ok::<AlgorithmView, AlgorithmError>(members[i]),
{
    lemma_first_named(members, members[i].name, i);
}

/// The name of each member of the signature family resolves to that
/// member: to its name and to its requirement level.
pub proof fn lemma_parse_finds_signature_members(member: AlgorithmView)
    requires
        signature_members().contains(member),
    ensures
        parse_text(member.name) == Ok::<AlgorithmView, AlgorithmError>(member),
{
    lemma_signature_names();
    let i = choose|i: int| 0 <= i < signature_members().len() && signature_members()[i] == member;
    lemma_member_resolves(signature_members(), i);
}

/// The name of a member of the HMAC family does not resolve: the family is
/// no part of the signature family.
pub proof fn lemma_parse_misses_hmac_members(member: AlgorithmView)
    requires
        hmac_sha_members().contains(member),
    ensures
        parse_text(member.name) == Err::<AlgorithmView, AlgorithmError>(
            AlgorithmError::NotFoundError,
        ),
{
    lemma_marks();
    lemma_signature_names();
    let members = signature_members();
    let name = member.name;
    assert(mark(name).1 == 'H');
    assert forall|i: int| 0 <= i < members.len() implies (#[trigger] members[i]).name != name by {
        assert(mark(members[i].name).1 != 'H');
    }
    lemma_filter_keeps_none(members, |other: AlgorithmView| other.name == name);
}

/// The pretty and the compact JSON text of an identifier are different
/// texts.
pub proof fn lemma_json_texts_differ(alg: AlgorithmView)
    ensures
        json_text(alg, true) != json_text(alg, false),
{
    lemma_pretty_differs_from_compact(
        json_string_literal(alg.name),
        match alg.requirement {
            Some(level) => Some(json_string_literal(level.tag_text())),
            None => None,
        },
    );
}

} // verus!
