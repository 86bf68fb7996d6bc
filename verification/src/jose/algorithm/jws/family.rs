//! The families of the signing algorithms.
//!
//! Four families are written out member by member. `signature` unites the
//! three that sign with a key pair; the HMAC family is no part of it.

use vstd::prelude::*;

use crate::jose::algorithm::jws::{
    ed_dsa, es256, es256k, es384, es512, hs256, hs384, hs512, lemma_marks, mark, ps256, ps384,
    ps512, rs256, rs384, rs512,
};
use crate::jose::algorithm::{identifier, Algorithm, AlgorithmView};
use crate::jose::algorithm_family::{
    accepted_len, lemma_accepts_all_iff_disjoint, views, AlgorithmFamily,
};
use crate::jose::Requirement;
use crate::jose::{family_of, family_union, joined, member_lists};

verus! {

/// The members of the HMAC family.
pub open spec fn hmac_sha_members() -> Seq<AlgorithmView> {
    seq![
        identifier("HS256"@, Requirement::OPTIONAL),
        identifier("HS384"@, Requirement::OPTIONAL),
        identifier("HS512"@, Requirement::OPTIONAL),
    ]
}

/// The members of the RSA family.
pub open spec fn rsa_members() -> Seq<AlgorithmView> {
    seq![
        identifier("RS256"@, Requirement::RECOMMENDED),
        identifier("RS384"@, Requirement::OPTIONAL),
        identifier("RS512"@, Requirement::OPTIONAL),
        identifier("PS256"@, Requirement::OPTIONAL),
        identifier("PS384"@, Requirement::OPTIONAL),
        identifier("PS512"@, Requirement::OPTIONAL),
    ]
}

/// The members of the elliptic-curve family.
pub open spec fn ec_members() -> Seq<AlgorithmView> {
    seq![
        identifier("ES256"@, Requirement::RECOMMENDED),
        identifier("ES256K"@, Requirement::OPTIONAL),
        identifier("ES384"@, Requirement::OPTIONAL),
        identifier("ES512"@, Requirement::OPTIONAL),
    ]
}

/// The member of the Edwards-curve family.
pub open spec fn ed_members() -> Seq<AlgorithmView> {
    seq![identifier("EdDSA"@, Requirement::OPTIONAL)]
}

/// The members of the signature family: those of the RSA family, then those
/// of the elliptic-curve family, then that of the Edwards-curve family.
pub open spec fn signature_members() -> Seq<AlgorithmView> {
    rsa_members() + ec_members() + ed_members()
}

/// The HMAC family: `HS256`, `HS384` and `HS512`.
pub fn hmac_sha() -> (family: AlgorithmFamily<Algorithm>)
    ensures
        family.members() == hmac_sha_members(),
{
    let members = vec![hs256(), hs384(), hs512()];
    proof {
        Algorithm::lemma_member_model();
        lemma_marks();
        assert(views(members@) =~= hmac_sha_members());
    }
    family_of(members.as_slice())
}

/// The RSA family: `RS256`, `RS384`, `RS512`, `PS256`, `PS384` and `PS512`.
pub fn rsa() -> (family: AlgorithmFamily<Algorithm>)
    ensures
        family.members() == rsa_members(),
{
    let members = vec![rs256(), rs384(), rs512(), ps256(), ps384(), ps512()];
    proof {
        Algorithm::lemma_member_model();
        lemma_marks();
        assert(views(members@) =~= rsa_members());
    }
    family_of(members.as_slice())
}

/// The elliptic-curve family: `ES256`, `ES256K`, `ES384` and `ES512`.
pub fn ec() -> (family: AlgorithmFamily<Algorithm>)
    ensures
        family.members() == ec_members(),
{
    let members = vec![es256(), es256k(), es384(), es512()];
    proof {
        Algorithm::lemma_member_model();
        lemma_marks();
        assert(views(members@) =~= ec_members());
    }
    family_of(members.as_slice())
}

/// The Edwards-curve family: `EdDSA`.
pub fn ed() -> (family: AlgorithmFamily<Algorithm>)
    ensures
        family.members() == ed_members(),
{
    let members = vec![ed_dsa()];
    proof {
        Algorithm::lemma_member_model();
        assert(views(members@) =~= ed_members());
    }
    family_of(members.as_slice())
}

/// The signature family: the RSA, the elliptic-curve and the Edwards-curve
/// family combined in this order. No two of them share a member, so it has
/// all eleven.
pub fn signature() -> (family: AlgorithmFamily<Algorithm>)
    ensures
        family.members() == signature_members(),
{
    let families = vec![rsa(), ec(), ed()];
    proof {
        Algorithm::lemma_member_model();
        lemma_signature_is_joined();
        assert(member_lists(families@) =~= seq![rsa_members(), ec_members(), ed_members()]);
    }
    family_union(families.as_slice())
}

/// No member of the signature family occurs twice in it, and no two members
/// have the same name.
pub proof fn lemma_signature_names()
    ensures
        signature_members().len() == 11,
        forall|i: int, j: int|
            0 <= i < j < 11 ==> #[trigger] signature_members()[i].name
                != #[trigger] signature_members()[j].name,
        forall|i: int| 0 <= i < 11 ==> #[trigger] signature_members()[i].name != "none"@,
        signature_members().no_duplicates(),
{
    lemma_marks();
    let members = signature_members();
    assert forall|i: int| 0 <= i < 11 implies mark(#[trigger] members[i].name).0 >= 5 by {}
    assert forall|i: int, j: int| 0 <= i < j < 11 implies mark(#[trigger] members[i].name) != mark(
        #[trigger] members[j].name,
    ) by {}
}

/// Combining the three families in turn takes in each of them whole.
proof fn lemma_signature_is_joined()
    ensures
        joined(seq![rsa_members(), ec_members(), ed_members()]) == signature_members(),
{
    lemma_signature_names();
    let lists = seq![rsa_members(), ec_members(), ed_members()];
    let none: Seq<AlgorithmView> = Seq::empty();
    assert(lists.drop_last() =~= seq![rsa_members(), ec_members()]);
    assert(lists.drop_last().drop_last() =~= seq![rsa_members()]);
    assert(lists.drop_last().drop_last().drop_last() =~= Seq::<Seq<AlgorithmView>>::empty());
    reveal_with_fuel(joined, 4);
    assert(none + rsa_members() =~= signature_members().take(6));
    assert(rsa_members() + ec_members() =~= signature_members().take(10));
    lemma_disjoint_lists(none, rsa_members());
    assert(none + rsa_members() =~= rsa_members());
    assert(rsa_members().take(6) =~= rsa_members());
    assert(joined(seq![rsa_members()]) == rsa_members());
    lemma_disjoint_lists(rsa_members(), ec_members());
    assert(ec_members().take(4) =~= ec_members());
    assert(joined(seq![rsa_members(), ec_members()]) == rsa_members() + ec_members());
    lemma_disjoint_lists(rsa_members() + ec_members(), ed_members());
    assert(ed_members().take(1) =~= ed_members());
}

/// A family takes in the whole of a list that, put behind its own members,
/// gives a list without repeats.
proof fn lemma_disjoint_lists(members: Seq<AlgorithmView>, more: Seq<AlgorithmView>)
    requires
        (members + more).no_duplicates(),
    ensures
        accepted_len(members.to_set(), more) == more.len(),
{
    let all = members + more;
    assert forall|i: int, j: int| 0 <= i < j < more.len() implies more[i] != more[j] by {
        assert(all[members.len() + i] == more[i]);
        assert(all[members.len() + j] == more[j]);
    }
    assert forall|a: AlgorithmView| !(members.to_set().contains(a) && more.to_set().contains(a)) by {
        if members.contains(a) && more.contains(a) {
            let i = choose|i: int| 0 <= i < members.len() && members[i] == a;
            let j = choose|j: int| 0 <= j < more.len() && more[j] == a;
            assert(all[i] == a);
            assert(all[members.len() + j] == a);
        }
    }
    lemma_accepts_all_iff_disjoint(members.to_set(), more);
}

} // verus!
