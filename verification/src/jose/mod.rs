//! JOSE algorithm identifiers, their requirement levels and their families.

use std::hash::Hash;

use vstd::prelude::*;

use crate::jose::algorithm_family::{
    accepted_len, lemma_accepted_len_is, obeys_member_model, views, AlgorithmFamily,
};

pub mod algorithm;
pub mod algorithm_family;
pub mod json;

verus! {

/// How strongly an implementation is asked to support an algorithm, in the
/// vocabulary of RFC 2119.
#[allow(non_camel_case_types)]
#[derive(Debug, Clone, Copy, PartialEq, Eq, Hash, Structural)]
pub enum Requirement {
    REQUIRED,
    RECOMMENDED,
    OPTIONAL,
}

impl Requirement {
    /// The characters of the level's tag, which is its name.
    pub open spec fn tag_text(self) -> Seq<char> {
        match self {
            Requirement::REQUIRED => "REQUIRED"@,
            Requirement::RECOMMENDED => "RECOMMENDED"@,
            Requirement::OPTIONAL => "OPTIONAL"@,
        }
    }

    /// The level's tag, as it is written in JSON.
    pub fn tag(&self) -> (tag: &'static str)
        ensures
            tag@ == self.tag_text(),
    {
        match self {
            Requirement::REQUIRED => "REQUIRED",
            Requirement::RECOMMENDED => "RECOMMENDED",
            Requirement::OPTIONAL => "OPTIONAL",
        }
    }
}

/// The members of the family that starts empty and takes in the families
/// with the members `lists` one after another, each as `combine` takes it.
pub open spec fn joined<A>(lists: Seq<Seq<A>>) -> Seq<A>
    decreases lists.len(),
{
    if lists.len() == 0 {
        Seq::empty()
    } else {
        let sooner = joined(lists.drop_last());
        sooner + lists.last().take(accepted_len(sooner.to_set(), lists.last()) as int)
    }
}

/// The member lists of the families `families`, in the same order.
pub open spec fn member_lists<T: View + Eq + Hash + Clone>(
    families: Seq<AlgorithmFamily<T>>,
) -> Seq<Seq<T::V>> {
    families.map_values(|family: AlgorithmFamily<T>| family.members())
}

/// The family whose members are `members`, in this order. The list is one
/// that was written out by hand: no value occurs twice in it.
pub fn family_of<T: View + Eq + Hash + Clone>(members: &[T]) -> (family: AlgorithmFamily<T>)
    requires
        obeys_member_model::<T>(),
        views(members@).no_duplicates(),
    ensures
        family.members() == views(members@),
{
    let mut family = AlgorithmFamily::new();
    proof {
        lemma_accepted_len_is(family@, views(members@), members@.len() as int);
    }
    let _ = family.add_all(members);
    proof {
        assert(views(members@).take(members@.len() as int) =~= views(members@));
    }
    family
}

/// The family that starts empty and combines with a copy of each of
/// `families` in turn. Where two of them share a member, the later one is
/// taken in only up to that member.
pub fn family_union<T: View + Eq + Hash + Clone>(families: &[AlgorithmFamily<T>]) -> (all:
    AlgorithmFamily<T>)
    requires
        obeys_member_model::<T>(),
    ensures
        all.members() == joined(member_lists(families@)),
{
    let ghost lists = member_lists(families@);
    let mut all = AlgorithmFamily::new();
    let mut i: usize = 0;
    while i < families.len()
        invariant
            i <= families.len(),
            lists == member_lists(families@),
            all.members() == joined(lists.take(i as int)),
        decreases families.len() - i,
    {
        proof {
            assert(lists.take(i + 1).drop_last() =~= lists.take(i as int));
            assert(lists.take(i + 1).last() == families@[i as int].members());
        }
        let _ = all.combine(families[i].clone());
        i += 1;
    }
    proof {
        assert(lists.take(i as int) =~= lists);
    }
    all
}

} // verus!
