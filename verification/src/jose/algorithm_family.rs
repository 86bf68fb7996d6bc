//! Families: sets of identifiers with bulk operations that stop early.
//!
//! A family keeps its members in a vector without repeats, oldest first.
//! Membership goes by the views of the values, so the member type has to
//! compare and clone as `obeys_member_model` says; `AlgorithmFamily::new`
//! asks for that once, and the family carries it from there.

use std::hash::Hash;

use vstd::laws_eq::obeys_view_eq;
use vstd::prelude::*;
use vstd::seq_lib::seq_to_set_distributes_over_add;

verus! {

/// What a family asks of the type of its members: `==` holds exactly between
/// values with the same view, and a clone has the view of the value it was
/// made from.
pub open spec fn obeys_member_model<T: View + PartialEq + Clone>() -> bool {
    &&& obeys_view_eq::<T>()
    &&& forall|a: T, b: T| #[trigger] cloned::<T>(a, b) ==> a@ == b@
}

/// The views of the values of `s`, in the same order.
pub open spec fn views<T: View>(s: Seq<T>) -> Seq<T::V> {
    s.map_values(|t: T| t@)
}

/// The members of a family that had the members `members` and was asked to
/// add `a`: the same where `a` is one of them, and with `a` at the end where
/// it is new.
pub open spec fn with_member<A>(members: Seq<A>, a: A) -> Seq<A> {
    if members.contains(a) {
        members
    } else {
        members.push(a)
    }
}

/// How many leading elements of `xs` a bulk addition takes into a family
/// whose members are `present`: all those before the first element that is
/// already a member or that repeats an earlier element of `xs`.
pub open spec fn accepted_len<A>(present: Set<A>, xs: Seq<A>) -> nat
    decreases xs.len(),
{
    if xs.len() == 0 || present.contains(xs[0]) {
        0
    } else {
        1 + accepted_len(present.insert(xs[0]), xs.drop_first())
    }
}

/// How many leading elements of `xs` a bulk removal takes out of a family
/// whose members are `present`: all those before the first element that is
/// no member, or that repeats an earlier element of `xs`.
pub open spec fn removed_len<A>(present: Set<A>, xs: Seq<A>) -> nat
    decreases xs.len(),
{
    if xs.len() == 0 || !present.contains(xs[0]) {
        0
    } else {
        1 + removed_len(present.remove(xs[0]), xs.drop_first())
    }
}

/// The elements of `members` that do not occur in `xs`, in their order.
pub open spec fn without<A>(members: Seq<A>, xs: Seq<A>) -> Seq<A> {
    members.filter(|a: A| !xs.contains(a))
}

/// The elements of `members` that occur in `xs`, in their order.
pub open spec fn within<A>(members: Seq<A>, xs: Seq<A>) -> Seq<A> {
    members.filter(|a: A| xs.contains(a))
}

/// A set of values of `T`, compared by their views.
///
/// The members are kept in the order in which they were added; `members`
/// gives that order and the view gives the set.
#[derive(Debug)]
pub struct AlgorithmFamily<T: View + Eq + Hash + Clone> {
    values: Vec<T>,
}

impl<T: View + Eq + Hash + Clone> View for AlgorithmFamily<T> {
    type V = Set<T::V>;

    open spec fn view(&self) -> Set<T::V> {
        self.members().to_set()
    }
}

impl<T: View + Eq + Hash + Clone> AlgorithmFamily<T> {
    /// The members, oldest first.
    pub closed spec fn members(&self) -> Seq<T::V> {
        views(self.values@)
    }

    #[verifier::type_invariant]
    spec fn well_formed(&self) -> bool {
        &&& obeys_member_model::<T>()
        &&& self.members().no_duplicates()
    }

    /// The empty family.
    ///
    /// The member type has to obey the member model. For `Algorithm` that is
    /// `Algorithm::lemma_member_model`; for the integer types it follows
    /// from `vstd::laws_eq::group_laws_eq`.
    pub fn new() -> (family: Self)
        requires
            obeys_member_model::<T>(),
        ensures
            family.members() == Seq::<T::V>::empty(),
            family@ == Set::<T::V>::empty(),
    {
        let family = Self { values: Vec::new() };
        assert(family@ =~= Set::<T::V>::empty());
        family
    }

    /// The number of members.
    pub fn len(&self) -> (n: usize)
        ensures
            n == self.members().len(),
            n == self@.len(),
    {
        proof {
            use_type_invariant(self);
            self.members().unique_seq_to_set();
        }
        self.values.len()
    }

    /// Whether the family has no member.
    pub fn is_empty(&self) -> (empty: bool)
        ensures
            empty == (self.members().len() == 0),
            empty == (self@ == Set::<T::V>::empty()),
    {
        proof {
            if self.members().len() > 0 {
                assert(self@.contains(self.members()[0]));
            } else {
                assert(self@ =~= Set::<T::V>::empty());
            }
        }
        self.values.len() == 0
    }

    /// The members as values, oldest first.
    pub fn as_slice(&self) -> (values: &[T])
        ensures
            views(values@) == self.members(),
            views(values@).no_duplicates(),
    {
        proof {
            use_type_invariant(self);
        }
        self.values.as_slice()
    }

    /// Where `alg` stands among the members, if it is one.
    fn position(&self, alg: &T) -> (found: Option<usize>)
        ensures
            match found {
                Some(i) => i < self.members().len() && self.members()[i as int] == alg@,
                None => !self.members().contains(alg@),
            },
    {
        proof {
            use_type_invariant(self);
        }
        let mut i: usize = 0;
        while i < self.values.len()
            invariant
                i <= self.values.len(),
                obeys_view_eq::<T>(),
                forall|j: int| 0 <= j < i ==> self.members()[j] != alg@,
            decreases self.values.len() - i,
        {
            proof {
                reveal(obeys_view_eq);
            }
            if self.values[i] == *alg {
                return Some(i);
            }
            i += 1;
        }
        None
    }

    /// Whether `alg` is a member.
    pub fn contains(&self, alg: &T) -> (present: bool)
        ensures
            present == self@.contains(alg@),
    {
        self.position(alg).is_some()
    }

    /// Adds `alg` and says whether it was new. A value that is already a
    /// member leaves the family as it was.
    pub fn add(&mut self, alg: T) -> (was_new: bool)
        ensures
            was_new == !old(self)@.contains(alg@),
            final(self).members() == with_member(old(self).members(), alg@),
            final(self)@ == old(self)@.insert(alg@),
    {
        proof {
            use_type_invariant(&*self);
        }
        match self.position(&alg) {
            Some(_) => {
                assert(self@.insert(alg@) =~= self@);
                false
            },
            None => {
                let ghost before = self.members();
                let mut values = Vec::new();
                std::mem::swap(&mut values, &mut self.values);
                values.push(alg);
                proof {
                    assert(views(values@) =~= before.push(alg@));
                    before.lemma_push_to_set_commute(alg@);
                }
                self.values = values;
                true
            },
        }
    }

    /// Removes `alg` and says whether it was a member.
    pub fn remove(&mut self, alg: &T) -> (was_present: bool)
        ensures
            was_present == old(self)@.contains(alg@),
            final(self).members() == old(self).members().remove_value(alg@),
            final(self)@ == old(self)@.remove(alg@),
    {
        proof {
            use_type_invariant(&*self);
        }
        let ghost before = self.members();
        match self.position(alg) {
            Some(i) => {
                let mut values = Vec::new();
                std::mem::swap(&mut values, &mut self.values);
                let _ = values.remove(i);
                proof {
                    before.index_of_first_ensures(alg@);
                    assert(views(values@) =~= before.remove(i as int));
                    lemma_remove_member(before, i as int);
                }
                self.values = values;
                true
            },
            None => {
                proof {
                    before.index_of_first_ensures(alg@);
                    assert(self@.remove(alg@) =~= self@);
                }
                false
            },
        }
    }

    /// Adds the elements of `algs` in order, as long as each one is new, and
    /// says whether all of them were. The first element that is already a
    /// member ends the work: neither it nor any element after it is added.
    pub fn add_all(&mut self, algs: &[T]) -> (all_new: bool)
        ensures
            all_new == (accepted_len(old(self)@, views(algs@)) == algs@.len()),
            final(self).members() == old(self).members() + views(algs@).take(
                accepted_len(old(self)@, views(algs@)) as int,
            ),
            final(self)@ == old(self)@.union(
                views(algs@).take(accepted_len(old(self)@, views(algs@)) as int).to_set(),
            ),
    {
        proof {
            use_type_invariant(&*self);
        }
        let ghost start = self.members();
        let ghost xs = views(algs@);
        let ghost total = accepted_len(self@, xs);
        let mut result = true;
        let mut i: usize = 0;
        proof {
            lemma_accepted_len(self@, xs);
            assert(xs.skip(0) =~= xs);
            assert(start + xs.take(0) =~= start);
        }
        while i < algs.len()
            invariant
                i <= algs.len(),
                xs == views(algs@),
                obeys_member_model::<T>(),
                total <= xs.len(),
                result ==> total == i + accepted_len(self@, xs.skip(i as int)),
                result ==> self.members() == start + xs.take(i as int),
                !result ==> self.members() == start + xs.take(total as int),
                !result ==> total < xs.len(),
            decreases algs.len() - i,
        {
            if result {
                let alg = algs[i].clone();
                assert(cloned::<T>(algs@[i as int], alg));
                assert(xs.skip(i as int)[0] == xs[i as int]);
                assert(xs.skip(i as int).drop_first() =~= xs.skip(i + 1));
                result = self.add(alg);
                proof {
                    if result {
                        assert(xs.take(i + 1) =~= xs.take(i as int).push(xs[i as int]));
                        assert(self.members() =~= start + xs.take(i + 1));
                    } else {
                        assert(total == i);
                    }
                }
            }
            i += 1;
        }
        proof {
            if result {
                assert(xs.skip(i as int).len() == 0);
            }
            seq_to_set_distributes_over_add(start, xs.take(total as int));
        }
        result
    }

    /// Removes the elements of `algs` in order, as long as each one is a
    /// member, and says whether all of them were. The first element that is
    /// no member ends the work: the elements after it stay.
    pub fn remove_all(&mut self, algs: &[T]) -> (all_present: bool)
        ensures
            all_present == (removed_len(old(self)@, views(algs@)) == algs@.len()),
            final(self).members() == without(
                old(self).members(),
                views(algs@).take(removed_len(old(self)@, views(algs@)) as int),
            ),
            final(self)@ == old(self)@.difference(
                views(algs@).take(removed_len(old(self)@, views(algs@)) as int).to_set(),
            ),
    {
        proof {
            use_type_invariant(&*self);
        }
        let ghost start = self.members();
        let ghost xs = views(algs@);
        let ghost total = removed_len(self@, xs);
        let mut result = true;
        let mut i: usize = 0;
        proof {
            lemma_removed_len(self@, xs);
            assert(xs.skip(0) =~= xs);
            lemma_filter_keeps_all(start, |a: T::V| !xs.take(0).contains(a));
        }
        while i < algs.len()
            invariant
                i <= algs.len(),
                xs == views(algs@),
                start.no_duplicates(),
                total <= xs.len(),
                result ==> total == i + removed_len(self@, xs.skip(i as int)),
                result ==> self.members() == without(start, xs.take(i as int)),
                !result ==> self.members() == without(start, xs.take(total as int)),
                !result ==> total < xs.len(),
            decreases algs.len() - i,
        {
            if result {
                assert(xs.skip(i as int)[0] == xs[i as int]);
                assert(xs.skip(i as int).drop_first() =~= xs.skip(i + 1));
                let ghost listed = self.members();
                result = self.remove(&algs[i]);
                proof {
                    if result {
                        lemma_without_next(start, xs, i as int);
                    } else {
                        listed.index_of_first_ensures(xs[i as int]);
                    }
                }
            }
            i += 1;
        }
        proof {
            if result {
                assert(xs.skip(i as int).len() == 0);
            }
            let gone = xs.take(total as int);
            lemma_filter_members(start, |a: T::V| !gone.contains(a));
            assert(self@ =~= start.to_set().difference(gone.to_set()));
        }
        result
    }

    /// Adds the members of `other`, oldest first, as `add_all` adds a list:
    /// the first one that `self` already has ends the work. Two families
    /// without a common member are united, and only they give `true`.
    pub fn combine(&mut self, other: Self) -> (all_new: bool)
        ensures
            all_new == (accepted_len(old(self)@, other.members()) == other.members().len()),
            final(self).members() == old(self).members() + other.members().take(
                accepted_len(old(self)@, other.members()) as int,
            ),
            final(self)@ == old(self)@.union(
                other.members().take(accepted_len(old(self)@, other.members()) as int).to_set(),
            ),
            all_new == old(self)@.disjoint(other@),
            all_new ==> final(self)@ == old(self)@.union(other@),
            all_new ==> final(self)@.len() == old(self)@.len() + other@.len(),
    {
        proof {
            use_type_invariant(&*self);
            use_type_invariant(&other);
            lemma_accepted_len(self@, other.members());
            lemma_accepts_all_iff_disjoint(self@, other.members());
            self.members().unique_seq_to_set();
            other.members().unique_seq_to_set();
        }
        let all_new = self.add_all(other.values.as_slice());
        proof {
            use_type_invariant(&*self);
            self.members().unique_seq_to_set();
            if all_new {
                assert(other.members().take(other.members().len() as int) =~= other.members());
            }
        }
        all_new
    }

    /// The family of those members that occur in `algs`.
    pub fn retained(self, algs: &[T]) -> (kept: Self)
        ensures
            kept.members() == within(self.members(), views(algs@)),
            kept@ == self@.intersect(views(algs@).to_set()),
    {
        proof {
            use_type_invariant(&self);
        }
        let ghost start = self.members();
        let ghost allowed = views(algs@);
        let ghost keep = |a: T::V| allowed.contains(a);
        let ghost done: int = 0;
        let mut values = self.values;
        let mut i: usize = 0;
        proof {
            lemma_filter_keeps_none(start.take(0), keep);
            assert(Seq::<T::V>::empty() + start.skip(0) =~= start);
        }
        while i < values.len()
            invariant
                allowed == views(algs@),
                keep == (|a: T::V| allowed.contains(a)),
                obeys_member_model::<T>(),
                0 <= done <= start.len(),
                i == start.take(done).filter(keep).len(),
                views(values@) == start.take(done).filter(keep) + start.skip(done),
            decreases start.len() - done,
        {
            let ghost kept_so_far = start.take(done).filter(keep);
            proof {
                assert(done < start.len());
                assert(views(values@)[i as int] == start.skip(done)[0]);
                assert(start.take(done + 1) =~= start.take(done).push(start[done]));
                start.take(done).lemma_filter_push(start[done], keep);
            }
            if occurs_in(&values[i], algs) {
                proof {
                    assert(views(values@) =~= start.take(done + 1).filter(keep) + start.skip(
                        done + 1,
                    ));
                }
                i += 1;
            } else {
                let ghost before = views(values@);
                let _ = values.remove(i);
                proof {
                    assert(views(values@) =~= before.remove(i as int));
                    assert(before.remove(i as int) =~= kept_so_far + start.skip(done + 1));
                }
            }
            proof {
                done = done + 1;
            }
        }
        proof {
            assert(views(values@).len() == i + start.skip(done).len());
            assert(start.take(done) =~= start);
            assert(views(values@) =~= start.filter(keep));
            lemma_filter_members(start, keep);
            assert(start.filter(keep).to_set() =~= start.to_set().intersect(allowed.to_set()));
        }
        Self { values }
    }

    /// Takes the family, keeps of it the members that occur in `algs`, and
    /// drops what it kept: no family that the caller still holds changes.
    pub fn retain_all(self, algs: &[T]) {
        let _ = self.retained(algs);
    }
}

impl<T: View + Eq + Hash + Clone> Clone for AlgorithmFamily<T> {
    /// A family of its own with the same members in the same order.
    fn clone(&self) -> (copy: Self)
        ensures
            copy.members() == self.members(),
    {
        proof {
            use_type_invariant(self);
        }
        let values = self.values.clone();
        proof {
            assert forall|i: int| 0 <= i < values@.len() implies values@[i]@ == self.values@[i]@ by {
                assert(cloned::<T>(self.values@[i], values@[i]));
            }
            assert(views(values@) =~= views(self.values@));
        }
        Self { values }
    }
}

/// Whether `alg` occurs in `algs`.
fn occurs_in<T: View + Eq + Clone>(alg: &T, algs: &[T]) -> (found: bool)
    requires
        obeys_view_eq::<T>(),
    ensures
        found == views(algs@).contains(alg@),
{
    let mut i: usize = 0;
    while i < algs.len()
        invariant
            i <= algs.len(),
            obeys_view_eq::<T>(),
            forall|j: int| 0 <= j < i ==> views(algs@)[j] != alg@,
        decreases algs.len() - i,
    {
        proof {
            reveal(obeys_view_eq);
        }
        if algs[i] == *alg {
            assert(views(algs@)[i as int] == alg@);
            return true;
        }
        i += 1;
    }
    false
}

/// Taking the member at `i` out of a list without repeats leaves a list
/// without repeats, whose set lacks exactly that member.
proof fn lemma_remove_member<A>(members: Seq<A>, i: int)
    requires
        members.no_duplicates(),
        0 <= i < members.len(),
    ensures
        members.remove(i).no_duplicates(),
        members.remove(i).to_set() == members.to_set().remove(members[i]),
{
    let rest = members.remove(i);
    assert forall|a: A| rest.to_set().contains(a) <==> members.to_set().remove(members[i]).contains(
        a,
    ) by {
        if rest.contains(a) {
            let j = choose|j: int| 0 <= j < rest.len() && rest[j] == a;
            if j < i {
                assert(members[j] == a);
            } else {
                assert(members[j + 1] == a);
            }
        }
        if members.contains(a) && a != members[i] {
            let j = choose|j: int| 0 <= j < members.len() && members[j] == a;
            if j < i {
                assert(rest[j] == a);
            } else {
                assert(rest[j - 1] == a);
            }
        }
    }
    assert(rest.to_set() =~= members.to_set().remove(members[i]));
}


/// Adding a value twice. After the first addition the value is a member,
/// so the second finds it present and changes nothing. Where the family was
/// empty, the first finds the value new and leaves this one member.
pub proof fn lemma_add_twice<A>(members: Seq<A>, a: A)
    ensures
        with_member(members, a).contains(a),
        with_member(with_member(members, a), a) == with_member(members, a),
        members.len() == 0 ==> !members.contains(a) && with_member(members, a).len() == 1,
{
    if !members.contains(a) {
        assert(members.push(a)[members.len() as int] == a);
    }
}

/// What `accepted_len` counts. Every element before that position is new
/// to the family and differs from the elements before it; the element at
/// that position, if there is one, is a member already or repeats an
/// earlier element.
pub proof fn lemma_accepted_len<A>(present: Set<A>, xs: Seq<A>)
    ensures
        accepted_len(present, xs) <= xs.len(),
        forall|i: int|
            0 <= i < accepted_len(present, xs) ==> !present.contains(#[trigger] xs[i]),
        forall|i: int, j: int|
            0 <= i < j < accepted_len(present, xs) ==> #[trigger] xs[i] != #[trigger] xs[j],
        accepted_len(present, xs) < xs.len() ==> {
            let n = accepted_len(present, xs) as int;
            present.contains(xs[n]) || xs.take(n).contains(xs[n])
        },
    decreases xs.len(),
{
    if xs.len() == 0 || present.contains(xs[0]) {
    } else {
        let rest = xs.drop_first();
        let more = present.insert(xs[0]);
        let n = accepted_len(present, xs) as int;
        lemma_accepted_len(more, rest);
        assert forall|i: int| 0 <= i < n implies !present.contains(#[trigger] xs[i]) by {
            if i > 0 {
                assert(xs[i] == rest[i - 1]);
            }
        }
        assert forall|i: int, j: int| 0 <= i < j < n implies #[trigger] xs[i] != #[trigger] xs[j] by {
            assert(xs[j] == rest[j - 1]);
            if i > 0 {
                assert(xs[i] == rest[i - 1]);
            }
        }
        if n < xs.len() {
            assert(xs[n] == rest[n - 1]);
            if !more.contains(rest[n - 1]) {
                let earlier = rest.take(n - 1);
                let k = choose|k: int| 0 <= k < earlier.len() && earlier[k] == xs[n];
                assert(xs.take(n)[k + 1] == xs[n]);
            } else if !present.contains(xs[n]) {
                assert(xs.take(n)[0] == xs[n]);
            }
        }
    }
}

/// A bulk addition of a list without repeats takes the whole list exactly
/// when none of its elements is a member already.
pub proof fn lemma_accepts_all_iff_disjoint<A>(present: Set<A>, xs: Seq<A>)
    requires
        xs.no_duplicates(),
    ensures
        (accepted_len(present, xs) == xs.len()) == present.disjoint(xs.to_set()),
{
    lemma_accepted_len(present, xs);
    let n = accepted_len(present, xs) as int;
    if n == xs.len() {
        assert forall|a: A| !(present.contains(a) && xs.to_set().contains(a)) by {
            if xs.contains(a) {
                let i = choose|i: int| 0 <= i < xs.len() && xs[i] == a;
                assert(!present.contains(xs[i]));
            }
        }
    } else {
        if xs.take(n).contains(xs[n]) {
            let earlier = xs.take(n);
            let k = choose|k: int| 0 <= k < earlier.len() && earlier[k] == xs[n];
            assert(xs[k] == xs[n]);
        }
        assert(xs.to_set().contains(xs[n]));
    }
}

/// What `removed_len` counts. Every element before that position is a
/// member of the family and differs from the elements before it; the element
/// at that position, if there is one, is no member or repeats an earlier
/// element.
pub proof fn lemma_removed_len<A>(present: Set<A>, xs: Seq<A>)
    ensures
        removed_len(present, xs) <= xs.len(),
        forall|i: int| 0 <= i < removed_len(present, xs) ==> present.contains(#[trigger] xs[i]),
        forall|i: int, j: int|
            0 <= i < j < removed_len(present, xs) ==> #[trigger] xs[i] != #[trigger] xs[j],
        removed_len(present, xs) < xs.len() ==> {
            let n = removed_len(present, xs) as int;
            !present.contains(xs[n]) || xs.take(n).contains(xs[n])
        },
    decreases xs.len(),
{
    if xs.len() == 0 || !present.contains(xs[0]) {
    } else {
        let rest = xs.drop_first();
        let fewer = present.remove(xs[0]);
        let n = removed_len(present, xs) as int;
        lemma_removed_len(fewer, rest);
        assert forall|i: int| 0 <= i < n implies present.contains(#[trigger] xs[i]) by {
            if i > 0 {
                assert(xs[i] == rest[i - 1]);
            }
        }
        assert forall|i: int, j: int| 0 <= i < j < n implies #[trigger] xs[i] != #[trigger] xs[j] by {
            assert(xs[j] == rest[j - 1]);
            if i > 0 {
                assert(xs[i] == rest[i - 1]);
            }
        }
        if n < xs.len() {
            assert(xs[n] == rest[n - 1]);
            if fewer.contains(rest[n - 1]) {
                let earlier = rest.take(n - 1);
                let k = choose|k: int| 0 <= k < earlier.len() && earlier[k] == xs[n];
                assert(xs.take(n)[k + 1] == xs[n]);
            } else if present.contains(xs[n]) {
                assert(xs.take(n)[0] == xs[n]);
            }
        }
    }
}

/// `removed_len` is the only position of which `lemma_removed_len` holds.
pub proof fn lemma_removed_len_is<A>(present: Set<A>, xs: Seq<A>, n: int)
    requires
        0 <= n <= xs.len(),
        forall|i: int| 0 <= i < n ==> present.contains(#[trigger] xs[i]),
        forall|i: int, j: int| 0 <= i < j < n ==> #[trigger] xs[i] != #[trigger] xs[j],
        n < xs.len() ==> !present.contains(xs[n]) || xs.take(n).contains(xs[n]),
    ensures
        removed_len(present, xs) == n,
{
    lemma_removed_len(present, xs);
    let m = removed_len(present, xs) as int;
    if m < n {
        if xs.take(m).contains(xs[m]) {
            let earlier = xs.take(m);
            let k = choose|k: int| 0 <= k < earlier.len() && earlier[k] == xs[m];
            assert(xs[k] == xs[m]);
        }
    } else if n < m {
        if xs.take(n).contains(xs[n]) {
            let earlier = xs.take(n);
            let k = choose|k: int| 0 <= k < earlier.len() && earlier[k] == xs[n];
            assert(xs[k] == xs[n]);
        }
    }
}

/// `accepted_len` is the only position of which `lemma_accepted_len` holds.
pub proof fn lemma_accepted_len_is<A>(present: Set<A>, xs: Seq<A>, n: int)
    requires
        0 <= n <= xs.len(),
        forall|i: int| 0 <= i < n ==> !present.contains(#[trigger] xs[i]),
        forall|i: int, j: int| 0 <= i < j < n ==> #[trigger] xs[i] != #[trigger] xs[j],
        n < xs.len() ==> present.contains(xs[n]) || xs.take(n).contains(xs[n]),
    ensures
        accepted_len(present, xs) == n,
{
    lemma_accepted_len(present, xs);
    let m = accepted_len(present, xs) as int;
    if m < n {
        if xs.take(m).contains(xs[m]) {
            let earlier = xs.take(m);
            let k = choose|k: int| 0 <= k < earlier.len() && earlier[k] == xs[m];
            assert(xs[k] == xs[m]);
        }
    } else if n < m {
        if xs.take(n).contains(xs[n]) {
            let earlier = xs.take(n);
            let k = choose|k: int| 0 <= k < earlier.len() && earlier[k] == xs[n];
            assert(xs[k] == xs[n]);
        }
    }
}


/// A filter that every element passes changes nothing.
pub(crate) proof fn lemma_filter_keeps_all<A>(s: Seq<A>, keep: spec_fn(A) -> bool)
    requires
        forall|i: int| 0 <= i < s.len() ==> keep(#[trigger] s[i]),
    ensures
        s.filter(keep) == s,
    decreases s.len(),
{
    if s.len() == 0 {
        reveal(Seq::filter);
    } else {
        let front = s.drop_last();
        lemma_filter_keeps_all(front, keep);
        front.lemma_filter_push(s.last(), keep);
        assert(front.push(s.last()) =~= s);
    }
}

/// A filter that no element passes leaves nothing.
pub(crate) proof fn lemma_filter_keeps_none<A>(s: Seq<A>, keep: spec_fn(A) -> bool)
    requires
        forall|i: int| 0 <= i < s.len() ==> !keep(#[trigger] s[i]),
    ensures
        s.filter(keep) == Seq::<A>::empty(),
    decreases s.len(),
{
    if s.len() == 0 {
        reveal(Seq::filter);
    } else {
        let front = s.drop_last();
        lemma_filter_keeps_none(front, keep);
        front.lemma_filter_push(s.last(), keep);
        assert(front.push(s.last()) =~= s);
    }
}

/// Filtering twice is filtering by both conditions at once.
proof fn lemma_filter_twice<A>(s: Seq<A>, first: spec_fn(A) -> bool, second: spec_fn(A) -> bool)
    ensures
        s.filter(first).filter(second) == s.filter(|a: A| first(a) && second(a)),
    decreases s.len(),
{
    let both = |a: A| first(a) && second(a);
    if s.len() == 0 {
        reveal(Seq::filter);
    } else {
        let front = s.drop_last();
        lemma_filter_twice(front, first, second);
        front.lemma_filter_push(s.last(), first);
        front.lemma_filter_push(s.last(), both);
        front.filter(first).lemma_filter_push(s.last(), second);
        assert(front.push(s.last()) =~= s);
    }
}

/// What a filter keeps of a list without repeats: a list without repeats
/// that holds the elements that pass.
proof fn lemma_filter_members<A>(s: Seq<A>, keep: spec_fn(A) -> bool)
    requires
        s.no_duplicates(),
    ensures
        s.filter(keep).no_duplicates(),
        forall|a: A| #[trigger] s.filter(keep).contains(a) <==> s.contains(a) && keep(a),
    decreases s.len(),
{
    if s.len() == 0 {
        reveal(Seq::filter);
    } else {
        let front = s.drop_last();
        let last = s.last();
        lemma_filter_members(front, keep);
        front.lemma_filter_push(last, keep);
        assert(front.push(last) =~= s);
        let kept = front.filter(keep);
        assert(!front.contains(last));
        if keep(last) {
            let grown = kept.push(last);
            assert(!kept.contains(last));
            assert forall|i: int, j: int| 0 <= i < j < grown.len() implies grown[i] != grown[j] by {
                if j == kept.len() {
                    assert(kept.contains(kept[i]));
                }
            }
        }
        assert forall|a: A| #[trigger] s.filter(keep).contains(a) <==> s.contains(a) && keep(a) by {
            if s.contains(a) {
                let i = choose|i: int| 0 <= i < s.len() && s[i] == a;
                if i < s.len() - 1 {
                    assert(front[i] == a);
                }
            }
            if front.contains(a) {
                let i = choose|i: int| 0 <= i < front.len() && front[i] == a;
                assert(s[i] == a);
            }
            if keep(last) {
                vstd::seq_lib::lemma_seq_contains_after_push(kept, last, a);
            }
        }
    }
}

/// In a list without repeats, taking a value out is filtering it out.
proof fn lemma_remove_value_is_filter<A>(s: Seq<A>, x: A)
    requires
        s.no_duplicates(),
    ensures
        s.remove_value(x) == s.filter(|a: A| a != x),
{
    let others = |a: A| a != x;
    s.index_of_first_ensures(x);
    match s.index_of_first(x) {
        None => {
            lemma_filter_keeps_all(s, others);
        },
        Some(i) => {
            let before = s.subrange(0, i);
            let at = s.subrange(i, i + 1);
            let after = s.subrange(i + 1, s.len() as int);
            assert(s =~= before + at + after);
            lemma_filter_keeps_all(before, others);
            lemma_filter_keeps_none(at, others);
            lemma_filter_keeps_all(after, others);
            Seq::filter_distributes_over_add(before + at, after, others);
            Seq::filter_distributes_over_add(before, at, others);
            assert(before + Seq::<A>::empty() =~= before);
        },
    }
}

/// Leaving out one more element of `xs` takes that element out of what was
/// left.
proof fn lemma_without_next<A>(members: Seq<A>, xs: Seq<A>, i: int)
    requires
        members.no_duplicates(),
        0 <= i < xs.len(),
    ensures
        without(members, xs.take(i + 1)) == without(members, xs.take(i)).remove_value(xs[i]),
{
    let x = xs[i];
    let sooner = |a: A| !xs.take(i).contains(a);
    let later = |a: A| !xs.take(i + 1).contains(a);
    let others = |a: A| a != x;
    let both = |a: A| sooner(a) && others(a);
    lemma_filter_members(members, sooner);
    lemma_remove_value_is_filter(members.filter(sooner), x);
    lemma_filter_twice(members, sooner, others);
    assert forall|a: A| #[trigger] later(a) == both(a) by {
        assert(xs.take(i + 1) =~= xs.take(i).push(x));
        vstd::seq_lib::lemma_seq_contains_after_push(xs.take(i), x, a);
    }
    assert(later =~= both);
}

} // verus!
