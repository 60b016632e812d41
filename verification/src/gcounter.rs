//! The grow-only counter: one monotone total per actor, merged by
//! pointwise maximum.

use vstd::prelude::*;
use crate::actor::Actor;
use crate::actor::Dot;

verus! {

/// The larger of two totals: the join of the lattice the counters live in.
pub open spec fn join(x: u64, y: u64) -> u64 {
    if x >= y {
        x
    } else {
        y
    }
}

/// The total recorded in `s` for the identity `x`: the entry of the
/// matching actor, or zero when none matches.
spec fn count_in<A: Actor>(s: Seq<(A, u64)>, x: A::Id) -> u64
    decreases s.len(),
{
    if s.len() == 0 {
        0
    } else if s.last().0.id() == x {
        s.last().1
    } else {
        count_in(s.drop_last(), x)
    }
}

/// The sum of the stored totals of `s`.
spec fn sum_of<A: Actor>(s: Seq<(A, u64)>) -> int
    decreases s.len(),
{
    if s.len() == 0 {
        0
    } else {
        sum_of(s.drop_last()) + s.last().1
    }
}

/// No two entries belong to the same actor.
spec fn distinct_actors<A: Actor>(s: Seq<(A, u64)>) -> bool {
    forall|i: int, j: int|
        0 <= i < j < s.len() ==> (#[trigger] s[i]).0.id() != (#[trigger] s[j]).0.id()
}

/// Every stored total is positive: actors never seen have no entry.
spec fn positive<A: Actor>(s: Seq<(A, u64)>) -> bool {
    forall|i: int| 0 <= i < s.len() ==> (#[trigger] s[i]).1 > 0
}

/// A convergent, grow-only counter.
///
/// It stores, per actor, the largest operation counter observed from that
/// actor (zero for actors never seen); its value is the sum of the stored
/// totals. Applying a dot takes a pointwise maximum, so delivery of
/// operations may be duplicated and reordered per actor; merging two states
/// takes the pointwise maximum over all actors.
#[derive(Clone, Debug)]
pub struct GCounter<A: Actor> {
    entries: Vec<(A, u64)>,
}

/// Do two counters record the same total for every actor?
///
/// States that agree pointwise are indistinguishable through `issue`,
/// `apply`, `merge` and `value`, whatever shape their histories took.
pub open spec fn same_counts<A: Actor>(c1: GCounter<A>, c2: GCounter<A>) -> bool {
    forall|x: A::Id| c1.count(x) == c2.count(x)
}

/// Does `post` record exactly the totals of `pre` with `d` folded in, that
/// is, the pointwise maximum of `pre` and the dot?
pub open spec fn is_apply_of<A: Actor>(post: GCounter<A>, pre: GCounter<A>, d: Dot<A>) -> bool {
    forall|x: A::Id|
        post.count(x) == (if x == d.actor.id() {
            join(pre.count(x), d.counter)
        } else {
            pre.count(x)
        })
}

/// Does `m` record, for every actor, the larger of the totals of `c1` and
/// `c2`?
pub open spec fn is_merge_of<A: Actor>(m: GCounter<A>, c1: GCounter<A>, c2: GCounter<A>) -> bool {
    forall|x: A::Id| m.count(x) == join(c1.count(x), c2.count(x))
}

impl<A: Actor> GCounter<A> {
    /// The total this counter records for the identity `x`.
    pub closed spec fn count(self, x: A::Id) -> u64 {
        count_in(self.entries@, x)
    }

    /// The sum of all stored totals: the counter's value.
    pub closed spec fn sum(self) -> int {
        sum_of(self.entries@)
    }

    /// Well-formedness: one entry per actor, none of them zero.
    pub closed spec fn wf(self) -> bool {
        distinct_actors(self.entries@) && positive(self.entries@)
    }

    /// Produces the empty counter: no actor seen, value zero.
    pub fn new() -> (r: GCounter<A>)
        ensures
            r.wf(),
            forall|x: A::Id| r.count(x) == 0,
            r.sum() == 0,
    {
        GCounter { entries: Vec::new() }
    }

    /// The index of the entry for `actor`, if one exists.
    fn find_actor(&self, actor: &A) -> (r: Option<usize>)
        ensures
            match r {
                Some(i) => i < self.entries@.len() && self.entries@[i as int].0.id() == actor.id(),
                None => forall|j: int|
                    0 <= j < self.entries@.len() ==> (#[trigger] self.entries@[j]).0.id()
                        != actor.id(),
            },
    {
        let mut i: usize = 0;
        while i < self.entries.len()
            invariant
                i <= self.entries@.len(),
                forall|j: int| 0 <= j < i ==> (#[trigger] self.entries@[j]).0.id() != actor.id(),
            decreases self.entries@.len() - i,
        {
            if self.entries[i].0.actor_eq(actor) {
                return Some(i);
            }
            i += 1;
        }
        None
    }

    /// Constructs, without mutating local state, the dot that advances this
    /// counter by one step on behalf of `actor`.
    ///
    /// The dot carries the stored total plus one; it takes effect only once
    /// it is applied, so issuing twice without applying yields two dots with
    /// the same counter.
    pub fn issue(&self, actor: A) -> (d: Dot<A>)
        requires
            self.wf(),
            self.count(actor.id()) < u64::MAX,
        ensures
            d.actor == actor,
            d.counter == self.count(actor.id()) + 1,
    {
        match self.find_actor(&actor) {
            Some(i) => {
                let c = self.entries[i].1;
                proof {
                    lemma_count_at(self.entries@, i as int);
                }
                Dot { actor, counter: c + 1 }
            },
            None => {
                proof {
                    lemma_count_absent(self.entries@, actor.id());
                }
                Dot { actor, counter: 1 }
            },
        }
    }

    /// Folds one dot into the counter: the actor's stored total becomes the
    /// maximum of its old total and the dot's counter.
    ///
    /// Re-applying the same or an older dot changes nothing, so delivery
    /// may duplicate and reorder dots freely.
    pub fn apply(&mut self, d: Dot<A>)
        requires
            old(self).wf(),
        ensures
            final(self).wf(),
            is_apply_of(*final(self), *old(self), d),
            final(self).sum() - final(self).count(d.actor.id()) == old(self).sum() - old(
                self,
            ).count(d.actor.id()),
    {
        let ghost aid = d.actor.id();
        let Dot { actor, counter } = d;
        match self.find_actor(&actor) {
            Some(i) => {
                proof {
                    lemma_count_at(self.entries@, i as int);
                }
                if counter > self.entries[i].1 {
                    let ghost before = self.entries@;
                    self.entries.set(i, (actor, counter));
                    proof {
                        lemma_count_update(before, i as int, (actor, counter));
                    }
                }
            },
            None => {
                proof {
                    lemma_count_absent(self.entries@, actor.id());
                }
                if counter > 0 {
                    let ghost before = self.entries@;
                    self.entries.push((actor, counter));
                    proof {
                        assert(self.entries@.drop_last() =~= before);
                        assert(forall|x: A::Id|
                            x != self.entries@.last().0.id() ==> count_in(self.entries@, x)
                                == count_in(before, x));
                    }
                }
            },
        }
        proof {
            lemma_sum_localized(*self, *old(self), aid);
        }
    }

    /// Merges another counter's state into this one: for every actor, the
    /// stored total becomes the larger of the two.
    ///
    /// This is the join of the lattice: commutative, associative and
    /// idempotent, so replicas may exchange full states in any order, any
    /// number of times, and still converge.
    pub fn merge(&mut self, other: &GCounter<A>)
        requires
            old(self).wf(),
            other.wf(),
        ensures
            final(self).wf(),
            is_merge_of(*final(self), *old(self), *other),
            old(self).sum() <= final(self).sum(),
            other.sum() <= final(self).sum(),
            final(self).sum() <= old(self).sum() + other.sum(),
    {
        let mut i: usize = 0;
        while i < other.entries.len()
            invariant
                self.wf(),
                other.wf(),
                i <= other.entries@.len(),
                forall|x: A::Id| #[trigger]
                    self.count(x) == join(
                        old(self).count(x),
                        count_in(other.entries@.take(i as int), x),
                    ),
            decreases other.entries@.len() - i,
        {
            let a = other.entries[i].0.dup();
            let c = other.entries[i].1;
            self.apply(Dot { actor: a, counter: c });
            proof {
                let t1 = other.entries@.take(i as int);
                let t2 = other.entries@.take(i + 1 as int);
                assert(t2.drop_last() =~= t1);
                assert(t2.last() == other.entries@[i as int]);
                lemma_count_absent_in_prefix(other.entries@, i as int);
            }
            i += 1;
        }
        proof {
            assert(other.entries@.take(other.entries@.len() as int) =~= other.entries@);
            let e = Seq::<(A, u64)>::empty();
            assert(forall|x: A::Id| count_in(e, x) == 0);
            assert forall|x: A::Id|
                count_in(self.entries@, x) <= count_in(old(self).entries@, x) + count_in(
                    other.entries@,
                    x,
                ) by {
                assert(self.count(x) == join(old(self).count(x), other.count(x)));
            }
            lemma_sum_subadditive(self.entries@, old(self).entries@, other.entries@);
            assert forall|x: A::Id|
                count_in(old(self).entries@, x) <= count_in(self.entries@, x) + count_in(
                    e,
                    x,
                ) by {
                assert(self.count(x) == join(old(self).count(x), other.count(x)));
            }
            lemma_sum_subadditive(old(self).entries@, self.entries@, e);
            assert forall|x: A::Id|
                count_in(other.entries@, x) <= count_in(self.entries@, x) + count_in(e, x) by {
                assert(self.count(x) == join(old(self).count(x), other.count(x)));
            }
            lemma_sum_subadditive(other.entries@, self.entries@, e);
        }
    }

    /// The sum of all stored totals, at a width no stored state can
    /// overflow: at most `usize::MAX` entries of at most `u64::MAX` each.
    pub(crate) fn sum_wide(&self) -> (r: u128)
        ensures
            r == self.sum(),
    {
        let mut total: u128 = 0;
        let mut i: usize = 0;
        while i < self.entries.len()
            invariant
                i <= self.entries@.len(),
                total == sum_of(self.entries@.take(i as int)),
                total <= i * (u64::MAX as int),
            decreases self.entries@.len() - i,
        {
            proof {
                lemma_sum_take_succ(self.entries@, i as int);
                assert(usize::MAX <= u64::MAX);
                assert((i + 1) * (u64::MAX as int) <= 0xffff_ffff_ffff_ffffint * (
                u64::MAX as int));
            }
            total = total + (self.entries[i].1 as u128);
            i += 1;
        }
        proof {
            assert(self.entries@.take(self.entries@.len() as int) =~= self.entries@);
        }
        total
    }

    /// The current value: the sum of all stored totals.
    pub fn value(&self) -> (r: u64)
        requires
            self.sum() <= u64::MAX,
        ensures
            r == self.sum(),
    {
        let mut total: u64 = 0;
        let mut i: usize = 0;
        while i < self.entries.len()
            invariant
                i <= self.entries@.len(),
                self.sum() <= u64::MAX,
                total == sum_of(self.entries@.take(i as int)),
            decreases self.entries@.len() - i,
        {
            proof {
                lemma_sum_take_succ(self.entries@, i as int);
                lemma_sum_take_le(self.entries@, i + 1 as int);
            }
            total = total + self.entries[i].1;
            i += 1;
        }
        proof {
            assert(self.entries@.take(self.entries@.len() as int) =~= self.entries@);
        }
        total
    }
}

/// With distinct actors, the stored total of the actor at index `i` is that
/// entry's total.
proof fn lemma_count_at<A: Actor>(s: Seq<(A, u64)>, i: int)
    requires
        distinct_actors(s),
        0 <= i < s.len(),
    ensures
        count_in(s, s[i].0.id()) == s[i].1,
    decreases s.len(),
{
    if i == s.len() - 1 {
    } else {
        assert(s.drop_last()[i] == s[i]);
        lemma_count_at(s.drop_last(), i);
    }
}

/// An identity that no entry carries has total zero.
proof fn lemma_count_absent<A: Actor>(s: Seq<(A, u64)>, x: A::Id)
    requires
        forall|j: int| 0 <= j < s.len() ==> (#[trigger] s[j]).0.id() != x,
    ensures
        count_in(s, x) == 0,
    decreases s.len(),
{
    if s.len() > 0 {
        lemma_count_absent(s.drop_last(), x);
    }
}

/// The entry at `i` of `s` does not occur among the first `i` entries.
proof fn lemma_count_absent_in_prefix<A: Actor>(s: Seq<(A, u64)>, i: int)
    requires
        distinct_actors(s),
        0 <= i < s.len(),
    ensures
        count_in(s.take(i), s[i].0.id()) == 0,
{
    let t = s.take(i);
    assert(forall|j: int| 0 <= j < t.len() ==> (#[trigger] t[j]).0.id() != s[i].0.id());
    lemma_count_absent(t, s[i].0.id());
}

/// Replacing the entry at `i` with one of the same actor replaces that
/// actor's total and keeps every other total.
proof fn lemma_count_update<A: Actor>(s: Seq<(A, u64)>, i: int, e: (A, u64))
    requires
        distinct_actors(s),
        0 <= i < s.len(),
        e.0.id() == s[i].0.id(),
    ensures
        distinct_actors(s.update(i, e)),
        forall|x: A::Id|
            count_in(s.update(i, e), x) == (if x == e.0.id() {
                e.1
            } else {
                count_in(s, x)
            }),
    decreases s.len(),
{
    let u = s.update(i, e);
    if i == s.len() - 1 {
        assert(u.drop_last() =~= s.drop_last());
        assert(u.last() == e);
        assert forall|x: A::Id|
            count_in(u, x) == (if x == e.0.id() {
                e.1
            } else {
                count_in(s, x)
            }) by {
            if x != e.0.id() {
                assert(count_in(u, x) == count_in(u.drop_last(), x));
                assert(count_in(s, x) == count_in(s.drop_last(), x));
            }
        }
    } else {
        assert(u.drop_last() =~= s.drop_last().update(i, e));
        assert(s.drop_last()[i] == s[i]);
        lemma_count_update(s.drop_last(), i, e);
        assert(u.last() == s.last());
        assert(s.last().0.id() != e.0.id());
        assert forall|x: A::Id|
            count_in(u, x) == (if x == e.0.id() {
                e.1
            } else {
                count_in(s, x)
            }) by {
            if x == s.last().0.id() {
                assert(count_in(u, x) == u.last().1);
                assert(count_in(s, x) == s.last().1);
            } else {
                assert(count_in(u, x) == count_in(u.drop_last(), x));
                assert(count_in(s, x) == count_in(s.drop_last(), x));
            }
        }
    }
}

/// Sums of totals are never negative.
proof fn lemma_sum_nonneg<A: Actor>(s: Seq<(A, u64)>)
    ensures
        sum_of(s) >= 0,
    decreases s.len(),
{
    if s.len() > 0 {
        lemma_sum_nonneg(s.drop_last());
    }
}

/// Entry lists whose totals are bounded pairwise by the totals of two
/// others together have a sum bounded by the two sums together.
///
/// With the second list empty this is monotonicity: pointwise smaller
/// totals make a smaller sum.
proof fn lemma_sum_subadditive<A: Actor>(s: Seq<(A, u64)>, s1: Seq<(A, u64)>, s2: Seq<(A, u64)>)
    requires
        distinct_actors(s),
        positive(s),
        distinct_actors(s1),
        positive(s1),
        distinct_actors(s2),
        positive(s2),
        forall|x: A::Id| count_in(s, x) <= count_in(s1, x) + count_in(s2, x),
    ensures
        sum_of(s) <= sum_of(s1) + sum_of(s2),
    decreases s.len(),
{
    if s.len() == 0 {
        lemma_sum_nonneg(s1);
        lemma_sum_nonneg(s2);
    } else {
        let last = s.last();
        let rest = s.drop_last();
        let k = last.0.id();
        assert(forall|m: int| 0 <= m < rest.len() ==> rest[m] == s[m]);
        assert(count_in(s, k) == last.1);
        lemma_count_absent(rest, k);
        let (r1, v1) = if count_in(s1, k) != 0 {
            lemma_count_witness(s1, k);
            let j = choose|j: int| 0 <= j < s1.len() && (#[trigger] s1[j]).0.id() == k;
            lemma_count_at(s1, j);
            lemma_count_remove(s1, j);
            lemma_sum_remove(s1, j);
            let r = s1.remove(j);
            assert(forall|m: int| 0 <= m < j ==> r[m] == s1[m]);
            assert(forall|m: int| j <= m < r.len() ==> r[m] == s1[m + 1]);
            (r, s1[j].1)
        } else {
            (s1, 0u64)
        };
        let (r2, v2) = if count_in(s2, k) != 0 {
            lemma_count_witness(s2, k);
            let j = choose|j: int| 0 <= j < s2.len() && (#[trigger] s2[j]).0.id() == k;
            lemma_count_at(s2, j);
            lemma_count_remove(s2, j);
            lemma_sum_remove(s2, j);
            let r = s2.remove(j);
            assert(forall|m: int| 0 <= m < j ==> r[m] == s2[m]);
            assert(forall|m: int| j <= m < r.len() ==> r[m] == s2[m + 1]);
            (r, s2[j].1)
        } else {
            (s2, 0u64)
        };
        assert(sum_of(r1) == sum_of(s1) - v1);
        assert(sum_of(r2) == sum_of(s2) - v2);
        assert(last.1 <= v1 + v2);
        assert(forall|x: A::Id| count_in(rest, x) <= count_in(r1, x) + count_in(r2, x));
        lemma_sum_subadditive(rest, r1, r2);
    }
}

/// Removing an entry lowers the sum by exactly that entry's total.
proof fn lemma_sum_remove<A: Actor>(s: Seq<(A, u64)>, j: int)
    requires
        0 <= j < s.len(),
    ensures
        sum_of(s.remove(j)) == sum_of(s) - s[j].1,
    decreases s.len(),
{
    let r = s.remove(j);
    if j == s.len() - 1 {
        assert(r =~= s.drop_last());
    } else {
        assert(r.drop_last() =~= s.drop_last().remove(j));
        assert(r.last() == s.last());
        assert(s.drop_last()[j] == s[j]);
        lemma_sum_remove(s.drop_last(), j);
    }
}

/// Removing an entry zeroes that actor's total and keeps every other.
proof fn lemma_count_remove<A: Actor>(s: Seq<(A, u64)>, j: int)
    requires
        distinct_actors(s),
        0 <= j < s.len(),
    ensures
        distinct_actors(s.remove(j)),
        forall|x: A::Id|
            count_in(s.remove(j), x) == (if x == s[j].0.id() {
                0u64
            } else {
                count_in(s, x)
            }),
    decreases s.len(),
{
    let r = s.remove(j);
    assert(forall|k: int| 0 <= k < j ==> r[k] == s[k]);
    assert(forall|k: int| j <= k < r.len() ==> r[k] == s[k + 1]);
    if j == s.len() - 1 {
        assert(r =~= s.drop_last());
        assert forall|x: A::Id|
            count_in(r, x) == (if x == s[j].0.id() {
                0u64
            } else {
                count_in(s, x)
            }) by {
            if x == s[j].0.id() {
                lemma_count_absent(r, x);
            }
        }
    } else {
        assert(r.drop_last() =~= s.drop_last().remove(j));
        assert(r.last() == s.last());
        assert(s.drop_last()[j] == s[j]);
        lemma_count_remove(s.drop_last(), j);
        assert forall|x: A::Id|
            count_in(r, x) == (if x == s[j].0.id() {
                0u64
            } else {
                count_in(s, x)
            }) by {
            if x == s.last().0.id() {
                assert(count_in(r, x) == r.last().1);
                assert(count_in(s, x) == s.last().1);
            } else {
                assert(count_in(r, x) == count_in(r.drop_last(), x));
                assert(count_in(s, x) == count_in(s.drop_last(), x));
            }
        }
    }
}

/// A nonzero total is witnessed by an entry.
proof fn lemma_count_witness<A: Actor>(s: Seq<(A, u64)>, x: A::Id)
    requires
        count_in(s, x) != 0,
    ensures
        exists|j: int| 0 <= j < s.len() && (#[trigger] s[j]).0.id() == x,
{
    if forall|j: int| 0 <= j < s.len() ==> (#[trigger] s[j]).0.id() != x {
        lemma_count_absent(s, x);
    }
}

/// When every total but one is zero, the sum is that remaining total.
proof fn lemma_sum_single<A: Actor>(s: Seq<(A, u64)>, x: A::Id)
    requires
        distinct_actors(s),
        positive(s),
        forall|y: A::Id| y != x ==> count_in(s, y) == 0,
    ensures
        sum_of(s) == count_in(s, x),
    decreases s.len(),
{
    if s.len() > 0 {
        let rest = s.drop_last();
        assert(forall|k: int| 0 <= k < rest.len() ==> rest[k] == s[k]);
        if s.last().0.id() == x {
            lemma_count_absent(rest, x);
            assert(forall|y: A::Id| y != x ==> count_in(rest, y) == count_in(s, y));
            lemma_sum_single(rest, x);
        } else {
            assert(count_in(s, s.last().0.id()) == s.last().1);
            assert(s.last().1 > 0);
            assert(false);
        }
    }
}

/// The sums of two well-formed entry lists that agree on every total but
/// one differ exactly as those totals differ.
proof fn lemma_sum_by_counts<A: Actor>(s1: Seq<(A, u64)>, s2: Seq<(A, u64)>, a: A::Id)
    requires
        distinct_actors(s1),
        positive(s1),
        distinct_actors(s2),
        positive(s2),
        forall|y: A::Id| y != a ==> count_in(s1, y) == count_in(s2, y),
    ensures
        sum_of(s1) - count_in(s1, a) == sum_of(s2) - count_in(s2, a),
    decreases s1.len(),
{
    if s1.len() == 0 {
        lemma_sum_single(s2, a);
    } else {
        let last = s1.last();
        let rest = s1.drop_last();
        assert(forall|k: int| 0 <= k < rest.len() ==> rest[k] == s1[k]);
        if last.0.id() == a {
            lemma_count_absent(rest, a);
            assert(forall|y: A::Id| y != a ==> count_in(rest, y) == count_in(s1, y));
            lemma_sum_by_counts(rest, s2, a);
        } else {
            let k = last.0.id();
            assert(count_in(s1, k) == last.1);
            assert(last.1 > 0);
            lemma_count_witness(s2, k);
            let j = choose|j: int| 0 <= j < s2.len() && (#[trigger] s2[j]).0.id() == k;
            lemma_count_at(s2, j);
            lemma_count_remove(s2, j);
            lemma_sum_remove(s2, j);
            let s2r = s2.remove(j);
            assert(forall|m: int| 0 <= m < j ==> s2r[m] == s2[m]);
            assert(forall|m: int| j <= m < s2r.len() ==> s2r[m] == s2[m + 1]);
            lemma_count_absent(rest, k);
            assert(forall|y: A::Id| y != a ==> count_in(rest, y) == count_in(s2r, y));
            lemma_sum_by_counts(rest, s2r, a);
        }
    }
}

/// Totals determine the sum locally: two well-formed counters that agree on
/// every actor's total but possibly that of `x` have sums that differ
/// exactly as those two totals differ.
///
/// In particular, folding in a freshly issued dot (one past the stored
/// total) raises the sum by exactly one.
pub proof fn lemma_sum_localized<A: Actor>(c1: GCounter<A>, c2: GCounter<A>, x: A::Id)
    requires
        c1.wf(),
        c2.wf(),
        forall|y: A::Id| y != x ==> c1.count(y) == c2.count(y),
    ensures
        c1.sum() - c1.count(x) == c2.sum() - c2.count(x),
{
    assert forall|y: A::Id| y != x implies count_in(c1.entries@, y) == count_in(
        c2.entries@,
        y,
    ) by {
        assert(c1.count(y) == c2.count(y));
    }
    lemma_sum_by_counts(c1.entries@, c2.entries@, x);
}

/// The sum is a function of the per-actor totals: two well-formed counters
/// that agree on every actor's total have the same sum, whatever shape
/// their histories took.
pub proof fn lemma_same_counts_same_sum<A: Actor>(c1: GCounter<A>, c2: GCounter<A>)
    requires
        c1.wf(),
        c2.wf(),
        same_counts(c1, c2),
    ensures
        c1.sum() == c2.sum(),
{
    if c1.entries@.len() > 0 {
        lemma_sum_localized(c1, c2, c1.entries@[0].0.id());
    } else if c2.entries@.len() > 0 {
        lemma_sum_localized(c1, c2, c2.entries@[0].0.id());
    }
}

/// A well-formed counter that records no total has sum zero.
pub proof fn lemma_zero_counts_zero_sum<A: Actor>(c: GCounter<A>)
    requires
        c.wf(),
        forall|x: A::Id| c.count(x) == 0,
    ensures
        c.sum() == 0,
{
    if c.entries@.len() > 0 {
        lemma_count_at(c.entries@, 0);
        assert(c.count(c.entries@[0].0.id()) == c.entries@[0].1);
        assert(false);
    }
}

/// Merging is commutative: merging `b` into `a` and merging `a` into `b`
/// record the same total for every actor.
pub proof fn lemma_merge_commutative<A: Actor>(
    a: GCounter<A>,
    b: GCounter<A>,
    m1: GCounter<A>,
    m2: GCounter<A>,
)
    requires
        is_merge_of(m1, a, b),
        is_merge_of(m2, b, a),
    ensures
        same_counts(m1, m2),
{
}

/// Merging is associative: folding `c` into the merge of `a` and `b`
/// records the same totals as folding the merge of `b` and `c` into `a`.
pub proof fn lemma_merge_associative<A: Actor>(
    a: GCounter<A>,
    b: GCounter<A>,
    c: GCounter<A>,
    ab: GCounter<A>,
    ab_c: GCounter<A>,
    bc: GCounter<A>,
    a_bc: GCounter<A>,
)
    requires
        is_merge_of(ab, a, b),
        is_merge_of(ab_c, ab, c),
        is_merge_of(bc, b, c),
        is_merge_of(a_bc, a, bc),
    ensures
        same_counts(ab_c, a_bc),
{
}

/// Merging is idempotent: merging a counter with itself changes no total.
pub proof fn lemma_merge_idempotent<A: Actor>(a: GCounter<A>, m: GCounter<A>)
    requires
        is_merge_of(m, a, a),
    ensures
        same_counts(m, a),
{
}

/// Applying a dot twice records the same totals as applying it once.
pub proof fn lemma_apply_idempotent<A: Actor>(
    c: GCounter<A>,
    d: Dot<A>,
    once: GCounter<A>,
    twice: GCounter<A>,
)
    requires
        is_apply_of(once, c, d),
        is_apply_of(twice, once, d),
    ensures
        same_counts(twice, once),
{
}

/// Applying two dots in either order records the same totals.
pub proof fn lemma_apply_commutative<A: Actor>(
    c: GCounter<A>,
    d1: Dot<A>,
    d2: Dot<A>,
    m1: GCounter<A>,
    r1: GCounter<A>,
    m2: GCounter<A>,
    r2: GCounter<A>,
)
    requires
        is_apply_of(m1, c, d1),
        is_apply_of(r1, m1, d2),
        is_apply_of(m2, c, d2),
        is_apply_of(r2, m2, d1),
    ensures
        same_counts(r1, r2),
{
}

/// Each step of summation: the sum of one more entry.
proof fn lemma_sum_take_succ<A: Actor>(s: Seq<(A, u64)>, i: int)
    requires
        0 <= i < s.len(),
    ensures
        sum_of(s.take(i + 1)) == sum_of(s.take(i)) + s[i].1,
{
    assert(s.take(i + 1).drop_last() =~= s.take(i));
    assert(s.take(i + 1).last() == s[i]);
}

/// Partial sums never exceed the full sum.
proof fn lemma_sum_take_le<A: Actor>(s: Seq<(A, u64)>, i: int)
    requires
        0 <= i <= s.len(),
    ensures
        sum_of(s.take(i)) <= sum_of(s),
    decreases s.len() - i,
{
    if i == s.len() {
        assert(s.take(i) =~= s);
    } else {
        lemma_sum_take_succ(s, i);
        lemma_sum_take_le(s, i + 1);
    }
}

} // verus!
