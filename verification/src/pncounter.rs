//! A counter that can grow and shrink: two grow-only counters, one for
//! increments and one for decrements, whose difference is the value.

use vstd::prelude::*;
use crate::actor::Actor;
use crate::actor::Dot;
use crate::gcounter::GCounter;
use crate::gcounter::is_apply_of;
use crate::gcounter::is_merge_of;
use crate::gcounter::same_counts;

verus! {

/// The direction of an operation: whether it raises or lowers the value.
#[derive(Clone, Debug)]
pub enum Dir {
    /// The operation increments the counter.
    Pos,
    /// The operation decrements the counter.
    Neg,
}

/// A self-contained, shippable operation: a dot together with a direction.
///
/// Ship these to other replicas to have them converge on the same value.
#[derive(Clone, Debug)]
pub struct Op<A: Actor> {
    /// The causal identifier of the operation.
    pub dot: Dot<A>,
    /// Whether the operation increments or decrements.
    pub dir: Dir,
}

/// A replicated counter supporting increments and decrements.
///
/// The increments and the decrements live in separate grow-only counters;
/// the value is their difference. Merge merges the two halves pointwise,
/// which keeps it a commutative, associative, idempotent join even under
/// concurrent increments and decrements applied redundantly.
#[derive(Clone, Debug)]
pub struct PNCounter<A: Actor> {
    p: GCounter<A>,
    n: GCounter<A>,
}

/// Do two counters record the same totals for every actor, on both the
/// increment and the decrement side?
///
/// States that agree in this sense are indistinguishable through `inc`,
/// `dec`, `apply`, `merge` and `value`.
pub open spec fn pn_same_counts<A: Actor>(c1: PNCounter<A>, c2: PNCounter<A>) -> bool {
    same_counts(c1.p(), c2.p()) && same_counts(c1.n(), c2.n())
}

/// Does `post` record exactly the state of `pre` with the operation folded
/// into the half its direction selects, the other half untouched?
pub open spec fn pn_is_apply_of<A: Actor>(
    post: PNCounter<A>,
    pre: PNCounter<A>,
    op: Op<A>,
) -> bool {
    match op.dir {
        Dir::Pos => is_apply_of(post.p(), pre.p(), op.dot) && post.n() == pre.n(),
        Dir::Neg => is_apply_of(post.n(), pre.n(), op.dot) && post.p() == pre.p(),
    }
}

/// Does `m` record, half by half, the pointwise maximum of `c1` and `c2`?
pub open spec fn pn_is_merge_of<A: Actor>(
    m: PNCounter<A>,
    c1: PNCounter<A>,
    c2: PNCounter<A>,
) -> bool {
    is_merge_of(m.p(), c1.p(), c2.p()) && is_merge_of(m.n(), c1.n(), c2.n())
}

impl<A: Actor> PNCounter<A> {
    /// The grow-only counter of increments.
    pub closed spec fn p(self) -> GCounter<A> {
        self.p
    }

    /// The grow-only counter of decrements.
    pub closed spec fn n(self) -> GCounter<A> {
        self.n
    }

    /// Well-formedness of both halves.
    pub open spec fn wf(self) -> bool {
        self.p().wf() && self.n().wf()
    }

    /// The counter's value: increments minus decrements, as a mathematical
    /// integer.
    pub open spec fn val(self) -> int {
        self.p().sum() - self.n().sum()
    }

    /// Produces a new, empty counter with value zero.
    pub fn new() -> (r: PNCounter<A>)
        ensures
            r.wf(),
            forall|x: A::Id| r.p().count(x) == 0,
            forall|x: A::Id| r.n().count(x) == 0,
            r.p().sum() == 0,
            r.n().sum() == 0,
            r.val() == 0,
    {
        PNCounter { p: GCounter::new(), n: GCounter::new() }
    }

    /// Constructs, without mutating local state, the increment operation
    /// `actor` would issue next.
    ///
    /// The caller must apply the returned operation for it to take effect
    /// locally, and ship it for remote effect. Issuing twice without
    /// applying in between yields two operations with the same counter, of
    /// which only one will have an effect.
    pub fn inc(&self, actor: A) -> (op: Op<A>)
        requires
            self.wf(),
            self.p().count(actor.id()) < u64::MAX,
        ensures
            op.dir == Dir::Pos,
            op.dot.actor == actor,
            op.dot.counter == self.p().count(actor.id()) + 1,
    {
        Op { dot: self.p.issue(actor), dir: Dir::Pos }
    }

    /// Constructs, without mutating local state, the decrement operation
    /// `actor` would issue next.
    ///
    /// Like `inc`, this only reads local state; the operation takes effect
    /// when applied.
    pub fn dec(&self, actor: A) -> (op: Op<A>)
        requires
            self.wf(),
            self.n().count(actor.id()) < u64::MAX,
        ensures
            op.dir == Dir::Neg,
            op.dot.actor == actor,
            op.dot.counter == self.n().count(actor.id()) + 1,
    {
        Op { dot: self.n.issue(actor), dir: Dir::Neg }
    }

    /// Folds one operation into the counter: the dot goes to the increment
    /// or the decrement half according to the direction tag.
    ///
    /// Idempotent and order-insensitive per actor, by the guarantees of the
    /// underlying grow-only counters.
    pub fn apply(&mut self, op: Op<A>)
        requires
            old(self).wf(),
        ensures
            final(self).wf(),
            pn_is_apply_of(*final(self), *old(self), op),
            op.dir is Pos ==> final(self).val() - old(self).val() == final(self).p().count(
                op.dot.actor.id(),
            ) - old(self).p().count(op.dot.actor.id()),
            op.dir is Neg ==> old(self).val() - final(self).val() == final(self).n().count(
                op.dot.actor.id(),
            ) - old(self).n().count(op.dot.actor.id()),
    {
        let Op { dot, dir } = op;
        match dir {
            Dir::Pos => self.p.apply(dot),
            Dir::Neg => self.n.apply(dot),
        }
    }

    /// Merges another counter's full state into this one, half by half.
    ///
    /// Commutative, associative and idempotent, so replicas may exchange
    /// snapshots in any order, any number of times, and still converge.
    pub fn merge(&mut self, other: &PNCounter<A>)
        requires
            old(self).wf(),
            other.wf(),
        ensures
            final(self).wf(),
            pn_is_merge_of(*final(self), *old(self), *other),
            old(self).p().sum() <= final(self).p().sum() <= old(self).p().sum() + other.p().sum(),
            old(self).n().sum() <= final(self).n().sum() <= old(self).n().sum() + other.n().sum(),
            other.p().sum() <= final(self).p().sum(),
            other.n().sum() <= final(self).n().sum(),
    {
        self.p.merge(&other.p);
        self.n.merge(&other.n);
    }

    /// The current value: all increments minus all decrements, as a signed
    /// integer; it is negative when decrements outnumber increments.
    pub fn value(&self) -> (r: i64)
        requires
            self.p().sum() <= i64::MAX,
            self.n().sum() <= i64::MAX,
        ensures
            r == self.val(),
    {
        let pv = self.p.value();
        let nv = self.n.value();
        (pv as i64) - (nv as i64)
    }
}

impl<A: Actor> PartialEq for PNCounter<A> {
    /// Equality compares the derived values alone: two counters with
    /// different per-actor histories but equal values are equal.
    fn eq(&self, other: &PNCounter<A>) -> (r: bool) {
        let p1 = self.p.sum_wide();
        let n1 = self.n.sum_wide();
        let p2 = other.p.sum_wide();
        let n2 = other.n.sum_wide();
        if p1 >= p2 {
            n1 >= n2 && p1 - p2 == n1 - n2
        } else {
            n2 >= n1 && p2 - p1 == n2 - n1
        }
    }
}

impl<A: Actor> vstd::std_specs::cmp::PartialEqSpecImpl for PNCounter<A> {
    open spec fn obeys_eq_spec() -> bool {
        true
    }

    open spec fn eq_spec(&self, other: &PNCounter<A>) -> bool {
        self.val() == other.val()
    }
}

impl<A: Actor> PartialOrd for PNCounter<A> {
    /// Ordering compares the derived values alone, like equality.
    fn partial_cmp(&self, other: &PNCounter<A>) -> (r: Option<core::cmp::Ordering>) {
        let p1 = self.p.sum_wide();
        let n1 = self.n.sum_wide();
        let p2 = other.p.sum_wide();
        let n2 = other.n.sum_wide();
        let o = if p1 >= p2 {
            let d = p1 - p2;
            if n1 >= n2 && n1 - n2 == d {
                core::cmp::Ordering::Equal
            } else if n1 >= n2 && n1 - n2 > d {
                core::cmp::Ordering::Less
            } else {
                core::cmp::Ordering::Greater
            }
        } else {
            let d = p2 - p1;
            if n2 >= n1 && n2 - n1 == d {
                core::cmp::Ordering::Equal
            } else if n2 >= n1 && n2 - n1 > d {
                core::cmp::Ordering::Greater
            } else {
                core::cmp::Ordering::Less
            }
        };
        Some(o)
    }
}

impl<A: Actor> vstd::std_specs::cmp::PartialOrdSpecImpl for PNCounter<A> {
    open spec fn obeys_partial_cmp_spec() -> bool {
        true
    }

    open spec fn partial_cmp_spec(&self, other: &PNCounter<A>) -> Option<core::cmp::Ordering> {
        if self.val() < other.val() {
            Some(core::cmp::Ordering::Less)
        } else if self.val() == other.val() {
            Some(core::cmp::Ordering::Equal)
        } else {
            Some(core::cmp::Ordering::Greater)
        }
    }
}

/// The value is a function of the per-actor totals: two well-formed
/// counters that agree on every total report the same value, whatever
/// shape their histories took.
pub proof fn lemma_same_counts_same_val<A: Actor>(c1: PNCounter<A>, c2: PNCounter<A>)
    requires
        c1.wf(),
        c2.wf(),
        pn_same_counts(c1, c2),
    ensures
        c1.val() == c2.val(),
{
    crate::gcounter::lemma_same_counts_same_sum(c1.p(), c2.p());
    crate::gcounter::lemma_same_counts_same_sum(c1.n(), c2.n());
}

/// Merging is commutative: merging `b` into `a` and merging `a` into `b`
/// leave states with the same totals, and so the same value.
pub proof fn lemma_merge_commutative<A: Actor>(
    a: PNCounter<A>,
    b: PNCounter<A>,
    m1: PNCounter<A>,
    m2: PNCounter<A>,
)
    requires
        m1.wf(),
        m2.wf(),
        pn_is_merge_of(m1, a, b),
        pn_is_merge_of(m2, b, a),
    ensures
        pn_same_counts(m1, m2),
        m1.val() == m2.val(),
{
    lemma_same_counts_same_val(m1, m2);
}

/// Merging is associative: merging `a` with `b` and then `c` leaves the
/// same totals, and so the same value, as merging `a` with the merge of
/// `b` and `c`.
pub proof fn lemma_merge_associative<A: Actor>(
    a: PNCounter<A>,
    b: PNCounter<A>,
    c: PNCounter<A>,
    ab: PNCounter<A>,
    ab_c: PNCounter<A>,
    bc: PNCounter<A>,
    a_bc: PNCounter<A>,
)
    requires
        ab_c.wf(),
        a_bc.wf(),
        pn_is_merge_of(ab, a, b),
        pn_is_merge_of(ab_c, ab, c),
        pn_is_merge_of(bc, b, c),
        pn_is_merge_of(a_bc, a, bc),
    ensures
        pn_same_counts(ab_c, a_bc),
        ab_c.val() == a_bc.val(),
{
    lemma_same_counts_same_val(ab_c, a_bc);
}

/// Merging is idempotent: merging a counter with itself changes no total
/// and not the value.
pub proof fn lemma_merge_idempotent<A: Actor>(a: PNCounter<A>, m: PNCounter<A>)
    requires
        a.wf(),
        m.wf(),
        pn_is_merge_of(m, a, a),
    ensures
        pn_same_counts(m, a),
        m.val() == a.val(),
{
    lemma_same_counts_same_val(m, a);
}

/// Applying the same operation twice yields the same state as applying it
/// once: the duplicate delivery is a no-op.
pub proof fn lemma_apply_idempotent<A: Actor>(
    c: PNCounter<A>,
    op: Op<A>,
    once: PNCounter<A>,
    twice: PNCounter<A>,
)
    requires
        once.wf(),
        twice.wf(),
        pn_is_apply_of(once, c, op),
        pn_is_apply_of(twice, once, op),
    ensures
        pn_same_counts(twice, once),
        twice.val() == once.val(),
{
    lemma_same_counts_same_val(twice, once);
}

/// Applying two operations in either order yields states with the same
/// totals and the same value, whether the operations come from the same
/// actor or from different ones.
pub proof fn lemma_apply_commutative<A: Actor>(
    c: PNCounter<A>,
    op1: Op<A>,
    op2: Op<A>,
    mid1: PNCounter<A>,
    r1: PNCounter<A>,
    mid2: PNCounter<A>,
    r2: PNCounter<A>,
)
    requires
        r1.wf(),
        r2.wf(),
        pn_is_apply_of(mid1, c, op1),
        pn_is_apply_of(r1, mid1, op2),
        pn_is_apply_of(mid2, c, op2),
        pn_is_apply_of(r2, mid2, op1),
    ensures
        pn_same_counts(r1, r2),
        r1.val() == r2.val(),
{
    lemma_same_counts_same_val(r1, r2);
}

} // verus!
