//! Replication laws stated over whole histories: what a replica's state
//! summarizes after a run of deliveries, and why every distribution of the
//! same operations converges to one value.

use vstd::prelude::*;
use crate::actor::Actor;
use crate::gcounter::join;
use crate::pncounter::Dir;
use crate::pncounter::Op;
use crate::pncounter::PNCounter;
use crate::pncounter::lemma_same_counts_same_val;
use crate::pncounter::pn_is_apply_of;
use crate::pncounter::pn_is_merge_of;
use crate::pncounter::pn_same_counts;

verus! {

/// How many of the operations increment.
pub open spec fn num_pos<A: Actor>(ops: Seq<Op<A>>) -> int
    decreases ops.len(),
{
    if ops.len() == 0 {
        0
    } else {
        num_pos(ops.drop_last()) + (if ops.last().dir is Pos {
            1int
        } else {
            0int
        })
    }
}

/// How many of the operations decrement.
pub open spec fn num_neg<A: Actor>(ops: Seq<Op<A>>) -> int
    decreases ops.len(),
{
    if ops.len() == 0 {
        0
    } else {
        num_neg(ops.drop_last()) + (if ops.last().dir is Neg {
            1int
        } else {
            0int
        })
    }
}

/// Is `op` the operation that `inc` or `dec` would construct on `c`: a dot
/// one past the total its half stores for the issuing actor?
pub open spec fn issued_by<A: Actor>(op: Op<A>, c: PNCounter<A>) -> bool {
    match op.dir {
        Dir::Pos => op.dot.counter == c.p().count(op.dot.actor.id()) + 1,
        Dir::Neg => op.dot.counter == c.n().count(op.dot.actor.id()) + 1,
    }
}

/// A run of deliveries: each state arises from the one before it by
/// applying the corresponding operation, and every state is well formed.
///
/// Nothing constrains the operations themselves, so a run may deliver
/// duplicated or reordered operations.
pub open spec fn delivery_run<A: Actor>(states: Seq<PNCounter<A>>, ops: Seq<Op<A>>) -> bool {
    &&& states.len() == ops.len() + 1
    &&& forall|i: int| 0 <= i < states.len() ==> (#[trigger] states[i]).wf()
    &&& forall|i: int|
        0 <= i < ops.len() ==> pn_is_apply_of(states[i + 1], states[i], #[trigger] ops[i])
}

/// A run in which, additionally, every operation is issued on the state it
/// is applied to: the take-a-ticket-then-apply protocol, each operation
/// applied exactly once, immediately after its creation.
pub open spec fn honest_run<A: Actor>(states: Seq<PNCounter<A>>, ops: Seq<Op<A>>) -> bool {
    &&& delivery_run(states, ops)
    &&& forall|i: int| 0 <= i < ops.len() ==> issued_by(#[trigger] ops[i], states[i])
}

/// The largest counter among the operations of direction `d` issued by the
/// actor `x`: the total a replica stores for `x` after delivering `ops`.
pub open spec fn max_counter<A: Actor>(ops: Seq<Op<A>>, d: Dir, x: A::Id) -> u64
    decreases ops.len(),
{
    if ops.len() == 0 {
        0
    } else {
        let m = max_counter(ops.drop_last(), d, x);
        if ops.last().dir == d && ops.last().dot.actor.id() == x {
            join(m, ops.last().dot.counter)
        } else {
            m
        }
    }
}

/// Does the state `c` record, for every actor, exactly the largest
/// increment and decrement counters among `ops`?
pub open spec fn summarizes<A: Actor>(c: PNCounter<A>, ops: Seq<Op<A>>) -> bool {
    forall|x: A::Id|
        #![trigger c.p().count(x)]
        #![trigger c.n().count(x)]
        c.p().count(x) == max_counter(ops, Dir::Pos, x) && c.n().count(x) == max_counter(
            ops,
            Dir::Neg,
            x,
        )
}

/// All the delivered operation lists of a set of replicas, in one list.
pub open spec fn flat<A: Actor>(opss: Seq<Seq<Op<A>>>) -> Seq<Op<A>>
    decreases opss.len(),
{
    if opss.len() == 0 {
        Seq::empty()
    } else {
        flat(opss.drop_last()) + opss.last()
    }
}

/// Do two operation lists hold the same operations, order and duplication
/// aside?
pub open spec fn same_elements<A: Actor>(ops1: Seq<Op<A>>, ops2: Seq<Op<A>>) -> bool {
    forall|op: Op<A>|
        #![trigger ops1.contains(op)]
        #![trigger ops2.contains(op)]
        ops1.contains(op) <==> ops2.contains(op)
}

/// A chain of merges: each state arises from the one before it by merging
/// in the corresponding replica, and everything is well formed.
pub open spec fn merge_fold<A: Actor>(
    states: Seq<PNCounter<A>>,
    replicas: Seq<PNCounter<A>>,
) -> bool {
    &&& states.len() == replicas.len() + 1
    &&& forall|i: int| 0 <= i < states.len() ==> (#[trigger] states[i]).wf()
    &&& forall|i: int| 0 <= i < replicas.len() ==> (#[trigger] replicas[i]).wf()
    &&& forall|i: int|
        0 <= i < replicas.len() ==> pn_is_merge_of(states[i + 1], states[i], #[trigger] replicas[i])
}

/// Does the counter start from nothing: no actor seen on either half?
pub open spec fn is_empty_state<A: Actor>(c: PNCounter<A>) -> bool {
    forall|x: A::Id|
        #![trigger c.p().count(x)]
        #![trigger c.n().count(x)]
        c.p().count(x) == 0 && c.n().count(x) == 0
}

/// Value correctness: a replica that starts empty and, following the
/// issue-then-apply protocol, issues and applies `i` increments and `d`
/// decrements — each applied exactly once, from any actors — reports the
/// value `i - d`.
pub proof fn lemma_value_correct<A: Actor>(states: Seq<PNCounter<A>>, ops: Seq<Op<A>>)
    requires
        honest_run(states, ops),
        is_empty_state(states[0]),
    ensures
        states.last().val() == num_pos(ops) - num_neg(ops),
{
    crate::gcounter::lemma_zero_counts_zero_sum(states[0].p());
    crate::gcounter::lemma_zero_counts_zero_sum(states[0].n());
    lemma_honest_run_val(states, ops);
}

/// Each honestly issued and applied operation moves the value by exactly
/// one in its direction.
proof fn lemma_honest_run_val<A: Actor>(states: Seq<PNCounter<A>>, ops: Seq<Op<A>>)
    requires
        honest_run(states, ops),
    ensures
        states.last().val() == states[0].val() + num_pos(ops) - num_neg(ops),
    decreases ops.len(),
{
    if ops.len() == 0 {
        assert(states.last() == states[0]);
    } else {
        let k = ops.len() - 1;
        let sub_states = states.drop_last();
        let sub_ops = ops.drop_last();
        assert(forall|i: int| 0 <= i < sub_states.len() ==> sub_states[i] == states[i]);
        assert(forall|i: int| 0 <= i < sub_ops.len() ==> sub_ops[i] == ops[i]);
        assert(honest_run(sub_states, sub_ops));
        lemma_honest_run_val(sub_states, sub_ops);
        let pre = states[k];
        let post = states[k + 1];
        let op = ops[k];
        assert(pn_is_apply_of(post, pre, op));
        assert(issued_by(op, pre));
        match op.dir {
            Dir::Pos => {
                let x = op.dot.actor.id();
                assert(post.p().count(x) == join(pre.p().count(x), op.dot.counter));
                assert(post.p().count(x) == pre.p().count(x) + 1);
                crate::gcounter::lemma_sum_localized(post.p(), pre.p(), x);
                assert(post.val() == pre.val() + 1);
            },
            Dir::Neg => {
                let x = op.dot.actor.id();
                assert(post.n().count(x) == join(pre.n().count(x), op.dot.counter));
                assert(post.n().count(x) == pre.n().count(x) + 1);
                crate::gcounter::lemma_sum_localized(post.n(), pre.n(), x);
                assert(post.val() == pre.val() - 1);
            },
        }
        assert(sub_states.last() == states[k]);
    }
}

/// After a run of deliveries from the empty state, a replica stores, for
/// every actor, exactly the largest counter delivered in each direction —
/// however duplicated or reordered the deliveries were.
pub proof fn lemma_replica_summarizes<A: Actor>(states: Seq<PNCounter<A>>, ops: Seq<Op<A>>)
    requires
        delivery_run(states, ops),
        is_empty_state(states[0]),
    ensures
        summarizes(states.last(), ops),
    decreases ops.len(),
{
    if ops.len() == 0 {
        assert(states.last() == states[0]);
    } else {
        let k = ops.len() - 1;
        let sub_states = states.drop_last();
        let sub_ops = ops.drop_last();
        assert(forall|i: int| 0 <= i < sub_states.len() ==> sub_states[i] == states[i]);
        assert(forall|i: int| 0 <= i < sub_ops.len() ==> sub_ops[i] == ops[i]);
        assert(delivery_run(sub_states, sub_ops));
        lemma_replica_summarizes(sub_states, sub_ops);
        let pre = states[k];
        let post = states[k + 1];
        let op = ops[k];
        assert(sub_states.last() == pre);
        assert(pn_is_apply_of(post, pre, op));
        assert forall|x: A::Id|
            post.p().count(x) == max_counter(ops, Dir::Pos, x) && post.n().count(x) == max_counter(
                ops,
                Dir::Neg,
                x,
            ) by {
            assert(pre.p().count(x) == max_counter(sub_ops, Dir::Pos, x));
            assert(pre.n().count(x) == max_counter(sub_ops, Dir::Neg, x));
        }
    }
}

/// Concatenating delivery lists joins their summaries pointwise.
proof fn lemma_max_counter_concat<A: Actor>(s1: Seq<Op<A>>, s2: Seq<Op<A>>, d: Dir, x: A::Id)
    ensures
        max_counter(s1 + s2, d, x) == join(max_counter(s1, d, x), max_counter(s2, d, x)),
    decreases s2.len(),
{
    if s2.len() == 0 {
        assert(s1 + s2 =~= s1);
    } else {
        assert((s1 + s2).drop_last() =~= s1 + s2.drop_last());
        assert((s1 + s2).last() == s2.last());
        lemma_max_counter_concat(s1, s2.drop_last(), d, x);
    }
}

/// Merging every replica into one accumulator summarizes all their
/// deliveries together: the merged state stores, per actor, the largest
/// counter any replica saw in each direction.
pub proof fn lemma_merge_fold_summarizes<A: Actor>(
    states: Seq<PNCounter<A>>,
    replicas: Seq<PNCounter<A>>,
    opss: Seq<Seq<Op<A>>>,
)
    requires
        merge_fold(states, replicas),
        is_empty_state(states[0]),
        replicas.len() == opss.len(),
        forall|i: int| 0 <= i < replicas.len() ==> summarizes(#[trigger] replicas[i], opss[i]),
    ensures
        summarizes(states.last(), flat(opss)),
    decreases opss.len(),
{
    if opss.len() == 0 {
        assert(states.last() == states[0]);
        assert(flat(opss) =~= Seq::<Op<A>>::empty());
    } else {
        let k = opss.len() - 1;
        let sub_states = states.drop_last();
        let sub_replicas = replicas.drop_last();
        let sub_opss = opss.drop_last();
        assert(forall|i: int| 0 <= i < sub_states.len() ==> sub_states[i] == states[i]);
        assert(forall|i: int| 0 <= i < sub_replicas.len() ==> sub_replicas[i] == replicas[i]);
        assert(forall|i: int| 0 <= i < sub_opss.len() ==> sub_opss[i] == opss[i]);
        assert(merge_fold(sub_states, sub_replicas));
        lemma_merge_fold_summarizes(sub_states, sub_replicas, sub_opss);
        let pre = states[k];
        let post = states[k + 1];
        assert(sub_states.last() == pre);
        assert(pn_is_merge_of(post, pre, replicas[k]));
        assert forall|x: A::Id|
            post.p().count(x) == max_counter(flat(opss), Dir::Pos, x) && post.n().count(x)
                == max_counter(flat(opss), Dir::Neg, x) by {
            assert(pre.p().count(x) == max_counter(flat(sub_opss), Dir::Pos, x));
            assert(pre.n().count(x) == max_counter(flat(sub_opss), Dir::Neg, x));
            assert(replicas[k].p().count(x) == max_counter(opss[k], Dir::Pos, x));
            assert(replicas[k].n().count(x) == max_counter(opss[k], Dir::Neg, x));
            lemma_max_counter_concat(flat(sub_opss), opss[k], Dir::Pos, x);
            lemma_max_counter_concat(flat(sub_opss), opss[k], Dir::Neg, x);
            assert(flat(opss) == flat(sub_opss) + opss[k]);
        }
    }
}

/// Every counter an operation carries bounds the summary of its list.
proof fn lemma_max_counter_upper<A: Actor>(ops: Seq<Op<A>>, d: Dir, x: A::Id, i: int)
    requires
        0 <= i < ops.len(),
        ops[i].dir == d,
        ops[i].dot.actor.id() == x,
    ensures
        ops[i].dot.counter <= max_counter(ops, d, x),
    decreases ops.len(),
{
    if i < ops.len() - 1 {
        assert(ops.drop_last()[i] == ops[i]);
        lemma_max_counter_upper(ops.drop_last(), d, x, i);
    }
}

/// A nonzero summary is witnessed by an operation carrying it.
proof fn lemma_max_counter_witness<A: Actor>(ops: Seq<Op<A>>, d: Dir, x: A::Id)
    requires
        max_counter(ops, d, x) != 0,
    ensures
        exists|i: int|
            0 <= i < ops.len() && (#[trigger] ops[i]).dir == d && ops[i].dot.actor.id() == x
                && ops[i].dot.counter == max_counter(ops, d, x),
    decreases ops.len(),
{
    let m = max_counter(ops, d, x);
    let k = ops.len() - 1;
    if ops.last().dir == d && ops.last().dot.actor.id() == x && ops.last().dot.counter == m {
        assert(ops[k].dir == d && ops[k].dot.actor.id() == x && ops[k].dot.counter == m);
    } else {
        assert(max_counter(ops.drop_last(), d, x) == m);
        lemma_max_counter_witness(ops.drop_last(), d, x);
        let i = choose|i: int|
            0 <= i < ops.drop_last().len() && (#[trigger] ops.drop_last()[i]).dir == d
                && ops.drop_last()[i].dot.actor.id() == x && ops.drop_last()[i].dot.counter == m;
        assert(ops[i].dir == d && ops[i].dot.actor.id() == x && ops[i].dot.counter == m);
    }
}

/// Lists holding the same operations have the same summary.
proof fn lemma_max_counter_same_elements<A: Actor>(
    ops1: Seq<Op<A>>,
    ops2: Seq<Op<A>>,
    d: Dir,
    x: A::Id,
)
    requires
        same_elements(ops1, ops2),
    ensures
        max_counter(ops1, d, x) == max_counter(ops2, d, x),
{
    let m1 = max_counter(ops1, d, x);
    let m2 = max_counter(ops2, d, x);
    if m1 != 0 {
        lemma_max_counter_witness(ops1, d, x);
        let i = choose|i: int|
            0 <= i < ops1.len() && (#[trigger] ops1[i]).dir == d && ops1[i].dot.actor.id() == x
                && ops1[i].dot.counter == m1;
        assert(ops1.contains(ops1[i]));
        assert(ops2.contains(ops1[i]));
        let j = choose|j: int| 0 <= j < ops2.len() && ops2[j] == ops1[i];
        lemma_max_counter_upper(ops2, d, x, j);
        assert(m1 <= m2);
    }
    if m2 != 0 {
        lemma_max_counter_witness(ops2, d, x);
        let i = choose|i: int|
            0 <= i < ops2.len() && (#[trigger] ops2[i]).dir == d && ops2[i].dot.actor.id() == x
                && ops2[i].dot.counter == m2;
        assert(ops2.contains(ops2[i]));
        assert(ops1.contains(ops2[i]));
        let j = choose|j: int| 0 <= j < ops1.len() && ops1[j] == ops2[i];
        lemma_max_counter_upper(ops1, d, x, j);
        assert(m2 <= m1);
    }
}

/// Convergence under arbitrary partitioning: two states that summarize
/// deliveries of the same operations — however those operations were
/// distributed among replicas, duplicated or reordered on the way — store
/// the same totals and report the same value.
///
/// Together with `lemma_replica_summarizes` and
/// `lemma_merge_fold_summarizes`, which produce such summaries for any
/// replica run from empty and for any merge of replicas, this says that
/// merging all replicas yields one unique final value, whatever the
/// distribution.
pub proof fn lemma_convergence<A: Actor>(
    c1: PNCounter<A>,
    ops1: Seq<Op<A>>,
    c2: PNCounter<A>,
    ops2: Seq<Op<A>>,
)
    requires
        c1.wf(),
        c2.wf(),
        summarizes(c1, ops1),
        summarizes(c2, ops2),
        same_elements(ops1, ops2),
    ensures
        pn_same_counts(c1, c2),
        c1.val() == c2.val(),
{
    assert forall|x: A::Id| c1.p().count(x) == c2.p().count(x) by {
        lemma_max_counter_same_elements(ops1, ops2, Dir::Pos, x);
    }
    assert forall|x: A::Id| c1.n().count(x) == c2.n().count(x) by {
        lemma_max_counter_same_elements(ops1, ops2, Dir::Neg, x);
    }
    lemma_same_counts_same_val(c1, c2);
}

} // verus!
