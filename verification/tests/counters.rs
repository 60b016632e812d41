use pncounter::Dir;
use pncounter::Dot;
use pncounter::GCounter;
use pncounter::Op;
use pncounter::PNCounter;

fn actor(name: &str) -> String {
    name.to_string()
}

#[test]
fn test_basic() {
    let mut a = PNCounter::new();
    assert_eq!(a.value(), 0);

    let op1 = a.inc("A".to_string());
    a.apply(op1);
    assert_eq!(a.value(), 1);

    let op2 = a.inc("A".to_string());
    a.apply(op2);
    assert_eq!(a.value(), 2);

    let op3 = a.dec("A".to_string());
    a.apply(op3);
    assert_eq!(a.value(), 1);

    let op4 = a.inc("A".to_string());
    a.apply(op4);
    assert_eq!(a.value(), 2);
}

#[test]
fn negative_value_when_decrements_outnumber() {
    let mut a: PNCounter<String> = PNCounter::new();
    for _ in 0..3 {
        let op = a.dec(actor("A"));
        a.apply(op);
    }
    assert_eq!(a.value(), -3);
}

#[test]
fn two_replicas_merge_both_directions() {
    let mut r1: PNCounter<String> = PNCounter::new();
    let op = r1.inc(actor("A"));
    r1.apply(op);

    let mut r2: PNCounter<String> = PNCounter::new();
    let op = r2.inc(actor("B"));
    r2.apply(op);
    let op = r2.dec(actor("B"));
    r2.apply(op);

    let mut first = r2.clone();
    first.merge(&r1);
    assert_eq!(first.value(), 1);

    let mut second = r1.clone();
    second.merge(&r2);
    assert_eq!(second.value(), 1);
}

#[test]
fn value_counts_increments_minus_decrements() {
    let mut a: PNCounter<String> = PNCounter::new();
    for name in ["A", "B", "A", "C", "B"] {
        let op = a.inc(actor(name));
        a.apply(op);
    }
    for name in ["C", "A"] {
        let op = a.dec(actor(name));
        a.apply(op);
    }
    assert_eq!(a.value(), 5 - 2);
}

#[test]
fn apply_is_idempotent_under_duplicate_delivery() {
    let mut a: PNCounter<String> = PNCounter::new();
    let op = a.inc(actor("A"));
    a.apply(op.clone());
    assert_eq!(a.value(), 1);
    a.apply(op.clone());
    a.apply(op);
    assert_eq!(a.value(), 1);
}

#[test]
fn apply_order_does_not_matter() {
    let mut source: PNCounter<String> = PNCounter::new();
    let mut ops: Vec<Op<String>> = Vec::new();
    for name in ["A", "B", "C"] {
        let op = source.inc(actor(name));
        source.apply(op.clone());
        ops.push(op);
    }
    let op = source.dec(actor("B"));
    source.apply(op.clone());
    ops.push(op);

    let mut forward: PNCounter<String> = PNCounter::new();
    for op in ops.iter() {
        forward.apply(op.clone());
    }
    let mut backward: PNCounter<String> = PNCounter::new();
    for op in ops.iter().rev() {
        backward.apply(op.clone());
    }
    assert_eq!(forward.value(), 3 - 1);
    assert_eq!(backward.value(), 3 - 1);
    assert!(forward == backward);
}

#[test]
fn merge_is_commutative() {
    let mut a: PNCounter<String> = PNCounter::new();
    let op = a.inc(actor("A"));
    a.apply(op);
    let op = a.inc(actor("A"));
    a.apply(op);

    let mut b: PNCounter<String> = PNCounter::new();
    let op = b.dec(actor("B"));
    b.apply(op);

    let mut ab = a.clone();
    ab.merge(&b);
    let mut ba = b.clone();
    ba.merge(&a);
    assert_eq!(ab.value(), ba.value());
    assert_eq!(ab.value(), 1);
    assert!(ab == ba);
}

#[test]
fn merge_is_associative() {
    let mut a: PNCounter<String> = PNCounter::new();
    let op = a.inc(actor("A"));
    a.apply(op);

    let mut b: PNCounter<String> = PNCounter::new();
    let op = b.inc(actor("B"));
    b.apply(op);
    let op = b.inc(actor("B"));
    b.apply(op);

    let mut c: PNCounter<String> = PNCounter::new();
    let op = c.dec(actor("C"));
    c.apply(op);

    let mut left = a.clone();
    left.merge(&b);
    left.merge(&c);

    let mut right_inner = b.clone();
    right_inner.merge(&c);
    let mut right = a.clone();
    right.merge(&right_inner);

    assert_eq!(left.value(), right.value());
    assert_eq!(left.value(), 2);
    assert!(left == right);
}

#[test]
fn merge_is_idempotent() {
    let mut a: PNCounter<String> = PNCounter::new();
    let op = a.inc(actor("A"));
    a.apply(op);
    let op = a.dec(actor("B"));
    a.apply(op);

    let mut m = a.clone();
    m.merge(&a);
    assert_eq!(m.value(), a.value());
    assert!(m == a);

    m.merge(&a);
    assert_eq!(m.value(), 0);
}

#[test]
fn distributions_of_the_same_ops_converge() {
    let mut source: PNCounter<String> = PNCounter::new();
    let mut ops: Vec<Op<String>> = Vec::new();
    for name in ["A", "B", "C", "D"] {
        let op = source.inc(actor(name));
        source.apply(op.clone());
        ops.push(op);
    }
    let op = source.dec(actor("D"));
    source.apply(op.clone());
    ops.push(op);

    // Two replicas, operations split between them, one delivered twice.
    let mut r1: PNCounter<String> = PNCounter::new();
    let mut r2: PNCounter<String> = PNCounter::new();
    for (i, op) in ops.iter().enumerate() {
        if i % 2 == 0 {
            r1.apply(op.clone());
        } else {
            r2.apply(op.clone());
            r2.apply(op.clone());
        }
    }
    let mut merged_two = PNCounter::new();
    merged_two.merge(&r1);
    merged_two.merge(&r2);

    // Three replicas, a different split, delivered in reverse order.
    let mut witnesses: Vec<PNCounter<String>> =
        (0..3).map(|_| PNCounter::new()).collect();
    for (i, op) in ops.iter().enumerate().rev() {
        witnesses[i % 3].apply(op.clone());
    }
    let mut merged_three = PNCounter::new();
    for w in witnesses.iter() {
        merged_three.merge(w);
    }

    assert_eq!(merged_two.value(), 4 - 1);
    assert_eq!(merged_three.value(), 4 - 1);
    assert!(merged_two == merged_three);
}

#[test]
fn issuing_twice_without_applying_reuses_the_counter() {
    let a: PNCounter<String> = PNCounter::new();
    let op1 = a.inc(actor("A"));
    let op2 = a.inc(actor("A"));

    // Both operations carry the same sequence number, so the second is a
    // no-op once the first has been applied.
    let mut b = a;
    b.apply(op1);
    b.apply(op2);
    assert_eq!(b.value(), 1);
}

#[test]
fn comparison_is_by_value_not_by_history() {
    let mut a: PNCounter<String> = PNCounter::new();
    let op = a.inc(actor("A"));
    a.apply(op);

    let mut b: PNCounter<String> = PNCounter::new();
    let op = b.inc(actor("B"));
    b.apply(op);

    // Different histories, equal values.
    assert!(a == b);
    assert!(a <= b);

    let op = b.inc(actor("B"));
    b.apply(op);
    assert!(a != b);
    assert!(a < b);
    assert!(b > a);
}

#[test]
fn gcounter_basic_grow_and_merge() {
    let mut g: GCounter<u64> = GCounter::new();
    assert_eq!(g.value(), 0);

    let d = g.issue(7);
    g.apply(d);
    let d = g.issue(7);
    g.apply(d);
    assert_eq!(g.value(), 2);

    let mut h: GCounter<u64> = GCounter::new();
    let d = h.issue(9);
    h.apply(d);
    assert_eq!(h.value(), 1);

    g.merge(&h);
    assert_eq!(g.value(), 3);
    // Merging the same state again changes nothing.
    g.merge(&h);
    assert_eq!(g.value(), 3);
}

#[test]
fn gcounter_apply_takes_the_maximum() {
    let mut g: GCounter<String> = GCounter::new();
    let newer = {
        let d1 = g.issue(actor("A"));
        g.apply(d1);
        g.issue(actor("A"))
    };
    g.apply(newer.clone());
    assert_eq!(g.value(), 2);
    // An older or duplicate dot is a no-op.
    g.apply(newer);
    assert_eq!(g.value(), 2);
    let stale = {
        let mut fresh: GCounter<String> = GCounter::new();
        fresh.issue(actor("A"))
    };
    g.apply(stale);
    assert_eq!(g.value(), 2);
}

#[test]
fn raw_dots_apply_as_pointwise_maximum() {
    let mut a: PNCounter<u64> = PNCounter::new();
    a.apply(Op { dot: Dot { actor: 1, counter: 5 }, dir: Dir::Pos });
    assert_eq!(a.value(), 5);
    // An older dot from the same actor is absorbed, not added.
    a.apply(Op { dot: Dot { actor: 1, counter: 3 }, dir: Dir::Pos });
    assert_eq!(a.value(), 5);
    a.apply(Op { dot: Dot { actor: 1, counter: 7 }, dir: Dir::Neg });
    assert_eq!(a.value(), -2);
}

#[test]
fn interleavings_across_witness_counts_converge() {
    let prims: [(u64, u64, bool); 8] = [
        (0, 3, true),
        (1, 1, false),
        (2, 4, true),
        (0, 3, true), // duplicate
        (3, 2, false),
        (1, 5, true),
        (2, 2, true), // stale
        (4, 1, false),
    ];
    let ops: Vec<Op<u64>> = prims
        .iter()
        .map(|&(actor, counter, up)| Op {
            dot: Dot { actor, counter },
            dir: if up { Dir::Pos } else { Dir::Neg },
        })
        .collect();

    let mut results: Vec<i64> = Vec::new();
    for width in 2..7u64 {
        let mut witnesses: Vec<PNCounter<u64>> =
            (0..width).map(|_| PNCounter::new()).collect();
        for op in ops.iter() {
            let index = (op.dot.actor % width) as usize;
            witnesses[index].apply(op.clone());
        }
        let mut merged = PNCounter::new();
        for witness in witnesses.iter() {
            merged.merge(witness);
        }
        results.push(merged.value());
    }
    // Largest increments: 3 + 5 + 4; largest decrements: 1 + 2 + 1.
    assert!(results.iter().all(|&v| v == (3 + 5 + 4) - (1 + 2 + 1)));
}
