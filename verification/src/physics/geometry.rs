//! Combining many shapes into one, pair by pair.
use vstd::prelude::*;
use std::collections::VecDeque;
use vstd::multiset::Multiset;

verus! {

/// How the items of a list are combined: an item by its position, or the
/// combination of two combinations.
pub enum Merge {
    Leaf(int),
    Node(Box<Merge>, Box<Merge>),
}

/// Combining the first two entries of a queue and putting the result at its
/// back, until one entry is left.
pub open spec fn merge_queue(q: Seq<Merge>) -> Seq<Merge>
    decreases q.len(),
{
    if q.len() <= 1 {
        q
    } else {
        merge_queue(q.subrange(2, q.len() as int).push(Merge::Node(Box::new(q[0]), Box::new(q[1]))))
    }
}

/// The items `0 .. n`, each on its own.
pub open spec fn leaves(n: nat) -> Seq<Merge> {
    Seq::new(n, |i: int| Merge::Leaf(i))
}

/// How a list of `n` items (`n > 0`) ends up combined.
pub open spec fn merge_tree(n: nat) -> Merge {
    merge_queue(leaves(n))[0]
}

/// `v` is what combining `items` as `t` with `f` can give.
pub open spec fn made_by<T, F: Fn(T, T) -> T>(f: F, items: Seq<T>, t: Merge, v: T) -> bool
    decreases t,
{
    match t {
        Merge::Leaf(i) => 0 <= i < items.len() && v == items[i],
        Merge::Node(l, r) => exists|a: T, b: T|
            made_by(f, items, *l, a) && made_by(f, items, *r, b) && #[trigger] call_ensures(f, (a, b), v),
    }
}

proof fn lemma_merge_len(q: Seq<Merge>)
    ensures
        q.len() >= 1 ==> merge_queue(q).len() == 1,
        q.len() == 0 ==> merge_queue(q).len() == 0,
    decreases q.len(),
{
    if q.len() > 1 {
        lemma_merge_len(q.subrange(2, q.len() as int).push(Merge::Node(Box::new(q[0]), Box::new(q[1]))));
    }
}

/// Combines a list of items into one, pairing neighbours round after round:
/// each round combines the first two items of the queue and puts the result
/// at its back, as many times as half the queue's length. `None` for an
/// empty list.
pub fn simplify_geometry<T, F: Fn(T, T) -> T>(list: Vec<T>, reduction: F) -> (r: Option<T>)
    requires
        forall|a: T, b: T| #[trigger] reduction.requires((a, b)),
    ensures
        r is None <==> list@.len() == 0,
        r matches Some(v) ==> made_by(reduction, list@, merge_tree(list@.len()), v),
{
    let ghost items = list@;
    let ghost n = list@.len();
    let mut list = list;
    let mut queue: VecDeque<T> = VecDeque::new();
    let ghost mut tq: Seq<Merge> = Seq::empty();
    while list.len() > 0
        invariant
            items.len() == n,
            queue@.len() + list@.len() == n,
            list@ == items.subrange(queue@.len() as int, n as int),
            tq == leaves(queue@.len() as nat),
            forall|k: int| 0 <= k < queue@.len() ==> #[trigger] made_by(reduction, items, tq[k], queue@[k]),
        decreases list@.len(),
    {
        let ghost before = queue@;
        let x = list.remove(0);
        queue.push_back(x);
        proof {
            tq = tq.push(Merge::Leaf(before.len() as int));
            assert(tq =~= leaves(queue@.len() as nat));
            assert forall|k: int| 0 <= k < queue@.len() implies #[trigger] made_by(reduction, items, tq[k], queue@[k]) by {
                if k < before.len() {
                    assert(made_by(reduction, items, tq[k], before[k]));
                }
            }
            assert(list@ =~= items.subrange(queue@.len() as int, n as int));
        }
    }
    assert(tq =~= leaves(n));
    while queue.len() > 1
        invariant
            forall|a: T, b: T| #[trigger] reduction.requires((a, b)),
            items.len() == n,
            tq.len() == queue@.len(),
            n > 0 ==> queue@.len() > 0,
            n == 0 ==> queue@.len() == 0,
            merge_queue(tq) == merge_queue(leaves(n)),
            forall|k: int| 0 <= k < queue@.len() ==> #[trigger] made_by(reduction, items, tq[k], queue@[k]),
        decreases queue@.len(),
    {
        let half = queue.len() / 2;
        let mut k: usize = 0;
        let ghost start = queue@.len();
        while k < half
            invariant
                forall|a: T, b: T| #[trigger] reduction.requires((a, b)),
                items.len() == n,
                start >= 2,
                half == start / 2,
                k <= half,
                queue@.len() == start - k,
                tq.len() == queue@.len(),
                merge_queue(tq) == merge_queue(leaves(n)),
                forall|j: int| 0 <= j < queue@.len() ==> #[trigger] made_by(reduction, items, tq[j], queue@[j]),
            decreases half - k,
        {
            let ghost q0 = queue@;
            let one = match queue.pop_front() {
                Some(x) => x,
                None => {
                    proof {
                        assert(false);
                    }
                    return None;
                },
            };
            let two = match queue.pop_front() {
                Some(x) => x,
                None => {
                    proof {
                        assert(false);
                    }
                    return None;
                },
            };
            let combined = reduction(one, two);
            queue.push_back(combined);
            proof {
                assert(made_by(reduction, items, tq[0], q0[0]));
                assert(made_by(reduction, items, tq[1], q0[1]));
                let node = Merge::Node(Box::new(tq[0]), Box::new(tq[1]));
                assert(made_by(reduction, items, node, combined));
                let tq2 = tq.subrange(2, tq.len() as int).push(node);
                assert(merge_queue(tq2) == merge_queue(tq));
                assert(queue@ =~= q0.subrange(2, q0.len() as int).push(combined));
                assert forall|j: int| 0 <= j < queue@.len() implies #[trigger] made_by(reduction, items, tq2[j], queue@[j]) by {
                    if j < queue@.len() - 1 {
                        assert(tq2[j] == tq[j + 2]);
                        assert(queue@[j] == q0[j + 2]);
                    }
                }
                tq = tq2;
            }
            k = k + 1;
        }
    }
    proof {
        lemma_merge_len(leaves(n));
        if n > 0 {
            assert(merge_queue(tq) == tq);
        }
    }
    queue.pop_back()
}


/// The positions of the items combined in `t`, each as often as it is used.
pub open spec fn used(t: Merge) -> Multiset<int>
    decreases t,
{
    match t {
        Merge::Leaf(i) => Multiset::singleton(i),
        Merge::Node(l, r) => used(*l).add(used(*r)),
    }
}

/// The positions used by all the combinations of a queue.
pub open spec fn used_all(q: Seq<Merge>) -> Multiset<int>
    decreases q.len(),
{
    if q.len() == 0 {
        Multiset::empty()
    } else {
        used_all(q.drop_last()).add(used(q.last()))
    }
}

proof fn lemma_used_all_front(q: Seq<Merge>)
    requires
        q.len() >= 2,
    ensures
        used_all(q) == used(q[0]).add(used(q[1])).add(used_all(q.subrange(2, q.len() as int))),
    decreases q.len(),
{
    broadcast use vstd::multiset::group_multiset_axioms;
    if q.len() == 2 {
        assert(q.drop_last().drop_last() =~= Seq::<Merge>::empty());
        assert(q.subrange(2, 2) =~= Seq::<Merge>::empty());
        assert(q.drop_last().last() == q[0]);
        assert(used_all(q.drop_last().drop_last()) == Multiset::<int>::empty());
        assert(used_all(q.subrange(2, 2)) == Multiset::<int>::empty());
        assert(used_all(q.drop_last()) == used_all(q.drop_last().drop_last()).add(used(q[0])));
        assert(used_all(q) =~= used(q[0]).add(used(q[1])).add(used_all(q.subrange(2, q.len() as int))));
    } else {
        lemma_used_all_front(q.drop_last());
        assert(q.drop_last().subrange(2, q.len() - 1) =~= q.subrange(2, q.len() as int).drop_last());
        assert(q.subrange(2, q.len() as int).last() == q.last());
        assert(used_all(q) =~= used(q[0]).add(used(q[1])).add(used_all(q.subrange(2, q.len() as int))));
    }
}

proof fn lemma_merge_keeps_used(q: Seq<Merge>)
    ensures
        used_all(merge_queue(q)) == used_all(q),
    decreases q.len(),
{
    broadcast use vstd::multiset::group_multiset_axioms;
    if q.len() > 1 {
        let rest = q.subrange(2, q.len() as int);
        let node = Merge::Node(Box::new(q[0]), Box::new(q[1]));
        let q2 = rest.push(node);
        lemma_merge_keeps_used(q2);
        lemma_used_all_front(q);
        assert(q2.drop_last() =~= rest);
        assert(used_all(q2) =~= used_all(q));
    }
}

/// The positions `0 .. n`.
pub open spec fn positions(n: nat) -> Seq<int> {
    Seq::new(n, |i: int| i)
}

proof fn lemma_leaves_used(n: nat)
    ensures
        used_all(leaves(n)) == positions(n).to_multiset(),
    decreases n,
{
    broadcast use vstd::multiset::group_multiset_axioms;
    broadcast use vstd::seq_lib::group_to_multiset_ensures;
    if n == 0 {
        assert(positions(0) =~= Seq::<int>::empty());
    } else {
        lemma_leaves_used((n - 1) as nat);
        assert(leaves(n).drop_last() =~= leaves((n - 1) as nat));
        assert(positions(n) =~= positions((n - 1) as nat).push(n - 1));
        vstd::seq_lib::to_multiset_build(positions((n - 1) as nat), n - 1);
        assert(used_all(leaves(n)) =~= positions(n).to_multiset());
    }
}

/// Combining a list uses every item exactly once: the positions in the
/// final combination are `0 .. n`, each once.
pub proof fn lemma_every_item_used_once(n: nat)
    requires
        n > 0,
    ensures
        used(merge_tree(n)) == positions(n).to_multiset(),
{
    broadcast use vstd::multiset::group_multiset_axioms;
    lemma_merge_keeps_used(leaves(n));
    lemma_leaves_used(n);
    lemma_merge_len(leaves(n));
    let m = merge_queue(leaves(n));
    assert(m.drop_last() =~= Seq::<Merge>::empty());
    assert(used_all(m.drop_last()) == Multiset::<int>::empty());
    assert(used_all(m) =~= used(m[0]));
    assert(used(merge_tree(n)) =~= positions(n).to_multiset());
}

/// A list of one item gives back that item.
pub proof fn lemma_single_item<T, F: Fn(T, T) -> T>(f: F, items: Seq<T>, v: T)
    requires
        items.len() == 1,
        made_by(f, items, merge_tree(1), v),
    ensures
        v == items[0],
{
    assert(leaves(1) =~= seq![Merge::Leaf(0)]);
}

} // verus!
