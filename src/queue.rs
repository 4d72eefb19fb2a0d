//! The shared work queue: workers take items from its end in batches, so
//! that the lock around it is taken once per batch rather than per item.

use vstd::prelude::*;
use vstd::multiset::Multiset;

verus! {

/// The most items that one fetch takes.
pub const BATCH_SIZE: usize = 100;

/// How many items one fetch takes from a queue of `n` items.
pub open spec fn batch_len(n: nat) -> nat {
    if n < BATCH_SIZE {
        n
    } else {
        BATCH_SIZE as nat
    }
}

/// `s` in reverse order.
pub open spec fn reversed<T>(s: Seq<T>) -> Seq<T> {
    Seq::new(s.len(), |i: int| s[s.len() - 1 - i])
}

/// What one fetch takes from `q`: its last items, last first.
pub open spec fn batch_of<T>(q: Seq<T>) -> Seq<T> {
    reversed(q.skip(q.len() - batch_len(q.len())))
}

/// What one fetch leaves in `q`.
pub open spec fn rest_of<T>(q: Seq<T>) -> Seq<T> {
    q.take(q.len() - batch_len(q.len()))
}

/// Moves up to `BATCH_SIZE` items from the end of `worker_queue` to the end
/// of `local_queue`; the queue's last item comes first.
pub fn fetch_queue<T>(local_queue: &mut Vec<T>, worker_queue: &mut Vec<T>)
    ensures
        final(worker_queue)@ == rest_of(old(worker_queue)@),
        final(local_queue)@ == old(local_queue)@ + batch_of(old(worker_queue)@),
{
    let ghost q = worker_queue@;
    let ghost l = local_queue@;
    let mut i: usize = 0;
    while i < BATCH_SIZE
        invariant
            i <= BATCH_SIZE,
            worker_queue@.len() + i == q.len() || (i > 0 && worker_queue@.len() == 0 && q.len()
                < i),
            worker_queue@ == q.take(worker_queue@.len() as int),
            local_queue@ == l + reversed(q.skip(worker_queue@.len() as int)),
        decreases BATCH_SIZE - i,
    {
        let ghost before = worker_queue@;
        match worker_queue.pop() {
            Some(t) => {
                assert(t == q[before.len() - 1]);
                local_queue.push(t);
                assert(reversed(q.skip(worker_queue@.len() as int)) =~= reversed(
                    q.skip(before.len() as int),
                ).push(t));
                assert(worker_queue@ =~= q.take(worker_queue@.len() as int));
            },
            None => {},
        }
        i = i + 1;
    }
    assert(worker_queue@.len() == q.len() - batch_len(q.len()));
}

/// What the first `rounds` fetches leave in `q`.
pub open spec fn rest_after<T>(q: Seq<T>, rounds: nat) -> Seq<T>
    decreases rounds,
{
    if rounds == 0 {
        q
    } else {
        rest_of(rest_after(q, (rounds - 1) as nat))
    }
}

/// The batches that the first `rounds` fetches take from `q`, one after the other.
pub open spec fn taken_after<T>(q: Seq<T>, rounds: nat) -> Seq<T>
    decreases rounds,
{
    if rounds == 0 {
        Seq::empty()
    } else {
        taken_after(q, (rounds - 1) as nat) + batch_of(rest_after(q, (rounds - 1) as nat))
    }
}

/// Fetches, made by any number of workers in any order, hand out each item
/// of the queue at most once and lose none: after any number of fetches
/// the queue holds a prefix of what it held, and the batches taken so far,
/// whichever worker took each, are exactly the rest of it, last item first.
/// Once the fetches have covered the queue, every item has been handed out
/// exactly once.
pub proof fn lemma_fetch_exclusive<T>(q: Seq<T>, rounds: nat)
    ensures
        rest_after(q, rounds).len() <= q.len(),
        rest_after(q, rounds) == q.take(rest_after(q, rounds).len() as int),
        taken_after(q, rounds) == reversed(q.skip(rest_after(q, rounds).len() as int)),
        rounds * BATCH_SIZE >= q.len() ==> rest_after(q, rounds).len() == 0 && taken_after(
            q,
            rounds,
        ) == reversed(q),
    decreases rounds,
{
    if rounds == 0 {
        assert(q.take(q.len() as int) =~= q);
        assert(reversed(q.skip(q.len() as int)) =~= Seq::<T>::empty());
    } else {
        let r = (rounds - 1) as nat;
        lemma_fetch_exclusive(q, r);
        let left = rest_after(q, r);
        let m = left.len() as int;
        let k = batch_len(left.len()) as int;
        assert(rest_of(left) =~= q.take(m - k));
        assert(left.skip(m - k) =~= q.subrange(m - k, m));
        let lhs = reversed(q.skip(m)) + batch_of(left);
        let rhs = reversed(q.skip(m - k));
        assert(lhs.len() == rhs.len());
        assert forall|j: int| 0 <= j < lhs.len() implies lhs[j] == rhs[j] by {
            if j < q.len() - m {
                assert(lhs[j] == q[q.len() - 1 - j]);
            } else {
                assert(lhs[j] == batch_of(left)[j - (q.len() - m)]);
            }
        }
        assert(lhs =~= rhs);
        if rounds * BATCH_SIZE >= q.len() {
            assert(r * BATCH_SIZE + BATCH_SIZE >= q.len()) by (nonlinear_arith)
                requires
                    rounds * BATCH_SIZE >= q.len(),
                    r == rounds - 1,
            ;
            if r * BATCH_SIZE >= q.len() {
            } else {
                assert(m <= q.len() - r * BATCH_SIZE) by {
                    lemma_rest_shrinks(q, r);
                }
            }
            assert(q.skip(0) =~= q);
        }
    }
}

proof fn lemma_rest_shrinks<T>(q: Seq<T>, rounds: nat)
    ensures
        rest_after(q, rounds).len() == 0 || rest_after(q, rounds).len() + rounds * BATCH_SIZE
            == q.len(),
    decreases rounds,
{
    if rounds > 0 {
        lemma_rest_shrinks(q, (rounds - 1) as nat);
        assert(rounds * BATCH_SIZE == (rounds - 1) * BATCH_SIZE + BATCH_SIZE) by (nonlinear_arith)
            requires
                rounds > 0,
        ;
    }
}

/// What worker `w` has taken from `q` when fetch number `i` is made by
/// worker `owners[i]`.
pub open spec fn taken_by<T>(q: Seq<T>, owners: Seq<nat>, w: nat) -> Seq<T>
    decreases owners.len(),
{
    if owners.len() == 0 {
        Seq::empty()
    } else {
        let k = (owners.len() - 1) as nat;
        taken_by(q, owners.drop_last(), w) + if owners.last() == w {
            batch_of(rest_after(q, k))
        } else {
            Seq::empty()
        }
    }
}

/// Everything that workers `0 .. n` have taken, together.
pub open spec fn taken_by_workers<T>(q: Seq<T>, owners: Seq<nat>, n: nat) -> Multiset<T>
    decreases n,
{
    if n == 0 {
        Multiset::empty()
    } else {
        taken_by_workers(q, owners, (n - 1) as nat).add(
            taken_by(q, owners, (n - 1) as nat).to_multiset(),
        )
    }
}

proof fn lemma_workers_step<T>(q: Seq<T>, owners: Seq<nat>, n: nat)
    requires
        owners.len() > 0,
    ensures
        taken_by_workers(q, owners, n) =~= taken_by_workers(q, owners.drop_last(), n).add(
            if owners.last() < n {
                batch_of(rest_after(q, (owners.len() - 1) as nat)).to_multiset()
            } else {
                Multiset::empty()
            },
        ),
    decreases n,
{
    broadcast use vstd::seq_lib::lemma_multiset_commutative;
    broadcast use vstd::seq_lib::group_to_multiset_ensures;

    if n > 0 {
        lemma_workers_step(q, owners, (n - 1) as nat);
        let w = (n - 1) as nat;
        let b = batch_of(rest_after(q, (owners.len() - 1) as nat));
        let extra = if owners.last() == w { b } else { Seq::empty() };
        assert(taken_by(q, owners, w) == taken_by(q, owners.drop_last(), w) + extra);
        assert(Seq::<T>::empty().to_multiset() =~= Multiset::empty());
    }
}

proof fn lemma_reversed_multiset<T>(q: Seq<T>)
    ensures
        reversed(q).to_multiset() =~= q.to_multiset(),
    decreases q.len(),
{
    broadcast use vstd::seq_lib::lemma_multiset_commutative;
    broadcast use vstd::seq_lib::group_to_multiset_ensures;

    if q.len() > 0 {
        lemma_reversed_multiset(q.drop_last());
        assert(reversed(q) =~= seq![q.last()] + reversed(q.drop_last()));
        assert(seq![q.last()] =~= Seq::<T>::empty().push(q.last()));
        assert(q.drop_last().push(q.last()) =~= q);
        assert(Seq::<T>::empty().to_multiset() =~= Multiset::empty());
    } else {
        assert(reversed(q) =~= q);
    }
}

/// However the fetches are shared out among `n` workers, what the workers
/// have taken, together, is exactly what the fetches took: no item goes to
/// two workers and none is lost. Once the fetches have covered the queue,
/// the workers together hold every item of it exactly once.
pub proof fn lemma_workers_share<T>(q: Seq<T>, owners: Seq<nat>, n: nat)
    requires
        forall|i: int| 0 <= i < owners.len() ==> owners[i] < n,
    ensures
        taken_by_workers(q, owners, n) == taken_after(q, owners.len()).to_multiset(),
        owners.len() * BATCH_SIZE >= q.len() ==> taken_by_workers(q, owners, n) == q.to_multiset(),
    decreases owners.len(),
{
    broadcast use vstd::seq_lib::lemma_multiset_commutative;
    broadcast use vstd::seq_lib::group_to_multiset_ensures;

    if owners.len() == 0 {
        lemma_workers_empty(q, owners, n);
        assert(Seq::<T>::empty().to_multiset() =~= Multiset::empty());
    } else {
        let o = owners.drop_last();
        assert forall|i: int| 0 <= i < o.len() implies o[i] < n by {
            assert(o[i] == owners[i]);
        }
        lemma_workers_share(q, o, n);
        lemma_workers_step(q, owners, n);
        assert(owners.last() < n);
        assert(taken_by_workers(q, owners, n) =~= taken_after(q, owners.len()).to_multiset());
    }
    if owners.len() * BATCH_SIZE >= q.len() {
        lemma_fetch_exclusive(q, owners.len());
        lemma_reversed_multiset(q);
    }
}

proof fn lemma_workers_empty<T>(q: Seq<T>, owners: Seq<nat>, n: nat)
    requires
        owners.len() == 0,
    ensures
        taken_by_workers(q, owners, n) =~= Multiset::empty(),
    decreases n,
{
    broadcast use vstd::seq_lib::group_to_multiset_ensures;

    if n > 0 {
        lemma_workers_empty(q, owners, (n - 1) as nat);
        assert(Seq::<T>::empty().to_multiset() =~= Multiset::empty());
    }
}

} // verus!
