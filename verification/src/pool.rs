//! Multisets of queued items, and how queue operations change them.
use vstd::multiset::Multiset;
use vstd::prelude::*;

verus! {

/// Everything that a row of queues holds, with multiplicities.
pub open spec fn pooled<T>(queues: Seq<Seq<T>>) -> Multiset<T>
    decreases queues.len(),
{
    if queues.len() == 0 {
        Multiset::empty()
    } else {
        pooled(queues.drop_last()).add(queues.last().to_multiset())
    }
}

/// Appending an item to a sequence adds it to the sequence's multiset.
pub proof fn lemma_push_back<T>(s: Seq<T>, item: T)
    ensures
        s.push(item).to_multiset() == s.to_multiset().insert(item),
{
    broadcast use vstd::seq_lib::group_to_multiset_ensures;

}

/// Taking the front off a sequence takes one occurrence out of the sequence's multiset.
pub proof fn lemma_pop_front<T>(s: Seq<T>)
    requires
        s.len() > 0,
    ensures
        s.to_multiset() == s.subrange(1, s.len() as int).to_multiset().insert(s[0]),
        s.to_multiset().contains(s[0]),
        s.subrange(1, s.len() as int).to_multiset() == s.to_multiset().remove(s[0]),
{
    broadcast use vstd::seq_lib::group_to_multiset_ensures;

    assert(s.remove(0) =~= s.subrange(1, s.len() as int));
    assert(s.to_multiset().remove(s[0]).insert(s[0]) =~= s.to_multiset());
}

/// A sequence is empty exactly when its multiset is.
pub proof fn lemma_empty<T>(s: Seq<T>)
    ensures
        s.to_multiset() == Multiset::<T>::empty() <==> s.len() == 0,
{
    broadcast use vstd::seq_lib::group_to_multiset_ensures;

    assert(s.to_multiset().len() == s.len());
    if s.len() == 0 {
        assert(s.to_multiset() =~= Multiset::empty());
    }
}

/// Replacing one queue of a row exchanges that queue's items and no others.
pub proof fn lemma_pooled_update<T>(queues: Seq<Seq<T>>, i: int, s: Seq<T>)
    requires
        0 <= i < queues.len(),
    ensures
        pooled(queues.update(i, s)).add(queues[i].to_multiset()) == pooled(queues).add(
            s.to_multiset(),
        ),
    decreases queues.len(),
{
    let next = queues.update(i, s);
    if i == queues.len() - 1 {
        assert(next.drop_last() =~= queues.drop_last());
        assert(pooled(next).add(queues[i].to_multiset()) =~= pooled(queues).add(s.to_multiset()));
    } else {
        lemma_pooled_update(queues.drop_last(), i, s);
        assert(next.drop_last() =~= queues.drop_last().update(i, s));
        assert(pooled(next).add(queues[i].to_multiset()) =~= pooled(
            queues.drop_last().update(i, s),
        ).add(queues.drop_last()[i].to_multiset()).add(queues.last().to_multiset()));
        assert(pooled(queues).add(s.to_multiset()) =~= pooled(queues.drop_last()).add(
            s.to_multiset(),
        ).add(queues.last().to_multiset()));
    }
}

/// Appending to one queue of a row adds exactly the appended item.
pub proof fn lemma_pooled_push<T>(queues: Seq<Seq<T>>, i: int, item: T)
    requires
        0 <= i < queues.len(),
    ensures
        pooled(queues.update(i, queues[i].push(item))) == pooled(queues).insert(item),
{
    let s = queues[i].push(item);
    lemma_pooled_update(queues, i, s);
    lemma_push_back(queues[i], item);
    let before = pooled(queues).add(s.to_multiset());
    let after = pooled(queues.update(i, s)).add(queues[i].to_multiset());
    assert forall|x: T| pooled(queues.update(i, s)).count(x) == pooled(queues).insert(item).count(
        x,
    ) by {
        assert(before.count(x) == after.count(x));
    }
    assert(pooled(queues.update(i, s)) =~= pooled(queues).insert(item));
}

/// Taking the front of one queue of a row takes out exactly that item.
pub proof fn lemma_pooled_pop<T>(queues: Seq<Seq<T>>, i: int)
    requires
        0 <= i < queues.len(),
        queues[i].len() > 0,
    ensures
        pooled(queues).contains(queues[i][0]),
        pooled(queues.update(i, queues[i].subrange(1, queues[i].len() as int))) == pooled(
            queues,
        ).remove(queues[i][0]),
{
    let front = queues[i][0];
    let s = queues[i].subrange(1, queues[i].len() as int);
    lemma_pooled_update(queues, i, s);
    lemma_pop_front(queues[i]);
    let before = pooled(queues).add(s.to_multiset());
    let after = pooled(queues.update(i, s)).add(queues[i].to_multiset());
    assert(before.count(front) == after.count(front));
    assert forall|x: T| pooled(queues.update(i, s)).count(x) == pooled(queues).remove(front).count(
        x,
    ) by {
        assert(before.count(x) == after.count(x));
    }
    assert(pooled(queues.update(i, s)) =~= pooled(queues).remove(front));
}

/// A row of queues holds nothing exactly when every queue is empty.
pub proof fn lemma_pooled_empty<T>(queues: Seq<Seq<T>>)
    ensures
        pooled(queues) == Multiset::<T>::empty() <==> (forall|i: int|
            0 <= i < queues.len() ==> (#[trigger] queues[i]).len() == 0),
    decreases queues.len(),
{
    if queues.len() > 0 {
        lemma_pooled_empty(queues.drop_last());
        lemma_empty(queues.last());
        let rest = pooled(queues.drop_last());
        let last = queues.last().to_multiset();
        if forall|i: int| 0 <= i < queues.len() ==> (#[trigger] queues[i]).len() == 0 {
            assert forall|i: int| 0 <= i < queues.drop_last().len() implies (
            #[trigger] queues.drop_last()[i]).len() == 0 by {
                assert(queues[i].len() == 0);
            }
            assert(pooled(queues) =~= Multiset::empty());
        }
        if pooled(queues) == Multiset::<T>::empty() {
            assert forall|x: T| rest.count(x) == 0 && last.count(x) == 0 by {
                assert(pooled(queues).count(x) == rest.count(x) + last.count(x));
            }
            assert(rest =~= Multiset::empty());
            assert(last =~= Multiset::empty());
            assert forall|i: int| 0 <= i < queues.len() implies (#[trigger] queues[i]).len()
                == 0 by {
                if i < queues.len() - 1 {
                    assert(queues.drop_last()[i].len() == 0);
                }
            }
        }
    }
}

} // verus!
