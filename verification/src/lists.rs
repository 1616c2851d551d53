//! Lists that hold nothing twice.

use vstd::prelude::*;

verus! {

/// The list with more put behind it, but for what it holds already.
pub open spec fn with_new<A>(list: Seq<A>, more: Seq<A>) -> Seq<A>
    decreases more.len(),
{
    if more.len() == 0 {
        list
    } else {
        let before = with_new(list, more.drop_last());
        if before.contains(more.last()) {
            before
        } else {
            before.push(more.last())
        }
    }
}

/// What a list with one more item holds.
pub proof fn lemma_contains_push<A>(list: Seq<A>, last: A, x: A)
    ensures
        list.push(last).contains(x) <==> list.contains(x) || x == last,
{
    let longer = list.push(last);
    if longer.contains(x) {
        let k = choose|k: int| 0 <= k < longer.len() && longer[k] == x;
        if k < list.len() {
            assert(list[k] == x);
        }
    }
    if list.contains(x) {
        let k = choose|k: int| 0 <= k < list.len() && list[k] == x;
        assert(longer[k] == x);
    }
    assert(longer[list.len() as int] == last);
}

/// What two lists one behind the other hold.
pub proof fn lemma_contains_add<A>(a: Seq<A>, b: Seq<A>, x: A)
    ensures
        (a + b).contains(x) <==> a.contains(x) || b.contains(x),
{
    if (a + b).contains(x) {
        let k = choose|k: int| 0 <= k < (a + b).len() && (a + b)[k] == x;
        if k < a.len() {
            assert(a[k] == x);
        } else {
            assert(b[k - a.len()] == x);
        }
    }
    if a.contains(x) {
        let k = choose|k: int| 0 <= k < a.len() && a[k] == x;
        assert((a + b)[k] == x);
    }
    if b.contains(x) {
        let k = choose|k: int| 0 <= k < b.len() && b[k] == x;
        assert((a + b)[k + a.len()] == x);
    }
}

/// The list holds what it held and what was put behind it, and nothing twice.
pub proof fn lemma_with_new<A>(list: Seq<A>, more: Seq<A>)
    ensures
        forall|x: A| #[trigger]
            with_new(list, more).contains(x) <==> list.contains(x) || more.contains(x),
        list.no_duplicates() ==> with_new(list, more).no_duplicates(),
    decreases more.len(),
{
    if more.len() > 0 {
        let front = more.drop_last();
        let before = with_new(list, front);
        lemma_with_new(list, front);
        assert forall|x: A| #[trigger]
            with_new(list, more).contains(x) <==> list.contains(x) || more.contains(x) by {
            assert(more =~= front.push(more.last()));
            lemma_contains_push(front, more.last(), x);
            lemma_contains_push(before, more.last(), x);
            assert(before.contains(x) <==> list.contains(x) || front.contains(x));
        }
        if list.no_duplicates() && !before.contains(more.last()) {
            let longer = before.push(more.last());
            assert forall|i: int, j: int|
                0 <= i < longer.len() && 0 <= j < longer.len() && i != j implies longer[i]
                != longer[j] by {
                if i == before.len() {
                    assert(before.contains(before[j]));
                } else if j == before.len() {
                    assert(before.contains(before[i]));
                }
            }
        }
    }
}

/// Putting one list and then another behind a list is putting both behind it at once.
pub proof fn lemma_with_new_twice<A>(list: Seq<A>, a: Seq<A>, b: Seq<A>)
    ensures
        with_new(with_new(list, a), b) == with_new(list, a + b),
    decreases b.len(),
{
    if b.len() == 0 {
        assert(a + b =~= a);
    } else {
        assert((a + b).drop_last() =~= a + b.drop_last());
        lemma_with_new_twice(list, a, b.drop_last());
    }
}

/// What the list holds already adds nothing.
pub proof fn lemma_nothing_new<A>(list: Seq<A>, more: Seq<A>)
    requires
        forall|i: int| 0 <= i < more.len() ==> list.contains(#[trigger] more[i]),
    ensures
        with_new(list, more) == list,
    decreases more.len(),
{
    if more.len() > 0 {
        let front = more.drop_last();
        assert forall|i: int| 0 <= i < front.len() implies list.contains(#[trigger] front[i]) by {
            assert(front[i] == more[i]);
        }
        lemma_nothing_new(list, front);
        assert(list.contains(more[more.len() - 1]));
    }
}

/// What a list says twice adds no more than what it says once.
pub proof fn lemma_repeats_add_nothing<A>(list: Seq<A>, more: Seq<A>)
    ensures
        with_new(list, with_new(Seq::empty(), more)) == with_new(list, more),
    decreases more.len(),
{
    let empty = Seq::<A>::empty();
    if more.len() > 0 {
        let front = more.drop_last();
        let last = more.last();
        let once = with_new(empty, front);
        lemma_repeats_add_nothing(list, front);
        lemma_with_new(empty, front);
        lemma_with_new(list, front);
        if once.contains(last) {
            assert(front.contains(last));
            assert(with_new(list, front).contains(last));
        } else {
            assert(once.push(last).drop_last() =~= once);
        }
    }
}

/// A list keeps all that it held, in its place. Behind it stand the new items in the order in
/// which each of them first came, whose positions the result gives: those that the list did not
/// hold, and no others.
pub proof fn new_items_come_in_their_order<A>(list: Seq<A>, more: Seq<A>) -> (firsts: Seq<int>)
    ensures
        with_new(list, more).len() == list.len() + firsts.len(),
        with_new(list, more).take(list.len() as int) == list,
        forall|k: int, l: int| 0 <= k < l < firsts.len() ==> firsts[k] < firsts[l],
        forall|k: int|
            0 <= k < firsts.len() ==> 0 <= #[trigger] firsts[k] < more.len() && with_new(
                list,
                more,
            )[list.len() + k] == more[firsts[k]],
        forall|i: int|
            0 <= i < more.len() ==> (firsts.contains(i) <==> !list.contains(#[trigger] more[i])
                && !more.take(i).contains(more[i])),
    decreases more.len(),
{
    if more.len() == 0 {
        assert(list.take(list.len() as int) =~= list);
        Seq::empty()
    } else {
        let front = more.drop_last();
        let last = more.len() - 1;
        let before = with_new(list, front);
        let after = with_new(list, more);
        let earlier = new_items_come_in_their_order(list, front);
        lemma_with_new(list, front);
        assert(more.take(last) =~= front);
        let firsts = if before.contains(more.last()) {
            earlier
        } else {
            earlier.push(last)
        };
        assert(after.take(list.len() as int) =~= before.take(list.len() as int));
        assert forall|k: int| 0 <= k < firsts.len() implies 0 <= #[trigger] firsts[k] < more.len()
            && after[list.len() + k] == more[firsts[k]] by {
            if k < earlier.len() {
                assert(firsts[k] == earlier[k]);
                assert(after[list.len() + k] == before[list.len() + k]);
                assert(front[earlier[k]] == more[earlier[k]]);
            }
        }
        assert forall|i: int| 0 <= i < more.len() implies (firsts.contains(i) <==> !list.contains(
            #[trigger] more[i],
        ) && !more.take(i).contains(more[i])) by {
            lemma_contains_push(earlier, last, i);
            if i < last {
                assert(front[i] == more[i]);
                assert(front.take(i) =~= more.take(i));
            } else if earlier.contains(last) {
                let k = choose|k: int| 0 <= k < earlier.len() && earlier[k] == last;
                assert(earlier[k] < front.len());
            }
        }
        firsts
    }
}

} // verus!
