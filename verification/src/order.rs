//! Where the items of a list come from that was made by picking out of another.
use vstd::prelude::*;

verus! {

/// Positions go up.
pub open spec fn ascends(at: Seq<int>) -> bool {
    forall|k: int, m: int| 0 <= k < m < at.len() ==> (#[trigger] at[k]) < (#[trigger] at[m])
}

/// The items that a function gives something for are picked in their order, each once and none
/// left out.
pub proof fn given_in_order<A, B>(items: Seq<A>, f: spec_fn(A) -> Option<B>) -> (at: Seq<int>)
    ensures
        at.len() == items.filter_map(f).len(),
        ascends(at),
        forall|k: int|
            0 <= k < at.len() ==> 0 <= #[trigger] at[k] < items.len() && f(items[at[k]]) == Some(
                items.filter_map(f)[k],
            ),
        forall|i: int|
            0 <= i < items.len() && f(#[trigger] items[i]) is Some ==> at.contains(i),
    decreases items.len(),
{
    if items.len() == 0 {
        Seq::empty()
    } else {
        let rest = items.drop_last();
        let earlier = given_in_order(rest, f);
        assert forall|k: int| 0 <= k < earlier.len() implies rest[earlier[k]]
            == items[earlier[k]] by {}
        if f(items.last()) is Some {
            let at = earlier.push(items.len() - 1);
            assert forall|i: int|
                0 <= i < items.len() && f(#[trigger] items[i]) is Some implies at.contains(i) by {
                if i == items.len() - 1 {
                    assert(at[earlier.len() as int] == i);
                } else {
                    assert(rest[i] == items[i]);
                    let k = choose|k: int| 0 <= k < earlier.len() && earlier[k] == i;
                    assert(at[k] == i);
                }
            }
            assert forall|k: int| 0 <= k < at.len() implies 0 <= #[trigger] at[k] < items.len() && f(
                items[at[k]],
            ) == Some(items.filter_map(f)[k]) by {
                if k < earlier.len() {
                    assert(at[k] == earlier[k]);
                }
            }
            assert(ascends(at)) by {
                assert forall|k: int, m: int| 0 <= k < m < at.len() implies (#[trigger] at[k]) < (
                #[trigger] at[m]) by {
                    assert(at[k] == earlier[k]);
                    if m < earlier.len() {
                        assert(at[m] == earlier[m]);
                    }
                }
            }
            at
        } else {
            assert forall|i: int|
                0 <= i < items.len() && f(#[trigger] items[i]) is Some implies earlier.contains(i) by {
                assert(rest[i] == items[i]);
            }
            earlier
        }
    }
}

/// The items that meet a condition are picked in their order, each once and none left out.
pub proof fn picked_in_order<A>(items: Seq<A>, p: spec_fn(A) -> bool) -> (at: Seq<int>)
    ensures
        at.len() == items.filter(p).len(),
        ascends(at),
        forall|k: int|
            0 <= k < at.len() ==> 0 <= #[trigger] at[k] < items.len() && p(items[at[k]])
                && items[at[k]] == items.filter(p)[k],
        forall|i: int| 0 <= i < items.len() && p(#[trigger] items[i]) ==> at.contains(i),
    decreases items.len(),
{
    reveal(Seq::filter);
    if items.len() == 0 {
        Seq::empty()
    } else {
        let rest = items.drop_last();
        let earlier = picked_in_order(rest, p);
        assert forall|k: int| 0 <= k < earlier.len() implies rest[earlier[k]]
            == items[earlier[k]] by {}
        if p(items.last()) {
            let at = earlier.push(items.len() - 1);
            assert forall|i: int|
                0 <= i < items.len() && p(#[trigger] items[i]) implies at.contains(i) by {
                if i == items.len() - 1 {
                    assert(at[earlier.len() as int] == i);
                } else {
                    assert(rest[i] == items[i]);
                    let k = choose|k: int| 0 <= k < earlier.len() && earlier[k] == i;
                    assert(at[k] == i);
                }
            }
            assert forall|k: int| 0 <= k < at.len() implies 0 <= #[trigger] at[k] < items.len() && p(
                items[at[k]],
            ) && items[at[k]] == items.filter(p)[k] by {
                if k < earlier.len() {
                    assert(at[k] == earlier[k]);
                }
            }
            assert(ascends(at)) by {
                assert forall|k: int, m: int| 0 <= k < m < at.len() implies (#[trigger] at[k]) < (
                #[trigger] at[m]) by {
                    assert(at[k] == earlier[k]);
                    if m < earlier.len() {
                        assert(at[m] == earlier[m]);
                    }
                }
            }
            at
        } else {
            assert forall|i: int|
                0 <= i < items.len() && p(#[trigger] items[i]) implies earlier.contains(i) by {
                assert(rest[i] == items[i]);
            }
            earlier
        }
    }
}

} // verus!
