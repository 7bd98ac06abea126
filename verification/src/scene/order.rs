//! Putting the elements of a scene in order along an axis.
use vstd::prelude::*;
use std::cmp::Ordering;
use crate::scene::elements::SceneElement;
use crate::utils::utils::Axis;

verus! {

/// The number by which an element is ordered along `axis`: the sum of the
/// two corner coordinates of its box, which is twice the centre.
pub open spec fn spec_rank(element: SceneElement, axis: Axis) -> int {
    element.spec_hitbox().spec_key(axis).raw as int
}

/// `before` may stand before `after` in an order that rises, or else in one
/// that falls.
pub open spec fn spec_in_turn(before: int, after: int, rising: bool) -> bool {
    if rising {
        before <= after
    } else {
        before >= after
    }
}

/// The ranks of the elements along `axis` never fall from one element to a
/// later one, where `rising`, and else never rise.
pub open spec fn spec_in_order(elements: Seq<SceneElement>, axis: Axis, rising: bool) -> bool {
    forall|i: int, j: int|
        0 <= i <= j < elements.len() ==> spec_in_turn(
            spec_rank(#[trigger] elements[i], axis),
            spec_rank(#[trigger] elements[j], axis),
            rising,
        )
}

/// The elements are in the order of their box centres along `axis`.
#[verifier::opaque]
pub open spec fn spec_sorted(elements: Seq<SceneElement>, axis: Axis) -> bool {
    forall|i: int, j: int|
        0 <= i <= j < elements.len() ==> (#[trigger] elements[i]).spec_hitbox().spec_key(axis).raw <= (
        #[trigger] elements[j]).spec_hitbox().spec_key(axis).raw
}

/// A sequence without elements holds nothing.
proof fn lemma_nothing_held(elements: Seq<SceneElement>)
    requires
        elements.len() == 0,
    ensures
        elements.to_multiset() =~= vstd::multiset::Multiset::empty(),
{
    elements.to_multiset_ensures();
    vstd::multiset::lemma_multiset_empty_len(elements.to_multiset());
}

/// Tells whether the last element of `a` is to leave before the last of
/// `b`.
fn takes_first(a: &Vec<SceneElement>, b: &Vec<SceneElement>, axis: Axis, rising: bool) -> (r: bool)
    requires
        a.len() > 0 || b.len() > 0,
    ensures
        r ==> a.len() > 0,
        !r ==> b.len() > 0,
        r && b.len() > 0 ==> spec_in_turn(
            spec_rank(a[a.len() - 1], axis),
            spec_rank(b[b.len() - 1], axis),
            rising,
        ),
        !r && a.len() > 0 ==> spec_in_turn(
            spec_rank(b[b.len() - 1], axis),
            spec_rank(a[a.len() - 1], axis),
            rising,
        ),
{
    if a.len() == 0 {
        false
    } else if b.len() == 0 {
        true
    } else {
        match a[a.len() - 1].hitbox().compare(&b[b.len() - 1].hitbox(), axis) {
            Ordering::Greater => !rising,
            _ => rising,
        }
    }
}

/// Merges two runs of elements that stand in the opposite of the wanted
/// order into one run in the wanted order, taking the elements from the
/// ends of the runs.
fn merge_runs(a: Vec<SceneElement>, b: Vec<SceneElement>, axis: Axis, rising: bool) -> (out: Vec<
    SceneElement,
>)
    requires
        spec_in_order(a@, axis, !rising),
        spec_in_order(b@, axis, !rising),
    ensures
        out@.to_multiset() == a@.to_multiset().add(b@.to_multiset()),
        spec_in_order(out@, axis, rising),
{
    broadcast use vstd::multiset::group_multiset_axioms;

    let ghost first = a@;
    let ghost second = b@;
    let mut a = a;
    let mut b = b;
    let mut out: Vec<SceneElement> = Vec::new();
    proof {
        lemma_nothing_held(out@);
    }
    while a.len() > 0 || b.len() > 0
        invariant
            a@ == first.take(a.len() as int),
            b@ == second.take(b.len() as int),
            a.len() <= first.len(),
            b.len() <= second.len(),
            spec_in_order(first, axis, !rising),
            spec_in_order(second, axis, !rising),
            spec_in_order(out@, axis, rising),
            forall|i: int, j: int|
                0 <= i < out.len() && 0 <= j < a.len() ==> spec_in_turn(
                    spec_rank(#[trigger] out[i], axis),
                    spec_rank(#[trigger] first[j], axis),
                    rising,
                ),
            forall|i: int, j: int|
                0 <= i < out.len() && 0 <= j < b.len() ==> spec_in_turn(
                    spec_rank(#[trigger] out[i], axis),
                    spec_rank(#[trigger] second[j], axis),
                    rising,
                ),
            out@.to_multiset().add(a@.to_multiset()).add(b@.to_multiset()) == first.to_multiset().add(
                second.to_multiset(),
            ),
        decreases a.len() + b.len(),
    {
        let ghost before = out@;
        let ghost a_before = a@;
        let ghost b_before = b@;
        if takes_first(&a, &b, axis, rising) {
            let element = a.pop().unwrap();
            proof {
                assert(a_before =~= a@.push(element));
                assert(element == first[a.len() as int]);
                vstd::seq_lib::to_multiset_build(a@, element);
            }
            out.push(element);
            proof {
                vstd::seq_lib::to_multiset_build(before, element);
                broadcast use vstd::multiset::group_multiset_axioms;

                assert(out@.to_multiset().add(a@.to_multiset()).add(b@.to_multiset())
                    =~= before.to_multiset().add(a_before.to_multiset()).add(
                    b_before.to_multiset(),
                ));
            }
        } else {
            let element = b.pop().unwrap();
            proof {
                assert(b_before =~= b@.push(element));
                assert(element == second[b.len() as int]);
                vstd::seq_lib::to_multiset_build(b@, element);
            }
            out.push(element);
            proof {
                vstd::seq_lib::to_multiset_build(before, element);
                broadcast use vstd::multiset::group_multiset_axioms;

                assert(out@.to_multiset().add(a@.to_multiset()).add(b@.to_multiset())
                    =~= before.to_multiset().add(a_before.to_multiset()).add(
                    b_before.to_multiset(),
                ));
            }
        }
    }
    proof {
        lemma_nothing_held(a@);
        lemma_nothing_held(b@);
        assert(out@.to_multiset() =~= out@.to_multiset().add(a@.to_multiset()).add(
            b@.to_multiset(),
        ));
    }
    out
}

/// Sorts the elements by their ranks along `axis`, rising or falling, by
/// merging: either half is sorted the other way round, and the two are
/// merged from their ends.
fn sort_runs(elements: Vec<SceneElement>, axis: Axis, rising: bool) -> (out: Vec<SceneElement>)
    ensures
        out@.to_multiset() == elements@.to_multiset(),
        spec_in_order(out@, axis, rising),
    decreases elements.len(),
{
    if elements.len() <= 1 {
        return elements;
    }
    let ghost given = elements@;
    let mut elements = elements;
    let half = elements.len() / 2;
    let rest = elements.split_off(half);
    proof {
        assert(given =~= elements@ + rest@);
        vstd::seq_lib::lemma_multiset_commutative(elements@, rest@);
    }
    let left = sort_runs(elements, axis, !rising);
    let right = sort_runs(rest, axis, !rising);
    merge_runs(left, right, axis, rising)
}

/// Sorts the elements by their box centres along `axis`. Afterwards the
/// vector holds the same elements as before, each as often as before, and
/// no element has its centre before that of an earlier one.
pub fn sort_by_axis(elements: &mut Vec<SceneElement>, axis: Axis)
    ensures
        final(elements)@.to_multiset() == old(elements)@.to_multiset(),
        spec_sorted(final(elements)@, axis),
{
    let mut taken: Vec<SceneElement> = Vec::new();
    std::mem::swap(elements, &mut taken);
    let sorted = sort_runs(taken, axis, true);
    proof {
        reveal(spec_sorted);
    }
    *elements = sorted;
}

} // verus!
