//! Parts of lists.

use vstd::prelude::*;

verus! {

/// Whether the items of a part are those at rising places of a list.
pub open spec fn drawn_from<A>(part: Seq<A>, list: Seq<A>, places: Seq<int>) -> bool {
    &&& places.len() == part.len()
    &&& forall|a: int|
        0 <= a < places.len() ==> 0 <= #[trigger] places[a] < list.len() && list[places[a]]
            == part[a]
    &&& forall|a: int, b: int|
        0 <= a < b < places.len() ==> #[trigger] places[a] < #[trigger] places[b]
}

/// The places of the items of a list that pass.
pub(crate) proof fn lemma_places<A>(list: Seq<A>, keep: spec_fn(A) -> bool) -> (r: Seq<int>)
    ensures
        drawn_from(list.filter(keep), list, r),
        forall|a: int| 0 <= a < r.len() ==> keep(list[#[trigger] r[a]]),
        forall|k: int| 0 <= k < list.len() && keep(#[trigger] list[k]) ==> r.contains(k),
    decreases list.len(),
{
    reveal(Seq::filter);
    if list.len() == 0 {
        Seq::empty()
    } else {
        let init = list.drop_last();
        let n = init.len() as int;
        let before = lemma_places(init, keep);
        if keep(list.last()) {
            let r = before.push(n);
            assert forall|k: int| 0 <= k < list.len() && keep(#[trigger] list[k]) implies r.contains(
                k,
            ) by {
                if k < n {
                    assert(init[k] == list[k]);
                    let i = choose|i: int| 0 <= i < before.len() && before[i] == k;
                    assert(r[i] == k);
                } else {
                    assert(r[before.len() as int] == k);
                }
            }
            r
        } else {
            assert forall|k: int| 0 <= k < list.len() && keep(#[trigger] list[k]) implies
                before.contains(k) by {
                assert(k < n);
                assert(init[k] == list[k]);
            }
            before
        }
    }
}

/// Two items that pass stand as they stood.
pub(crate) proof fn lemma_kept_order<A>(
    list: Seq<A>,
    keep: spec_fn(A) -> bool,
    a: int,
    b: int,
) -> (r: (int, int))
    requires
        0 <= a < b < list.filter(keep).len(),
    ensures
        0 <= r.0 < r.1 < list.len(),
        list[r.0] == list.filter(keep)[a],
        list[r.1] == list.filter(keep)[b],
    decreases list.len(),
{
    reveal(Seq::filter);
    let init = list.drop_last();
    if b < init.filter(keep).len() {
        lemma_kept_order(init, keep, a, b)
    } else {
        let i = lemma_kept_item(init, keep, a);
        (i, list.len() - 1)
    }
}

/// An item that passes is one of the list.
pub(crate) proof fn lemma_kept_item<A>(list: Seq<A>, keep: spec_fn(A) -> bool, a: int) -> (r: int)
    requires
        0 <= a < list.filter(keep).len(),
    ensures
        0 <= r < list.len(),
        list[r] == list.filter(keep)[a],
        keep(list[r]),
    decreases list.len(),
{
    reveal(Seq::filter);
    let init = list.drop_last();
    if a < init.filter(keep).len() {
        lemma_kept_item(init, keep, a)
    } else {
        list.len() - 1
    }
}

/// Filtering finds what passes, and keeps a list free of duplicates.
pub(crate) proof fn lemma_kept<A>(list: Seq<A>, keep: spec_fn(A) -> bool)
    ensures
        forall|x: A| #[trigger]
            list.filter(keep).contains(x) <==> list.contains(x) && keep(x),
        list.no_duplicates() ==> list.filter(keep).no_duplicates(),
{
    assert forall|x: A| list.contains(x) && keep(x) implies #[trigger] list.filter(
        keep,
    ).contains(x) by {
        list.lemma_filter_contains_rev(keep, x);
    }
    assert forall|x: A| #[trigger] list.filter(keep).contains(x) implies list.contains(x)
        && keep(x) by {
        let a = choose|a: int| 0 <= a < list.filter(keep).len() && list.filter(keep)[a] == x;
        let i = lemma_kept_item(list, keep, a);
        assert(list[i] == x);
    }
    if list.no_duplicates() {
        assert forall|a: int, b: int|
            0 <= a < list.filter(keep).len() && 0 <= b < list.filter(keep).len() && a
                != b implies list.filter(keep)[a] != list.filter(keep)[b] by {
            if a < b {
                let r = lemma_kept_order(list, keep, a, b);
            } else {
                let r = lemma_kept_order(list, keep, b, a);
            }
        }
    }
}

} // verus!
