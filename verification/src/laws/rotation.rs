//! Which images a rotation shows, and in what order.

use crate::laws::lists::{
    drawn_from, lemma_kept, lemma_kept_item, lemma_kept_order, lemma_places,
};
use crate::rotation::{
    dropped, ids_at, pooled, rebuilt, repooled, shown_next, still_pooled, taken_up, topped_up,
    Rotation,
};
use crate::sources::ImageCandidate;
use crate::state::PersistedState;
use vstd::prelude::*;

verus! {

/// Whether one of the candidates has the id.
pub open spec fn offered(candidates: Seq<ImageCandidate>, id: Seq<char>) -> bool {
    exists|i: int| 0 <= i < candidates.len() && (#[trigger] candidates[i]).id@ == id
}

/// Whether every id of the pool was shown in this cycle.
pub open spec fn all_shown(rotation: Rotation) -> bool {
    forall|id: Seq<char>| #[trigger]
        rotation.pool.contains_key(id) ==> rotation.shown.contains(id)
}

/// Whether `x` stands ahead of `y` in a list.
pub open spec fn ahead(list: Seq<Seq<char>>, x: Seq<char>, y: Seq<char>) -> bool {
    exists|i: int, j: int|
        0 <= i < j < list.len() && #[trigger] list[i] == x && #[trigger] list[j] == y
}

proof fn lemma_all_shown(rotation: Rotation)
    requires
        rotation.wf(),
    ensures
        rotation.shown.len() >= rotation.pool.dom().len() <==> all_shown(rotation),
{
    let pool = rotation.pool.dom();
    vstd::set_lib::lemma_len_subset(rotation.shown, pool);
    if rotation.shown.len() >= pool.len() {
        vstd::set_lib::lemma_subset_equality(rotation.shown, pool);
    }
    if all_shown(rotation) {
        assert forall|id: Seq<char>| pool.contains(id) implies rotation.shown.contains(id) by {
            assert(rotation.pool.contains_key(id));
        }
        assert(rotation.shown =~= pool);
    }
}

/// Where nothing is to come, every image of the pool that was not shown in this cycle is lined up
/// once, local files ahead of the others. Only where all of them were shown do the marks go, and
/// all of them come again. Where something is to come, nothing changes.
pub proof fn law_empty_queue_is_filled_again(before: Rotation, after: Rotation)
    requires
        before.wf(),
        topped_up(before, after),
    ensures
        before.remaining.len() > 0 ==> after == before,
        after.pool == before.pool,
        before.remaining.len() == 0 ==> {
            &&& forall|id: Seq<char>| #[trigger]
                after.shown.contains(id) <==> before.shown.contains(id) && !all_shown(before)
            &&& forall|id: Seq<char>| #[trigger]
                after.remaining.contains(id) <==> before.pool.contains_key(id)
                    && !after.shown.contains(id)
            &&& after.remaining.no_duplicates()
            &&& forall|i: int, j: int|
                0 <= i < j < after.remaining.len() && before.pool[#[trigger] after.remaining[j]]
                    .location is Local ==> before.pool[#[trigger] after.remaining[i]]
                    .location is Local
        },
{
    if before.remaining.len() == 0 {
        lemma_all_shown(before);
        if before.pool.dom().len() == 0 {
            assert(before.pool.dom() =~= Set::empty());
            assert forall|id: Seq<char>| #[trigger]
                after.remaining.contains(id) <==> before.pool.contains_key(id)
                    && !after.shown.contains(id) by {
                assert(!before.pool.dom().contains(id));
            }
        } else {
            let rest = after.pool.dom().difference(after.shown);
            assert forall|id: Seq<char>| #[trigger]
                after.remaining.contains(id) <==> before.pool.contains_key(id)
                    && !after.shown.contains(id) by {
                assert(after.remaining.to_set().contains(id) <==> rest.contains(id));
            }
            assert forall|i: int, j: int|
                0 <= i < j < after.remaining.len() && before.pool[#[trigger] after.remaining[j]]
                    .location is Local implies before.pool[#[trigger] after.remaining[i]]
                .location is Local by {
                assert(after.pool[after.remaining[j]].local_file());
                assert(after.pool[after.remaining[i]].local_file());
            }
        }
    }
}

/// The pool holds a candidate for every id that is offered, and for no other.
pub proof fn law_pool_holds_every_offered_id(candidates: Seq<ImageCandidate>)
    ensures
        pooled(candidates).dom().finite(),
        forall|id: Seq<char>| #[trigger]
            pooled(candidates).contains_key(id) <==> offered(candidates, id),
    decreases candidates.len(),
{
    if candidates.len() > 0 {
        let init = candidates.drop_last();
        let last = candidates.last();
        law_pool_holds_every_offered_id(init);
        assert forall|id: Seq<char>| #[trigger]
            pooled(candidates).contains_key(id) <==> offered(candidates, id) by {
            if offered(init, id) {
                let i = choose|i: int| 0 <= i < init.len() && (#[trigger] init[i]).id@ == id;
                assert(candidates[i].id@ == id);
            }
            if offered(candidates, id) {
                let i = choose|i: int|
                    0 <= i < candidates.len() && (#[trigger] candidates[i]).id@ == id;
                if i < init.len() {
                    assert(init[i].id@ == id);
                }
            }
            if id == last.id@ {
                assert(candidates[candidates.len() - 1].id@ == id);
            }
        }
    }
}

proof fn lemma_repooled(before: Rotation, candidates: Seq<ImageCandidate>, mid: Rotation)
    requires
        repooled(before, pooled(candidates), mid),
    ensures
        mid.wf(),
        forall|id: Seq<char>| #[trigger]
            mid.shown.contains(id) <==> before.shown.contains(id) && offered(candidates, id),
        forall|id: Seq<char>| #[trigger]
            mid.remaining.contains(id) <==> offered(candidates, id) && (before.remaining.contains(
                id,
            ) || !before.shown.contains(id)),
        before.remaining.no_duplicates() ==> mid.remaining.no_duplicates(),
        forall|a: int, b: int|
            0 <= a < b < mid.remaining.len() ==> lined_up(
                before,
                mid.pool,
                #[trigger] mid.remaining[a],
                #[trigger] mid.remaining[b],
            ),
{
    let pool = pooled(candidates);
    let keep = |id: Seq<char>| pool.contains_key(id);
    let kept = still_pooled(before.remaining, pool);
    let n = kept.len() as int;
    let rest = mid.remaining.skip(n);
    let fresh = pool.dom().difference(mid.shown).difference(kept.to_set());
    law_pool_holds_every_offered_id(candidates);
    lemma_kept(before.remaining, keep);
    assert(mid.remaining =~= kept + rest);
    assert forall|id: Seq<char>| #[trigger]
        mid.remaining.contains(id) <==> offered(candidates, id) && (before.remaining.contains(id)
            || !before.shown.contains(id)) by {
        assert(rest.to_set().contains(id) <==> fresh.contains(id));
        assert(kept.to_set().contains(id) <==> kept.contains(id));
        if kept.contains(id) {
            let i = choose|i: int| 0 <= i < kept.len() && kept[i] == id;
            assert(mid.remaining[i] == id);
        }
        if rest.contains(id) {
            let i = choose|i: int| 0 <= i < rest.len() && rest[i] == id;
            assert(mid.remaining[n + i] == id);
        }
        if mid.remaining.contains(id) {
            let i = choose|i: int| 0 <= i < mid.remaining.len() && mid.remaining[i] == id;
            if i < n {
                assert(kept[i] == id);
            } else {
                assert(rest[i - n] == id);
            }
        }
    }
    assert forall|i: int| 0 <= i < mid.remaining.len() implies mid.pool.contains_key(
        #[trigger] mid.remaining[i],
    ) by {
        assert(mid.remaining.contains(mid.remaining[i]));
    }
    assert forall|i: int| 0 <= i < rest.len() implies !kept.contains(#[trigger] rest[i])
        && !before.remaining.contains(rest[i]) by {
        assert(rest.to_set().contains(rest[i]));
        assert(!kept.to_set().contains(rest[i]));
    }
    assert forall|a: int, b: int| 0 <= a < b < mid.remaining.len() implies lined_up(
        before,
        mid.pool,
        #[trigger] mid.remaining[a],
        #[trigger] mid.remaining[b],
    ) by {
        if b < n {
            assert(kept[a] == mid.remaining[a] && kept[b] == mid.remaining[b]);
            let r = lemma_kept_order(before.remaining, keep, a, b);
            assert(before.remaining[r.0] == mid.remaining[a] && before.remaining[r.1]
                == mid.remaining[b]);
        } else {
            assert(rest[b - n] == mid.remaining[b]);
            if a < n {
                assert(kept[a] == mid.remaining[a]);
                let i = lemma_kept_item(before.remaining, keep, a);
                assert(before.remaining[i] == mid.remaining[a]);
            } else {
                assert(rest[a - n] == mid.remaining[a]);
                if pool[rest[b - n]].local_file() {
                    assert(pool[rest[a - n]].local_file());
                }
            }
        }
    }
    if before.remaining.no_duplicates() {
        assert forall|a: int, b: int|
            0 <= a < mid.remaining.len() && 0 <= b < mid.remaining.len() && a
                != b implies mid.remaining[a] != mid.remaining[b] by {
            if a < n && b < n {
                assert(kept[a] != kept[b]);
            } else if a >= n && b >= n {
                assert(rest[a - n] != rest[b - n]);
            } else if a < n {
                assert(kept.contains(kept[a]));
                assert(!kept.contains(rest[b - n]));
            } else {
                assert(kept.contains(kept[b]));
                assert(!kept.contains(rest[a - n]));
            }
        }
    }
}

/// Whether `x` may stand ahead of `y` in the queue behind a new pool: what was to come before
/// stays ahead and in its order, and of the new ones the local files come first.
pub open spec fn lined_up(
    before: Rotation,
    pool: Map<Seq<char>, ImageCandidate>,
    x: Seq<char>,
    y: Seq<char>,
) -> bool {
    if before.remaining.contains(y) {
        ahead(before.remaining, x, y)
    } else {
        before.remaining.contains(x) || (pool[y].location is Local ==> pool[x].location is Local)
    }
}

/// A new pool takes the mark of a shown image away only where the image left the pool, and it
/// brings back none that was shown: where something is left to come, an id is shown exactly if it
/// was and is still offered, and to come exactly if it is offered and was to come or is new. What
/// was to come keeps its order, ahead of the new ones, among which local files come first.
pub proof fn law_new_pool_keeps_the_marks(
    before: Rotation,
    candidates: Seq<ImageCandidate>,
    after: Rotation,
)
    requires
        rebuilt(before, candidates, after),
        exists|id: Seq<char>| #[trigger]
            offered(candidates, id) && (before.remaining.contains(id) || !before.shown.contains(
                id,
            )),
    ensures
        forall|id: Seq<char>| #[trigger]
            after.pool.contains_key(id) <==> offered(candidates, id),
        after.pool == pooled(candidates),
        forall|id: Seq<char>| #[trigger]
            after.shown.contains(id) <==> before.shown.contains(id) && offered(candidates, id),
        forall|id: Seq<char>| #[trigger]
            after.remaining.contains(id) <==> offered(candidates, id)
                && (before.remaining.contains(id) || !before.shown.contains(id)),
        exists|places: Seq<int>| #[trigger]
            drawn_from(after.remaining.take(places.len() as int), before.remaining, places)
                && places.len() <= after.remaining.len() && forall|k: int|
                0 <= k < before.remaining.len() && offered(
                    candidates,
                    #[trigger] before.remaining[k],
                ) ==> places.contains(k),
        before.fair() ==> after.remaining.no_duplicates(),
        before.fair() ==> forall|id: Seq<char>| #[trigger]
            after.remaining.contains(id) ==> !before.shown.contains(id),
        forall|a: int, b: int|
            0 <= a < b < after.remaining.len() ==> lined_up(
                before,
                after.pool,
                #[trigger] after.remaining[a],
                #[trigger] after.remaining[b],
            ),
{
    let mid = choose|mid: Rotation| #[trigger]
        repooled(before, pooled(candidates), mid) && topped_up(mid, after);
    lemma_repooled(before, candidates, mid);
    law_pool_holds_every_offered_id(candidates);
    let id = choose|id: Seq<char>| #[trigger]
        offered(candidates, id) && (before.remaining.contains(id) || !before.shown.contains(id));
    assert(mid.remaining.contains(id));
    law_empty_queue_is_filled_again(mid, after);
    let pool = pooled(candidates);
    let places = lemma_places(before.remaining, |id: Seq<char>| pool.contains_key(id));
    assert(drawn_from(after.remaining.take(places.len() as int), before.remaining, places));
    if before.fair() {
        assert forall|id: Seq<char>| #[trigger] after.remaining.contains(id) implies
            !before.shown.contains(id) by {
            if before.remaining.contains(id) {
                let i = choose|i: int| 0 <= i < before.remaining.len() && before.remaining[i] == id;
                assert(!before.shown.contains(before.remaining[i]));
            }
        }
    }
}

/// An image that was shown in this cycle and is still offered stays shown, and does not come again,
/// as long as one that is offered was not shown; one that is no longer offered is neither.
pub proof fn law_shown_images_stay_shown_in_a_new_pool(
    before: Rotation,
    candidates: Seq<ImageCandidate>,
    after: Rotation,
    kept: int,
    unseen: int,
    id: Seq<char>,
)
    requires
        before.fair(),
        rebuilt(before, candidates, after),
        0 <= kept < candidates.len(),
        0 <= unseen < candidates.len(),
        !before.shown.contains(candidates[unseen].id@),
    ensures
        before.shown.contains(candidates[kept].id@) <==> after.shown.contains(
            candidates[kept].id@,
        ),
        before.shown.contains(candidates[kept].id@) <==> !after.remaining.contains(
            candidates[kept].id@,
        ),
        (forall|i: int| 0 <= i < candidates.len() ==> (#[trigger] candidates[i]).id@ != id)
            ==> !after.shown.contains(id) && !after.remaining.contains(id),
{
    assert(offered(candidates, candidates[unseen].id@));
    assert(offered(candidates, candidates[kept].id@));
    law_new_pool_keeps_the_marks(before, candidates, after);
    if before.remaining.contains(candidates[kept].id@) {
        let i = choose|i: int|
            0 <= i < before.remaining.len() && before.remaining[i] == candidates[kept].id@;
        assert(!before.shown.contains(before.remaining[i]));
    }
}

/// Where all that a new pool offers was shown already, a new cycle starts: no mark stays, and
/// every id that is offered comes once, local files ahead of the others.
pub proof fn law_new_pool_of_shown_images_starts_a_cycle(
    before: Rotation,
    candidates: Seq<ImageCandidate>,
    after: Rotation,
)
    requires
        rebuilt(before, candidates, after),
        forall|id: Seq<char>| #[trigger]
            offered(candidates, id) ==> before.shown.contains(id) && !before.remaining.contains(id),
    ensures
        after.pool == pooled(candidates),
        forall|id: Seq<char>| !#[trigger] after.shown.contains(id),
        forall|id: Seq<char>| #[trigger]
            after.remaining.contains(id) <==> offered(candidates, id),
        after.remaining.no_duplicates(),
        forall|i: int, j: int|
            0 <= i < j < after.remaining.len() && after.pool[#[trigger] after.remaining[j]]
                .location is Local ==> after.pool[#[trigger] after.remaining[i]]
                .location is Local,
{
    let mid = choose|mid: Rotation| #[trigger]
        repooled(before, pooled(candidates), mid) && topped_up(mid, after);
    lemma_repooled(before, candidates, mid);
    law_pool_holds_every_offered_id(candidates);
    if mid.remaining.len() > 0 {
        assert(mid.remaining.contains(mid.remaining[0]));
    }
    law_empty_queue_is_filled_again(mid, after);
    assert forall|id: Seq<char>| #[trigger] mid.pool.contains_key(id) implies mid.shown.contains(
        id,
    ) by {
        assert(offered(candidates, id));
    }
}

/// The next image is the first of those to come, and is marked as shown; where none is to come, it
/// is one of the pool that was not shown in this cycle, a local file where there is one. Only
/// where all were shown do the marks go first.
pub proof fn law_next_image_is_the_first_to_come(
    before: Rotation,
    shown: Option<ImageCandidate>,
    after: Rotation,
)
    requires
        before.wf(),
        shown_next(before, shown, after),
    ensures
        after.pool == before.pool,
        shown is None <==> forall|id: Seq<char>| !#[trigger] before.pool.contains_key(id),
        shown is None ==> after.remaining.len() == 0,
        shown matches Some(candidate) ==> {
            let id = candidate.id@;
            &&& before.pool.contains_key(id)
            &&& before.pool[id] == candidate
            &&& before.remaining.len() > 0 ==> id == before.remaining[0] && after.remaining
                == before.remaining.skip(1)
            &&& before.remaining.len() == 0 && !all_shown(before) ==> !before.shown.contains(id)
            &&& before.remaining.len() == 0 ==> {
                &&& forall|other: Seq<char>| #[trigger]
                    after.remaining.contains(other) <==> other != id && before.pool.contains_key(
                        other,
                    ) && (all_shown(before) || !before.shown.contains(other))
                &&& after.remaining.no_duplicates()
                &&& forall|i: int|
                    0 <= i < after.remaining.len() && before.pool[#[trigger] after.remaining[i]]
                        .location is Local ==> candidate.location is Local
                &&& forall|i: int, j: int|
                    0 <= i < j < after.remaining.len() && before.pool[#[trigger] after.remaining[j]]
                        .location is Local ==> before.pool[#[trigger] after.remaining[i]]
                        .location is Local
            }
            &&& forall|other: Seq<char>| #[trigger]
                after.shown.contains(other) <==> other == id || (before.shown.contains(other) && !(
                before.remaining.len() == 0 && all_shown(before)))
        },
{
    let mid = choose|mid: Rotation|
        {
            &&& #[trigger] topped_up(before, mid)
            &&& match shown {
                Some(candidate) => {
                    &&& mid.remaining.len() > 0
                    &&& mid.pool.contains_key(mid.remaining[0])
                    &&& candidate == mid.pool[mid.remaining[0]]
                    &&& candidate.id@ == mid.remaining[0]
                    &&& after == mid.picked()
                },
                None => mid.remaining.len() == 0 && after == mid,
            }
        };
    law_empty_queue_is_filled_again(before, mid);
    assert(!all_shown(before) || forall|id: Seq<char>| #[trigger]
        before.pool.contains_key(id) ==> before.shown.contains(id));
    if shown is None {
        assert forall|id: Seq<char>| !#[trigger] before.pool.contains_key(id) by {
            assert(!mid.remaining.contains(id));
            if before.pool.contains_key(id) {
                assert(mid.shown.contains(id));
                assert(!all_shown(before));
                assert forall|other: Seq<char>| #[trigger]
                    before.pool.contains_key(other) implies before.shown.contains(other) by {
                    assert(!mid.remaining.contains(other));
                }
            }
        }
    } else {
        let id = mid.remaining[0];
        assert(before.pool.contains_key(id));
        assert(mid.remaining.contains(id));
        let rest = mid.remaining.skip(1);
        assert(after.remaining == rest);
        if before.remaining.len() == 0 {
            assert forall|other: Seq<char>| #[trigger] rest.contains(other) <==> other != id
                && mid.remaining.contains(other) by {
                if rest.contains(other) {
                    let i = choose|i: int| 0 <= i < rest.len() && rest[i] == other;
                    assert(mid.remaining[i + 1] == other);
                }
                if other != id && mid.remaining.contains(other) {
                    let i = choose|i: int|
                        0 <= i < mid.remaining.len() && mid.remaining[i] == other;
                    assert(rest[i - 1] == other);
                }
            }
            assert forall|i: int|
                0 <= i < rest.len() && before.pool[#[trigger] rest[i]].location is Local implies
                before.pool[id].location is Local by {
                assert(rest[i] == mid.remaining[i + 1]);
            }
            assert forall|i: int, j: int|
                0 <= i < j < rest.len() && before.pool[#[trigger] rest[j]].location is Local implies
                before.pool[#[trigger] rest[i]].location is Local by {
                assert(rest[i] == mid.remaining[i + 1] && rest[j] == mid.remaining[j + 1]);
            }
            assert forall|i: int, j: int|
                0 <= i < rest.len() && 0 <= j < rest.len() && i != j implies rest[i] != rest[j] by {
                assert(mid.remaining[i + 1] != mid.remaining[j + 1]);
            }
        }
    }
}

/// What was looked at as the next image is the one that is shown next.
pub proof fn law_looking_ahead_does_not_change_the_next_image(
    before: Rotation,
    looked: Rotation,
    shown: Option<ImageCandidate>,
    after: Rotation,
)
    requires
        before.wf(),
        topped_up(before, looked),
        shown_next(looked, shown, after),
    ensures
        shown_next(before, shown, after),
        looked.remaining.len() > 0 ==> shown == Some(looked.pool[looked.remaining[0]]),
        before.remaining.len() > 0 ==> looked == before,
{
    law_empty_queue_is_filled_again(before, looked);
    let mid = choose|mid: Rotation|
        {
            &&& #[trigger] topped_up(looked, mid)
            &&& match shown {
                Some(candidate) => {
                    &&& mid.remaining.len() > 0
                    &&& mid.pool.contains_key(mid.remaining[0])
                    &&& candidate == mid.pool[mid.remaining[0]]
                    &&& candidate.id@ == mid.remaining[0]
                    &&& after == mid.picked()
                },
                None => mid.remaining.len() == 0 && after == mid,
            }
        };
    if looked.remaining.len() == 0 {
        assert(before.pool.dom().len() == 0) by {
            if before.pool.dom().len() > 0 {
                let id = before.pool.dom().choose();
                assert(before.pool.contains_key(id));
                assert(!looked.remaining.contains(id));
                assert(looked.shown.contains(id));
                assert forall|other: Seq<char>| #[trigger]
                    before.pool.contains_key(other) implies before.shown.contains(other) by {
                    assert(!looked.remaining.contains(other));
                }
            }
        }
        assert(topped_up(before, mid));
    } else {
        assert(topped_up(before, mid));
    }
}

/// A saved cycle is taken up as far as the pool holds its ids: what was to come stays to come, in
/// its order, and what was shown stays shown. Where nothing of it is left to come, what was not
/// shown is lined up, and all of the pool where all of it was shown.
pub proof fn law_saved_marks_and_order_are_taken_up(
    before: Rotation,
    state: PersistedState,
    after: Rotation,
)
    requires
        before.wf(),
        topped_up(taken_up(before, state), after),
    ensures
        after.pool == before.pool,
        (exists|k: int|
            0 <= k < state.remaining_queue@.len() && before.pool.contains_key(
                (#[trigger] state.remaining_queue@[k])@,
            )) ==> {
            &&& forall|id: Seq<char>| #[trigger]
                after.shown.contains(id) <==> before.pool.contains_key(id) && listed(
                    state.shown_ids@,
                    id,
                )
            &&& forall|id: Seq<char>| #[trigger]
                after.remaining.contains(id) <==> before.pool.contains_key(id) && listed(
                    state.remaining_queue@,
                    id,
                )
            &&& exists|places: Seq<int>| #[trigger]
                drawn_from(
                    after.remaining,
                    crate::text::texts(state.remaining_queue@),
                    places,
                ) && forall|k: int|
                    0 <= k < state.remaining_queue@.len() && before.pool.contains_key(
                        (#[trigger] state.remaining_queue@[k])@,
                    ) ==> places.contains(k)
        },
        !(exists|k: int|
            0 <= k < state.remaining_queue@.len() && before.pool.contains_key(
                (#[trigger] state.remaining_queue@[k])@,
            )) ==> forall|id: Seq<char>| #[trigger]
            after.remaining.contains(id) <==> before.pool.contains_key(id) && (!listed(
                state.shown_ids@,
                id,
            ) || forall|other: Seq<char>| #[trigger]
                before.pool.contains_key(other) ==> listed(state.shown_ids@, other)),
{
    let pool = before.pool;
    let keep = |id: Seq<char>| pool.contains_key(id);
    let queue = crate::text::texts(state.remaining_queue@);
    let marks = crate::text::texts(state.shown_ids@);
    let mid = taken_up(before, state);
    lemma_kept(queue, keep);
    assert(mid.remaining == queue.filter(keep));
    lemma_listed(state.remaining_queue@);
    lemma_listed(state.shown_ids@);
    assert forall|id: Seq<char>| #[trigger] mid.shown.contains(id) <==> before.pool.contains_key(id)
        && listed(state.shown_ids@, id) by {
        assert(marks.to_set().contains(id) <==> marks.contains(id));
    }
    assert forall|i: int| 0 <= i < mid.remaining.len() implies mid.pool.contains_key(
        #[trigger] mid.remaining[i],
    ) by {
        assert(mid.remaining.contains(mid.remaining[i]));
    }
    assert(mid.wf());
    law_empty_queue_is_filled_again(mid, after);
    if exists|k: int|
        0 <= k < state.remaining_queue@.len() && before.pool.contains_key(
            (#[trigger] state.remaining_queue@[k])@,
        ) {
        let k = choose|k: int|
            0 <= k < state.remaining_queue@.len() && before.pool.contains_key(
                (#[trigger] state.remaining_queue@[k])@,
            );
        assert(queue[k] == state.remaining_queue@[k]@);
        assert(mid.remaining.contains(queue[k]));
        let places = lemma_places(queue, keep);
        assert(drawn_from(after.remaining, queue, places));
        assert forall|k: int|
            0 <= k < state.remaining_queue@.len() && before.pool.contains_key(
                (#[trigger] state.remaining_queue@[k])@,
            ) implies places.contains(k) by {
            assert(keep(queue[k]));
        }
    } else {
        if mid.remaining.len() > 0 {
            assert(mid.remaining.contains(mid.remaining[0]));
            let k = choose|k: int| 0 <= k < queue.len() && queue[k] == mid.remaining[0];
            assert(before.pool.contains_key(state.remaining_queue@[k]@));
        }
    }
}

/// Whether a list of texts holds one.
pub open spec fn listed(list: Seq<String>, text: Seq<char>) -> bool {
    exists|k: int| 0 <= k < list.len() && (#[trigger] list[k])@ == text
}

pub(crate) proof fn lemma_listed(list: Seq<String>)
    ensures
        forall|text: Seq<char>| #[trigger]
            crate::text::texts(list).contains(text) <==> listed(list, text),
{
    assert forall|text: Seq<char>| #[trigger]
        crate::text::texts(list).contains(text) <==> listed(list, text) by {
        if crate::text::texts(list).contains(text) {
            let k = choose|k: int|
                0 <= k < crate::text::texts(list).len() && crate::text::texts(list)[k] == text;
            assert(list[k]@ == text);
        }
        if listed(list, text) {
            let k = choose|k: int| 0 <= k < list.len() && (#[trigger] list[k])@ == text;
            assert(crate::text::texts(list)[k] == text);
        }
    }
}

/// Whether an image was found at a path.
pub open spec fn found_at(
    resolved: Seq<(String, String)>,
    id: Seq<char>,
    target: Seq<char>,
) -> bool {
    exists|i: int|
        0 <= i < resolved.len() && (#[trigger] resolved[i]).0@ == id && resolved[i].1@ == target
}

/// Removing by path takes the images at the path out, and says whether there were any. The others
/// keep their marks, and those to come their order; where none of them is to come, what was not
/// shown is lined up.
pub proof fn law_removing_by_path_leaves_the_others(
    before: Rotation,
    resolved: Seq<(String, String)>,
    target: Seq<char>,
    after: Rotation,
)
    requires
        before.wf(),
        topped_up(dropped(before, ids_at(before.pool, resolved, target)), after),
    ensures
        ids_at(before.pool, resolved, target).len() > 0 <==> exists|id: Seq<char>| #[trigger]
            before.pool.contains_key(id) && found_at(resolved, id, target),
        forall|id: Seq<char>| #[trigger]
            after.pool.contains_key(id) <==> before.pool.contains_key(id) && !found_at(
                resolved,
                id,
                target,
            ),
        forall|id: Seq<char>| #[trigger]
            after.pool.contains_key(id) ==> after.pool[id] == before.pool[id],
        (exists|id: Seq<char>| #[trigger]
            before.remaining.contains(id) && !found_at(resolved, id, target)) ==> {
            &&& forall|id: Seq<char>| #[trigger]
                after.shown.contains(id) <==> before.shown.contains(id) && !found_at(
                    resolved,
                    id,
                    target,
                )
            &&& forall|id: Seq<char>| #[trigger]
                after.remaining.contains(id) <==> before.remaining.contains(id) && !found_at(
                    resolved,
                    id,
                    target,
                )
            &&& exists|places: Seq<int>| #[trigger]
                drawn_from(after.remaining, before.remaining, places) && forall|k: int|
                    0 <= k < before.remaining.len() && !found_at(
                        resolved,
                        #[trigger] before.remaining[k],
                        target,
                    ) ==> places.contains(k)
        },
        !(exists|id: Seq<char>| #[trigger]
            before.remaining.contains(id) && !found_at(resolved, id, target)) ==> forall|
            id: Seq<char>,
        | #[trigger]
            after.remaining.contains(id) <==> after.pool.contains_key(id) && (!before.shown.contains(
                id,
            ) || forall|other: Seq<char>| #[trigger]
                after.pool.contains_key(other) ==> before.shown.contains(other)),
{
    let gone = ids_at(before.pool, resolved, target);
    let mid = dropped(before, gone);
    let keep = |id: Seq<char>| !gone.contains(id);
    lemma_kept(before.remaining, keep);
    assert(mid.remaining == before.remaining.filter(keep));
    assert(gone.subset_of(before.pool.dom()));
    assert(gone.finite());
    assert forall|id: Seq<char>| #[trigger] gone.contains(id) <==> before.pool.contains_key(id)
        && found_at(resolved, id, target) by {}
    if gone.len() > 0 {
        let id = gone.choose();
        assert(gone.contains(id));
        assert(before.pool.contains_key(id) && found_at(resolved, id, target));
    }
    if exists|id: Seq<char>| #[trigger]
        before.pool.contains_key(id) && found_at(resolved, id, target) {
        let id = choose|id: Seq<char>| #[trigger]
            before.pool.contains_key(id) && found_at(resolved, id, target);
        assert(gone.contains(id));
        if gone.len() == 0 {
            assert(gone =~= Set::empty());
        }
    }
    assert forall|id: Seq<char>| before.remaining.contains(id) implies #[trigger]
        before.pool.contains_key(id) by {
        let i = choose|i: int| 0 <= i < before.remaining.len() && before.remaining[i] == id;
        assert(before.pool.contains_key(before.remaining[i]));
    }
    assert(mid.pool.dom() =~= before.pool.dom().difference(gone));
    assert forall|id: Seq<char>| mid.shown.contains(id) implies #[trigger] mid.pool.contains_key(
        id,
    ) by {
        assert(before.pool.dom().contains(id));
    }
    assert(mid.shown.subset_of(mid.pool.dom()));
    assert forall|i: int| 0 <= i < mid.remaining.len() implies mid.pool.contains_key(
        #[trigger] mid.remaining[i],
    ) by {
        assert(mid.remaining.contains(mid.remaining[i]));
        assert(before.pool.contains_key(mid.remaining[i]));
    }
    assert(mid.wf());
    law_empty_queue_is_filled_again(mid, after);
    assert forall|id: Seq<char>| #[trigger] mid.remaining.contains(id) <==> before.remaining.contains(
        id,
    ) && !found_at(resolved, id, target) by {
        if before.remaining.contains(id) {
            assert(before.pool.contains_key(id));
        }
    }
    assert forall|id: Seq<char>| #[trigger] mid.shown.contains(id) <==> before.shown.contains(id)
        && !found_at(resolved, id, target) by {
        if before.shown.contains(id) {
            assert(before.pool.dom().contains(id));
        }
    }
    if exists|id: Seq<char>| #[trigger]
        before.remaining.contains(id) && !found_at(resolved, id, target) {
        let id = choose|id: Seq<char>| #[trigger]
            before.remaining.contains(id) && !found_at(resolved, id, target);
        assert(mid.remaining.contains(id));
        let places = lemma_places(before.remaining, keep);
        assert(drawn_from(after.remaining, before.remaining, places));
        assert forall|k: int|
            0 <= k < before.remaining.len() && !found_at(
                resolved,
                #[trigger] before.remaining[k],
                target,
            ) implies places.contains(k) by {
            assert(keep(before.remaining[k]));
        }
    } else {
        if mid.remaining.len() > 0 {
            assert(mid.remaining.contains(mid.remaining[0]));
        }
        assert forall|id: Seq<char>| #[trigger]
            after.remaining.contains(id) <==> after.pool.contains_key(id)
                && (!before.shown.contains(id) || forall|other: Seq<char>| #[trigger]
                after.pool.contains_key(other) ==> before.shown.contains(other)) by {
            if all_shown(mid) {
                assert forall|other: Seq<char>| #[trigger] after.pool.contains_key(other) implies
                    before.shown.contains(other) by {
                    assert(mid.pool.contains_key(other));
                }
            }
            if forall|other: Seq<char>| #[trigger]
                after.pool.contains_key(other) ==> before.shown.contains(other) {
                assert(all_shown(mid));
            }
        }
    }
}

} // verus!
