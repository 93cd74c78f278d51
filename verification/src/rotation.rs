//! The wallpaper rotation: a pool of candidates that is shown cycle by cycle, each candidate once
//! per cycle, local files ahead of remote images.

use crate::sources::ImageCandidate;
use crate::state::PersistedState;
use crate::text::same_text;
use rand::rngs::SmallRng;
use rand::seq::SliceRandom;
use rand::SeedableRng;
use std::collections::VecDeque;
use vstd::hash_map::StringHashMap;
use vstd::hash_set::StringHashSet;
use vstd::prelude::*;

verus! {

#[verifier::external_type_specification]
#[verifier::external_body]
pub struct ExSmallRng(SmallRng);

/// `SmallRng::from_rng` seeds a generator from the thread's own one, `rand::rng`.
#[verifier::external_body]
fn fresh_rng() -> SmallRng {
    SmallRng::from_rng(&mut rand::rng())
}

/// `SliceRandom::shuffle` permutes a list.
#[verifier::external_body]
fn shuffle(ids: &mut Vec<String>, rng: &mut SmallRng)
    ensures
        crate::text::texts(final(ids)@).to_multiset() == crate::text::texts(
            old(ids)@,
        ).to_multiset(),
{
    ids.shuffle(rng);
}

/// The view of a rotation: the candidates by id, the ids still to come in this cycle, and those
/// already shown in it.
#[verifier::ext_equal]
pub struct Rotation {
    pub pool: Map<Seq<char>, ImageCandidate>,
    pub remaining: Seq<Seq<char>>,
    pub shown: Set<Seq<char>>,
}

impl Rotation {
    /// Whether only ids of the pool are to come or shown.
    pub open spec fn wf(self) -> bool {
        &&& self.pool.dom().finite()
        &&& self.shown.subset_of(self.pool.dom())
        &&& forall|i: int|
            0 <= i < self.remaining.len() ==> self.pool.contains_key(#[trigger] self.remaining[i])
    }

    /// Whether no id is to come twice, or again after it was shown in this cycle.
    pub open spec fn fair(self) -> bool {
        &&& self.remaining.no_duplicates()
        &&& forall|i: int|
            0 <= i < self.remaining.len() ==> !self.shown.contains(#[trigger] self.remaining[i])
    }

    /// Whether every id of the pool is to come or was shown in this cycle.
    pub open spec fn complete(self) -> bool {
        forall|id: Seq<char>|
            self.pool.contains_key(id) ==> #[trigger] self.shown.contains(id)
                || self.remaining.contains(id)
    }

    /// The rotation after the next `n` ids were shown.
    pub open spec fn after_picks(self, n: nat) -> Rotation
        decreases n,
    {
        if n == 0 {
            self
        } else {
            self.after_picks((n - 1) as nat).picked()
        }
    }

    /// The rotation after the next id was shown.
    pub open spec fn picked(self) -> Rotation {
        Rotation {
            pool: self.pool,
            remaining: self.remaining.skip(1),
            shown: self.shown.insert(self.remaining[0]),
        }
    }
}

/// Whether `order` is an order of `ids` with the local files of the pool ahead of the others.
pub open spec fn arranged(
    pool: Map<Seq<char>, ImageCandidate>,
    ids: Set<Seq<char>>,
    order: Seq<Seq<char>>,
) -> bool {
    &&& order.no_duplicates()
    &&& order.to_set() == ids
    &&& forall|i: int, j: int|
        0 <= i < j < order.len() && pool[#[trigger] order[j]].local_file() ==> pool[#[trigger]
        order[i]].local_file()
}

/// Whether `after` starts the next round of `before`. Where all of the pool was shown, a new
/// cycle starts with all of it; else the round holds what was not shown yet.
pub open spec fn refilled(before: Rotation, after: Rotation) -> bool {
    &&& after.pool == before.pool
    &&& if before.pool.dom().len() == 0 {
        after.remaining.len() == 0 && after.shown == before.shown
    } else {
        &&& after.shown == if before.shown.len() >= before.pool.dom().len() {
            Set::empty()
        } else {
            before.shown
        }
        &&& arranged(
            after.pool,
            after.pool.dom().difference(after.shown),
            after.remaining,
        )
    }
}

/// Whether `after` is `before`, with the next round started where nothing was to come.
pub open spec fn topped_up(before: Rotation, after: Rotation) -> bool {
    if before.remaining.len() == 0 {
        refilled(before, after)
    } else {
        after == before
    }
}

/// Whether `shown` is the candidate that comes next, and `after` the rotation behind it. A round
/// is started first where nothing was to come.
pub open spec fn shown_next(
    before: Rotation,
    shown: Option<ImageCandidate>,
    after: Rotation,
) -> bool {
    exists|mid: Rotation|
        {
            &&& #[trigger] topped_up(before, mid)
            &&& match shown {
                Some(candidate) => {
                    &&& mid.remaining.len() > 0
                    &&& mid.pool.contains_key(mid.remaining[0])
                    &&& candidate == mid.pool[mid.remaining[0]]
                    &&& candidate.id@ == mid.remaining[0]
                    &&& after == mid.picked()
                },
                None => mid.remaining.len() == 0 && after == mid,
            }
        }
}

/// The candidates by their ids; of several with one id the last counts.
pub open spec fn pooled(candidates: Seq<ImageCandidate>) -> Map<Seq<char>, ImageCandidate>
    decreases candidates.len(),
{
    if candidates.len() == 0 {
        Map::empty()
    } else {
        pooled(candidates.drop_last()).insert(candidates.last().id@, candidates.last())
    }
}

/// The ids of `ids` that the pool holds, in their order.
pub open spec fn still_pooled(
    ids: Seq<Seq<char>>,
    pool: Map<Seq<char>, ImageCandidate>,
) -> Seq<Seq<char>> {
    ids.filter(|id: Seq<char>| pool.contains_key(id))
}

/// Whether `after` is `before` with the pool replaced and nothing refilled yet: what was to come
/// still is, what was shown stays shown, and the new ids are appended.
pub open spec fn repooled(
    before: Rotation,
    pool: Map<Seq<char>, ImageCandidate>,
    after: Rotation,
) -> bool {
    let kept = still_pooled(before.remaining, pool);
    &&& after.pool == pool
    &&& after.shown == before.shown.intersect(pool.dom())
    &&& after.remaining.len() >= kept.len()
    &&& after.remaining.take(kept.len() as int) == kept
    &&& arranged(
        pool,
        pool.dom().difference(after.shown).difference(kept.to_set()),
        after.remaining.skip(kept.len() as int),
    )
}

/// Whether `after` is `before` with a new pool of candidates.
pub open spec fn rebuilt(
    before: Rotation,
    candidates: Seq<ImageCandidate>,
    after: Rotation,
) -> bool {
    exists|mid: Rotation| #[trigger]
        repooled(before, pooled(candidates), mid) && topped_up(mid, after)
}

/// The rotation that takes up a saved state, nothing refilled yet.
pub open spec fn taken_up(before: Rotation, state: PersistedState) -> Rotation {
    Rotation {
        pool: before.pool,
        remaining: still_pooled(crate::text::texts(state.remaining_queue@), before.pool),
        shown: crate::text::texts(state.shown_ids@).to_set().intersect(before.pool.dom()),
    }
}

/// The rotation without some ids, nothing refilled yet.
pub open spec fn dropped(before: Rotation, ids: Set<Seq<char>>) -> Rotation {
    Rotation {
        pool: before.pool.remove_keys(ids),
        remaining: before.remaining.filter(|id: Seq<char>| !ids.contains(id)),
        shown: before.shown.difference(ids),
    }
}

/// The ids of the pool whose resolved path is `target`. `resolved` gives for an id the path that
/// its image was found at.
pub open spec fn ids_at(
    pool: Map<Seq<char>, ImageCandidate>,
    resolved: Seq<(String, String)>,
    target: Seq<char>,
) -> Set<Seq<char>> {
    pool.dom().filter(|id: Seq<char>| resolves_to(resolved, id, target))
}

pub open spec fn resolves_to(
    resolved: Seq<(String, String)>,
    id: Seq<char>,
    target: Seq<char>,
) -> bool {
    exists|i: int|
        0 <= i < resolved.len() && (#[trigger] resolved[i]).0@ == id && resolved[i].1@ == target
}

/// The pool of wallpapers and the cycle through it.
pub struct RotationManager {
    pool: StringHashMap<ImageCandidate>,
    ids: Vec<String>,
    remaining: VecDeque<String>,
    shown_current_cycle: StringHashSet,
    rng: SmallRng,
}

impl View for RotationManager {
    type V = Rotation;

    closed spec fn view(&self) -> Rotation {
        Rotation {
            pool: self.pool@,
            remaining: crate::text::texts(self.remaining@),
            shown: self.shown_current_cycle@,
        }
    }
}

/// Two lists with the same items, one of them without duplicates: so is the other.
proof fn lemma_permutation(a: Seq<Seq<char>>, b: Seq<Seq<char>>)
    requires
        a.to_multiset() == b.to_multiset(),
        a.no_duplicates(),
    ensures
        b.no_duplicates(),
        b.to_set() == a.to_set(),
        b.len() == a.len(),
{
    broadcast use vstd::seq_lib::group_to_multiset_ensures;

    vstd::seq_lib::to_multiset_len(a);
    vstd::seq_lib::to_multiset_len(b);
    a.lemma_multiset_has_no_duplicates();
    assert forall|id: Seq<char>| b.to_multiset().contains(id) implies b.to_multiset().count(id)
        == 1 by {}
    b.lemma_multiset_has_no_duplicates_conv();
    assert forall|id: Seq<char>| a.to_set().contains(id) <==> b.to_set().contains(id) by {
        assert(a.to_multiset().count(id) > 0 <==> a.contains(id));
        assert(b.to_multiset().count(id) > 0 <==> b.contains(id));
    }
    assert(b.to_set() =~= a.to_set());
}

/// The ids of the pool that are not in `gone`, only the local files or only the others.
spec fn group(
    pool: Map<Seq<char>, ImageCandidate>,
    gone: Set<Seq<char>>,
    local: bool,
) -> Set<Seq<char>> {
    pool.dom().difference(gone).filter(|id: Seq<char>| pool[id].local_file() == local)
}

/// Local files ahead of the others make an arrangement.
proof fn lemma_locals_first(
    pool: Map<Seq<char>, ImageCandidate>,
    gone: Set<Seq<char>>,
    locals: Seq<Seq<char>>,
    remotes: Seq<Seq<char>>,
)
    requires
        locals.no_duplicates(),
        remotes.no_duplicates(),
        locals.to_set() == group(pool, gone, true),
        remotes.to_set() == group(pool, gone, false),
    ensures
        arranged(pool, pool.dom().difference(gone), locals + remotes),
{
    let order = locals + remotes;
    assert forall|i: int| 0 <= i < locals.len() implies group(pool, gone, true).contains(
        #[trigger] locals[i],
    ) by {
        assert(locals.to_set().contains(locals[i]));
    }
    assert forall|i: int| 0 <= i < remotes.len() implies group(pool, gone, false).contains(
        #[trigger] remotes[i],
    ) by {
        assert(remotes.to_set().contains(remotes[i]));
    }
    assert(order.no_duplicates());
    assert forall|id: Seq<char>|
        order.to_set().contains(id) <==> pool.dom().difference(gone).contains(id) by {
        if order.contains(id) {
            let i = order.index_of(id);
            if i < locals.len() {
                assert(locals[i] == id);
            } else {
                assert(remotes[i - locals.len()] == id);
            }
        }
        if pool.dom().difference(gone).contains(id) {
            if pool[id].local_file() {
                assert(locals.to_set().contains(id));
                let i = locals.index_of(id);
                assert(order[i] == id);
            } else {
                assert(remotes.to_set().contains(id));
                let i = remotes.index_of(id);
                assert(order[i + locals.len()] == id);
            }
        }
    }
    assert(order.to_set() =~= pool.dom().difference(gone));
}

impl RotationManager {
    /// Whether every candidate is listed once and stands under its own id.
    pub closed spec fn indexed(&self) -> bool {
        &&& crate::text::texts(self.ids@).no_duplicates()
        &&& crate::text::texts(self.ids@).to_set() == self.pool@.dom()
        &&& forall|id: Seq<char>| #[trigger]
            self.pool@.contains_key(id) ==> self.pool@[id].id@ == id
    }

    /// Whether the rotation is sound: only ids of the pool are to come or shown, and every
    /// candidate stands under its own id.
    pub open spec fn wf(&self) -> bool {
        &&& self.indexed()
        &&& self@.wf()
    }

    /// An empty rotation.
    pub fn new() -> (r: Self)
        ensures
            r.wf(),
            r@ == (Rotation {
                pool: Map::empty(),
                remaining: Seq::empty(),
                shown: Set::empty(),
            }),
    {
        let r = RotationManager {
            pool: StringHashMap::new(),
            ids: Vec::new(),
            remaining: VecDeque::new(),
            shown_current_cycle: StringHashSet::new(),
            rng: fresh_rng(),
        };
        assert(crate::text::texts(r.ids@) =~= Seq::<Seq<char>>::empty());
        assert(crate::text::texts(r.ids@).to_set() =~= r.pool@.dom());
        assert(r@.remaining =~= Seq::<Seq<char>>::empty());
        r
    }

    /// The ids that are neither shown nor kept, only the local files or only the others.
    fn waiting(&self, kept: &StringHashSet, local: bool) -> (r: Vec<String>)
        requires
            self.wf(),
        ensures
            crate::text::texts(r@).no_duplicates(),
            crate::text::texts(r@).to_set() == group(
                self.pool@,
                self.shown_current_cycle@.union(kept@),
                local,
            ),
    {
        let ghost all = crate::text::texts(self.ids@);
        let ghost gone = self.shown_current_cycle@.union(kept@);
        let ghost wanted = group(self.pool@, gone, local);
        let mut r: Vec<String> = Vec::new();
        let mut i: usize = 0;
        while i < self.ids.len()
            invariant
                self.wf(),
                all == crate::text::texts(self.ids@),
                gone == self.shown_current_cycle@.union(kept@),
                wanted == group(self.pool@, gone, local),
                i <= self.ids@.len(),
                crate::text::texts(r@).no_duplicates(),
                forall|k: int|
                    0 <= k < r@.len() ==> wanted.contains(#[trigger] crate::text::texts(r@)[k])
                        && all.take(i as int).contains(crate::text::texts(r@)[k]),
                forall|k: int|
                    0 <= k < i && wanted.contains(#[trigger] all[k]) ==> crate::text::texts(
                        r@,
                    ).contains(all[k]),
            decreases self.ids@.len() - i,
        {
            let id = self.ids[i].as_str();
            let ghost before = crate::text::texts(r@);
            proof {
                assert(id@ == all[i as int]);
                assert(all.to_set().contains(id@));
                if before.contains(id@) {
                    let k = before.index_of(id@);
                    assert(all.take(i as int).contains(before[k]));
                    let m = all.take(i as int).index_of(id@);
                    assert(all[m] == all[i as int]);
                }
                assert forall|x: Seq<char>| all.take(i as int).contains(x) implies all.take(
                    i + 1,
                ).contains(x) by {
                    let m = all.take(i as int).index_of(x);
                    assert(all.take(i + 1)[m] == x);
                }
                assert(all.take(i + 1)[i as int] == id@);
            }
            if !self.shown_current_cycle.contains(id) && !kept.contains(id) {
                if let Some(candidate) = self.pool.get(id) {
                    if candidate.is_local() == local {
                        r.push(self.ids[i].clone());
                        proof {
                            assert(crate::text::texts(r@) =~= before.push(id@));
                            assert forall|x: Seq<char>| before.contains(x) implies before.push(
                                id@,
                            ).contains(x) by {
                                let m = before.index_of(x);
                                assert(before.push(id@)[m] == x);
                            }
                            assert(before.push(id@)[before.len() as int] == id@);
                        }
                    }
                }
            }
            i += 1;
        }
        proof {
            let found = crate::text::texts(r@);
            assert forall|id: Seq<char>| found.to_set().contains(id) <==> wanted.contains(id) by {
                if found.contains(id) {
                    let k = found.index_of(id);
                    assert(wanted.contains(found[k]));
                }
                if wanted.contains(id) {
                    assert(all.to_set().contains(id));
                    let k = all.index_of(id);
                    assert(all[k] == id);
                }
            }
            assert(found.to_set() =~= wanted);
        }
        r
    }

    /// An order of the ids that are neither shown nor kept: local files first, then the remote
    /// ones; each group is shuffled so the order within a group stays random.
    fn arrange(&mut self, kept: &StringHashSet) -> (r: Vec<String>)
        requires
            old(self).wf(),
        ensures
            final(self).wf(),
            final(self).pool == old(self).pool,
            final(self).ids == old(self).ids,
            final(self).remaining == old(self).remaining,
            final(self).shown_current_cycle == old(self).shown_current_cycle,
            arranged(
                old(self).pool@,
                old(self).pool@.dom().difference(old(self).shown_current_cycle@.union(kept@)),
                crate::text::texts(r@),
            ),
    {
        let mut local_ids = self.waiting(kept, true);
        let mut remote_ids = self.waiting(kept, false);
        let ghost locals = crate::text::texts(local_ids@);
        let ghost remotes = crate::text::texts(remote_ids@);
        shuffle(&mut local_ids, &mut self.rng);
        shuffle(&mut remote_ids, &mut self.rng);
        proof {
            let gone = self.shown_current_cycle@.union(kept@);
            lemma_permutation(locals, crate::text::texts(local_ids@));
            lemma_permutation(remotes, crate::text::texts(remote_ids@));
            lemma_locals_first(
                self.pool@,
                gone,
                crate::text::texts(local_ids@),
                crate::text::texts(remote_ids@),
            );
        }
        let ghost first = local_ids@;
        let ghost second = remote_ids@;
        local_ids.append(&mut remote_ids);
        assert(crate::text::texts(local_ids@) =~= crate::text::texts(first) + crate::text::texts(
            second,
        ));
        local_ids
    }

    fn refill_cycle(&mut self)
        requires
            old(self).wf(),
        ensures
            final(self).wf(),
            refilled(old(self)@, final(self)@),
    {
        if self.ids.len() == 0 {
            self.remaining.clear();
            proof {
                assert(crate::text::texts(self.ids@).to_set() =~= Set::empty());
                assert(self@.remaining =~= Seq::<Seq<char>>::empty());
            }
            return;
        }
        proof {
            crate::text::texts(self.ids@).unique_seq_to_set();
        }
        if self.shown_current_cycle.len() >= self.ids.len() {
            self.shown_current_cycle.clear();
        }
        let ghost mid = self@;
        assert(mid.remaining == old(self)@.remaining);
        let none = StringHashSet::new();
        let order = self.arrange(&none);
        proof {
            assert(mid.shown.union(none@) =~= mid.shown);
        }
        self.set_remaining(order);
        proof {
            assert forall|i: int| 0 <= i < self@.remaining.len() implies self@.pool.contains_key(
                #[trigger] self@.remaining[i],
            ) by {
                assert(self@.remaining.to_set().contains(self@.remaining[i]));
            }
        }
    }

    /// Appends ids to those to come.
    fn enqueue(&mut self, order: Vec<String>)
        ensures
            final(self).pool == old(self).pool,
            final(self).ids == old(self).ids,
            final(self).shown_current_cycle == old(self).shown_current_cycle,
            crate::text::texts(final(self).remaining@) == crate::text::texts(old(self).remaining@)
                + crate::text::texts(order@),
    {
        let ghost before = crate::text::texts(self.remaining@);
        let mut i: usize = 0;
        assert(before =~= before + crate::text::texts(order@).take(0));
        while i < order.len()
            invariant
                i <= order@.len(),
                self.pool == old(self).pool,
                self.ids == old(self).ids,
                self.shown_current_cycle == old(self).shown_current_cycle,
                crate::text::texts(self.remaining@) == before + crate::text::texts(order@).take(
                    i as int,
                ),
            decreases order@.len() - i,
        {
            let ghost now = crate::text::texts(self.remaining@);
            self.remaining.push_back(order[i].clone());
            proof {
                assert(crate::text::texts(self.remaining@) =~= now.push(order@[i as int]@));
                assert(crate::text::texts(order@).take(i + 1) =~= crate::text::texts(order@).take(
                    i as int,
                ).push(order@[i as int]@));
            }
            i += 1;
        }
        assert(crate::text::texts(order@).take(i as int) =~= crate::text::texts(order@));
    }

    /// The ids to come, as a list.
    fn queued(&self) -> (r: Vec<String>)
        ensures
            crate::text::texts(r@) == crate::text::texts(self.remaining@),
    {
        let mut r: Vec<String> = Vec::new();
        let mut i: usize = 0;
        while i < self.remaining.len()
            invariant
                i <= self.remaining@.len(),
                crate::text::texts(r@) == crate::text::texts(self.remaining@).take(i as int),
            decreases self.remaining@.len() - i,
        {
            let ghost before = crate::text::texts(r@);
            r.push(self.remaining[i].clone());
            proof {
                assert(crate::text::texts(r@) =~= before.push(self.remaining@[i as int]@));
                assert(crate::text::texts(self.remaining@).take(i + 1) =~= before.push(
                    self.remaining@[i as int]@,
                ));
            }
            i += 1;
        }
        assert(crate::text::texts(self.remaining@).take(i as int) =~= crate::text::texts(
            self.remaining@,
        ));
        r
    }

    /// Replaces what is to come.
    fn set_remaining(&mut self, order: Vec<String>)
        ensures
            final(self).pool == old(self).pool,
            final(self).ids == old(self).ids,
            final(self).shown_current_cycle == old(self).shown_current_cycle,
            crate::text::texts(final(self).remaining@) == crate::text::texts(order@),
    {
        self.remaining.clear();
        self.enqueue(order);
        assert(crate::text::texts(self.remaining@) =~= crate::text::texts(order@));
    }

    /// Replaces the candidates. Ids that are still there keep their place in the cycle; new ones
    /// are appended, local files ahead of remote images.
    pub fn rebuild_pool(&mut self, candidates: Vec<ImageCandidate>)
        requires
            old(self).wf(),
        ensures
            final(self).wf(),
            rebuilt(old(self)@, candidates@, final(self)@),
    {
        let ghost before = self@;
        let (pool, ids) = collect_pool(&candidates);
        let kept = keep_known(&self.queued(), &pool);
        let shown = members(&ids, &self.shown_current_cycle);
        let ghost kept_ids = crate::text::texts(kept@);
        self.pool = pool;
        self.ids = ids;
        self.shown_current_cycle = shown;
        self.set_remaining(kept);
        let kept_set = set_of(&self.queued());
        proof {
            lemma_still_pooled(before.remaining, self@.pool);
            assert(before.shown.intersect(self@.pool.dom()) =~= self@.shown);
        }
        let order = self.arrange(&kept_set);
        self.enqueue(order);
        let ghost mid = self@;
        proof {
            let tail = crate::text::texts(order@);
            assert(mid.remaining.take(kept_ids.len() as int) =~= kept_ids);
            assert(mid.remaining.skip(kept_ids.len() as int) =~= tail);
            assert(mid.pool.dom().difference(mid.shown.union(kept_ids.to_set()))
                =~= mid.pool.dom().difference(mid.shown).difference(kept_ids.to_set()));
            assert(repooled(before, pooled(candidates@), mid));
            assert forall|i: int| 0 <= i < mid.remaining.len() implies mid.pool.contains_key(
                #[trigger] mid.remaining[i],
            ) by {
                if i >= kept_ids.len() {
                    assert(tail.to_set().contains(tail[i - kept_ids.len()]));
                }
            }
        }
        self.top_up();
    }

    /// Starts the next round where nothing is to come.
    fn top_up(&mut self)
        requires
            old(self).wf(),
        ensures
            final(self).wf(),
            topped_up(old(self)@, final(self)@),
    {
        if self.remaining.len() == 0 {
            self.refill_cycle();
        }
    }

    /// Takes up a saved cycle, as far as the pool still holds its ids.
    pub fn restore_state(&mut self, state: &PersistedState)
        requires
            old(self).wf(),
        ensures
            final(self).wf(),
            topped_up(taken_up(old(self)@, *state), final(self)@),
    {
        let ghost before = self@;
        let kept = keep_known(&state.remaining_queue, &self.pool);
        let shown = members(&self.ids, &set_of(&state.shown_ids));
        self.shown_current_cycle = shown;
        self.set_remaining(kept);
        proof {
            lemma_still_pooled(crate::text::texts(state.remaining_queue@), before.pool);
            assert(self@ =~= taken_up(before, *state));
        }
        self.top_up();
    }

    /// The cycle as it is saved.
    pub fn export_state(&self) -> (r: PersistedState)
        requires
            self.wf(),
        ensures
            crate::text::texts(r.remaining_queue@) == self@.remaining,
            crate::text::texts(r.shown_ids@).to_set() == self@.shown,
            crate::text::texts(r.shown_ids@).no_duplicates(),
            r.last_image_id is None,
            r.favorites@.len() == 0,
    {
        let shown_ids = self.shown_list();
        PersistedState {
            remaining_queue: self.queued(),
            shown_ids,
            last_image_id: None,
            favorites: Vec::new(),
        }
    }

    fn shown_list(&self) -> (r: Vec<String>)
        requires
            self.wf(),
        ensures
            crate::text::texts(r@).no_duplicates(),
            crate::text::texts(r@).to_set() == self@.shown,
    {
        let ghost all = crate::text::texts(self.ids@);
        let mut r: Vec<String> = Vec::new();
        let mut i: usize = 0;
        while i < self.ids.len()
            invariant
                self.wf(),
                all == crate::text::texts(self.ids@),
                i <= self.ids@.len(),
                crate::text::texts(r@).no_duplicates(),
                forall|id: Seq<char>| #[trigger]
                    crate::text::texts(r@).contains(id) <==> all.take(i as int).contains(id)
                        && self@.shown.contains(id),
            decreases self.ids@.len() - i,
        {
            let ghost before = crate::text::texts(r@);
            let ghost id = all[i as int];
            proof {
                assert(self.ids@[i as int]@ == id);
                lemma_contains_push(all.take(i as int), id);
                assert(all.take(i + 1) =~= all.take(i as int).push(id));
                if all.take(i as int).contains(id) {
                    let m = all.take(i as int).index_of(id);
                    assert(all[m] == all[i as int]);
                }
            }
            if self.shown_current_cycle.contains(self.ids[i].as_str()) {
                r.push(self.ids[i].clone());
                proof {
                    assert(crate::text::texts(r@) =~= before.push(id));
                    lemma_contains_push(before, id);
                    assert(!before.contains(id));
                }
            }
            i += 1;
        }
        proof {
            let found = crate::text::texts(r@);
            assert(all.take(i as int) =~= all);
            assert forall|id: Seq<char>| found.to_set().contains(id) <==> self@.shown.contains(
                id,
            ) by {
                if self@.shown.contains(id) {
                    assert(all.to_set().contains(id));
                }
            }
            assert(found.to_set() =~= self@.shown);
        }
        r
    }

    /// Shows the next candidate: each one of the pool once per cycle.
    pub fn next(&mut self) -> (r: Option<ImageCandidate>)
        requires
            old(self).wf(),
        ensures
            final(self).wf(),
            r is Some <==> old(self)@.pool.dom().len() > 0,
            shown_next(old(self)@, r, final(self)@),
    {
        self.top_up();
        let ghost mid = self@;
        proof {
            lemma_something_to_come(old(self)@, mid);
        }
        match self.remaining.pop_front() {
            None => {
                assert(self@ =~= mid);
                None
            },
            Some(id) => {
                proof {
                    assert(crate::text::texts(self.remaining@) =~= mid.remaining.skip(1));
                    assert(mid.pool.contains_key(mid.remaining[0]));
                }
                self.shown_current_cycle.insert(id.clone());
                proof {
                    assert(self@ =~= mid.picked());
                    assert forall|i: int|
                        0 <= i < self@.remaining.len() implies self@.pool.contains_key(
                        #[trigger] self@.remaining[i],
                    ) by {
                        assert(self@.remaining[i] == mid.remaining[i + 1]);
                    }
                }
                match self.pool.get(id.as_str()) {
                    Some(candidate) => Some(candidate.clone()),
                    None => None,
                }
            },
        }
    }

    /// The candidate that comes next, not shown yet.
    pub fn peek_next(&mut self) -> (r: Option<ImageCandidate>)
        requires
            old(self).wf(),
        ensures
            final(self).wf(),
            topped_up(old(self)@, final(self)@),
            r is Some <==> old(self)@.pool.dom().len() > 0,
            match r {
                Some(candidate) => {
                    &&& final(self)@.remaining.len() > 0
                    &&& final(self)@.pool.contains_key(final(self)@.remaining[0])
                    &&& candidate == final(self)@.pool[final(self)@.remaining[0]]
                    &&& candidate.id@ == final(self)@.remaining[0]
                },
                None => final(self)@.remaining.len() == 0,
            },
    {
        self.top_up();
        proof {
            lemma_something_to_come(old(self)@, self@);
        }
        if self.remaining.len() == 0 {
            return None;
        }
        let id = &self.remaining[0];
        assert(id@ == self@.remaining[0]);
        assert(self@.pool.contains_key(self@.remaining[0]));
        match self.pool.get(id.as_str()) {
            Some(candidate) => Some(candidate.clone()),
            None => None,
        }
    }

    /// The number of candidates.
    pub fn pool_size(&self) -> (r: usize)
        ensures
            r == self@.pool.len(),
    {
        self.pool.len()
    }

    /// Every candidate of the pool, each once.
    pub fn candidates(&self) -> (r: Vec<ImageCandidate>)
        requires
            self.wf(),
        ensures
            r@.len() == self@.pool.dom().len(),
            forall|i: int|
                0 <= i < r@.len() ==> self@.pool.contains_key((#[trigger] r@[i]).id@)
                    && self@.pool[r@[i].id@] == r@[i],
            forall|i: int, j: int| 0 <= i < j < r@.len() ==> r@[i].id@ != r@[j].id@,
    {
        let ghost all = crate::text::texts(self.ids@);
        let mut r: Vec<ImageCandidate> = Vec::new();
        let mut i: usize = 0;
        while i < self.ids.len()
            invariant
                self.wf(),
                all == crate::text::texts(self.ids@),
                i <= self.ids@.len(),
                r@.len() == i,
                forall|k: int|
                    0 <= k < i ==> (#[trigger] r@[k]).id@ == all[k] && self@.pool.contains_key(
                        all[k],
                    ) && self@.pool[all[k]] == r@[k],
            decreases self.ids@.len() - i,
        {
            proof {
                assert(self.ids@[i as int]@ == all[i as int]);
                assert(all.to_set().contains(all[i as int]));
            }
            if let Some(candidate) = self.pool.get(self.ids[i].as_str()) {
                r.push(candidate.clone());
            }
            i += 1;
        }
        proof {
            all.unique_seq_to_set();
            assert forall|i: int, j: int| 0 <= i < j < r@.len() implies r@[i].id@
                != r@[j].id@ by {
                assert(all[i] != all[j]);
            }
        }
        r
    }

    /// Drops every candidate whose resolved local path is `target` (for example an image the user
    /// deleted from the picker). `resolved` gives for each id the path that its image was found
    /// at. Returns true if anything was removed.
    pub fn remove_by_path(&mut self, target: &str, resolved: &Vec<(String, String)>) -> (r: bool)
        requires
            old(self).wf(),
        ensures
            final(self).wf(),
            ({
                let gone = ids_at(old(self)@.pool, resolved@, target@);
                &&& r == (gone.len() > 0)
                &&& topped_up(dropped(old(self)@, gone), final(self)@)
            }),
    {
        let ghost before = self@;
        let ghost all = crate::text::texts(self.ids@);
        let ghost gone = ids_at(before.pool, resolved@, target@);
        let mut gone_ids = StringHashSet::new();
        let mut kept_ids: Vec<String> = Vec::new();
        let mut i: usize = 0;
        assert(before.pool.remove_keys(Set::empty()) =~= before.pool);
        assert(before.shown.difference(Set::empty()) =~= before.shown);
        while i < self.ids.len()
            invariant
                all == crate::text::texts(self.ids@),
                all.no_duplicates(),
                all.to_set() == before.pool.dom(),
                gone == ids_at(before.pool, resolved@, target@),
                i <= self.ids@.len(),
                self.ids == old(self).ids,
                self.remaining == old(self).remaining,
                before == old(self)@,
                self.pool@ == before.pool.remove_keys(gone_ids@),
                self.shown_current_cycle@ == before.shown.difference(gone_ids@),
                forall|id: Seq<char>| #[trigger]
                    gone_ids@.contains(id) <==> all.take(i as int).contains(id) && gone.contains(
                        id,
                    ),
                crate::text::texts(kept_ids@).no_duplicates(),
                forall|id: Seq<char>| #[trigger]
                    crate::text::texts(kept_ids@).contains(id) <==> all.take(i as int).contains(
                        id,
                    ) && !gone.contains(id),
            decreases self.ids@.len() - i,
        {
            let ghost id = all[i as int];
            let ghost kept_before = crate::text::texts(kept_ids@);
            proof {
                assert(self.ids@[i as int]@ == id);
                assert(all.to_set().contains(id));
                lemma_contains_push(all.take(i as int), id);
                assert(all.take(i + 1) =~= all.take(i as int).push(id));
                if all.take(i as int).contains(id) {
                    let m = all.take(i as int).index_of(id);
                    assert(all[m] == all[i as int]);
                }
            }
            if resolves(resolved, self.ids[i].as_str(), target) {
                let key = self.ids[i].clone();
                self.pool.remove(key.as_str());
                self.shown_current_cycle.remove(key.as_str());
                let ghost gone_before = gone_ids@;
                gone_ids.insert(key);
                proof {
                    assert(before.pool.remove_keys(gone_before).remove(id)
                        =~= before.pool.remove_keys(gone_before.insert(id)));
                    assert(before.shown.difference(gone_before).remove(id)
                        =~= before.shown.difference(gone_before.insert(id)));
                }
            } else {
                assert(!kept_before.contains(id));
                kept_ids.push(self.ids[i].clone());
                proof {
                    assert(crate::text::texts(kept_ids@) =~= kept_before.push(id));
                    lemma_contains_push(kept_before, id);
                }
            }
            i += 1;
        }
        proof {
            assert(all.take(i as int) =~= all);
            assert forall|id: Seq<char>| gone_ids@.contains(id) <==> gone.contains(id) by {
                if gone.contains(id) {
                    assert(all.to_set().contains(id));
                }
            }
            assert(gone_ids@ =~= gone);
            let kept = crate::text::texts(kept_ids@);
            assert(kept.to_set() =~= self.pool@.dom()) by {
                assert forall|id: Seq<char>|
                    kept.to_set().contains(id) <==> self.pool@.dom().contains(id) by {
                    assert(kept.contains(id) <==> all.contains(id)
                        && !gone.contains(id));
                    assert(all.to_set().contains(id) <==> all.contains(id));
                }
            }
        }
        self.ids = kept_ids;
        let kept = keep_others(&self.queued(), &gone_ids);
        self.set_remaining(kept);
        proof {
            assert(self@ =~= dropped(before, gone));
            lemma_dropped(before, gone);
        }
        let removed = !gone_ids.is_empty();
        proof {
            if removed {
                let id = choose|id: Seq<char>| gone.contains(id);
                assert(gone.contains(id));
            }
            assert(gone.finite());
            assert(removed == (gone.len() > 0)) by {
                if gone.len() == 0 {
                    assert(gone =~= Set::empty());
                }
            }
        }
        self.top_up();
        removed
    }
}

impl Default for RotationManager {
    fn default() -> (r: Self)
        ensures
            r.wf(),
            r@ == (Rotation {
                pool: Map::empty(),
                remaining: Seq::empty(),
                shown: Set::empty(),
            }),
    {
        Self::new()
    }
}

/// What is behind a longer list.
proof fn lemma_contains_push(s: Seq<Seq<char>>, id: Seq<char>)
    ensures
        forall|x: Seq<char>| #[trigger] s.push(id).contains(x) <==> s.contains(x) || x == id,
{
    assert forall|x: Seq<char>| #[trigger] s.push(id).contains(x) <==> s.contains(x) || x
        == id by {
        if s.contains(x) {
            let m = s.index_of(x);
            assert(s.push(id)[m] == x);
        }
        assert(s.push(id)[s.len() as int] == id);
    }
}

proof fn lemma_still_pooled(ids: Seq<Seq<char>>, pool: Map<Seq<char>, ImageCandidate>)
    ensures
        forall|i: int|
            0 <= i < still_pooled(ids, pool).len() ==> pool.contains_key(
                #[trigger] still_pooled(ids, pool)[i],
            ),
    decreases ids.len(),
{
    reveal(Seq::filter);
    if ids.len() > 0 {
        lemma_still_pooled(ids.drop_last(), pool);
    }
}

proof fn lemma_dropped(before: Rotation, gone: Set<Seq<char>>)
    requires
        before.wf(),
    ensures
        dropped(before, gone).wf(),
    decreases before.remaining.len(),
{
    reveal(Seq::filter);
    let after = dropped(before, gone);
    assert(after.pool.dom() =~= before.pool.dom().difference(gone));
    if before.remaining.len() > 0 {
        let init = Rotation { remaining: before.remaining.drop_last(), ..before };
        assert forall|i: int| 0 <= i < init.remaining.len() implies init.pool.contains_key(
            #[trigger] init.remaining[i],
        ) by {
            assert(init.remaining[i] == before.remaining[i]);
        }
        lemma_dropped(init, gone);
        let last = before.remaining.last();
        assert(before.pool.contains_key(before.remaining[before.remaining.len() - 1]));
        let kept = dropped(init, gone).remaining;
        assert(after.remaining == if gone.contains(last) { kept } else { kept.push(last) });
        assert forall|i: int| 0 <= i < after.remaining.len() implies after.pool.contains_key(
            #[trigger] after.remaining[i],
        ) by {
            if i < kept.len() {
                assert(dropped(init, gone).pool.contains_key(kept[i]));
            }
        }
    }
}

/// Where the pool is not empty there is something to come.
proof fn lemma_something_to_come(before: Rotation, mid: Rotation)
    requires
        before.wf(),
        topped_up(before, mid),
    ensures
        mid.remaining.len() > 0 <==> before.pool.dom().len() > 0,
{
    let dom = before.pool.dom();
    if before.remaining.len() > 0 {
        assert(dom.contains(before.remaining[0]));
        if dom.len() == 0 {
            assert(dom =~= Set::empty());
        }
    } else if dom.len() > 0 {
        if mid.remaining.len() == 0 {
            assert(mid.remaining.to_set() =~= Set::empty());
            assert(dom.difference(mid.shown) =~= Set::empty());
            assert forall|id: Seq<char>| dom.contains(id) implies mid.shown.contains(id) by {
                assert(!dom.difference(mid.shown).contains(id));
            }
            if mid.shown == Set::<Seq<char>>::empty() {
                assert(dom =~= Set::empty());
            } else {
                assert(mid.shown =~= dom);
            }
        }
    }
}

/// The candidates by id, and their ids in the order of first occurrence.
fn collect_pool(candidates: &Vec<ImageCandidate>) -> (r: (
    StringHashMap<ImageCandidate>,
    Vec<String>,
))
    ensures
        r.0@ == pooled(candidates@),
        r.0@.dom().finite(),
        crate::text::texts(r.1@).no_duplicates(),
        crate::text::texts(r.1@).to_set() == r.0@.dom(),
        forall|id: Seq<char>| #[trigger] r.0@.contains_key(id) ==> r.0@[id].id@ == id,
{
    let mut pool: StringHashMap<ImageCandidate> = StringHashMap::new();
    let mut ids: Vec<String> = Vec::new();
    let mut i: usize = 0;
    assert(candidates@.take(0) =~= Seq::<ImageCandidate>::empty());
    while i < candidates.len()
        invariant
            i <= candidates@.len(),
            pool@ == pooled(candidates@.take(i as int)),
            pool@.dom().finite(),
            crate::text::texts(ids@).no_duplicates(),
            forall|id: Seq<char>| #[trigger]
                crate::text::texts(ids@).contains(id) <==> pool@.contains_key(id),
            forall|id: Seq<char>| #[trigger] pool@.contains_key(id) ==> pool@[id].id@ == id,
        decreases candidates@.len() - i,
    {
        let candidate = candidates[i].clone();
        let ghost before = crate::text::texts(ids@);
        let ghost id = candidate.id@;
        proof {
            assert(candidates@.take(i + 1).drop_last() =~= candidates@.take(i as int));
            assert(candidates@.take(i + 1).last() == candidate);
            lemma_contains_push(before, id);
        }
        if !pool.contains_key(candidate.id.as_str()) {
            assert(!before.contains(id));
            ids.push(candidate.id.clone());
            assert(crate::text::texts(ids@) =~= before.push(id));
        }
        pool.insert(candidate.id.clone(), candidate);
        i += 1;
    }
    proof {
        assert(candidates@.take(i as int) =~= candidates@);
        assert forall|id: Seq<char>|
            crate::text::texts(ids@).to_set().contains(id) <==> pool@.dom().contains(id) by {
            assert(crate::text::texts(ids@).contains(id) <==> pool@.contains_key(id));
        }
        assert(crate::text::texts(ids@).to_set() =~= pool@.dom());
    }
    (pool, ids)
}

/// The ids that the pool holds, in their order.
fn keep_known(ids: &Vec<String>, pool: &StringHashMap<ImageCandidate>) -> (r: Vec<String>)
    ensures
        crate::text::texts(r@) == still_pooled(crate::text::texts(ids@), pool@),
{
    let ghost all = crate::text::texts(ids@);
    let ghost keep = |id: Seq<char>| pool@.contains_key(id);
    let mut r: Vec<String> = Vec::new();
    let mut i: usize = 0;
    proof {
        reveal(Seq::filter);
        assert(all.take(0).filter(keep) =~= Seq::<Seq<char>>::empty());
        assert(crate::text::texts(r@) =~= Seq::<Seq<char>>::empty());
    }
    while i < ids.len()
        invariant
            all == crate::text::texts(ids@),
            keep == (|id: Seq<char>| pool@.contains_key(id)),
            i <= ids@.len(),
            crate::text::texts(r@) == all.take(i as int).filter(keep),
        decreases ids@.len() - i,
    {
        let ghost before = crate::text::texts(r@);
        proof {
            reveal(Seq::filter);
            assert(ids@[i as int]@ == all[i as int]);
            assert(all.take(i + 1).drop_last() =~= all.take(i as int));
        }
        if pool.contains_key(ids[i].as_str()) {
            r.push(ids[i].clone());
            assert(crate::text::texts(r@) =~= before.push(all[i as int]));
        }
        i += 1;
    }
    assert(all.take(i as int) =~= all);
    r
}

/// The ids that are not in `gone`, in their order.
fn keep_others(ids: &Vec<String>, gone: &StringHashSet) -> (r: Vec<String>)
    ensures
        crate::text::texts(r@) == crate::text::texts(ids@).filter(
            |id: Seq<char>| !gone@.contains(id),
        ),
{
    let ghost all = crate::text::texts(ids@);
    let ghost keep = |id: Seq<char>| !gone@.contains(id);
    let mut r: Vec<String> = Vec::new();
    let mut i: usize = 0;
    proof {
        reveal(Seq::filter);
        assert(all.take(0).filter(keep) =~= Seq::<Seq<char>>::empty());
        assert(crate::text::texts(r@) =~= Seq::<Seq<char>>::empty());
    }
    while i < ids.len()
        invariant
            all == crate::text::texts(ids@),
            keep == (|id: Seq<char>| !gone@.contains(id)),
            i <= ids@.len(),
            crate::text::texts(r@) == all.take(i as int).filter(keep),
        decreases ids@.len() - i,
    {
        let ghost before = crate::text::texts(r@);
        proof {
            reveal(Seq::filter);
            assert(ids@[i as int]@ == all[i as int]);
            assert(all.take(i + 1).drop_last() =~= all.take(i as int));
        }
        if !gone.contains(ids[i].as_str()) {
            r.push(ids[i].clone());
            assert(crate::text::texts(r@) =~= before.push(all[i as int]));
        }
        i += 1;
    }
    assert(all.take(i as int) =~= all);
    r
}

/// The ids of a list as a set.
fn set_of(ids: &Vec<String>) -> (r: StringHashSet)
    ensures
        r@ == crate::text::texts(ids@).to_set(),
{
    let ghost all = crate::text::texts(ids@);
    let mut r = StringHashSet::new();
    let mut i: usize = 0;
    while i < ids.len()
        invariant
            all == crate::text::texts(ids@),
            i <= ids@.len(),
            forall|id: Seq<char>| #[trigger]
                r@.contains(id) <==> all.take(i as int).contains(id),
        decreases ids@.len() - i,
    {
        proof {
            lemma_contains_push(all.take(i as int), all[i as int]);
            assert(all.take(i + 1) =~= all.take(i as int).push(all[i as int]));
        }
        r.insert(ids[i].clone());
        i += 1;
    }
    assert(all.take(i as int) =~= all);
    assert(r@ =~= all.to_set());
    r
}

/// The ids of a list that are in a set.
fn members(ids: &Vec<String>, set: &StringHashSet) -> (r: StringHashSet)
    ensures
        r@ == set@.intersect(crate::text::texts(ids@).to_set()),
{
    let ghost all = crate::text::texts(ids@);
    let mut r = StringHashSet::new();
    let mut i: usize = 0;
    while i < ids.len()
        invariant
            all == crate::text::texts(ids@),
            i <= ids@.len(),
            forall|id: Seq<char>| #[trigger]
                r@.contains(id) <==> all.take(i as int).contains(id) && set@.contains(id),
        decreases ids@.len() - i,
    {
        proof {
            lemma_contains_push(all.take(i as int), all[i as int]);
            assert(all.take(i + 1) =~= all.take(i as int).push(all[i as int]));
            assert(ids@[i as int]@ == all[i as int]);
        }
        if set.contains(ids[i].as_str()) {
            r.insert(ids[i].clone());
        }
        i += 1;
    }
    assert(all.take(i as int) =~= all);
    assert(r@ =~= set@.intersect(all.to_set()));
    r
}

/// Whether an image was found at `target`.
fn resolves(resolved: &Vec<(String, String)>, id: &str, target: &str) -> (r: bool)
    ensures
        r == resolves_to(resolved@, id@, target@),
{
    let mut i: usize = 0;
    while i < resolved.len()
        invariant
            i <= resolved@.len(),
            forall|k: int|
                0 <= k < i ==> !((#[trigger] resolved@[k]).0@ == id@ && resolved@[k].1@
                    == target@),
        decreases resolved@.len() - i,
    {
        if same_text(resolved[i].0.as_str(), id) && same_text(resolved[i].1.as_str(), target) {
            assert(resolved@[i as int].0@ == id@);
            return true;
        }
        i += 1;
    }
    false
}

/// A new round is fair, complete and sound.
proof fn lemma_refilled(before: Rotation, after: Rotation)
    requires
        before.wf(),
        refilled(before, after),
    ensures
        after.wf(),
        after.fair(),
        after.complete(),
{
    if before.pool.dom().len() == 0 {
        assert(before.pool.dom() =~= Set::empty());
    } else {
        let rest = after.pool.dom().difference(after.shown);
        assert forall|i: int| 0 <= i < after.remaining.len() implies rest.contains(
            #[trigger] after.remaining[i],
        ) by {
            assert(after.remaining.to_set().contains(after.remaining[i]));
        }
        assert forall|id: Seq<char>| after.pool.contains_key(id) implies #[trigger]
            after.shown.contains(id) || after.remaining.contains(id) by {
            if !after.shown.contains(id) {
                assert(after.remaining.to_set().contains(id));
            }
        }
    }
}

proof fn lemma_topped_up(before: Rotation, after: Rotation)
    requires
        before.wf(),
        before.fair(),
        topped_up(before, after),
    ensures
        after.wf(),
        after.fair(),
        before.complete() ==> after.complete(),
{
    if before.remaining.len() == 0 {
        lemma_refilled(before, after);
    }
}

/// Filtering keeps a list free of duplicates, and finds what passes.
proof fn lemma_filtered(s: Seq<Seq<char>>, keep: spec_fn(Seq<char>) -> bool)
    ensures
        s.no_duplicates() ==> s.filter(keep).no_duplicates(),
        forall|x: Seq<char>| #[trigger] s.filter(keep).contains(x) <==> s.contains(x) && keep(x),
    decreases s.len(),
{
    reveal(Seq::filter);
    if s.len() > 0 {
        let init = s.drop_last();
        let last = s.last();
        lemma_filtered(init, keep);
        lemma_contains_push(init, last);
        lemma_contains_push(init.filter(keep), last);
        assert(s =~= init.push(last));
        if s.no_duplicates() {
            assert(!init.contains(last)) by {
                if init.contains(last) {
                    let m = init.index_of(last);
                    assert(s[m] == s[s.len() - 1]);
                }
            }
            assert(init.no_duplicates()) by {
                assert forall|i: int, j: int|
                    0 <= i < init.len() && 0 <= j < init.len() && i != j implies init[i]
                    != init[j] by {
                    assert(s[i] != s[j]);
                }
            }
            assert(!init.filter(keep).contains(last));
        }
    } else {
        assert(s.filter(keep) =~= s);
        assert forall|x: Seq<char>| !(#[trigger] s.filter(keep).contains(x)) by {}
    }
}

/// A new pool leaves a fair cycle fair, and every candidate of it is to come or was shown.
pub proof fn law_new_pool_keeps_the_cycle_fair(
    before: Rotation,
    candidates: Seq<ImageCandidate>,
    after: Rotation,
)
    requires
        before.fair(),
        rebuilt(before, candidates, after),
    ensures
        after.wf(),
        after.fair(),
        after.complete(),
{
    law_pool_holds_only_the_candidates(candidates);
    let pool = pooled(candidates);
    let mid = choose|mid: Rotation| #[trigger] repooled(before, pool, mid) && topped_up(mid, after);
    let keep = |id: Seq<char>| pool.contains_key(id);
    let kept = still_pooled(before.remaining, pool);
    let fresh = pool.dom().difference(mid.shown).difference(kept.to_set());
    let tail = mid.remaining.skip(kept.len() as int);
    lemma_filtered(before.remaining, keep);
    assert(mid.remaining =~= kept + tail);
    assert forall|i: int| 0 <= i < tail.len() implies fresh.contains(#[trigger] tail[i]) by {
        assert(tail.to_set().contains(tail[i]));
    }
    assert forall|i: int| 0 <= i < kept.len() implies pool.contains_key(#[trigger] kept[i])
        && !mid.shown.contains(kept[i]) && kept.to_set().contains(kept[i]) by {
        assert(kept.contains(kept[i]));
        let m = before.remaining.index_of(kept[i]);
        assert(!before.shown.contains(before.remaining[m]));
    }
    assert(mid.remaining.no_duplicates());
    assert(mid.wf()) by {
        assert forall|i: int| 0 <= i < mid.remaining.len() implies mid.pool.contains_key(
            #[trigger] mid.remaining[i],
        ) by {
            if i >= kept.len() {
                assert(mid.remaining[i] == tail[i - kept.len()]);
            }
        }
    }
    assert(mid.fair()) by {
        assert forall|i: int| 0 <= i < mid.remaining.len() implies !mid.shown.contains(
            #[trigger] mid.remaining[i],
        ) by {
            if i >= kept.len() {
                assert(mid.remaining[i] == tail[i - kept.len()]);
            }
        }
    }
    assert(mid.complete()) by {
        assert forall|id: Seq<char>| mid.pool.contains_key(id) implies #[trigger]
            mid.shown.contains(id) || mid.remaining.contains(id) by {
            if !mid.shown.contains(id) {
                if kept.contains(id) {
                    let m = kept.index_of(id);
                    assert(mid.remaining[m] == id);
                } else {
                    assert(fresh.contains(id));
                    assert(tail.to_set().contains(id));
                    let m = tail.index_of(id);
                    assert(mid.remaining[m + kept.len()] == id);
                }
            }
        }
    }
    lemma_topped_up(mid, after);
}

/// Showing a candidate leaves a fair cycle fair; the candidate was not shown before in this cycle
/// and does not come again in it.
pub proof fn law_picking_keeps_the_cycle_fair(before: Rotation)
    requires
        before.wf(),
        before.fair(),
        before.remaining.len() > 0,
    ensures
        before.picked().wf(),
        before.picked().fair(),
        before.complete() ==> before.picked().complete(),
        !before.shown.contains(before.remaining[0]),
        before.picked().shown.contains(before.remaining[0]),
        !before.picked().remaining.contains(before.remaining[0]),
{
    let after = before.picked();
    let id = before.remaining[0];
    assert(before.pool.contains_key(id));
    assert forall|i: int| 0 <= i < after.remaining.len() implies after.remaining[i]
        == before.remaining[i + 1] by {}
    assert forall|i: int| 0 <= i < after.remaining.len() implies after.pool.contains_key(
        #[trigger] after.remaining[i],
    ) && !after.shown.contains(after.remaining[i]) by {
        assert(before.remaining[i + 1] != before.remaining[0]);
        assert(before.pool.contains_key(before.remaining[i + 1]));
    }
    if before.complete() {
        assert forall|other: Seq<char>| after.pool.contains_key(other) implies #[trigger]
            after.shown.contains(other) || after.remaining.contains(other) by {
            assert(before.shown.contains(other) || before.remaining.contains(other));
            if !after.shown.contains(other) {
                let m = before.remaining.index_of(other);
                assert(after.remaining[m - 1] == other);
            }
        }
    }
}

/// The next `n` candidates of a fair cycle are all different and were not shown in it before; a
/// complete cycle has shown the whole pool when nothing is left to come.
pub proof fn law_no_repeat_before_cycle_reset(before: Rotation, n: nat)
    requires
        before.wf(),
        before.fair(),
        n <= before.remaining.len(),
    ensures
        before.after_picks(n).remaining == before.remaining.skip(n as int),
        before.after_picks(n).shown == before.shown.union(
            before.remaining.take(n as int).to_set(),
        ),
        before.after_picks(n).pool == before.pool,
        before.after_picks(n).wf(),
        before.after_picks(n).fair(),
        before.remaining.take(n as int).no_duplicates(),
        before.remaining.take(n as int).to_set().disjoint(before.shown),
        before.complete() && n == before.remaining.len() ==> before.after_picks(n).shown
            == before.pool.dom(),
    decreases n,
{
    let picks = before.remaining.take(n as int);
    assert(before.remaining.skip(0) =~= before.remaining);
    if n == 0 {
        assert(picks.to_set() =~= Set::empty());
        assert(before.shown.union(picks.to_set()) =~= before.shown);
    } else {
        let earlier = (n - 1) as nat;
        let mid = before.after_picks(earlier);
        law_no_repeat_before_cycle_reset(before, earlier);
        law_picking_keeps_the_cycle_fair(mid);
        let init = before.remaining.take(earlier as int);
        assert(mid.remaining[0] == before.remaining[earlier as int]);
        assert(mid.remaining.skip(1) =~= before.remaining.skip(n as int));
        assert(picks =~= init.push(mid.remaining[0]));
        lemma_contains_push(init, mid.remaining[0]);
        assert(before.after_picks(n).shown =~= before.shown.union(picks.to_set())) by {
            assert forall|id: Seq<char>| picks.to_set().contains(id) <==> init.to_set().contains(id)
                || id == mid.remaining[0] by {
                assert(picks.contains(id) <==> init.contains(id) || id == mid.remaining[0]);
            }
        }
    }
    assert forall|id: Seq<char>| picks.to_set().contains(id) implies !before.shown.contains(
        id,
    ) by {
        let m = picks.index_of(id);
        assert(picks[m] == before.remaining[m]);
    }
    if before.complete() && n == before.remaining.len() {
        assert(picks =~= before.remaining);
        assert forall|id: Seq<char>| before.after_picks(n).shown.contains(id)
            <==> before.pool.dom().contains(id) by {
            if before.pool.contains_key(id) {
                assert(before.shown.contains(id) || before.remaining.contains(id));
            }
            if picks.contains(id) {
                let m = picks.index_of(id);
                assert(before.pool.contains_key(before.remaining[m]));
            }
        }
        assert(before.after_picks(n).shown =~= before.pool.dom());
    }
}

/// Once the whole pool was shown, the next round is a whole cycle again: every candidate is to
/// come once, local files first.
pub proof fn law_new_cycle_holds_the_whole_pool(before: Rotation, after: Rotation)
    requires
        before.wf(),
        before.shown == before.pool.dom(),
        before.remaining.len() == 0,
        topped_up(before, after),
    ensures
        arranged(after.pool, after.pool.dom(), after.remaining),
{
    let dom = before.pool.dom();
    if dom.len() == 0 {
        assert(dom =~= Set::empty());
        assert(after.remaining.to_set() =~= dom);
    } else {
        assert(dom.difference(Set::empty()) =~= dom);
    }
}

/// A pool that replaces an empty one is shown with its local files first.
pub proof fn law_fresh_pool_shows_local_files_first(
    before: Rotation,
    candidates: Seq<ImageCandidate>,
    after: Rotation,
)
    requires
        before.remaining.len() == 0,
        before.shown == Set::<Seq<char>>::empty(),
        rebuilt(before, candidates, after),
    ensures
        after.pool == pooled(candidates),
        arranged(after.pool, after.pool.dom(), after.remaining),
{
    law_pool_holds_only_the_candidates(candidates);
    let pool = pooled(candidates);
    let mid = choose|mid: Rotation| #[trigger] repooled(before, pool, mid) && topped_up(mid, after);
    let kept = still_pooled(before.remaining, pool);
    reveal(Seq::filter);
    assert(kept =~= Seq::<Seq<char>>::empty());
    assert(kept.to_set() =~= Set::empty());
    assert(mid.shown =~= Set::empty());
    assert(pool.dom().difference(mid.shown).difference(kept.to_set()) =~= pool.dom());
    assert(mid.remaining.skip(0) =~= mid.remaining);
    if mid.remaining.len() == 0 {
        assert(mid.remaining.to_set() =~= Set::empty());
        assert(pool.dom() =~= Set::empty());
        assert(after.remaining.to_set() =~= Set::empty());
    }
}

/// Whether a rotation stands between two cycles: at the start of one, or behind the end of one.
pub open spec fn between_cycles(rotation: Rotation) -> bool {
    let all = rotation.pool.dom();
    &&& rotation.wf()
    &&& {
        ||| rotation.remaining.len() == 0 && rotation.shown == all
        ||| arranged(rotation.pool, all, rotation.remaining) && rotation.shown == Set::<
            Seq<char>,
        >::empty()
    }
}

/// Whether `shown` are the candidates that one call after the other shows, with nothing else
/// between. `states` are the rotations before, between and after the calls.
pub open spec fn shown_in_turn(
    states: Seq<Rotation>,
    shown: Seq<Option<ImageCandidate>>,
) -> bool {
    &&& states.len() == shown.len() + 1
    &&& forall|i: int|
        0 <= i < shown.len() ==> shown_next(#[trigger] states[i], shown[i], states[i + 1])
}

/// Whether candidates are those of the whole pool, each once, local files first.
pub open spec fn whole_cycle(
    pool: Map<Seq<char>, ImageCandidate>,
    shown: Seq<Option<ImageCandidate>>,
) -> bool {
    exists|order: Seq<Seq<char>>| #[trigger]
        arranged(pool, pool.dom(), order) && shows_order(pool, order, shown)
}

/// Whether candidates are those of the pool with the ids of `order`.
pub open spec fn shows_order(
    pool: Map<Seq<char>, ImageCandidate>,
    order: Seq<Seq<char>>,
    shown: Seq<Option<ImageCandidate>>,
) -> bool {
    &&& shown.len() == order.len()
    &&& forall|i: int|
        0 <= i < shown.len() ==> pool.contains_key(order[i]) && (#[trigger] shown[i]) == Some(
            pool[order[i]],
        ) && pool[order[i]].id@ == order[i]
}

/// The first round behind `before` shows the whole pool and ends the cycle.
proof fn lemma_one_cycle(states: Seq<Rotation>, shown: Seq<Option<ImageCandidate>>)
    requires
        shown_in_turn(states, shown),
        between_cycles(states[0]),
        shown.len() == states[0].pool.dom().len(),
    ensures
        whole_cycle(states[0].pool, shown),
        between_cycles(states[shown.len() as int]),
        states[shown.len() as int].pool == states[0].pool,
{
    let before = states[0];
    let pool = before.pool;
    let n = shown.len();
    if n == 0 {
        let none = Seq::<Seq<char>>::empty();
        assert(pool.dom() =~= Set::empty());
        assert(none.to_set() =~= pool.dom());
        assert(arranged(pool, pool.dom(), none));
        assert(shows_order(pool, none, shown));
    } else {
        assert(shown_next(states[0], shown[0], states[1]));
        let mid = choose|mid: Rotation|
            {
                &&& #[trigger] topped_up(before, mid)
                &&& match shown[0] {
                    Some(candidate) => {
                        &&& mid.remaining.len() > 0
                        &&& mid.pool.contains_key(mid.remaining[0])
                        &&& candidate == mid.pool[mid.remaining[0]]
                        &&& candidate.id@ == mid.remaining[0]
                        &&& states[1] == mid.picked()
                    },
                    None => mid.remaining.len() == 0 && states[1] == mid,
                }
            };
        let order = mid.remaining;
        if before.remaining.len() == 0 {
            if before.shown == Set::<Seq<char>>::empty() {
                assert(before.remaining.to_set() =~= Set::empty());
            }
            law_new_cycle_holds_the_whole_pool(before, mid);
            lemma_refilled(before, mid);
        }
        assert(mid.pool == pool);
        assert(mid.shown == Set::<Seq<char>>::empty());
        assert(arranged(pool, pool.dom(), order));
        order.unique_seq_to_set();
        assert(order.len() == n);
        assert(mid.complete()) by {
            assert forall|id: Seq<char>| mid.pool.contains_key(id) implies #[trigger]
                mid.shown.contains(id) || mid.remaining.contains(id) by {
                assert(order.to_set().contains(id));
            }
        }
        lemma_picks_in_turn(states, shown, mid, n);
        law_no_repeat_before_cycle_reset(mid, n);
        assert(shows_order(pool, order, shown));
        assert(mid.after_picks(n).remaining =~= Seq::<Seq<char>>::empty());
    }
}

/// After the first call of a round the next ones show what is to come, in its order.
proof fn lemma_picks_in_turn(
    states: Seq<Rotation>,
    shown: Seq<Option<ImageCandidate>>,
    mid: Rotation,
    n: nat,
)
    requires
        shown_in_turn(states, shown),
        1 <= n <= shown.len(),
        n <= mid.remaining.len(),
        mid.wf(),
        mid.fair(),
        shown[0] is Some,
        states[1] == mid.picked(),
        shown[0] == Some(mid.pool[mid.remaining[0]]),
        mid.pool[mid.remaining[0]].id@ == mid.remaining[0],
    ensures
        states[n as int] == mid.after_picks(n),
        forall|i: int|
            0 <= i < n ==> mid.pool.contains_key(mid.remaining[i]) && (#[trigger] shown[i]) == Some(
                mid.pool[mid.remaining[i]],
            ) && mid.pool[mid.remaining[i]].id@ == mid.remaining[i],
    decreases n,
{
    if n == 1 {
        assert(mid.after_picks(0) == mid);
        assert(mid.after_picks(1) == mid.after_picks(0).picked());
        assert(mid.pool.contains_key(mid.remaining[0]));
    } else {
        let earlier = (n - 1) as nat;
        lemma_picks_in_turn(states, shown, mid, earlier);
        law_no_repeat_before_cycle_reset(mid, earlier);
        assert(shown_next(states[earlier as int], shown[earlier as int], states[n as int]));
        assert(states[earlier as int].remaining[0] == mid.remaining[earlier as int]);
        assert(mid.pool.contains_key(mid.remaining[earlier as int]));
    }
}

/// However many candidates are shown after a fresh pool, one call after the other with nothing
/// else between: each block of as many calls as the pool has candidates shows every one of them
/// once, local files first.
pub proof fn law_every_cycle_shows_the_whole_pool(
    before: Rotation,
    candidates: Seq<ImageCandidate>,
    states: Seq<Rotation>,
    shown: Seq<Option<ImageCandidate>>,
    block: nat,
)
    requires
        before.remaining.len() == 0,
        before.shown == Set::<Seq<char>>::empty(),
        rebuilt(before, candidates, states[0]),
        shown_in_turn(states, shown),
        (block + 1) * pooled(candidates).dom().len() <= shown.len(),
    ensures
        whole_cycle(
            pooled(candidates),
            shown.subrange(
                (block * pooled(candidates).dom().len()) as int,
                ((block + 1) * pooled(candidates).dom().len()) as int,
            ),
        ),
{
    let pool = pooled(candidates);
    law_fresh_pool_shows_local_files_first(before, candidates, states[0]);
    assert(before.fair());
    law_new_pool_keeps_the_cycle_fair(before, candidates, states[0]);
    assert(states[0].shown =~= Set::empty()) by {
        lemma_fresh_pool_is_unseen(before, candidates, states[0]);
    }
    lemma_cycles(states, shown, pool, block);
}

/// Nothing of a fresh pool counts as shown.
proof fn lemma_fresh_pool_is_unseen(
    before: Rotation,
    candidates: Seq<ImageCandidate>,
    after: Rotation,
)
    requires
        before.shown == Set::<Seq<char>>::empty(),
        rebuilt(before, candidates, after),
    ensures
        after.shown == Set::<Seq<char>>::empty(),
{
    let pool = pooled(candidates);
    let mid = choose|mid: Rotation| #[trigger] repooled(before, pool, mid) && topped_up(mid, after);
    assert(mid.shown =~= Set::empty());
}

proof fn lemma_cycles(
    states: Seq<Rotation>,
    shown: Seq<Option<ImageCandidate>>,
    pool: Map<Seq<char>, ImageCandidate>,
    block: nat,
)
    requires
        shown_in_turn(states, shown),
        between_cycles(states[0]),
        states[0].pool == pool,
        (block + 1) * pool.dom().len() <= shown.len(),
    ensures
        between_cycles(states[((block + 1) * pool.dom().len()) as int]),
        states[((block + 1) * pool.dom().len()) as int].pool == pool,
        whole_cycle(
            pool,
            shown.subrange(
                (block * pool.dom().len()) as int,
                ((block + 1) * pool.dom().len()) as int,
            ),
        ),
    decreases block,
{
    let n = pool.dom().len();
    let from = (block * n) as int;
    let to = ((block + 1) * n) as int;
    assert(0 <= from && to == from + n) by (nonlinear_arith)
        requires
            from == block * n,
            to == (block + 1) * n,
            block >= 0,
            n >= 0,
    ;
    if block > 0 {
        lemma_cycles(states, shown, pool, (block - 1) as nat);
        assert((block - 1) + 1 == block);
    } else {
        assert(from == 0) by (nonlinear_arith)
            requires
                from == block * n,
                block == 0,
        ;
    }
    let part = states.subrange(from, to + 1);
    let picks = shown.subrange(from, to);
    assert forall|i: int| 0 <= i < picks.len() implies shown_next(
        #[trigger] part[i],
        picks[i],
        part[i + 1],
    ) by {
        assert(shown_next(states[from + i], shown[from + i], states[from + i + 1]));
    }
    lemma_one_cycle(part, picks);
}

/// The pool of a list of candidates holds for each id the last candidate with it.
pub proof fn law_last_candidate_of_an_id_counts(candidates: Seq<ImageCandidate>, at: int)
    requires
        0 <= at < candidates.len(),
        forall|i: int| at < i < candidates.len() ==> (#[trigger] candidates[i]).id@
            != candidates[at].id@,
    ensures
        pooled(candidates).contains_key(candidates[at].id@),
        pooled(candidates)[candidates[at].id@] == candidates[at],
    decreases candidates.len(),
{
    if at < candidates.len() - 1 {
        let init = candidates.drop_last();
        assert(candidates[candidates.len() - 1].id@ != candidates[at].id@);
        assert forall|i: int| at < i < init.len() implies (#[trigger] init[i]).id@
            != init[at].id@ by {
            assert(init[i] == candidates[i]);
        }
        law_last_candidate_of_an_id_counts(init, at);
    }
}

/// Candidates with different ids are all in the pool.
pub proof fn law_different_candidates_are_all_pooled(candidates: Seq<ImageCandidate>)
    requires
        forall|i: int, j: int|
            0 <= i < j < candidates.len() ==> (#[trigger] candidates[i]).id@ != (
            #[trigger] candidates[j]).id@,
    ensures
        pooled(candidates).dom().len() == candidates.len(),
        forall|i: int|
            0 <= i < candidates.len() ==> pooled(candidates).contains_key(
                (#[trigger] candidates[i]).id@,
            ) && pooled(candidates)[candidates[i].id@] == candidates[i],
    decreases candidates.len(),
{
    law_pool_holds_only_the_candidates(candidates);
    if candidates.len() > 0 {
        let init = candidates.drop_last();
        assert forall|i: int, j: int| 0 <= i < j < init.len() implies (#[trigger] init[i]).id@ != (
        #[trigger] init[j]).id@ by {
            assert(candidates[i].id@ != candidates[j].id@);
        }
        law_different_candidates_are_all_pooled(init);
        law_pool_holds_only_the_candidates(init);
        let last = candidates.last().id@;
        if pooled(init).contains_key(last) {
            let i = choose|i: int| 0 <= i < init.len() && (#[trigger] init[i]).id@ == last;
            assert(candidates[i].id@ != candidates[candidates.len() - 1].id@);
        }
        assert(pooled(candidates).dom() =~= pooled(init).dom().insert(last));
    }
    assert forall|i: int| 0 <= i < candidates.len() implies pooled(candidates).contains_key(
        (#[trigger] candidates[i]).id@,
    ) && pooled(candidates)[candidates[i].id@] == candidates[i] by {
        law_last_candidate_of_an_id_counts(candidates, i);
    }
}

/// The pool of a list holds no id but those of its candidates.
pub proof fn law_pool_holds_only_the_candidates(candidates: Seq<ImageCandidate>)
    ensures
        pooled(candidates).dom().finite(),
        forall|id: Seq<char>| #[trigger]
            pooled(candidates).contains_key(id) <==> exists|i: int|
                0 <= i < candidates.len() && (#[trigger] candidates[i]).id@ == id,
    decreases candidates.len(),
{
    if candidates.len() > 0 {
        let init = candidates.drop_last();
        law_pool_holds_only_the_candidates(init);
        assert forall|id: Seq<char>| #[trigger]
            pooled(candidates).contains_key(id) <==> exists|i: int|
                0 <= i < candidates.len() && (#[trigger] candidates[i]).id@ == id by {
            if pooled(candidates).contains_key(id) {
                if id == candidates.last().id@ {
                    assert(candidates[candidates.len() - 1].id@ == id);
                } else {
                    let i = choose|i: int| 0 <= i < init.len() && (#[trigger] init[i]).id@ == id;
                    assert(candidates[i].id@ == id);
                }
            }
            if exists|i: int| 0 <= i < candidates.len() && (#[trigger] candidates[i]).id@ == id {
                let i = choose|i: int|
                    0 <= i < candidates.len() && (#[trigger] candidates[i]).id@ == id;
                if i < init.len() {
                    assert(init[i].id@ == id);
                }
            }
        }
    }
}

/// A saved cycle that still has something to come is taken up again as it was.
pub proof fn law_saved_cycle_is_taken_up(before: Rotation, state: PersistedState, after: Rotation)
    requires
        before.wf(),
        before.remaining.len() > 0,
        crate::text::texts(state.remaining_queue@) == before.remaining,
        crate::text::texts(state.shown_ids@).to_set() == before.shown,
        topped_up(taken_up(before, state), after),
    ensures
        after == before,
{
    lemma_all_pooled(before.remaining, before.pool);
    assert(before.shown.intersect(before.pool.dom()) =~= before.shown);
    assert(taken_up(before, state) =~= before);
}

proof fn lemma_all_pooled(ids: Seq<Seq<char>>, pool: Map<Seq<char>, ImageCandidate>)
    requires
        forall|i: int| 0 <= i < ids.len() ==> pool.contains_key(#[trigger] ids[i]),
    ensures
        still_pooled(ids, pool) == ids,
    decreases ids.len(),
{
    reveal(Seq::filter);
    if ids.len() > 0 {
        let init = ids.drop_last();
        assert forall|i: int| 0 <= i < init.len() implies pool.contains_key(
            #[trigger] init[i],
        ) by {
            assert(init[i] == ids[i]);
        }
        lemma_all_pooled(init, pool);
        assert(pool.contains_key(ids[ids.len() - 1]));
        assert(init.push(ids.last()) =~= ids);
    } else {
        assert(still_pooled(ids, pool) =~= ids);
    }
}

/// Removing by path takes exactly the candidates found at the path out of the pool, leaves a fair
/// cycle fair, and none of them comes again.
pub proof fn law_removed_candidates_are_gone(
    before: Rotation,
    resolved: Seq<(String, String)>,
    target: Seq<char>,
    after: Rotation,
)
    requires
        before.wf(),
        before.fair(),
        topped_up(dropped(before, ids_at(before.pool, resolved, target)), after),
    ensures
        after.wf(),
        after.fair(),
        before.complete() ==> after.complete(),
        forall|id: Seq<char>| #[trigger]
            after.pool.contains_key(id) <==> before.pool.contains_key(id) && !resolves_to(
                resolved,
                id,
                target,
            ),
        forall|id: Seq<char>| #[trigger]
            after.pool.contains_key(id) ==> after.pool[id] == before.pool[id],
{
    let gone = ids_at(before.pool, resolved, target);
    let mid = dropped(before, gone);
    let keep = |id: Seq<char>| !gone.contains(id);
    lemma_dropped(before, gone);
    lemma_filtered(before.remaining, keep);
    assert(mid.fair()) by {
        assert forall|i: int| 0 <= i < mid.remaining.len() implies !mid.shown.contains(
            #[trigger] mid.remaining[i],
        ) by {
            assert(mid.remaining.contains(mid.remaining[i]));
            let m = before.remaining.index_of(mid.remaining[i]);
            assert(!before.shown.contains(before.remaining[m]));
        }
    }
    if before.complete() {
        assert forall|id: Seq<char>| mid.pool.contains_key(id) implies #[trigger]
            mid.shown.contains(id) || mid.remaining.contains(id) by {
            assert(before.shown.contains(id) || before.remaining.contains(id));
        }
    }
    lemma_topped_up(mid, after);
}

} // verus!
