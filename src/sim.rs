use vstd::prelude::*;
use itertools::Itertools;
use crate::fixed::Vec2;
use crate::fixed::tdiv;
use crate::body::{RigidBody, overlaps, collision_displacement, resolved, integrated};

verus! {

/// A reference to a body in a `BodyArena`. It does not keep the body alive:
/// once the body is removed the handle resolves to nothing. Slots are never
/// reused, so a handle never comes to name another body.
#[derive(Clone, Copy, Debug, PartialEq, Eq, Structural)]
pub struct BodyHandle {
    pub index: usize,
}

/// The owner of every body; a removed body leaves an empty slot behind.
pub struct BodyArena {
    pub slots: Vec<Option<RigidBody>>,
}

/// A transient event of one step: a collision of a body whose corner is at
/// `world_pos`, with the displacement that separates it from the other.
#[derive(Clone, Copy, Debug, PartialEq, Eq, Structural)]
pub struct CollisionDebugDraw {
    pub world_pos: Vec2,
    pub displacement: Vec2,
}

pub open spec fn lookup(slots: Seq<Option<RigidBody>>, h: BodyHandle) -> Option<RigidBody> {
    if h.index < slots.len() {
        slots[h.index as int]
    } else {
        None
    }
}

/// The slots after the body that `h` names is destroyed.
pub open spec fn without(slots: Seq<Option<RigidBody>>, h: BodyHandle) -> Seq<Option<RigidBody>> {
    if h.index < slots.len() {
        slots.update(h.index as int, None)
    } else {
        slots
    }
}

pub open spec fn is_live(slots: Seq<Option<RigidBody>>, h: BodyHandle) -> bool {
    lookup(slots, h) is Some
}

pub open spec fn slots_wf(slots: Seq<Option<RigidBody>>) -> bool {
    forall|i: int| 0 <= i < slots.len() && #[trigger] slots[i] is Some ==> slots[i]->0.wf()
}

/// The handles of `hs` whose bodies are alive, in their order in `hs`.
pub open spec fn live_handles(slots: Seq<Option<RigidBody>>, hs: Seq<BodyHandle>) -> Seq<BodyHandle>
    decreases hs.len(),
{
    if hs.len() == 0 {
        hs
    } else {
        let rest = live_handles(slots, hs.drop_last());
        if is_live(slots, hs.last()) {
            rest.push(hs.last())
        } else {
            rest
        }
    }
}

/// How many handles of `hs` name a body that is gone.
pub open spec fn dead_count(slots: Seq<Option<RigidBody>>, hs: Seq<BodyHandle>) -> nat
    decreases hs.len(),
{
    if hs.len() == 0 {
        0
    } else {
        dead_count(slots, hs.drop_last()) + if is_live(slots, hs.last()) {
            0nat
        } else {
            1nat
        }
    }
}

/// Integration of the bodies of `hs`, one after the other.
pub open spec fn integrate_all(slots: Seq<Option<RigidBody>>, hs: Seq<BodyHandle>, dt: int) -> Seq<Option<RigidBody>>
    decreases hs.len(),
{
    if hs.len() == 0 {
        slots
    } else {
        let s = integrate_all(slots, hs.drop_last(), dt);
        let h = hs.last();
        match lookup(s, h) {
            Some(b) => s.update(h.index as int, Some(integrated(b, dt))),
            None => s,
        }
    }
}

/// Every pair `(i, j)` with `lo <= i < j < n`, in lexicographic order.
pub open spec fn pairs_from(lo: int, n: int) -> Seq<(int, int)>
    decreases n - lo,
{
    if lo >= n {
        Seq::empty()
    } else {
        Seq::new((n - lo - 1) as nat, |k: int| (lo, lo + 1 + k)) + pairs_from(lo + 1, n)
    }
}

/// The narrow phase for one pair: two live bodies, not both static, that
/// overlap are resolved, and an event is recorded.
pub open spec fn collide_step(
    state: (Seq<Option<RigidBody>>, Seq<CollisionDebugDraw>),
    ha: BodyHandle,
    hb: BodyHandle,
) -> (Seq<Option<RigidBody>>, Seq<CollisionDebugDraw>) {
    let (s, ev) = state;
    if ha.index == hb.index {
        state
    } else {
        match (lookup(s, ha), lookup(s, hb)) {
            (Some(a), Some(b)) => {
                if !a.is_dynamic() && !b.is_dynamic() {
                    state
                } else {
                    match collision_displacement(a, b) {
                        Some(d) => {
                            let (a2, b2) = resolved(a, b, d);
                            (
                                s.update(ha.index as int, Some(a2)).update(hb.index as int, Some(b2)),
                                ev.push(
                                    CollisionDebugDraw {
                                        world_pos: a.top_left,
                                        displacement: d,
                                    },
                                ),
                            )
                        },
                        None => state,
                    }
                }
            },
            _ => state,
        }
    }
}

/// The narrow phase over the index pairs `ps` of `hs`, in order.
pub open spec fn collide_pairs(
    state: (Seq<Option<RigidBody>>, Seq<CollisionDebugDraw>),
    hs: Seq<BodyHandle>,
    ps: Seq<(int, int)>,
) -> (Seq<Option<RigidBody>>, Seq<CollisionDebugDraw>)
    decreases ps.len(),
{
    if ps.len() == 0 {
        state
    } else {
        collide_step(collide_pairs(state, hs, ps.drop_last()), hs[ps.last().0], hs[ps.last().1])
    }
}

/// Relies on itertools' `tuple_combinations` over `0..n`: every pair `(i, j)`
/// with `i < j < n`, in lexicographic order.
#[verifier::external_body]
fn index_pairs(n: usize) -> (r: Vec<(usize, usize)>)
    ensures
        r@.len() == pairs_from(0, n as int).len(),
        forall|k: int| 0 <= k < r@.len() ==> (r@[k].0 as int, r@[k].1 as int) == #[trigger] pairs_from(0, n as int)[k],
{
    (0..n).tuple_combinations::<(usize, usize)>().collect()
}

proof fn lemma_pairs_in_range(lo: int, n: int)
    requires
        0 <= lo,
    ensures
        forall|k: int| 0 <= k < pairs_from(lo, n).len() ==> {
            let p = #[trigger] pairs_from(lo, n)[k];
            lo <= p.0 < p.1 < n
        },
    decreases n - lo,
{
    if lo < n {
        lemma_pairs_in_range(lo + 1, n);
        let head = Seq::new((n - lo - 1) as nat, |k: int| (lo, lo + 1 + k));
        assert forall|k: int| 0 <= k < pairs_from(lo, n).len() implies {
            let p = #[trigger] pairs_from(lo, n)[k];
            lo <= p.0 < p.1 < n
        } by {
            if k >= head.len() {
                assert(pairs_from(lo, n)[k] == pairs_from(lo + 1, n)[k - head.len()]);
            }
        }
    }
}

impl BodyArena {
    pub open spec fn wf(&self) -> bool {
        slots_wf(self.slots@)
    }

    pub fn new() -> (r: BodyArena)
        ensures
            r.slots@ == Seq::<Option<RigidBody>>::empty(),
            r.wf(),
    {
        BodyArena { slots: Vec::new() }
    }

    /// The body that `h` names, if it is still alive.
    pub fn get(&self, h: BodyHandle) -> (r: Option<RigidBody>)
        ensures
            r == lookup(self.slots@, h),
    {
        if h.index < self.slots.len() {
            self.slots[h.index]
        } else {
            None
        }
    }

    pub fn is_live(&self, h: BodyHandle) -> (r: bool)
        ensures
            r == is_live(self.slots@, h),
    {
        self.get(h).is_some()
    }

    /// Destroys the body that `h` names; every handle to it resolves to
    /// nothing afterwards.
    pub fn remove(&mut self, h: BodyHandle)
        requires
            old(self).wf(),
        ensures
            final(self).wf(),
            final(self).slots@ == without(old(self).slots@, h),
    {
        if h.index < self.slots.len() {
            self.slots.set(h.index, None);
        }
    }

    /// Replaces the body that `h` names, if it is alive; tells whether it was.
    pub fn update(&mut self, h: BodyHandle, body: RigidBody) -> (r: bool)
        requires
            old(self).wf(),
            body.wf(),
        ensures
            final(self).wf(),
            r == is_live(old(self).slots@, h),
            final(self).slots@ == if r {
                old(self).slots@.update(h.index as int, Some(body))
            } else {
                old(self).slots@
            },
    {
        if self.is_live(h) {
            self.slots.set(h.index, Some(body));
            true
        } else {
            false
        }
    }
}

/// Puts `inner` into the arena's ownership and returns a handle to it.
pub fn shared(bodies: &mut BodyArena, inner: RigidBody) -> (r: BodyHandle)
    requires
        old(bodies).wf(),
        inner.wf(),
    ensures
        final(bodies).wf(),
        final(bodies).slots@ == old(bodies).slots@.push(Some(inner)),
        r.index == old(bodies).slots@.len(),
{
    let index = bodies.slots.len();
    bodies.slots.push(Some(inner));
    BodyHandle { index }
}

fn collide_handles(bodies: &mut BodyArena, ha: BodyHandle, hb: BodyHandle, events: &mut Vec<CollisionDebugDraw>)
    requires
        old(bodies).wf(),
    ensures
        final(bodies).wf(),
        (final(bodies).slots@, final(events)@) == collide_step((old(bodies).slots@, old(events)@), ha, hb),
{
    if ha.index == hb.index {
        return;
    }
    match (bodies.get(ha), bodies.get(hb)) {
        (Some(a), Some(b)) => {
            if a.weight.is_none() && b.weight.is_none() {
                return;
            }
            let mut a = a;
            let mut b = b;
            if let Some(d) = RigidBody::get_collision_displacement(&a, &b) {
                events.push(
                    CollisionDebugDraw { world_pos: a.top_left, displacement: d },
                );
                RigidBody::resolve_collision(&mut a, &mut b, d);
                bodies.slots.set(ha.index, Some(a));
                bodies.slots.set(hb.index, Some(b));
            }
        },
        _ => {},
    }
}

/// One frame of the simulation, `delta_ms` milliseconds long.
///
/// The handles of `rbs` whose bodies are gone are dropped (the rest keep their
/// order); every live body is integrated; then every pair of live bodies, in
/// lexicographic order of their places in the list, goes through the narrow
/// phase, where overlapping pairs are separated by the displacement-based
/// `RigidBody::resolve_collision`, and each collision adds an event to
/// `frame_drawables`.
pub fn step_rb_sim(
    bodies: &mut BodyArena,
    rbs: &mut Vec<BodyHandle>,
    delta_ms: i64,
    frame_drawables: &mut Vec<CollisionDebugDraw>,
)
    requires
        old(bodies).wf(),
        0 <= delta_ms,
    ensures
        final(bodies).wf(),
        final(rbs)@ == live_handles(old(bodies).slots@, old(rbs)@),
        (final(bodies).slots@, final(frame_drawables)@) == collide_pairs(
            (integrate_all(old(bodies).slots@, final(rbs)@, delta_ms as int), old(frame_drawables)@),
            final(rbs)@,
            pairs_from(0, final(rbs)@.len() as int),
        ),
        same_kinds(old(bodies).slots@, final(bodies).slots@),
        statics_at_rest(final(bodies).slots@, final(rbs)@),
{
    let ghost slots0 = bodies.slots@;
    let mut live: Vec<BodyHandle> = Vec::new();
    let mut i: usize = 0;
    while i < rbs.len()
        invariant
            i <= rbs@.len(),
            bodies.slots@ == slots0,
            live@ == live_handles(slots0, rbs@.subrange(0, i as int)),
        decreases rbs@.len() - i,
    {
        let h = rbs[i];
        assert(rbs@.subrange(0, i as int + 1).drop_last() == rbs@.subrange(0, i as int));
        if bodies.is_live(h) {
            live.push(h);
        }
        i = i + 1;
    }
    assert(rbs@.subrange(0, rbs@.len() as int) == rbs@);

    let mut i: usize = 0;
    while i < live.len()
        invariant
            i <= live@.len(),
            bodies.wf(),
            bodies.slots@ == integrate_all(slots0, live@.subrange(0, i as int), delta_ms as int),
            0 <= delta_ms,
        decreases live@.len() - i,
    {
        let h = live[i];
        assert(live@.subrange(0, i as int + 1).drop_last() == live@.subrange(0, i as int));
        if let Some(b) = bodies.get(h) {
            let mut b = b;
            b.integrate(delta_ms);
            bodies.slots.set(h.index, Some(b));
        }
        i = i + 1;
    }
    assert(live@.subrange(0, live@.len() as int) == live@);

    let ghost s1 = bodies.slots@;
    let ghost ev0 = frame_drawables@;
    let pairs = index_pairs(live.len());
    let ghost all_pairs = pairs_from(0, live@.len() as int);
    proof {
        lemma_pairs_in_range(0, live@.len() as int);
    }
    let mut k: usize = 0;
    while k < pairs.len()
        invariant
            k <= pairs@.len(),
            pairs@.len() == all_pairs.len(),
            all_pairs == pairs_from(0, live@.len() as int),
            forall|m: int| 0 <= m < pairs@.len() ==> (pairs@[m].0 as int, pairs@[m].1 as int) == #[trigger] all_pairs[m],
            forall|m: int| 0 <= m < all_pairs.len() ==> {
                let p = #[trigger] all_pairs[m];
                0 <= p.0 < p.1 < live@.len()
            },
            bodies.wf(),
            (bodies.slots@, frame_drawables@) == collide_pairs((s1, ev0), live@, all_pairs.subrange(0, k as int)),
        decreases pairs@.len() - k,
    {
        let (pi, pj) = pairs[k];
        assert(all_pairs[k as int] == (pi as int, pj as int));
        assert(all_pairs.subrange(0, k as int + 1).drop_last() == all_pairs.subrange(0, k as int));
        collide_handles(bodies, live[pi], live[pj], frame_drawables);
        k = k + 1;
    }
    assert(all_pairs.subrange(0, all_pairs.len() as int) == all_pairs);
    proof {
        lemma_step_keeps_bodies(slots0, live@, delta_ms as int, ev0);
        lemma_step_statics_at_rest(slots0, live@, delta_ms as int, ev0);
    }
    *rbs = live;
}

/// Compaction drops exactly the dead references: the list that a step leaves
/// is shorter than the one it was given by the number of references to bodies
/// that are gone, so strictly shorter when any is gone, and it holds only live
/// references.
pub proof fn lemma_compaction(slots: Seq<Option<RigidBody>>, hs: Seq<BodyHandle>)
    ensures
        live_handles(slots, hs).len() == hs.len() - dead_count(slots, hs),
        dead_count(slots, hs) > 0 ==> live_handles(slots, hs).len() < hs.len(),
        forall|i: int| 0 <= i < live_handles(slots, hs).len() ==> is_live(slots, #[trigger] live_handles(slots, hs)[i]),
    decreases hs.len(),
{
    if hs.len() > 0 {
        lemma_compaction(slots, hs.drop_last());
    }
}

/// Destroying one body that a compacted list of distinct references names
/// makes the next compaction exactly one shorter.
pub proof fn lemma_destroy_one(slots: Seq<Option<RigidBody>>, hs: Seq<BodyHandle>, k: int)
    requires
        0 <= k < hs.len(),
        forall|i: int| 0 <= i < hs.len() ==> is_live(slots, #[trigger] hs[i]),
        forall|i: int, j: int| 0 <= i < j < hs.len() ==> (#[trigger] hs[i]).index != (#[trigger] hs[j]).index,
    ensures
        live_handles(without(slots, hs[k]), hs).len() == hs.len() - 1,
{
    lemma_dead_count_one(slots, hs, k);
    lemma_compaction(without(slots, hs[k]), hs);
}

proof fn lemma_dead_count_one(slots: Seq<Option<RigidBody>>, hs: Seq<BodyHandle>, k: int)
    requires
        0 <= k < hs.len(),
        forall|i: int| 0 <= i < hs.len() ==> is_live(slots, #[trigger] hs[i]),
        forall|i: int, j: int| 0 <= i < j < hs.len() ==> (#[trigger] hs[i]).index != (#[trigger] hs[j]).index,
    ensures
        dead_count(without(slots, hs[k]), hs) == 1,
    decreases hs.len(),
{
    let s2 = without(slots, hs[k]);
    let init = hs.drop_last();
    if k == hs.len() - 1 {
        assert forall|i: int| 0 <= i < init.len() implies is_live(s2, #[trigger] init[i]) by {
            assert(init[i] == hs[i]);
        }
        lemma_all_live_no_dead(s2, init);
    } else {
        assert(hs[k] == init[k]);
        lemma_dead_count_one(slots, init, k);
        assert(is_live(s2, hs.last()));
    }
}

proof fn lemma_all_live_no_dead(slots: Seq<Option<RigidBody>>, hs: Seq<BodyHandle>)
    requires
        forall|i: int| 0 <= i < hs.len() ==> is_live(slots, #[trigger] hs[i]),
    ensures
        dead_count(slots, hs) == 0,
    decreases hs.len(),
{
    if hs.len() > 0 {
        assert forall|i: int| 0 <= i < hs.drop_last().len() implies is_live(slots, #[trigger] hs.drop_last()[i]) by {
            assert(hs.drop_last()[i] == hs[i]);
        }
        lemma_all_live_no_dead(slots, hs.drop_last());
        assert(is_live(slots, hs[hs.len() - 1]));
    }
}

/// The same slots hold bodies, and each body keeps its mass (so a static
/// body stays static and a dynamic one dynamic).
pub open spec fn same_kinds(s1: Seq<Option<RigidBody>>, s2: Seq<Option<RigidBody>>) -> bool {
    &&& s1.len() == s2.len()
    &&& forall|i: int| 0 <= i < s1.len() ==> (#[trigger] s1[i] is Some <==> s2[i] is Some)
    &&& forall|i: int| 0 <= i < s1.len() && #[trigger] s1[i] is Some ==> s1[i]->0.weight == s2[i]->0.weight
}

proof fn lemma_same_kinds_trans(s1: Seq<Option<RigidBody>>, s2: Seq<Option<RigidBody>>, s3: Seq<Option<RigidBody>>)
    requires
        same_kinds(s1, s2),
        same_kinds(s2, s3),
    ensures
        same_kinds(s1, s3),
{
    assert forall|i: int| 0 <= i < s1.len() && #[trigger] s1[i] is Some implies s1[i]->0.weight == s3[i]->0.weight by {
        assert(s2[i] is Some);
    }
}

proof fn lemma_integrate_all_kinds(slots: Seq<Option<RigidBody>>, hs: Seq<BodyHandle>, dt: int)
    ensures
        same_kinds(slots, integrate_all(slots, hs, dt)),
    decreases hs.len(),
{
    if hs.len() > 0 {
        lemma_integrate_all_kinds(slots, hs.drop_last(), dt);
        let s = integrate_all(slots, hs.drop_last(), dt);
        assert(same_kinds(s, integrate_all(slots, hs, dt)));
        lemma_same_kinds_trans(slots, s, integrate_all(slots, hs, dt));
    }
}

proof fn lemma_collide_pairs_kinds(
    state: (Seq<Option<RigidBody>>, Seq<CollisionDebugDraw>),
    hs: Seq<BodyHandle>,
    ps: Seq<(int, int)>,
)
    ensures
        same_kinds(state.0, collide_pairs(state, hs, ps).0),
    decreases ps.len(),
{
    if ps.len() > 0 {
        lemma_collide_pairs_kinds(state, hs, ps.drop_last());
        let mid = collide_pairs(state, hs, ps.drop_last());
        let ha = hs[ps.last().0];
        let hb = hs[ps.last().1];
        let next = collide_step(mid, ha, hb);
        assert(same_kinds(mid.0, next.0));
        lemma_same_kinds_trans(state.0, mid.0, next.0);
    }
}

/// A step creates and destroys no body and changes no body's mass: a static
/// body stays static and a dynamic one dynamic.
pub proof fn lemma_step_keeps_bodies(
    slots: Seq<Option<RigidBody>>,
    hs: Seq<BodyHandle>,
    dt: int,
    events: Seq<CollisionDebugDraw>,
)
    ensures
        same_kinds(
            slots,
            collide_pairs((integrate_all(slots, hs, dt), events), hs, pairs_from(0, hs.len() as int)).0,
        ),
{
    let s1 = integrate_all(slots, hs, dt);
    lemma_integrate_all_kinds(slots, hs, dt);
    lemma_collide_pairs_kinds((s1, events), hs, pairs_from(0, hs.len() as int));
    lemma_same_kinds_trans(slots, s1, collide_pairs((s1, events), hs, pairs_from(0, hs.len() as int)).0);
}

/// Every static body that `hs` names is at rest.
pub open spec fn statics_at_rest(s: Seq<Option<RigidBody>>, hs: Seq<BodyHandle>) -> bool {
    forall|k: int|
        0 <= k < hs.len() && #[trigger] lookup(s, hs[k]) is Some && !lookup(s, hs[k])->0.is_dynamic()
            ==> lookup(s, hs[k])->0.velocity == (Vec2 { x: 0, y: 0 })
}

proof fn lemma_integrate_all_rest(slots: Seq<Option<RigidBody>>, hs: Seq<BodyHandle>, dt: int)
    ensures
        statics_at_rest(integrate_all(slots, hs, dt), hs),
    decreases hs.len(),
{
    if hs.len() > 0 {
        let init = hs.drop_last();
        lemma_integrate_all_rest(slots, init, dt);
        let s0 = integrate_all(slots, init, dt);
        let s1 = integrate_all(slots, hs, dt);
        assert forall|k: int|
            0 <= k < hs.len() && #[trigger] lookup(s1, hs[k]) is Some && !lookup(s1, hs[k])->0.is_dynamic()
                implies lookup(s1, hs[k])->0.velocity == (Vec2 { x: 0, y: 0 }) by {
            let h = hs.last();
            match lookup(s0, h) {
                Some(b) => {
                    if hs[k].index == h.index {
                        assert(lookup(s1, hs[k]) == Some(integrated(b, dt)));
                    } else {
                        assert(lookup(s1, hs[k]) == lookup(s0, hs[k]));
                        assert(k < init.len());
                        assert(init[k] == hs[k]);
                        assert(lookup(s0, init[k]) is Some);
                    }
                },
                None => {
                    assert(s1 == s0);
                    if k < init.len() {
                        assert(init[k] == hs[k]);
                        assert(lookup(s0, init[k]) is Some);
                    } else {
                        assert(hs[k] == h);
                    }
                },
            }
        }
    }
}

proof fn lemma_collide_step_rest(
    state: (Seq<Option<RigidBody>>, Seq<CollisionDebugDraw>),
    hs: Seq<BodyHandle>,
    i: int,
    j: int,
)
    requires
        0 <= i < hs.len(),
        0 <= j < hs.len(),
        statics_at_rest(state.0, hs),
    ensures
        statics_at_rest(collide_step(state, hs[i], hs[j]).0, hs),
{
    let s = state.0;
    let ha = hs[i];
    let hb = hs[j];
    let s2 = collide_step(state, ha, hb).0;
    assert(lookup(s, ha) is Some && !lookup(s, ha)->0.is_dynamic() ==> lookup(s, ha)->0.velocity == (Vec2 { x: 0, y: 0 }));
    assert(lookup(s, hb) is Some && !lookup(s, hb)->0.is_dynamic() ==> lookup(s, hb)->0.velocity == (Vec2 { x: 0, y: 0 }));
    assert(tdiv(0, 2) == 0);
    assert forall|k: int|
        0 <= k < hs.len() && #[trigger] lookup(s2, hs[k]) is Some && !lookup(s2, hs[k])->0.is_dynamic()
            implies lookup(s2, hs[k])->0.velocity == (Vec2 { x: 0, y: 0 }) by {
        assert(lookup(s, hs[k]) is Some && !lookup(s, hs[k])->0.is_dynamic() ==> lookup(s, hs[k])->0.velocity == (Vec2 { x: 0, y: 0 }));
    }
}

proof fn lemma_collide_pairs_rest(
    state: (Seq<Option<RigidBody>>, Seq<CollisionDebugDraw>),
    hs: Seq<BodyHandle>,
    ps: Seq<(int, int)>,
)
    requires
        statics_at_rest(state.0, hs),
        forall|m: int| 0 <= m < ps.len() ==> {
            let p = #[trigger] ps[m];
            0 <= p.0 < hs.len() && 0 <= p.1 < hs.len()
        },
    ensures
        statics_at_rest(collide_pairs(state, hs, ps).0, hs),
    decreases ps.len(),
{
    if ps.len() > 0 {
        let init = ps.drop_last();
        assert forall|m: int| 0 <= m < init.len() implies {
            let p = #[trigger] init[m];
            0 <= p.0 < hs.len() && 0 <= p.1 < hs.len()
        } by {
            assert(init[m] == ps[m]);
        }
        lemma_collide_pairs_rest(state, hs, init);
        let p = ps[ps.len() - 1];
        lemma_collide_step_rest(collide_pairs(state, hs, init), hs, p.0, p.1);
    }
}

/// After a step every static body that the list names is at rest, whatever
/// its velocity was and whatever it collided with.
pub proof fn lemma_step_statics_at_rest(
    slots: Seq<Option<RigidBody>>,
    hs: Seq<BodyHandle>,
    dt: int,
    events: Seq<CollisionDebugDraw>,
)
    ensures
        statics_at_rest(
            collide_pairs((integrate_all(slots, hs, dt), events), hs, pairs_from(0, hs.len() as int)).0,
            hs,
        ),
{
    lemma_integrate_all_rest(slots, hs, dt);
    lemma_pairs_in_range(0, hs.len() as int);
    lemma_collide_pairs_rest((integrate_all(slots, hs, dt), events), hs, pairs_from(0, hs.len() as int));
}

/// No two distinct live bodies that `hs` names overlap.
pub open spec fn no_contacts(s: Seq<Option<RigidBody>>, hs: Seq<BodyHandle>) -> bool {
    forall|i: int, j: int|
        0 <= i < hs.len() && 0 <= j < hs.len() && hs[i].index != hs[j].index && #[trigger] lookup(s, hs[i]) is Some
            && #[trigger] lookup(s, hs[j]) is Some ==> !overlaps(lookup(s, hs[i])->0, lookup(s, hs[j])->0)
}

/// The handles of `hs` name distinct slots.
pub open spec fn distinct_handles(hs: Seq<BodyHandle>) -> bool {
    forall|i: int, j: int| 0 <= i < j < hs.len() ==> (#[trigger] hs[i]).index != (#[trigger] hs[j]).index
}

proof fn lemma_collide_pairs_no_contacts(
    state: (Seq<Option<RigidBody>>, Seq<CollisionDebugDraw>),
    hs: Seq<BodyHandle>,
    ps: Seq<(int, int)>,
)
    requires
        no_contacts(state.0, hs),
        forall|m: int| 0 <= m < ps.len() ==> {
            let p = #[trigger] ps[m];
            0 <= p.0 < hs.len() && 0 <= p.1 < hs.len()
        },
    ensures
        collide_pairs(state, hs, ps) == state,
    decreases ps.len(),
{
    if ps.len() > 0 {
        let init = ps.drop_last();
        assert forall|m: int| 0 <= m < init.len() implies {
            let p = #[trigger] init[m];
            0 <= p.0 < hs.len() && 0 <= p.1 < hs.len()
        } by {
            assert(init[m] == ps[m]);
        }
        lemma_collide_pairs_no_contacts(state, hs, init);
        let p = ps[ps.len() - 1];
        let s = state.0;
        if hs[p.0].index != hs[p.1].index && lookup(s, hs[p.0]) is Some && lookup(s, hs[p.1]) is Some {
            assert(!overlaps(lookup(s, hs[p.0])->0, lookup(s, hs[p.1])->0));
        }
    }
}

proof fn lemma_integrate_all_distinct(slots: Seq<Option<RigidBody>>, hs: Seq<BodyHandle>, dt: int, k: int)
    requires
        distinct_handles(hs),
        0 <= k < hs.len(),
    ensures
        lookup(integrate_all(slots, hs, dt), hs[k]) == match lookup(slots, hs[k]) {
            Some(b) => Some(integrated(b, dt)),
            None => None,
        },
    decreases hs.len(),
{
    let init = hs.drop_last();
    assert forall|i: int, j: int| 0 <= i < j < init.len() implies (#[trigger] init[i]).index != (#[trigger] init[j]).index by {
        assert(init[i] == hs[i] && init[j] == hs[j]);
    }
    if k < hs.len() - 1 {
        assert(init[k] == hs[k]);
        lemma_integrate_all_distinct(slots, init, dt, k);
        assert(hs[k].index != hs.last().index);
    } else {
        lemma_integrate_all_untouched(slots, init, dt, hs[k]);
    }
}

proof fn lemma_integrate_all_untouched(slots: Seq<Option<RigidBody>>, hs: Seq<BodyHandle>, dt: int, h: BodyHandle)
    requires
        forall|i: int| 0 <= i < hs.len() ==> (#[trigger] hs[i]).index != h.index,
    ensures
        lookup(integrate_all(slots, hs, dt), h) == lookup(slots, h),
        integrate_all(slots, hs, dt).len() == slots.len(),
    decreases hs.len(),
{
    if hs.len() > 0 {
        let init = hs.drop_last();
        assert forall|i: int| 0 <= i < init.len() implies (#[trigger] init[i]).index != h.index by {
            assert(init[i] == hs[i]);
        }
        lemma_integrate_all_untouched(slots, init, dt, h);
        assert(hs[hs.len() - 1].index != h.index);
    }
}

/// A frame in which no two live bodies of a list of distinct handles overlap
/// once integrated only integrates: each body ends as one integration pass
/// leaves it (for a free dynamic body: decay, then gravity, then the move, as
/// `lemma_free_fall` states), and no event is recorded.
pub proof fn lemma_step_without_contacts(
    slots: Seq<Option<RigidBody>>,
    hs: Seq<BodyHandle>,
    dt: int,
    events: Seq<CollisionDebugDraw>,
)
    requires
        distinct_handles(hs),
        no_contacts(integrate_all(slots, hs, dt), hs),
    ensures
        ({
            let r = collide_pairs((integrate_all(slots, hs, dt), events), hs, pairs_from(0, hs.len() as int));
            &&& r.1 == events
            &&& forall|k: int| 0 <= k < hs.len() ==> #[trigger] lookup(r.0, hs[k]) == match lookup(slots, hs[k]) {
                Some(b) => Some(integrated(b, dt)),
                None => None,
            }
        }),
{
    lemma_pairs_in_range(0, hs.len() as int);
    lemma_collide_pairs_no_contacts((integrate_all(slots, hs, dt), events), hs, pairs_from(0, hs.len() as int));
    assert forall|k: int| 0 <= k < hs.len() implies #[trigger] lookup(integrate_all(slots, hs, dt), hs[k]) == match lookup(slots, hs[k]) {
        Some(b) => Some(integrated(b, dt)),
        None => None,
    } by {
        lemma_integrate_all_distinct(slots, hs, dt, k);
    }
}

} // verus!
