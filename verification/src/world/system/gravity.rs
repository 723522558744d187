//! The system that lets bodies attract each other.

use vstd::prelude::*;
use crate::math::scalar::{
    is_difference, is_narrowed, is_one, is_product, is_quotient, is_widened, is_zero,
    positive_test, Scalar, Widen,
};
use crate::math::vector::Vector3;
use crate::math::sequence::{lemma_filter_map_empty, lemma_filter_map_first};
use crate::world::entity::component::rigid_body::RigidBody;
use crate::world::entity::component::transform::Transform;
use crate::world::entity::component::{ComponentManager, ComponentStore};
use crate::world::entity::{
    lemma_filter_separate, lemma_traversal_starts_with_parent, separate, Entity, EntityContainer,
};
use crate::world::system::{System, SystemRuntimeError};

verus! {

/// Writes, for every pair of bodies with mass, the force with which the one
/// pulls the other into both of them, under the name "gravity". A body
/// whose entity has a frozen transform takes no force.
pub struct GravitySystem<S: Widen> {
    constant: S::Wide,
    rigid_bodies: Vec<(Option<ComponentManager<Transform<S>>>, ComponentManager<RigidBody<S>>)>,
}

impl<S: Widen> GravitySystem<S> {
    /// The gravitational constant the system computes with.
    pub closed spec fn constant(self) -> S::Wide {
        self.constant
    }

    /// The places of the bodies the system works on.
    pub closed spec fn handles(self) -> Seq<usize> {
        self.rigid_bodies@.map_values(
            |pair: (Option<ComponentManager<Transform<S>>>, ComponentManager<RigidBody<S>>)|
                pair.1.slot(),
        )
    }

    /// For each body the system works on, the place of the transform of
    /// its entity, where the entity has one.
    pub closed spec fn anchors(self) -> Seq<Option<usize>> {
        self.rigid_bodies@.map_values(
            |pair: (Option<ComponentManager<Transform<S>>>, ComponentManager<RigidBody<S>>)|
                match pair.0 {
                    Some(manager) => Some(manager.slot()),
                    None => None,
                },
        )
    }

    /// Whether an entity has a rigid body.
    pub open spec fn is_body() -> spec_fn(Entity) -> bool {
        |e: Entity| e.spec_slots().rigid_body is Some
    }

    /// The place of the rigid body of an entity.
    pub open spec fn body_of() -> spec_fn(Entity) -> usize {
        |e: Entity| e.spec_slots().rigid_body->Some_0
    }

    /// The place of the transform of an entity, if it has one.
    pub open spec fn anchor_of() -> spec_fn(Entity) -> Option<usize> {
        |e: Entity| e.spec_slots().transform
    }

    /// For each anchor, whether it names a transform that is frozen.
    pub open spec fn stills(anchors: Seq<Option<usize>>, transforms: Seq<Transform<S>>) -> Seq<
        bool,
    > {
        Seq::new(
            anchors.len(),
            |k: int|
                match anchors[k] {
                    Some(at) => transforms[at as int].frozen,
                    None => false,
                },
        )
    }

    /// `f` is `g * (m1 * m2) / (r * r)`, computed in the wider reals from
    /// the widened masses and the widened distance, and narrowed.
    pub open spec fn is_pull(g: S::Wide, m1: S, m2: S, r: S, f: S) -> bool {
        exists|
            wide_m1: S::Wide,
            wide_m2: S::Wide,
            wide_r: S::Wide,
            mm: S::Wide,
            gm: S::Wide,
            rr: S::Wide,
            wide_f: S::Wide,
        |
            #![trigger is_widened(m1, wide_m1), is_widened(m2, wide_m2), is_product(g, mm, gm), is_product(wide_r, wide_r, rr), is_narrowed(wide_f, f)]
            is_widened(m1, wide_m1) && is_widened(m2, wide_m2) && is_widened(r, wide_r)
                && is_product(wide_m1, wide_m2, mm) && is_product(g, mm, gm) && is_product(
                wide_r,
                wide_r,
                rr,
            ) && is_quotient(gm, rr, wide_f) && is_narrowed(wide_f, f)
    }

    /// `r` is `d` times minus one, where minus one is zero less one.
    pub open spec fn is_reversed(d: Vector3<S>, r: Vector3<S>) -> bool {
        exists|zero: S, one: S, minus_one: S|
            #![trigger is_difference(zero, one, minus_one)]
            is_zero(zero) && is_one(one) && is_difference(zero, one, minus_one)
                && Vector3::is_scaled(d, minus_one, r)
    }

    /// `f1` and `f2` are the forces that two bodies at `p1` and `p2` with
    /// masses `m1` and `m2` exert on each other.
    ///
    /// With `d` the way from `p1` to `p2` and `r` its length, the magnitude
    /// is `g * (m1 * m2) / (r * r)`, computed in the wider reals. The first body is pulled along `d`, the
    /// second along `d` reversed, each along the vector of length one in
    /// that direction.
    pub open spec fn is_attraction(
        g: S::Wide,
        p1: Vector3<S>,
        m1: S,
        p2: Vector3<S>,
        m2: S,
        f1: Vector3<S>,
        f2: Vector3<S>,
    ) -> bool {
        exists|d: Vector3<S>, back: Vector3<S>, r: S, f: S, u1: Vector3<S>, u2: Vector3<S>|
            #![trigger Vector3::is_magnitude(d, r), Self::is_reversed(d, back), Vector3::is_scaled(u1, f, f1), Vector3::is_scaled(u2, f, f2)]
            Vector3::is_subtracted(p2, p1, d) && Self::is_reversed(d, back)
                && Vector3::is_magnitude(d, r) && Self::is_pull(g, m1, m2, r, f)
                && Vector3::is_unit(d, u1) && Vector3::is_unit(back, u2) && Vector3::is_scaled(
                u1,
                f,
                f1,
            ) && Vector3::is_scaled(u2, f, f2)
    }

    /// `after` is `before` with `force` committed as gravity to the body at
    /// `at`, and all other bodies untouched.
    pub open spec fn is_pulled(
        at: usize,
        force: Vector3<S>,
        before: Seq<RigidBody<S>>,
        after: Seq<RigidBody<S>>,
    ) -> bool {
        &&& at < before.len()
        &&& after.len() == before.len()
        &&& forall|i: int| 0 <= i < before.len() && i != at ==> after[i] == before[i]
        &&& RigidBody::same_motion(before[at as int], after[at as int])
        &&& exists|cleaned: Vector3<S>|
            #![trigger RigidBody::is_cleaned(force, cleaned)]
            RigidBody::is_cleaned(force, cleaned) && RigidBody::is_committed(
                before[at as int].forces@,
                "gravity"@,
                cleaned,
                after[at as int].forces@,
            )
    }

    /// `after` is `before` with `force` committed as gravity to the body at
    /// `at`, unless that body is held still.
    pub open spec fn is_pulled_unless(
        still: bool,
        at: usize,
        force: Vector3<S>,
        before: Seq<RigidBody<S>>,
        after: Seq<RigidBody<S>>,
    ) -> bool {
        if still {
            after == before
        } else {
            Self::is_pulled(at, force, before, after)
        }
    }

    /// `after` is `before` after the bodies at `a` and `b` were looked at
    /// as a pair: where both have a mass greater than zero, each got the
    /// force the other exerts on it, unless it is held still; otherwise
    /// nothing changed.
    pub open spec fn is_pair_applied(
        g: S::Wide,
        a: usize,
        b: usize,
        still_a: bool,
        still_b: bool,
        before: Seq<RigidBody<S>>,
        after: Seq<RigidBody<S>>,
    ) -> bool {
        &&& a < before.len()
        &&& b < before.len()
        &&& exists|heavy_a: bool, heavy_b: bool|
            #![trigger positive_test(before[a as int].mass, heavy_a), positive_test(before[b as int].mass, heavy_b)]
            positive_test(before[a as int].mass, heavy_a) && positive_test(
                before[b as int].mass,
                heavy_b,
            ) && if heavy_a && heavy_b {
                exists|f1: Vector3<S>, f2: Vector3<S>, mid: Seq<RigidBody<S>>|
                    #![trigger Self::is_pulled_unless(still_a, a, f1, before, mid), Self::is_pulled_unless(still_b, b, f2, mid, after)]
                    Self::is_attraction(
                        g,
                        before[a as int].last_absolute_position,
                        before[a as int].mass,
                        before[b as int].last_absolute_position,
                        before[b as int].mass,
                        f1,
                        f2,
                    ) && Self::is_pulled_unless(still_a, a, f1, before, mid)
                        && Self::is_pulled_unless(still_b, b, f2, mid, after)
            } else {
                after == before
            }
    }

    /// `after` is `before` after the body at `handles[i]` was paired, in
    /// order, with each of the bodies at `handles[i + 1]` up to
    /// `handles[upto - 1]`.
    pub open spec fn is_row_applied(
        g: S::Wide,
        handles: Seq<usize>,
        stills: Seq<bool>,
        i: int,
        upto: int,
        before: Seq<RigidBody<S>>,
        after: Seq<RigidBody<S>>,
    ) -> bool
        decreases upto - i,
    {
        if upto <= i + 1 {
            after == before
        } else {
            exists|mid: Seq<RigidBody<S>>|
                #![trigger Self::is_pair_applied(g, handles[i], handles[upto - 1], stills[i], stills[upto - 1], mid, after)]
                Self::is_row_applied(g, handles, stills, i, upto - 1, before, mid)
                    && Self::is_pair_applied(
                    g,
                    handles[i],
                    handles[upto - 1],
                    stills[i],
                    stills[upto - 1],
                    mid,
                    after,
                )
        }
    }

    /// `after` is `before` after each of the first `upto` bodies of
    /// `handles` was paired, in order, with each body that comes after it
    /// in `handles`.
    pub open spec fn is_sweep_applied(
        g: S::Wide,
        handles: Seq<usize>,
        stills: Seq<bool>,
        upto: int,
        before: Seq<RigidBody<S>>,
        after: Seq<RigidBody<S>>,
    ) -> bool
        decreases upto,
    {
        if upto <= 0 {
            after == before
        } else {
            exists|mid: Seq<RigidBody<S>>|
                #![trigger Self::is_row_applied(g, handles, stills, upto - 1, handles.len() as int, mid, after)]
                Self::is_sweep_applied(g, handles, stills, upto - 1, before, mid)
                    && Self::is_row_applied(
                    g,
                    handles,
                    stills,
                    upto - 1,
                    handles.len() as int,
                    mid,
                    after,
                )
        }
    }

    /// A system that computes with the gravitational constant `constant`
    /// and has not fetched yet.
    pub fn new(constant: S::Wide) -> (r: Self)
        ensures
            r.constant() == constant,
            r.handles().len() == 0,
            r.anchors().len() == 0,
    {
        GravitySystem { constant, rigid_bodies: Vec::new() }
    }

    /// `g * (m1 * m2) / (r * r)`, computed in the wider reals.
    fn pull(g: S::Wide, m1: S, m2: S, r: S) -> (f: S)
        ensures
            Self::is_pull(g, m1, m2, r, f),
    {
        let wide_m1 = m1.widen();
        let wide_m2 = m2.widen();
        let wide_r = r.widen();
        let mm = wide_m1.times(wide_m2);
        let gm = g.times(mm);
        let rr = wide_r.times(wide_r);
        let wide_f = gm.over(rr);
        let f = S::narrow(wide_f);
        assert(is_widened(m1, wide_m1) && is_widened(m2, wide_m2) && is_product(g, mm, gm)
            && is_product(wide_r, wide_r, rr) && is_narrowed(wide_f, f));
        f
    }

    /// `d` times minus one.
    fn reversed(d: Vector3<S>) -> (r: Vector3<S>)
        ensures
            Self::is_reversed(d, r),
    {
        let zero = S::zero();
        let one = S::one();
        let minus_one = zero.minus(one);
        let r = d.scaled(minus_one);
        assert(is_difference(zero, one, minus_one));
        r
    }

    /// The forces that two bodies at `p1` and `p2` with masses `m1` and
    /// `m2` exert on each other: first the force on the first, then the
    /// force on the second body.
    pub fn attraction(g: S::Wide, p1: Vector3<S>, m1: S, p2: Vector3<S>, m2: S) -> (r: (
        Vector3<S>,
        Vector3<S>,
    ))
        ensures
            Self::is_attraction(g, p1, m1, p2, m2, r.0, r.1),
    {
        let d = p2.minus(p1);
        let back = Self::reversed(d);
        let r = d.magnitude();
        let f = Self::pull(g, m1, m2, r);
        let u1 = d.normalize();
        let u2 = back.normalize();
        let f1 = u1.scaled(f);
        let f2 = u2.scaled(f);
        assert(Vector3::is_magnitude(d, r) && Self::is_reversed(d, back) && Vector3::is_scaled(
            u1,
            f,
            f1,
        ) && Vector3::is_scaled(u2, f, f2));
        (f1, f2)
    }

    /// Commits `force` as gravity to the body at `at`, unless the body is
    /// held still.
    fn pull_body(still: bool, bodies: &mut Vec<RigidBody<S>>, at: usize, force: Vector3<S>)
        requires
            at < old(bodies)@.len(),
        ensures
            Self::is_pulled_unless(still, at, force, old(bodies)@, final(bodies)@),
            final(bodies)@.len() == old(bodies)@.len(),
    {
        if !still {
            let body = &mut bodies[at];
            body.commit_force("gravity", force);
        }
    }

    /// Looks at the bodies at `a` and `b` as a pair. `still_a` and
    /// `still_b` say whether the one and the other is held still.
    pub fn interact(
        g: S::Wide,
        a: usize,
        b: usize,
        still_a: bool,
        still_b: bool,
        bodies: &mut Vec<RigidBody<S>>,
    )
        requires
            a < old(bodies)@.len(),
            b < old(bodies)@.len(),
        ensures
            Self::is_pair_applied(g, a, b, still_a, still_b, old(bodies)@, final(bodies)@),
    {
        let heavy_a = bodies[a].mass.is_positive();
        let heavy_b = bodies[b].mass.is_positive();
        assert(positive_test(old(bodies)@[a as int].mass, heavy_a) && positive_test(
            old(bodies)@[b as int].mass,
            heavy_b,
        ));
        if !heavy_a || !heavy_b {
            return ;
        }
        let (f1, f2) = Self::attraction(
            g,
            bodies[a].last_absolute_position,
            bodies[a].mass,
            bodies[b].last_absolute_position,
            bodies[b].mass,
        );
        Self::pull_body(still_a, bodies, a, f1);
        let ghost mid = bodies@;
        Self::pull_body(still_b, bodies, b, f2);
        assert(Self::is_pulled_unless(still_a, a, f1, old(bodies)@, mid) && Self::is_pulled_unless(
            still_b,
            b,
            f2,
            mid,
            bodies@,
        ));
    }

    /// Whether the body at `index` of those the system works on is held
    /// still: its entity has a transform, and that transform is frozen.
    fn is_still(&self, index: usize, store: &ComponentStore<S>) -> (r: bool)
        requires
            index < self.handles().len(),
            self.anchors()[index as int] matches Some(at) ==> at < store.transforms@.len(),
        ensures
            r == Self::stills(self.anchors(), store.transforms@)[index as int],
    {
        match self.rigid_bodies[index].0 {
            Some(manager) => store.transforms[manager.index()].frozen,
            None => false,
        }
    }
}

impl<'a, S: Widen> System<'a> for GravitySystem<S> {
    type Real = S;

    open spec fn frozen(&self, store: ComponentStore<S>) -> bool {
        &&& forall|i: int|
            0 <= i < self.handles().len() ==> (#[trigger] self.handles()[i])
                < store.rigid_bodies@.len()
        &&& forall|i: int|
            0 <= i < self.anchors().len() ==> ((#[trigger] self.anchors()[i]) matches Some(at)
                ==> at < store.transforms@.len())
    }

    open spec fn fetched(&self, before: Self, source: Entity) -> bool {
        &&& self.constant() == before.constant()
        &&& self.handles() == source.traversal(None, true, false).filter(
            Self::is_body(),
        ).map_values(Self::body_of())
        &&& self.anchors() == source.traversal(None, true, false).filter(
            Self::is_body(),
        ).map_values(Self::anchor_of())
    }

    open spec fn ran(&self, delta: S, before: ComponentStore<S>, after: ComponentStore<S>) -> bool {
        &&& Self::is_sweep_applied(
            self.constant(),
            self.handles(),
            Self::stills(self.anchors(), before.transforms@),
            self.handles().len() as int,
            before.rigid_bodies@,
            after.rigid_bodies@,
        )
        &&& only_gravity_changed(before.rigid_bodies@, after.rigid_bodies@)
        &&& after.transforms == before.transforms
        &&& after.models == before.models
        &&& after.controllers == before.controllers
        &&& after.cameras == before.cameras
    }

    /// Keeps the handle of every rigid body in the tree, `source` included,
    /// in pre-order, each once and each with the handle of the transform of
    /// the same entity, where it has one. Handles kept before are dropped.
    fn on_fetch(&mut self, source: &'a Entity) -> (r: Result<(), SystemRuntimeError>)
        ensures
            r is Ok,
            final(self).constant() == old(self).constant(),
            final(self).handles() == source.traversal(None, true, false).filter(
                Self::is_body(),
            ).map_values(Self::body_of()),
            final(self).anchors() == source.traversal(None, true, false).filter(
                Self::is_body(),
            ).map_values(Self::anchor_of()),
    {
        self.rigid_bodies.clear();
        let mut iter = source.query_entities(true);
        let ghost all = iter.remaining();
        loop
            invariant
                iter.wf(),
                self.constant() == old(self).constant(),
                self.handles() + iter.remaining().filter(Self::is_body()).map_values(
                    Self::body_of(),
                ) == all.filter(Self::is_body()).map_values(Self::body_of()),
                self.anchors() + iter.remaining().filter(Self::is_body()).map_values(
                    Self::anchor_of(),
                ) == all.filter(Self::is_body()).map_values(Self::anchor_of()),
            ensures
                self.constant() == old(self).constant(),
                self.handles() == all.filter(Self::is_body()).map_values(Self::body_of()),
                self.anchors() == all.filter(Self::is_body()).map_values(Self::anchor_of()),
            decreases iter.remaining().len(),
        {
            let ghost before = iter.remaining();
            let ghost kept = self.handles();
            let ghost anchored = self.anchors();
            match iter.next() {
                None => {
                    proof {
                        lemma_filter_map_empty(before, Self::is_body(), Self::body_of());
                        lemma_filter_map_empty(before, Self::is_body(), Self::anchor_of());
                        assert(kept + before.filter(Self::is_body()).map_values(Self::body_of())
                            =~= kept);
                        assert(anchored + before.filter(Self::is_body()).map_values(
                            Self::anchor_of(),
                        ) =~= anchored);
                    }
                    break ;
                },
                Some(entity) => {
                    proof {
                        lemma_filter_map_first(before, Self::is_body(), Self::body_of());
                        lemma_filter_map_first(before, Self::is_body(), Self::anchor_of());
                    }
                    if let Some(rigid_body) = entity.component::<RigidBody<S>>() {
                        let transform = entity.component::<Transform<S>>();
                        self.rigid_bodies.push((transform, rigid_body));
                        proof {
                            let rest = iter.remaining().filter(Self::is_body());
                            let anchor = entity.spec_slots().transform;
                            assert(self.handles() =~= kept + seq![rigid_body.slot()]);
                            assert(self.handles() + rest.map_values(Self::body_of()) =~= kept + (
                            seq![rigid_body.slot()] + rest.map_values(Self::body_of())));
                            assert(self.anchors() =~= anchored + seq![anchor]);
                            assert(self.anchors() + rest.map_values(Self::anchor_of())
                                =~= anchored + (seq![anchor] + rest.map_values(
                                Self::anchor_of(),
                            )));
                        }
                    }
                },
            }
        }
        Ok(())
    }

    fn on_freeze(&self, store: &ComponentStore<S>) -> (r: Result<(), SystemRuntimeError>) {
        let mut i: usize = 0;
        while i < self.rigid_bodies.len()
            invariant
                i <= self.rigid_bodies.len(),
                forall|k: int|
                    0 <= k < i ==> (#[trigger] self.handles()[k]) < store.rigid_bodies@.len(),
                forall|k: int|
                    0 <= k < i ==> ((#[trigger] self.anchors()[k]) matches Some(at) ==> at
                        < store.transforms@.len()),
            decreases self.rigid_bodies.len() - i,
        {
            let (transform, rigid_body) = self.rigid_bodies[i];
            let anchored = match transform {
                Some(manager) => manager.is_held_by(store),
                None => true,
            };
            if !rigid_body.is_held_by(store) || !anchored {
                assert(!(self.handles()[i as int] < store.rigid_bodies@.len()) || !(
                self.anchors()[i as int] matches Some(at) ==> at < store.transforms@.len()));
                return Err(SystemRuntimeError("a rigid body or its transform is not in the store"));
            }
            i = i + 1;
        }
        Ok(())
    }

    /// Pairs every body the system works on with every body that was
    /// fetched after it. Nothing but forces called "gravity" changes, and a
    /// body whose mass never tests greater than zero is left alone.
    fn on_run(&self, store: &mut ComponentStore<S>, delta: S) {
        let n = self.rigid_bodies.len();
        let ghost handles = self.handles();
        let ghost stills = Self::stills(self.anchors(), old(store).transforms@);
        let ghost g = self.constant();
        let mut i: usize = 0;
        while i < n
            invariant
                i <= n,
                n == self.rigid_bodies@.len(),
                handles == self.handles(),
                stills == Self::stills(self.anchors(), old(store).transforms@),
                g == self.constant(),
                store.rigid_bodies@.len() == old(store).rigid_bodies@.len(),
                self.frozen(*old(store)),
                Self::is_sweep_applied(
                    g,
                    handles,
                    stills,
                    i as int,
                    old(store).rigid_bodies@,
                    store.rigid_bodies@,
                ),
                store.transforms == old(store).transforms,
                store.models == old(store).models,
                store.controllers == old(store).controllers,
                store.cameras == old(store).cameras,
            decreases n - i,
        {
            let ghost row_start = store.rigid_bodies@;
            let mut j: usize = i + 1;
            while j < n
                invariant
                    i < j <= n,
                    i < n,
                    n == self.rigid_bodies@.len(),
                    handles == self.handles(),
                    stills == Self::stills(self.anchors(), old(store).transforms@),
                    g == self.constant(),
                    store.rigid_bodies@.len() == old(store).rigid_bodies@.len(),
                    self.frozen(*old(store)),
                    Self::is_row_applied(
                        g,
                        handles,
                        stills,
                        i as int,
                        j as int,
                        row_start,
                        store.rigid_bodies@,
                    ),
                    store.transforms == old(store).transforms,
                    store.models == old(store).models,
                    store.controllers == old(store).controllers,
                    store.cameras == old(store).cameras,
                decreases n - j,
            {
                let a = self.rigid_bodies[i].1.index();
                let b = self.rigid_bodies[j].1.index();
                let ghost mid = store.rigid_bodies@;
                assert(handles[i as int] == a && handles[j as int] == b);
                assert(self.anchors()[i as int] matches Some(at) ==> at < store.transforms@.len());
                assert(self.anchors()[j as int] matches Some(at) ==> at < store.transforms@.len());
                let still_a = self.is_still(i, store);
                let still_b = self.is_still(j, store);
                Self::interact(self.constant, a, b, still_a, still_b, &mut store.rigid_bodies);
                proof {
                    assert(Self::is_pair_applied(
                        g,
                        handles[i as int],
                        handles[j + 1 - 1],
                        stills[i as int],
                        stills[j + 1 - 1],
                        mid,
                        store.rigid_bodies@,
                    ));
                    lemma_pair_only_gravity(g, a, b, still_a, still_b, mid, store.rigid_bodies@);
                }
                j = j + 1;
            }
            proof {
                assert(j == n);
                assert(Self::is_row_applied(
                    g,
                    handles,
                    stills,
                    i + 1 - 1,
                    handles.len() as int,
                    row_start,
                    store.rigid_bodies@,
                ));
            }
            i = i + 1;
        }
        proof {
            lemma_sweep_only_gravity(
                g,
                handles,
                stills,
                n as int,
                old(store).rigid_bodies@,
                store.rigid_bodies@,
            );
        }
    }
}

/// Whether the mass `m` never tests greater than zero.
pub open spec fn never_positive<S: Widen>(m: S) -> bool {
    forall|heavy: bool| #[trigger] positive_test(m, heavy) ==> !heavy
}

/// Whether `after` differs from `before` in nothing but forces called
/// "gravity": the bodies are as many, each moves as before and has its
/// earlier forces under their earlier names, those of other names unchanged;
/// and a body whose mass never tests greater than zero is as it was.
pub open spec fn only_gravity_changed<S: Widen>(
    before: Seq<RigidBody<S>>,
    after: Seq<RigidBody<S>>,
) -> bool {
    &&& after.len() == before.len()
    &&& forall|s: int|
        0 <= s < before.len() ==> RigidBody::same_motion(before[s], #[trigger] after[s])
    &&& forall|s: int|
        0 <= s < before.len() ==> before[s].forces@.len() <= (#[trigger] after[s]).forces@.len()
    &&& forall|s: int, i: int|
        0 <= s < before.len() && 0 <= i < before[s].forces@.len() ==> (
        #[trigger] after[s].forces@[i]).source@ == before[s].forces@[i].source@ && (
        before[s].forces@[i].source@ != "gravity"@ ==> after[s].forces@[i].force
            == before[s].forces@[i].force)
    &&& forall|s: int|
        0 <= s < before.len() && never_positive(before[s].mass) ==> (#[trigger] after[s])
            == before[s]
}

/// Changing nothing but gravity twice in a row changes nothing but gravity.
proof fn lemma_only_gravity_twice<S: Widen>(
    a: Seq<RigidBody<S>>,
    b: Seq<RigidBody<S>>,
    c: Seq<RigidBody<S>>,
)
    requires
        only_gravity_changed(a, b),
        only_gravity_changed(b, c),
    ensures
        only_gravity_changed(a, c),
{
    assert forall|s: int, i: int| 0 <= s < a.len() && 0 <= i < a[s].forces@.len() implies (
    #[trigger] c[s].forces@[i]).source@ == a[s].forces@[i].source@ && (a[s].forces@[i].source@
        != "gravity"@ ==> c[s].forces@[i].force == a[s].forces@[i].force) by {
        assert(RigidBody::same_motion(a[s], b[s]));
        assert(b[s].forces@[i].source@ == a[s].forces@[i].source@);
        assert(c[s].forces@[i].source@ == b[s].forces@[i].source@);
    }
    assert forall|s: int| 0 <= s < a.len() && never_positive(a[s].mass) implies (#[trigger] c[s])
        == a[s] by {
        assert(b[s] == a[s]);
    }
    assert forall|s: int| 0 <= s < a.len() implies RigidBody::same_motion(
        a[s],
        #[trigger] c[s],
    ) by {
        assert(RigidBody::same_motion(a[s], b[s]));
        assert(RigidBody::same_motion(b[s], c[s]));
    }
    assert forall|s: int| 0 <= s < a.len() implies a[s].forces@.len() <= (
    #[trigger] c[s]).forces@.len() by {
        assert(a[s].forces@.len() <= b[s].forces@.len());
        assert(b[s].forces@.len() <= c[s].forces@.len());
    }
}

/// Pulling a body whose mass can test greater than zero changes nothing
/// but gravity.
proof fn lemma_pulled_only_gravity<S: Widen>(
    at: usize,
    force: Vector3<S>,
    before: Seq<RigidBody<S>>,
    after: Seq<RigidBody<S>>,
)
    requires
        GravitySystem::is_pulled(at, force, before, after),
        positive_test(before[at as int].mass, true),
    ensures
        only_gravity_changed(before, after),
{
    assert forall|s: int| 0 <= s < before.len() implies RigidBody::same_motion(
        before[s],
        #[trigger] after[s],
    ) by {
        if s != at {
            assert(after[s] == before[s]);
        }
    }
    assert forall|s: int, i: int|
        0 <= s < before.len() && 0 <= i < before[s].forces@.len() implies (
    #[trigger] after[s].forces@[i]).source@ == before[s].forces@[i].source@ && (
    before[s].forces@[i].source@ != "gravity"@ ==> after[s].forces@[i].force
        == before[s].forces@[i].force) by {
        if s != at {
            assert(after[s] == before[s]);
        }
    }
    assert forall|s: int| 0 <= s < before.len() implies before[s].forces@.len() <= (
    #[trigger] after[s]).forces@.len() by {
        if s != at {
            assert(after[s] == before[s]);
        }
    }
}

/// Looking at a pair changes nothing but gravity.
pub proof fn lemma_pair_only_gravity<S: Widen>(
    g: S::Wide,
    a: usize,
    b: usize,
    still_a: bool,
    still_b: bool,
    before: Seq<RigidBody<S>>,
    after: Seq<RigidBody<S>>,
)
    requires
        GravitySystem::is_pair_applied(g, a, b, still_a, still_b, before, after),
    ensures
        only_gravity_changed(before, after),
{
    let (heavy_a, heavy_b) = choose|heavy_a: bool, heavy_b: bool|
        #![trigger positive_test(before[a as int].mass, heavy_a), positive_test(before[b as int].mass, heavy_b)]
        positive_test(before[a as int].mass, heavy_a) && positive_test(
            before[b as int].mass,
            heavy_b,
        ) && if heavy_a && heavy_b {
            exists|f1: Vector3<S>, f2: Vector3<S>, mid: Seq<RigidBody<S>>|
                #![trigger GravitySystem::is_pulled_unless(still_a, a, f1, before, mid), GravitySystem::is_pulled_unless(still_b, b, f2, mid, after)]
                GravitySystem::is_attraction(
                    g,
                    before[a as int].last_absolute_position,
                    before[a as int].mass,
                    before[b as int].last_absolute_position,
                    before[b as int].mass,
                    f1,
                    f2,
                ) && GravitySystem::is_pulled_unless(still_a, a, f1, before, mid)
                    && GravitySystem::is_pulled_unless(still_b, b, f2, mid, after)
        } else {
            after == before
        };
    if heavy_a && heavy_b {
        let (f1, f2, mid) = choose|f1: Vector3<S>, f2: Vector3<S>, mid: Seq<RigidBody<S>>|
            #![trigger GravitySystem::is_pulled_unless(still_a, a, f1, before, mid), GravitySystem::is_pulled_unless(still_b, b, f2, mid, after)]
            GravitySystem::is_attraction(
                g,
                before[a as int].last_absolute_position,
                before[a as int].mass,
                before[b as int].last_absolute_position,
                before[b as int].mass,
                f1,
                f2,
            ) && GravitySystem::is_pulled_unless(still_a, a, f1, before, mid)
                && GravitySystem::is_pulled_unless(still_b, b, f2, mid, after);
        if !still_a {
            lemma_pulled_only_gravity(a, f1, before, mid);
        }
        assert(only_gravity_changed(before, mid));
        assert(RigidBody::same_motion(before[b as int], mid[b as int]));
        if !still_b {
            lemma_pulled_only_gravity(b, f2, mid, after);
        }
        assert(only_gravity_changed(mid, after));
        lemma_only_gravity_twice(before, mid, after);
    }
}

/// Pairing one body with those after it changes nothing but gravity.
pub proof fn lemma_row_only_gravity<S: Widen>(
    g: S::Wide,
    handles: Seq<usize>,
    stills: Seq<bool>,
    i: int,
    upto: int,
    before: Seq<RigidBody<S>>,
    after: Seq<RigidBody<S>>,
)
    requires
        GravitySystem::is_row_applied(g, handles, stills, i, upto, before, after),
    ensures
        only_gravity_changed(before, after),
    decreases upto - i,
{
    if upto > i + 1 {
        let mid = choose|mid: Seq<RigidBody<S>>|
            #![trigger GravitySystem::is_pair_applied(g, handles[i], handles[upto - 1], stills[i], stills[upto - 1], mid, after)]
            GravitySystem::is_row_applied(g, handles, stills, i, upto - 1, before, mid)
                && GravitySystem::is_pair_applied(
                g,
                handles[i],
                handles[upto - 1],
                stills[i],
                stills[upto - 1],
                mid,
                after,
            );
        lemma_row_only_gravity(g, handles, stills, i, upto - 1, before, mid);
        lemma_pair_only_gravity(
            g,
            handles[i],
            handles[upto - 1],
            stills[i],
            stills[upto - 1],
            mid,
            after,
        );
        lemma_only_gravity_twice(before, mid, after);
    }
}

/// A tick of gravity changes nothing but forces called "gravity", and
/// leaves alone every body whose mass never tests greater than zero.
pub proof fn lemma_sweep_only_gravity<S: Widen>(
    g: S::Wide,
    handles: Seq<usize>,
    stills: Seq<bool>,
    upto: int,
    before: Seq<RigidBody<S>>,
    after: Seq<RigidBody<S>>,
)
    requires
        GravitySystem::is_sweep_applied(g, handles, stills, upto, before, after),
    ensures
        only_gravity_changed(before, after),
    decreases upto,
{
    if upto > 0 {
        let mid = choose|mid: Seq<RigidBody<S>>|
            #![trigger GravitySystem::is_row_applied(g, handles, stills, upto - 1, handles.len() as int, mid, after)]
            GravitySystem::is_sweep_applied(g, handles, stills, upto - 1, before, mid)
                && GravitySystem::is_row_applied(
                g,
                handles,
                stills,
                upto - 1,
                handles.len() as int,
                mid,
                after,
            );
        lemma_sweep_only_gravity(g, handles, stills, upto - 1, before, mid);
        lemma_row_only_gravity(g, handles, stills, upto - 1, handles.len() as int, mid, after);
        lemma_only_gravity_twice(before, mid, after);
    }
}

/// Whether every handle that names the body at `slot` is held still.
pub open spec fn held_still(handles: Seq<usize>, stills: Seq<bool>, slot: int) -> bool {
    forall|k: int| 0 <= k < handles.len() && #[trigger] handles[k] == slot ==> stills[k]
}

/// Looking at a pair leaves alone a body that is held still.
proof fn lemma_pair_spares_still<S: Widen>(
    g: S::Wide,
    a: usize,
    b: usize,
    still_a: bool,
    still_b: bool,
    before: Seq<RigidBody<S>>,
    after: Seq<RigidBody<S>>,
    slot: int,
)
    requires
        GravitySystem::is_pair_applied(g, a, b, still_a, still_b, before, after),
        0 <= slot < before.len(),
        a == slot ==> still_a,
        b == slot ==> still_b,
    ensures
        after.len() == before.len(),
        after[slot] == before[slot],
{
    lemma_pair_only_gravity(g, a, b, still_a, still_b, before, after);
    let (heavy_a, heavy_b) = choose|heavy_a: bool, heavy_b: bool|
        #![trigger positive_test(before[a as int].mass, heavy_a), positive_test(before[b as int].mass, heavy_b)]
        positive_test(before[a as int].mass, heavy_a) && positive_test(
            before[b as int].mass,
            heavy_b,
        ) && if heavy_a && heavy_b {
            exists|f1: Vector3<S>, f2: Vector3<S>, mid: Seq<RigidBody<S>>|
                #![trigger GravitySystem::is_pulled_unless(still_a, a, f1, before, mid), GravitySystem::is_pulled_unless(still_b, b, f2, mid, after)]
                GravitySystem::is_attraction(
                    g,
                    before[a as int].last_absolute_position,
                    before[a as int].mass,
                    before[b as int].last_absolute_position,
                    before[b as int].mass,
                    f1,
                    f2,
                ) && GravitySystem::is_pulled_unless(still_a, a, f1, before, mid)
                    && GravitySystem::is_pulled_unless(still_b, b, f2, mid, after)
        } else {
            after == before
        };
    if heavy_a && heavy_b {
        let (f1, f2, mid) = choose|f1: Vector3<S>, f2: Vector3<S>, mid: Seq<RigidBody<S>>|
            #![trigger GravitySystem::is_pulled_unless(still_a, a, f1, before, mid), GravitySystem::is_pulled_unless(still_b, b, f2, mid, after)]
            GravitySystem::is_attraction(
                g,
                before[a as int].last_absolute_position,
                before[a as int].mass,
                before[b as int].last_absolute_position,
                before[b as int].mass,
                f1,
                f2,
            ) && GravitySystem::is_pulled_unless(still_a, a, f1, before, mid)
                && GravitySystem::is_pulled_unless(still_b, b, f2, mid, after);
        assert(mid.len() == before.len());
        assert(mid[slot] == before[slot]);
        assert(after[slot] == mid[slot]);
    }
}

/// Pairing one body with those after it leaves alone a body that is held
/// still.
proof fn lemma_row_spares_still<S: Widen>(
    g: S::Wide,
    handles: Seq<usize>,
    stills: Seq<bool>,
    i: int,
    upto: int,
    before: Seq<RigidBody<S>>,
    after: Seq<RigidBody<S>>,
    slot: int,
)
    requires
        GravitySystem::is_row_applied(g, handles, stills, i, upto, before, after),
        0 <= i,
        upto <= handles.len(),
        0 <= slot < before.len(),
        held_still(handles, stills, slot),
    ensures
        after.len() == before.len(),
        after[slot] == before[slot],
    decreases upto - i,
{
    if upto > i + 1 {
        let mid = choose|mid: Seq<RigidBody<S>>|
            #![trigger GravitySystem::is_pair_applied(g, handles[i], handles[upto - 1], stills[i], stills[upto - 1], mid, after)]
            GravitySystem::is_row_applied(g, handles, stills, i, upto - 1, before, mid)
                && GravitySystem::is_pair_applied(
                g,
                handles[i],
                handles[upto - 1],
                stills[i],
                stills[upto - 1],
                mid,
                after,
            );
        lemma_row_spares_still(g, handles, stills, i, upto - 1, before, mid, slot);
        lemma_pair_spares_still(
            g,
            handles[i],
            handles[upto - 1],
            stills[i],
            stills[upto - 1],
            mid,
            after,
            slot,
        );
    }
}

/// A tick of gravity leaves alone every body that is held still: a body
/// whose entity has a frozen transform takes no force.
pub proof fn lemma_sweep_spares_still<S: Widen>(
    g: S::Wide,
    handles: Seq<usize>,
    stills: Seq<bool>,
    upto: int,
    before: Seq<RigidBody<S>>,
    after: Seq<RigidBody<S>>,
    slot: int,
)
    requires
        GravitySystem::is_sweep_applied(g, handles, stills, upto, before, after),
        upto <= handles.len(),
        0 <= slot < before.len(),
        held_still(handles, stills, slot),
    ensures
        after.len() == before.len(),
        after[slot] == before[slot],
    decreases upto,
{
    if upto > 0 {
        let mid = choose|mid: Seq<RigidBody<S>>|
            #![trigger GravitySystem::is_row_applied(g, handles, stills, upto - 1, handles.len() as int, mid, after)]
            GravitySystem::is_sweep_applied(g, handles, stills, upto - 1, before, mid)
                && GravitySystem::is_row_applied(
                g,
                handles,
                stills,
                upto - 1,
                handles.len() as int,
                mid,
                after,
            );
        lemma_sweep_spares_still(g, handles, stills, upto - 1, before, mid, slot);
        lemma_row_spares_still(
            g,
            handles,
            stills,
            upto - 1,
            handles.len() as int,
            mid,
            after,
            slot,
        );
    }
}

/// Whether the mass `m` always tests greater than zero.
pub open spec fn always_positive<S: Widen>(m: S) -> bool {
    forall|heavy: bool| #[trigger] positive_test(m, heavy) ==> heavy
}

/// Of two bodies with mass, neither held still, each takes the force the
/// other exerts on it: after a tick of gravity over the two, the first has
/// the one and the second the other of the two forces of their attraction
/// committed as gravity, and these two forces have one magnitude and the
/// directions of the way from the first to the second and of that way
/// reversed.
pub proof fn lemma_two_bodies_attract<S: Widen>(
    g: S::Wide,
    a: usize,
    b: usize,
    before: Seq<RigidBody<S>>,
    after: Seq<RigidBody<S>>,
)
    requires
        GravitySystem::is_sweep_applied(g, seq![a, b], seq![false, false], 2, before, after),
        a < before.len(),
        b < before.len(),
        always_positive(before[a as int].mass),
        always_positive(before[b as int].mass),
    ensures
        exists|f1: Vector3<S>, f2: Vector3<S>, mid: Seq<RigidBody<S>>|
            #![trigger GravitySystem::is_pulled(a, f1, before, mid), GravitySystem::is_pulled(b, f2, mid, after)]
            GravitySystem::is_attraction(
                g,
                before[a as int].last_absolute_position,
                before[a as int].mass,
                before[b as int].last_absolute_position,
                before[b as int].mass,
                f1,
                f2,
            ) && GravitySystem::is_pulled(a, f1, before, mid) && GravitySystem::is_pulled(
                b,
                f2,
                mid,
                after,
            ),
{
    let handles = seq![a, b];
    let stills = seq![false, false];
    let second = choose|mid: Seq<RigidBody<S>>|
        #![trigger GravitySystem::is_row_applied(g, handles, stills, 1, handles.len() as int, mid, after)]
        GravitySystem::is_sweep_applied(g, handles, stills, 1, before, mid)
            && GravitySystem::is_row_applied(g, handles, stills, 1, handles.len() as int, mid, after);
    assert(after == second);
    let first = choose|mid: Seq<RigidBody<S>>|
        #![trigger GravitySystem::is_row_applied(g, handles, stills, 0, handles.len() as int, mid, second)]
        GravitySystem::is_sweep_applied(g, handles, stills, 0, before, mid)
            && GravitySystem::is_row_applied(
            g,
            handles,
            stills,
            0,
            handles.len() as int,
            mid,
            second,
        );
    assert(first == before);
    let row = choose|mid: Seq<RigidBody<S>>|
        #![trigger GravitySystem::is_pair_applied(g, handles[0], handles[2 - 1], stills[0], stills[2 - 1], mid, second)]
        GravitySystem::is_row_applied(g, handles, stills, 0, 2 - 1, first, mid)
            && GravitySystem::is_pair_applied(
            g,
            handles[0],
            handles[2 - 1],
            stills[0],
            stills[2 - 1],
            mid,
            second,
        );
    assert(row == before);
    assert(GravitySystem::is_pair_applied(g, a, b, false, false, before, after));
    let (heavy_a, heavy_b) = choose|heavy_a: bool, heavy_b: bool|
        #![trigger positive_test(before[a as int].mass, heavy_a), positive_test(before[b as int].mass, heavy_b)]
        positive_test(before[a as int].mass, heavy_a) && positive_test(
            before[b as int].mass,
            heavy_b,
        ) && if heavy_a && heavy_b {
            exists|f1: Vector3<S>, f2: Vector3<S>, mid: Seq<RigidBody<S>>|
                #![trigger GravitySystem::is_pulled_unless(false, a, f1, before, mid), GravitySystem::is_pulled_unless(false, b, f2, mid, after)]
                GravitySystem::is_attraction(
                    g,
                    before[a as int].last_absolute_position,
                    before[a as int].mass,
                    before[b as int].last_absolute_position,
                    before[b as int].mass,
                    f1,
                    f2,
                ) && GravitySystem::is_pulled_unless(false, a, f1, before, mid)
                    && GravitySystem::is_pulled_unless(false, b, f2, mid, after)
        } else {
            after == before
        };
    assert(heavy_a && heavy_b);
    let (f1, f2, mid) = choose|f1: Vector3<S>, f2: Vector3<S>, mid: Seq<RigidBody<S>>|
        #![trigger GravitySystem::is_pulled_unless(false, a, f1, before, mid), GravitySystem::is_pulled_unless(false, b, f2, mid, after)]
        GravitySystem::is_attraction(
            g,
            before[a as int].last_absolute_position,
            before[a as int].mass,
            before[b as int].last_absolute_position,
            before[b as int].mass,
            f1,
            f2,
        ) && GravitySystem::is_pulled_unless(false, a, f1, before, mid)
            && GravitySystem::is_pulled_unless(false, b, f2, mid, after);
    assert(GravitySystem::is_pulled(a, f1, before, mid) && GravitySystem::is_pulled(
        b,
        f2,
        mid,
        after,
    ));
}

/// In a tree whose entities name no record in common, as every tree is
/// that was built, the handles that a fetch keeps name every body once: no
/// body is paired with itself.
pub proof fn lemma_fetched_bodies_apart<S: Widen>(source: Entity, j: int, k: int)
    requires
        separate(source.subtree()),
        0 <= j < source.traversal(None, true, false).filter(
            GravitySystem::<S>::is_body(),
        ).map_values(GravitySystem::<S>::body_of()).len(),
        0 <= k < source.traversal(None, true, false).filter(
            GravitySystem::<S>::is_body(),
        ).map_values(GravitySystem::<S>::body_of()).len(),
        j != k,
    ensures
        ({
            let handles = source.traversal(None, true, false).filter(
                GravitySystem::<S>::is_body(),
            ).map_values(GravitySystem::<S>::body_of());
            handles[j] != handles[k]
        }),
{
    lemma_traversal_starts_with_parent(source);
    let bodies = source.subtree().filter(GravitySystem::<S>::is_body());
    lemma_filter_separate(source.subtree(), GravitySystem::<S>::is_body());
    source.subtree().lemma_filter_pred(GravitySystem::<S>::is_body(), j);
    source.subtree().lemma_filter_pred(GravitySystem::<S>::is_body(), k);
    if j < k {
        assert(bodies[j].spec_slots().apart_from(bodies[k].spec_slots()));
    } else {
        assert(bodies[k].spec_slots().apart_from(bodies[j].spec_slots()));
    }
}

} // verus!
