//! The system that moves bodies along: semi-implicit Euler integration.

use vstd::prelude::*;
use crate::math::scalar::Scalar;
use crate::math::sequence::{lemma_filter_map_empty, lemma_filter_map_first};
use crate::math::vector::Vector3;
use crate::world::entity::component::rigid_body::{NamedForce, RigidBody};
use crate::world::entity::component::transform::Transform;
use crate::world::entity::component::{ComponentManager, ComponentStore};
use crate::world::entity::{
    lemma_filter_separate, lemma_traversal_starts_with_parent, separate, Entity, EntityContainer,
};
use crate::world::system::{System, SystemRuntimeError};

verus! {

/// Advances every entity that has both a transform and a rigid body.
pub struct IntegrateSystem<S> {
    components: Vec<(ComponentManager<Transform<S>>, ComponentManager<RigidBody<S>>)>,
}

impl<S: Scalar> IntegrateSystem<S> {
    /// The places of the transform and of the rigid body of each entity the
    /// system works on.
    pub closed spec fn handles(self) -> Seq<(usize, usize)> {
        self.components@.map_values(
            |pair: (ComponentManager<Transform<S>>, ComponentManager<RigidBody<S>>)|
                (pair.0.slot(), pair.1.slot()),
        )
    }

    /// Whether an entity has both a transform and a rigid body.
    pub open spec fn is_body() -> spec_fn(Entity) -> bool {
        |e: Entity| e.spec_slots().transform is Some && e.spec_slots().rigid_body is Some
    }

    /// The places of the transform and of the rigid body of an entity.
    pub open spec fn places() -> spec_fn(Entity) -> (usize, usize) {
        |e: Entity| (e.spec_slots().transform->Some_0, e.spec_slots().rigid_body->Some_0)
    }

    /// `r` is `x + v * dt`.
    pub open spec fn is_advanced(x: Vector3<S>, v: Vector3<S>, dt: S, r: Vector3<S>) -> bool {
        exists|d: Vector3<S>|
            #![trigger Vector3::is_added(x, d, r)]
            Vector3::is_scaled(v, dt, d) && Vector3::is_added(x, d, r)
    }

    /// `r` is the net force of `forces` divided by `mass`.
    pub open spec fn is_accelerated(forces: Seq<NamedForce<S>>, mass: S, r: Vector3<S>) -> bool {
        exists|net: Vector3<S>|
            #![trigger Vector3::is_divided(net, mass, r)]
            RigidBody::is_net(forces, net) && Vector3::is_divided(net, mass, r)
    }

    /// `t1` and `b1` are `t0` and `b0` one step of length `dt` later.
    ///
    /// A body that is not movable stays as it is. For a movable one, the
    /// position advances by the old velocity, the velocity by the old
    /// acceleration, and the acceleration becomes the net force over the
    /// mass; rotation and angular velocity advance in the same way, by the
    /// old angular velocity and the angular acceleration.
    pub open spec fn is_step(
        t0: Transform<S>,
        b0: RigidBody<S>,
        dt: S,
        t1: Transform<S>,
        b1: RigidBody<S>,
    ) -> bool {
        if !b0.movable {
            t1 == t0 && b1 == b0
        } else {
            &&& Self::is_advanced(t0.pos, b0.velocity, dt, t1.pos)
            &&& Self::is_advanced(b0.velocity, b0.acceleration, dt, b1.velocity)
            &&& Self::is_accelerated(b0.forces@, b0.mass, b1.acceleration)
            &&& Self::is_advanced(t0.rot, b0.angular_velocity, dt, t1.rot)
            &&& Self::is_advanced(
                b0.angular_velocity,
                b0.angular_acceleration,
                dt,
                b1.angular_velocity,
            )
            &&& t1 == (Transform { pos: t1.pos, rot: t1.rot, ..t0 })
            &&& b1.mass == b0.mass
            &&& b1.movable == b0.movable
            &&& b1.last_absolute_position == b0.last_absolute_position
            &&& b1.angular_acceleration == b0.angular_acceleration
            &&& b1.forces == b0.forces
        }
    }

    /// `after` is `before` with the entity at the places `at` stepped by
    /// `dt`, and all other records untouched.
    pub open spec fn is_stepped_at(
        at: (usize, usize),
        dt: S,
        before: ComponentStore<S>,
        after: ComponentStore<S>,
    ) -> bool {
        &&& at.0 < before.transforms@.len()
        &&& at.1 < before.rigid_bodies@.len()
        &&& after.transforms@.len() == before.transforms@.len()
        &&& after.rigid_bodies@.len() == before.rigid_bodies@.len()
        &&& Self::is_step(
            before.transforms@[at.0 as int],
            before.rigid_bodies@[at.1 as int],
            dt,
            after.transforms@[at.0 as int],
            after.rigid_bodies@[at.1 as int],
        )
        &&& forall|i: int|
            0 <= i < before.transforms@.len() && i != at.0 ==> after.transforms@[i]
                == before.transforms@[i]
        &&& forall|i: int|
            0 <= i < before.rigid_bodies@.len() && i != at.1 ==> after.rigid_bodies@[i]
                == before.rigid_bodies@[i]
        &&& after.models == before.models
        &&& after.controllers == before.controllers
        &&& after.cameras == before.cameras
    }

    /// `after` is `before` with the entities at `handles` stepped by `dt`,
    /// one after the other.
    pub open spec fn is_integrated(
        handles: Seq<(usize, usize)>,
        dt: S,
        before: ComponentStore<S>,
        after: ComponentStore<S>,
    ) -> bool
        decreases handles.len(),
    {
        if handles.len() == 0 {
            after == before
        } else {
            exists|mid: ComponentStore<S>|
                #![trigger Self::is_stepped_at(handles.last(), dt, mid, after)]
                Self::is_integrated(handles.drop_last(), dt, before, mid) && Self::is_stepped_at(
                    handles.last(),
                    dt,
                    mid,
                    after,
                )
        }
    }

    /// A system that has not fetched yet.
    pub fn new() -> (r: Self)
        ensures
            r.handles().len() == 0,
    {
        IntegrateSystem { components: Vec::new() }
    }

    /// `x + v * dt`.
    fn advance(x: Vector3<S>, v: Vector3<S>, dt: S) -> (r: Vector3<S>)
        ensures
            Self::is_advanced(x, v, dt, r),
    {
        let d = v.scaled(dt);
        let r = x.plus(d);
        assert(Vector3::is_added(x, d, r));
        r
    }

    /// Steps one entity by `dt`.
    pub fn step(transform: &mut Transform<S>, rigid_body: &mut RigidBody<S>, dt: S)
        ensures
            Self::is_step(
                *old(transform),
                *old(rigid_body),
                dt,
                *final(transform),
                *final(rigid_body),
            ),
    {
        if !rigid_body.movable {
            return ;
        }
        let net_force = rigid_body.net_force();
        let acceleration = net_force.divided(rigid_body.mass);
        assert(Vector3::is_divided(net_force, rigid_body.mass, acceleration));
        transform.pos = Self::advance(transform.pos, rigid_body.velocity, dt);
        rigid_body.velocity = Self::advance(rigid_body.velocity, rigid_body.acceleration, dt);
        rigid_body.acceleration = acceleration;
        transform.rot = Self::advance(transform.rot, rigid_body.angular_velocity, dt);
        rigid_body.angular_velocity = Self::advance(
            rigid_body.angular_velocity,
            rigid_body.angular_acceleration,
            dt,
        );
    }
}

impl<'a, S: Scalar> System<'a> for IntegrateSystem<S> {
    type Real = S;

    open spec fn frozen(&self, store: ComponentStore<S>) -> bool {
        forall|i: int|
            0 <= i < self.handles().len() ==> (#[trigger] self.handles()[i]).0
                < store.transforms@.len() && self.handles()[i].1 < store.rigid_bodies@.len()
    }

    open spec fn fetched(&self, before: Self, source: Entity) -> bool {
        self.handles() == source.traversal(None, true, false).filter(Self::is_body()).map_values(
            Self::places(),
        )
    }

    open spec fn ran(&self, delta: S, before: ComponentStore<S>, after: ComponentStore<S>) -> bool {
        Self::is_integrated(self.handles(), delta, before, after)
    }

    /// Keeps the handles of every entity of the tree, `source` included,
    /// that has both a transform and a rigid body, in pre-order. Handles
    /// kept before are dropped.
    fn on_fetch(&mut self, source: &'a Entity) -> (r: Result<(), SystemRuntimeError>)
        ensures
            r is Ok,
            final(self).handles() == source.traversal(None, true, false).filter(
                Self::is_body(),
            ).map_values(Self::places()),
    {
        self.components.clear();
        let mut iter = source.query_entities(true);
        let ghost all = iter.remaining();
        loop
            invariant
                iter.wf(),
                self.handles() + iter.remaining().filter(Self::is_body()).map_values(
                    Self::places(),
                ) == all.filter(Self::is_body()).map_values(Self::places()),
            ensures
                self.handles() == all.filter(Self::is_body()).map_values(Self::places()),
            decreases iter.remaining().len(),
        {
            let ghost before = iter.remaining();
            let ghost kept = self.handles();
            match iter.next() {
                None => {
                    proof {
                        lemma_filter_map_empty(before, Self::is_body(), Self::places());
                        assert(kept + before.filter(Self::is_body()).map_values(Self::places())
                            =~= kept);
                    }
                    break ;
                },
                Some(entity) => {
                    proof {
                        lemma_filter_map_first(before, Self::is_body(), Self::places());
                    }
                    let transform = entity.component::<Transform<S>>();
                    let rigid_body = entity.component::<RigidBody<S>>();
                    if let (Some(a), Some(b)) = (transform, rigid_body) {
                        self.components.push((a, b));
                        proof {
                            let rest = iter.remaining().filter(Self::is_body()).map_values(
                                Self::places(),
                            );
                            assert(self.handles() =~= kept + seq![(a.slot(), b.slot())]);
                            assert(self.handles() + rest =~= kept + (seq![(a.slot(), b.slot())]
                                + rest));
                        }
                    }
                },
            }
        }
        Ok(())
    }

    fn on_freeze(&self, store: &ComponentStore<S>) -> (r: Result<(), SystemRuntimeError>) {
        let mut i: usize = 0;
        while i < self.components.len()
            invariant
                i <= self.components.len(),
                forall|k: int|
                    0 <= k < i ==> (#[trigger] self.handles()[k]).0 < store.transforms@.len()
                        && self.handles()[k].1 < store.rigid_bodies@.len(),
            decreases self.components.len() - i,
        {
            let (transform, rigid_body) = self.components[i];
            if !transform.is_held_by(store) || !rigid_body.is_held_by(store) {
                assert(!(self.handles()[i as int].0 < store.transforms@.len()
                    && self.handles()[i as int].1 < store.rigid_bodies@.len()));
                return Err(SystemRuntimeError("a component of a body is not in the store"));
            }
            i = i + 1;
        }
        Ok(())
    }

    /// Steps every entity the system works on by `delta`, in the order in
    /// which they were fetched.
    fn on_run(&self, store: &mut ComponentStore<S>, delta: S) {
        let mut i: usize = 0;
        while i < self.components.len()
            invariant
                i <= self.components.len(),
                self.frozen(*store),
                Self::is_integrated(self.handles().take(i as int), delta, *old(store), *store),
            decreases self.components.len() - i,
        {
            let ghost mid = *store;
            let (transform, rigid_body) = self.components[i];
            assert(self.handles()[i as int] == (transform.slot(), rigid_body.slot()));
            Self::step(
                &mut store.transforms[transform.index()],
                &mut store.rigid_bodies[rigid_body.index()],
                delta,
            );
            proof {
                let upto = self.handles().take(i + 1);
                assert(upto.drop_last() =~= self.handles().take(i as int));
                assert(upto.last() == self.handles()[i as int]);
                assert(Self::is_stepped_at(upto.last(), delta, mid, *store));
            }
            i = i + 1;
        }
        proof {
            assert(self.handles().take(i as int) =~= self.handles());
        }
    }
}

/// Whether none of `handles` names the transform at `transform` or the
/// rigid body at `rigid_body`.
pub open spec fn names_neither(handles: Seq<(usize, usize)>, transform: usize, rigid_body: usize) -> bool {
    forall|j: int|
        0 <= j < handles.len() ==> (#[trigger] handles[j]).0 != transform && handles[j].1
            != rigid_body
}

/// An integration leaves alone what none of its handles names.
pub proof fn lemma_integration_spares<S: Scalar>(
    handles: Seq<(usize, usize)>,
    dt: S,
    before: ComponentStore<S>,
    after: ComponentStore<S>,
    transform: usize,
    rigid_body: usize,
)
    requires
        IntegrateSystem::is_integrated(handles, dt, before, after),
        names_neither(handles, transform, rigid_body),
        transform < before.transforms@.len(),
        rigid_body < before.rigid_bodies@.len(),
    ensures
        after.transforms@.len() == before.transforms@.len(),
        after.rigid_bodies@.len() == before.rigid_bodies@.len(),
        after.transforms@[transform as int] == before.transforms@[transform as int],
        after.rigid_bodies@[rigid_body as int] == before.rigid_bodies@[rigid_body as int],
    decreases handles.len(),
{
    if handles.len() > 0 {
        let mid = choose|mid: ComponentStore<S>|
            #![trigger IntegrateSystem::is_stepped_at(handles.last(), dt, mid, after)]
            IntegrateSystem::is_integrated(handles.drop_last(), dt, before, mid)
                && IntegrateSystem::is_stepped_at(handles.last(), dt, mid, after);
        let earlier = handles.drop_last();
        assert forall|j: int| 0 <= j < earlier.len() implies (#[trigger] earlier[j]).0 != transform
            && earlier[j].1 != rigid_body by {
            assert(earlier[j] == handles[j]);
        }
        lemma_integration_spares(earlier, dt, before, mid, transform, rigid_body);
        assert(handles.last() == handles[handles.len() - 1]);
    }
}

/// An entity whose transform and rigid body no other handle names is
/// stepped exactly once by an integration: what the store holds for it
/// afterwards is one step from what it held before.
pub proof fn lemma_integrated_once<S: Scalar>(
    handles: Seq<(usize, usize)>,
    dt: S,
    before: ComponentStore<S>,
    after: ComponentStore<S>,
    k: int,
)
    requires
        IntegrateSystem::is_integrated(handles, dt, before, after),
        0 <= k < handles.len(),
        handles[k].0 < before.transforms@.len(),
        handles[k].1 < before.rigid_bodies@.len(),
        forall|j: int|
            0 <= j < handles.len() && j != k ==> (#[trigger] handles[j]).0 != handles[k].0
                && handles[j].1 != handles[k].1,
    ensures
        IntegrateSystem::is_step(
            before.transforms@[handles[k].0 as int],
            before.rigid_bodies@[handles[k].1 as int],
            dt,
            after.transforms@[handles[k].0 as int],
            after.rigid_bodies@[handles[k].1 as int],
        ),
    decreases handles.len(),
{
    let mid = choose|mid: ComponentStore<S>|
        #![trigger IntegrateSystem::is_stepped_at(handles.last(), dt, mid, after)]
        IntegrateSystem::is_integrated(handles.drop_last(), dt, before, mid)
            && IntegrateSystem::is_stepped_at(handles.last(), dt, mid, after);
    let earlier = handles.drop_last();
    let (transform, rigid_body) = handles[k];
    if k == handles.len() - 1 {
        assert forall|j: int| 0 <= j < earlier.len() implies (#[trigger] earlier[j]).0 != transform
            && earlier[j].1 != rigid_body by {
            assert(earlier[j] == handles[j]);
        }
        lemma_integration_spares(earlier, dt, before, mid, transform, rigid_body);
    } else {
        assert(earlier[k] == handles[k]);
        assert forall|j: int| 0 <= j < earlier.len() && j != k implies (#[trigger] earlier[j]).0
            != earlier[k].0 && earlier[j].1 != earlier[k].1 by {
            assert(earlier[j] == handles[j]);
        }
        lemma_integrated_once(earlier, dt, before, mid, k);
        assert(handles.last() == handles[handles.len() - 1]);
        lemma_integration_keeps_len(earlier, dt, before, mid);
    }
}

/// An integration keeps the number of transforms and of rigid bodies.
pub proof fn lemma_integration_keeps_len<S: Scalar>(
    handles: Seq<(usize, usize)>,
    dt: S,
    before: ComponentStore<S>,
    after: ComponentStore<S>,
)
    requires
        IntegrateSystem::is_integrated(handles, dt, before, after),
    ensures
        after.transforms@.len() == before.transforms@.len(),
        after.rigid_bodies@.len() == before.rigid_bodies@.len(),
    decreases handles.len(),
{
    if handles.len() > 0 {
        let mid = choose|mid: ComponentStore<S>|
            #![trigger IntegrateSystem::is_stepped_at(handles.last(), dt, mid, after)]
            IntegrateSystem::is_integrated(handles.drop_last(), dt, before, mid)
                && IntegrateSystem::is_stepped_at(handles.last(), dt, mid, after);
        lemma_integration_keeps_len(handles.drop_last(), dt, before, mid);
    }
}

/// In a tree whose entities name no record in common, the handles that
/// a fetch keeps name no record twice.
pub proof fn lemma_fetched_apart<S: Scalar>(source: Entity, j: int, k: int)
    requires
        separate(source.subtree()),
        0 <= j < source.traversal(None, true, false).filter(
            IntegrateSystem::<S>::is_body(),
        ).map_values(IntegrateSystem::<S>::places()).len(),
        0 <= k < source.traversal(None, true, false).filter(
            IntegrateSystem::<S>::is_body(),
        ).map_values(IntegrateSystem::<S>::places()).len(),
        j != k,
    ensures
        ({
            let handles = source.traversal(None, true, false).filter(
                IntegrateSystem::<S>::is_body(),
            ).map_values(IntegrateSystem::<S>::places());
            handles[j].0 != handles[k].0 && handles[j].1 != handles[k].1
        }),
{
    lemma_traversal_starts_with_parent(source);
    let bodies = source.subtree().filter(IntegrateSystem::<S>::is_body());
    lemma_filter_separate(source.subtree(), IntegrateSystem::<S>::is_body());
    source.subtree().lemma_filter_pred(IntegrateSystem::<S>::is_body(), j);
    source.subtree().lemma_filter_pred(IntegrateSystem::<S>::is_body(), k);
    if j < k {
        assert(bodies[j].spec_slots().apart_from(bodies[k].spec_slots()));
    } else {
        assert(bodies[k].spec_slots().apart_from(bodies[j].spec_slots()));
    }
}

/// In a tree whose entities name no record in common, as every tree is
/// that was built, one run steps each entity that has a transform and a
/// rigid body exactly once: what the store holds for the entity afterwards
/// is one step from what it held before.
pub proof fn lemma_each_entity_stepped_once<S: Scalar>(
    source: Entity,
    dt: S,
    before: ComponentStore<S>,
    after: ComponentStore<S>,
    k: int,
)
    requires
        separate(source.subtree()),
        IntegrateSystem::is_integrated(
            source.traversal(None, true, false).filter(
                IntegrateSystem::<S>::is_body(),
            ).map_values(IntegrateSystem::<S>::places()),
            dt,
            before,
            after,
        ),
        0 <= k < source.traversal(None, true, false).filter(
            IntegrateSystem::<S>::is_body(),
        ).map_values(IntegrateSystem::<S>::places()).len(),
        source.traversal(None, true, false).filter(IntegrateSystem::<S>::is_body()).map_values(
            IntegrateSystem::<S>::places(),
        )[k].0 < before.transforms@.len(),
        source.traversal(None, true, false).filter(IntegrateSystem::<S>::is_body()).map_values(
            IntegrateSystem::<S>::places(),
        )[k].1 < before.rigid_bodies@.len(),
    ensures
        ({
            let handles = source.traversal(None, true, false).filter(
                IntegrateSystem::<S>::is_body(),
            ).map_values(IntegrateSystem::<S>::places());
            IntegrateSystem::is_step(
                before.transforms@[handles[k].0 as int],
                before.rigid_bodies@[handles[k].1 as int],
                dt,
                after.transforms@[handles[k].0 as int],
                after.rigid_bodies@[handles[k].1 as int],
            )
        }),
{
    let handles = source.traversal(None, true, false).filter(
        IntegrateSystem::<S>::is_body(),
    ).map_values(IntegrateSystem::<S>::places());
    assert forall|j: int| 0 <= j < handles.len() && j != k implies (#[trigger] handles[j]).0
        != handles[k].0 && handles[j].1 != handles[k].1 by {
        lemma_fetched_apart::<S>(source, j, k);
    }
    lemma_integrated_once(handles, dt, before, after, k);
}

} // verus!
