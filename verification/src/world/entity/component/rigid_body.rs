//! The rigid body component: mass, motion and the forces acting on a body.

use vstd::prelude::*;
use crate::world::entity::component::{Component, ComponentBag, ComponentSlots, ComponentStore};
use crate::math::scalar::{is_zero, nan_test, Scalar};
use crate::math::vector::Vector3;

verus! {

/// A force and the name of the source it comes from.
pub struct NamedForce<S> {
    pub source: String,
    pub force: Vector3<S>,
}

/// A body that forces act on.
///
/// Each source of force holds at most one entry in `forces`, as long as the
/// entries are only changed through `commit_force`.
pub struct RigidBody<S> {
    pub mass: S,
    pub movable: bool,
    pub last_absolute_position: Vector3<S>,
    pub velocity: Vector3<S>,
    pub acceleration: Vector3<S>,
    pub angular_velocity: Vector3<S>,
    pub angular_acceleration: Vector3<S>,
    pub forces: Vec<NamedForce<S>>,
}

impl<S: Scalar> RigidBody<S> {
    /// `r` is `x`, or zero where `x` is not a number.
    pub open spec fn is_cleaned_scalar(x: S, r: S) -> bool {
        exists|nan: bool|
            #![trigger nan_test(x, nan)]
            nan_test(x, nan) && if nan {
                is_zero(r)
            } else {
                r == x
            }
    }

    /// `r` is `v` with zero in place of each component that is not a number.
    pub open spec fn is_cleaned(v: Vector3<S>, r: Vector3<S>) -> bool {
        &&& Self::is_cleaned_scalar(v.x, r.x)
        &&& Self::is_cleaned_scalar(v.y, r.y)
        &&& Self::is_cleaned_scalar(v.z, r.z)
    }

    /// Whether some entry of `forces` comes from `source`.
    pub open spec fn has_source(forces: Seq<NamedForce<S>>, source: Seq<char>) -> bool {
        exists|i: int| 0 <= i < forces.len() && (#[trigger] forces[i]).source@ == source
    }

    /// Whether no two entries of `forces` come from the same source.
    pub open spec fn distinct_sources(forces: Seq<NamedForce<S>>) -> bool {
        forall|i: int, j: int|
            0 <= i < j < forces.len() ==> (#[trigger] forces[i]).source@ != (
            #[trigger] forces[j]).source@
    }

    /// `after` is `before` with `force` committed under `source`: every
    /// entry of that source holds `force` instead of what it held, all other
    /// entries are as they were, and where `before` had no entry of that
    /// source, one is added at the end.
    pub open spec fn is_committed(
        before: Seq<NamedForce<S>>,
        source: Seq<char>,
        force: Vector3<S>,
        after: Seq<NamedForce<S>>,
    ) -> bool {
        &&& after.len() == if Self::has_source(before, source) {
            before.len()
        } else {
            before.len() + 1
        }
        &&& forall|i: int|
            0 <= i < before.len() ==> (#[trigger] after[i]).source@ == before[i].source@
        &&& forall|i: int|
            0 <= i < before.len() ==> (#[trigger] after[i]).force == if before[i].source@
                == source {
                force
            } else {
                before[i].force
            }
        &&& !Self::has_source(before, source) ==> after.last().source@ == source
            && after.last().force == force
    }

    /// `r` is the sum of the forces of `forces`, added up from zero in the
    /// order of the entries.
    pub open spec fn is_net(forces: Seq<NamedForce<S>>, r: Vector3<S>) -> bool
        decreases forces.len(),
    {
        if forces.len() == 0 {
            Vector3::is_origin(r)
        } else {
            exists|m: Vector3<S>|
                #![trigger Vector3::is_added(m, forces.last().force, r)]
                Self::is_net(forces.drop_last(), m) && Vector3::is_added(
                    m,
                    forces.last().force,
                    r,
                )
        }
    }

    /// Whether `a` and `b` agree in everything but their forces.
    pub open spec fn same_motion(a: Self, b: Self) -> bool {
        &&& a.mass == b.mass
        &&& a.movable == b.movable
        &&& a.last_absolute_position == b.last_absolute_position
        &&& a.velocity == b.velocity
        &&& a.acceleration == b.acceleration
        &&& a.angular_velocity == b.angular_velocity
        &&& a.angular_acceleration == b.angular_acceleration
    }

    /// A movable body of the given mass, at rest at the origin, with no
    /// force acting on it.
    pub fn new(mass: S) -> (r: Self)
        ensures
            r.mass == mass,
            r.movable,
            Vector3::is_origin(r.last_absolute_position),
            Vector3::is_origin(r.velocity),
            Vector3::is_origin(r.acceleration),
            Vector3::is_origin(r.angular_velocity),
            Vector3::is_origin(r.angular_acceleration),
            r.forces@.len() == 0,
            Self::distinct_sources(r.forces@),
    {
        RigidBody {
            mass,
            movable: true,
            last_absolute_position: Vector3::origin(),
            velocity: Vector3::origin(),
            acceleration: Vector3::origin(),
            angular_velocity: Vector3::origin(),
            angular_acceleration: Vector3::origin(),
            forces: Vec::new(),
        }
    }

    /// Replaces each component of `v` that is not a number by zero.
    pub fn clean(v: Vector3<S>) -> (r: Vector3<S>)
        ensures
            Self::is_cleaned(v, r),
    {
        Vector3 { x: Self::clean_scalar(v.x), y: Self::clean_scalar(v.y), z: Self::clean_scalar(v.z) }
    }

    fn clean_scalar(x: S) -> (r: S)
        ensures
            Self::is_cleaned_scalar(x, r),
    {
        let nan = x.is_nan();
        assert(nan_test(x, nan));
        if nan {
            S::zero()
        } else {
            x
        }
    }

    /// Sets the force that the source `force_desc` exerts on this body to
    /// `force`, with zero in place of each component that is not a number.
    /// A force committed earlier under the same name is replaced, so a body
    /// whose sources each had one entry has one entry for each source
    /// afterwards.
    pub fn commit_force(&mut self, force_desc: &str, force: Vector3<S>)
        ensures
            Self::same_motion(*old(self), *final(self)),
            Self::distinct_sources(old(self).forces@) ==> Self::distinct_sources(
                final(self).forces@,
            ),
            exists|cleaned: Vector3<S>|
                #![trigger Self::is_cleaned(force, cleaned)]
                Self::is_cleaned(force, cleaned) && Self::is_committed(
                    old(self).forces@,
                    force_desc@,
                    cleaned,
                    final(self).forces@,
                ),
    {
        let cleaned = Self::clean(force);
        let source = force_desc.to_owned();
        let mut replaced = false;
        let mut i: usize = 0;
        while i < self.forces.len()
            invariant
                i <= self.forces.len(),
                source@ == force_desc@,
                Self::same_motion(*old(self), *self),
                self.forces@.len() == old(self).forces@.len(),
                replaced == Self::has_source(old(self).forces@.take(i as int), source@),
                forall|j: int|
                    0 <= j < self.forces@.len() ==> (#[trigger] self.forces@[j]).source@ == old(
                        self,
                    ).forces@[j].source@,
                forall|j: int|
                    0 <= j < i ==> (#[trigger] self.forces@[j]).force == if old(
                        self,
                    ).forces@[j].source@ == source@ {
                        cleaned
                    } else {
                        old(self).forces@[j].force
                    },
                forall|j: int|
                    i <= j < self.forces@.len() ==> (#[trigger] self.forces@[j]).force == old(
                        self,
                    ).forces@[j].force,
            decreases self.forces.len() - i,
        {
            let ghost seen = old(self).forces@.take(i as int);
            let ghost seen_next = old(self).forces@.take(i + 1);
            proof {
                assert(seen_next.drop_last() =~= seen);
                assert(seen_next.last() == old(self).forces@[i as int]);
                if Self::has_source(seen, source@) {
                    let w = choose|w: int| 0 <= w < seen.len() && (#[trigger] seen[w]).source@ == source@;
                    assert(seen_next[w].source@ == source@);
                }
                if Self::has_source(seen_next, source@) && !Self::has_source(seen, source@) {
                    let w = choose|w: int| 0 <= w < seen_next.len() && (#[trigger] seen_next[w]).source@ == source@;
                    if w < i {
                        assert(seen[w].source@ == source@);
                    }
                }
            }
            if self.forces[i].source == source {
                let entry = &mut self.forces[i];
                entry.force = cleaned;
                replaced = true;
                proof {
                    assert(seen_next[i as int].source@ == source@);
                }
            }
            i = i + 1;
        }
        proof {
            assert(old(self).forces@.take(i as int) =~= old(self).forces@);
        }
        if !replaced {
            self.forces.push(NamedForce { source, force: cleaned });
        }
        proof {
            assert(Self::is_committed(old(self).forces@, force_desc@, cleaned, self.forces@));
            if Self::distinct_sources(old(self).forces@) {
                lemma_commit_keeps_distinct(
                    old(self).forces@,
                    force_desc@,
                    cleaned,
                    self.forces@,
                );
            }
        }
    }

    /// The sum of all forces on this body.
    pub fn net_force(&self) -> (r: Vector3<S>)
        ensures
            Self::is_net(self.forces@, r),
    {
        let mut total = Vector3::origin();
        let mut i: usize = 0;
        while i < self.forces.len()
            invariant
                i <= self.forces.len(),
                Self::is_net(self.forces@.take(i as int), total),
            decreases self.forces.len() - i,
        {
            let next = total.plus(self.forces[i].force);
            proof {
                let upto = self.forces@.take(i + 1);
                assert(upto.drop_last() =~= self.forces@.take(i as int));
                assert(upto.last() == self.forces@[i as int]);
                assert(Vector3::is_added(total, upto.last().force, next));
            }
            total = next;
            i = i + 1;
        }
        proof {
            assert(self.forces@.take(i as int) =~= self.forces@);
        }
        total
    }
}

/// A force committed again under the same name overwrites the earlier one:
/// committing `first` and then `second` under `source` leaves the forces
/// that committing `second` alone would leave.
pub proof fn lemma_commit_overwrites<S: Scalar>(
    before: Seq<NamedForce<S>>,
    source: Seq<char>,
    first: Vector3<S>,
    between: Seq<NamedForce<S>>,
    second: Vector3<S>,
    after: Seq<NamedForce<S>>,
)
    requires
        RigidBody::is_committed(before, source, first, between),
        RigidBody::is_committed(between, source, second, after),
    ensures
        RigidBody::is_committed(before, source, second, after),
{
    if RigidBody::has_source(before, source) {
        let w = choose|i: int| 0 <= i < before.len() && (#[trigger] before[i]).source@ == source;
        assert(between[w].source@ == source);
    } else {
        assert(between[before.len() as int] == between.last());
        assert(after[before.len() as int] == after.last());
    }
    assert(RigidBody::has_source(between, source));
    assert forall|i: int| 0 <= i < before.len() implies (#[trigger] after[i]).source@
        == before[i].source@ && after[i].force == if before[i].source@ == source {
        second
    } else {
        before[i].force
    } by {
        assert(between[i].source@ == before[i].source@);
    }
}

/// Committing a force keeps the sources of a force table distinct.
pub proof fn lemma_commit_keeps_distinct<S: Scalar>(
    before: Seq<NamedForce<S>>,
    source: Seq<char>,
    force: Vector3<S>,
    after: Seq<NamedForce<S>>,
)
    requires
        RigidBody::distinct_sources(before),
        RigidBody::is_committed(before, source, force, after),
    ensures
        RigidBody::distinct_sources(after),
{
    assert forall|i: int, j: int| 0 <= i < j < after.len() implies (#[trigger] after[i]).source@ != (
    #[trigger] after[j]).source@ by {
        if j < before.len() {
            assert(after[i].source@ == before[i].source@);
            assert(after[j].source@ == before[j].source@);
        } else {
            assert(!RigidBody::has_source(before, source));
            assert(after[j] == after.last());
            assert(after[i].source@ == before[i].source@);
        }
    }
}

/// The net force of a body with exactly two forces is the first added to
/// zero, and the second added to that.
pub proof fn lemma_net_of_two<S: Scalar>(forces: Seq<NamedForce<S>>, net: Vector3<S>)
    requires
        forces.len() == 2,
        RigidBody::is_net(forces, net),
    ensures
        exists|zero: Vector3<S>, first: Vector3<S>|
            #![trigger Vector3::is_added(zero, forces[0].force, first)]
            Vector3::is_origin(zero) && Vector3::is_added(zero, forces[0].force, first)
                && Vector3::is_added(first, forces[1].force, net),
{
    let one = forces.drop_last();
    let first = choose|m: Vector3<S>|
        #![trigger Vector3::is_added(m, forces.last().force, net)]
        RigidBody::is_net(one, m) && Vector3::is_added(m, forces.last().force, net);
    let none = one.drop_last();
    let zero = choose|m: Vector3<S>|
        #![trigger Vector3::is_added(m, one.last().force, first)]
        RigidBody::is_net(none, m) && Vector3::is_added(m, one.last().force, first);
    assert(one.last() == forces[0]);
    assert(forces.last() == forces[1]);
    assert(Vector3::is_added(zero, forces[0].force, first));
}

impl<S: Scalar> Component for RigidBody<S> {
    type Real = S;

    fn enabled(&self) -> (r: bool)
        ensures
            r,
    {
        true
    }

    open spec fn slot(slots: ComponentSlots) -> Option<usize> {
        slots.rigid_body
    }

    open spec fn with_slot(slots: ComponentSlots, at: usize) -> ComponentSlots {
        ComponentSlots { rigid_body: Some(at), ..slots }
    }

    open spec fn with_record(bag: ComponentBag<S>, value: Self) -> ComponentBag<S> {
        ComponentBag { rigid_body: Some(value), ..bag }
    }

    open spec fn shelf(store: ComponentStore<S>) -> Seq<Self> {
        store.rigid_bodies@
    }

    open spec fn reshelved(
        before: ComponentStore<S>,
        shelf: Seq<Self>,
        after: ComponentStore<S>,
    ) -> bool {
        after.rigid_bodies@ == shelf && after.transforms == before.transforms && after.models == before.models && after.controllers == before.controllers && after.cameras == before.cameras
    }

    proof fn lemma_reshelved(before: ComponentStore<S>, shelf: Seq<Self>, after: ComponentStore<S>) {
    }

    fn slot_in(slots: &ComponentSlots) -> (r: Option<usize>) {
        slots.rigid_body
    }

    fn shelf_len(store: &ComponentStore<S>) -> (r: usize) {
        store.rigid_bodies.len()
    }

    fn at(store: &ComponentStore<S>, at: usize) -> (r: &Self) {
        &store.rigid_bodies[at]
    }

    fn at_mut(store: &mut ComponentStore<S>, at: usize) -> (r: &mut Self) {
        &mut store.rigid_bodies[at]
    }

    fn stash(self, bag: &mut ComponentBag<S>) {
        bag.rigid_body = Some(self);
    }

    fn attach(self, store: &mut ComponentStore<S>, slots: &mut ComponentSlots) -> (at: usize) {
        let at = store.rigid_bodies.len();
        slots.rigid_body = Some(at);
        store.rigid_bodies.push(self);
        at
    }
}

} // verus!
