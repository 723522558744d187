//! The transform component: where an entity sits relative to its parent.

use vstd::prelude::*;
use crate::world::entity::component::{Component, ComponentBag, ComponentSlots, ComponentStore};
use crate::math::scalar::Scalar;
use crate::math::vector::Vector3;

verus! {

/// Position, scale and rotation of an entity, with their first and second
/// derivatives. A frozen transform takes no force.
pub struct Transform<S> {
    pub pos: Vector3<S>,
    pub scale: Vector3<S>,
    pub vel: Vector3<S>,
    pub acc: Vector3<S>,
    pub rot: Vector3<S>,
    pub rot_vel: Vector3<S>,
    pub rot_acc: Vector3<S>,
    pub frozen: bool,
}

impl<S: Copy> Copy for Transform<S> {

}

impl<S: Copy> Clone for Transform<S> {
    fn clone(&self) -> (r: Self)
        ensures
            r == *self,
    {
        *self
    }
}

impl<S: Scalar> Transform<S> {
    /// `r` is at the origin, unrotated, at scale one, at rest and not frozen.
    pub open spec fn is_identity(r: Self) -> bool {
        &&& Vector3::is_origin(r.pos)
        &&& Vector3::is_ones(r.scale)
        &&& Vector3::is_origin(r.vel)
        &&& Vector3::is_origin(r.acc)
        &&& Vector3::is_origin(r.rot)
        &&& Vector3::is_origin(r.rot_vel)
        &&& Vector3::is_origin(r.rot_acc)
        &&& !r.frozen
    }

    /// `r` is `base` moved by `offset`: positions and rotations add, scales
    /// multiply component by component, everything else is as in `base`.
    pub open spec fn is_offset(base: Self, offset: Self, r: Self) -> bool {
        &&& Vector3::is_added(base.pos, offset.pos, r.pos)
        &&& Vector3::is_added(base.rot, offset.rot, r.rot)
        &&& Vector3::is_multiplied(base.scale, offset.scale, r.scale)
        &&& r.vel == base.vel
        &&& r.acc == base.acc
        &&& r.rot_vel == base.rot_vel
        &&& r.rot_acc == base.rot_acc
        &&& r.frozen == base.frozen
    }

    /// `r` is the identity moved by each transform of `offsets` in turn.
    pub open spec fn is_composed(offsets: Seq<Self>, r: Self) -> bool
        decreases offsets.len(),
    {
        if offsets.len() == 0 {
            Self::is_identity(r)
        } else {
            exists|m: Self|
                #![trigger Self::is_offset(m, offsets.last(), r)]
                Self::is_composed(offsets.drop_last(), m) && Self::is_offset(
                    m,
                    offsets.last(),
                    r,
                )
        }
    }

    /// `r` is at the origin, unrotated, at scale one, not frozen and at
    /// rest but for the angular acceleration `rot_acc`.
    pub open spec fn is_fresh(rot_acc: Vector3<S>, r: Self) -> bool {
        &&& Vector3::is_origin(r.pos)
        &&& Vector3::is_ones(r.scale)
        &&& Vector3::is_origin(r.vel)
        &&& Vector3::is_origin(r.acc)
        &&& Vector3::is_origin(r.rot)
        &&& Vector3::is_origin(r.rot_vel)
        &&& r.rot_acc == rot_acc
        &&& !r.frozen
    }

    /// A transform at the origin, unrotated, at scale one, not frozen and
    /// at rest but for the angular acceleration `rot_acc`.
    pub fn new(rot_acc: Vector3<S>) -> (r: Self)
        ensures
            Self::is_fresh(rot_acc, r),
    {
        Transform {
            pos: Vector3::origin(),
            scale: Vector3::ones(),
            vel: Vector3::origin(),
            acc: Vector3::origin(),
            rot: Vector3::origin(),
            rot_vel: Vector3::origin(),
            rot_acc,
            frozen: false,
        }
    }

    /// What `new` gives for `rot_acc`, frozen.
    pub fn frozen(rot_acc: Vector3<S>) -> (r: Self)
        ensures
            r.frozen,
            Self::is_fresh(rot_acc, Transform { frozen: false, ..r }),
    {
        let mut transform = Self::new(rot_acc);
        transform.frozen = true;
        transform
    }

    /// This transform at another position.
    pub fn with_position(self, pos: Vector3<S>) -> (r: Self)
        ensures
            r == (Transform { pos, ..self }),
    {
        let mut transform = self;
        transform.pos = pos;
        transform
    }

    /// This transform at another velocity.
    pub fn with_velocity(self, vel: Vector3<S>) -> (r: Self)
        ensures
            r == (Transform { vel, ..self }),
    {
        let mut transform = self;
        transform.vel = vel;
        transform
    }

    /// This transform moved by `offset`.
    pub fn with_offset(self, offset: &Self) -> (r: Self)
        ensures
            Self::is_offset(self, *offset, r),
    {
        Transform {
            pos: self.pos.plus(offset.pos),
            scale: self.scale.times(offset.scale),
            vel: self.vel,
            acc: self.acc,
            rot: self.rot.plus(offset.rot),
            rot_vel: self.rot_vel,
            rot_acc: self.rot_acc,
            frozen: self.frozen,
        }
    }

    /// Folds a stack of offsets, outermost first, into one absolute
    /// transform. The fold starts from the transform at the origin, at
    /// scale one and at rest; of its result the position, the rotation and
    /// the scale are what the offsets add up to.
    pub fn compose(offsets: &Vec<Self>) -> (r: Self)
        ensures
            Self::is_composed(offsets@, r),
    {
        let mut absolute = Self::new(Vector3::origin());
        let mut i: usize = 0;
        while i < offsets.len()
            invariant
                i <= offsets.len(),
                Self::is_composed(offsets@.take(i as int), absolute),
            decreases offsets.len() - i,
        {
            let next = absolute.with_offset(&offsets[i]);
            proof {
                let upto = offsets@.take(i + 1);
                assert(upto.drop_last() =~= offsets@.take(i as int));
                assert(upto.last() == offsets@[i as int]);
                assert(Self::is_offset(absolute, upto.last(), next));
            }
            absolute = next;
            i = i + 1;
        }
        proof {
            assert(offsets@.take(i as int) =~= offsets@);
        }
        absolute
    }
}

impl<S: Scalar> Component for Transform<S> {
    type Real = S;

    fn enabled(&self) -> (r: bool)
        ensures
            r,
    {
        true
    }

    open spec fn slot(slots: ComponentSlots) -> Option<usize> {
        slots.transform
    }

    open spec fn with_slot(slots: ComponentSlots, at: usize) -> ComponentSlots {
        ComponentSlots { transform: Some(at), ..slots }
    }

    open spec fn with_record(bag: ComponentBag<S>, value: Self) -> ComponentBag<S> {
        ComponentBag { transform: Some(value), ..bag }
    }

    open spec fn shelf(store: ComponentStore<S>) -> Seq<Self> {
        store.transforms@
    }

    open spec fn reshelved(
        before: ComponentStore<S>,
        shelf: Seq<Self>,
        after: ComponentStore<S>,
    ) -> bool {
        after.transforms@ == shelf && after.rigid_bodies == before.rigid_bodies && after.models == before.models && after.controllers == before.controllers && after.cameras == before.cameras
    }

    proof fn lemma_reshelved(before: ComponentStore<S>, shelf: Seq<Self>, after: ComponentStore<S>) {
    }

    fn slot_in(slots: &ComponentSlots) -> (r: Option<usize>) {
        slots.transform
    }

    fn shelf_len(store: &ComponentStore<S>) -> (r: usize) {
        store.transforms.len()
    }

    fn at(store: &ComponentStore<S>, at: usize) -> (r: &Self) {
        &store.transforms[at]
    }

    fn at_mut(store: &mut ComponentStore<S>, at: usize) -> (r: &mut Self) {
        &mut store.transforms[at]
    }

    fn stash(self, bag: &mut ComponentBag<S>) {
        bag.transform = Some(self);
    }

    fn attach(self, store: &mut ComponentStore<S>, slots: &mut ComponentSlots) -> (at: usize) {
        let at = store.transforms.len();
        slots.transform = Some(at);
        store.transforms.push(self);
        at
    }
}

} // verus!
