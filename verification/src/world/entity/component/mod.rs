//! Components: typed records an entity exposes, and the store that holds them.

use vstd::prelude::*;
use std::marker::PhantomData;
use crate::world::entity::component::camera::Camera;
use crate::world::entity::component::controller::Controller;
use crate::world::entity::component::model::GraphicsModel;
use crate::world::entity::component::rigid_body::RigidBody;
use crate::world::entity::component::transform::Transform;

pub mod camera;
pub mod controller;
pub mod model;
pub mod rigid_body;
pub mod transform;

verus! {

/// The components of one entity: for each kind, the place of its record in
/// the store, if the entity has one.
#[derive(Clone, Copy)]
pub struct ComponentSlots {
    pub transform: Option<usize>,
    pub rigid_body: Option<usize>,
    pub model: Option<usize>,
    pub controller: Option<usize>,
    pub camera: Option<usize>,
}

impl ComponentSlots {
    /// Whether these slots and `other` name no record in common.
    pub open spec fn apart_from(self, other: ComponentSlots) -> bool {
        &&& self.transform is Some ==> self.transform != other.transform
        &&& self.rigid_body is Some ==> self.rigid_body != other.rigid_body
        &&& self.model is Some ==> self.model != other.model
        &&& self.controller is Some ==> self.controller != other.controller
        &&& self.camera is Some ==> self.camera != other.camera
    }

    /// No component of any kind.
    pub open spec fn none() -> Self {
        ComponentSlots {
            transform: None,
            rigid_body: None,
            model: None,
            controller: None,
            camera: None,
        }
    }

    /// An entity's slots before any component is attached.
    pub fn empty() -> (r: Self)
        ensures
            r == Self::none(),
    {
        ComponentSlots {
            transform: None,
            rigid_body: None,
            model: None,
            controller: None,
            camera: None,
        }
    }
}

/// Component records that are not in a store yet, at most one of each kind.
pub struct ComponentBag<S> {
    pub transform: Option<Transform<S>>,
    pub rigid_body: Option<RigidBody<S>>,
    pub model: Option<GraphicsModel<S>>,
    pub controller: Option<Controller<S>>,
    pub camera: Option<Camera<S>>,
}

impl<S> ComponentBag<S> {
    /// A bag without records.
    pub fn new() -> (r: Self)
        ensures
            r.transform is None,
            r.rigid_body is None,
            r.model is None,
            r.controller is None,
            r.camera is None,
    {
        ComponentBag { transform: None, rigid_body: None, model: None, controller: None, camera: None }
    }

    /// Whether `after` is `before` with the records of this bag put at the
    /// ends of their shelves, and `slots` names the places they went to.
    pub open spec fn is_shelved(
        self,
        before: ComponentStore<S>,
        slots: ComponentSlots,
        after: ComponentStore<S>,
    ) -> bool {
        &&& match self.transform {
            Some(record) => slots.transform matches Some(at) && at == before.transforms@.len()
                && after.transforms@ == before.transforms@.push(record),
            None => slots.transform is None && after.transforms@ == before.transforms@,
        }
        &&& match self.rigid_body {
            Some(record) => slots.rigid_body matches Some(at) && at == before.rigid_bodies@.len()
                && after.rigid_bodies@ == before.rigid_bodies@.push(record),
            None => slots.rigid_body is None && after.rigid_bodies@ == before.rigid_bodies@,
        }
        &&& match self.model {
            Some(record) => slots.model matches Some(at) && at == before.models@.len()
                && after.models@ == before.models@.push(record),
            None => slots.model is None && after.models@ == before.models@,
        }
        &&& match self.controller {
            Some(record) => slots.controller matches Some(at) && at == before.controllers@.len()
                && after.controllers@ == before.controllers@.push(record),
            None => slots.controller is None && after.controllers@ == before.controllers@,
        }
        &&& match self.camera {
            Some(record) => slots.camera matches Some(at) && at == before.cameras@.len()
                && after.cameras@ == before.cameras@.push(record),
            None => slots.camera is None && after.cameras@ == before.cameras@,
        }
    }

    /// Whether `slots` names, for each record of this bag, a place in
    /// `store` that holds that record, and no place for the kinds that this
    /// bag has no record of.
    pub open spec fn placed(self, slots: ComponentSlots, store: ComponentStore<S>) -> bool {
        &&& match self.transform {
            Some(record) => slots.transform matches Some(at) && at < store.transforms@.len()
                && store.transforms@[at as int] == record,
            None => slots.transform is None,
        }
        &&& match self.rigid_body {
            Some(record) => slots.rigid_body matches Some(at) && at < store.rigid_bodies@.len()
                && store.rigid_bodies@[at as int] == record,
            None => slots.rigid_body is None,
        }
        &&& match self.model {
            Some(record) => slots.model matches Some(at) && at < store.models@.len()
                && store.models@[at as int] == record,
            None => slots.model is None,
        }
        &&& match self.controller {
            Some(record) => slots.controller matches Some(at) && at < store.controllers@.len()
                && store.controllers@[at as int] == record,
            None => slots.controller is None,
        }
        &&& match self.camera {
            Some(record) => slots.camera matches Some(at) && at < store.cameras@.len()
                && store.cameras@[at as int] == record,
            None => slots.camera is None,
        }
    }
}

/// The records of all components of a world, one shelf per kind.
///
/// Entities refer to their components by position on a shelf. Borrowing the
/// store shared gives read access to every record; borrowing it mutably
/// gives the one holder exclusive write access.
pub struct ComponentStore<S> {
    pub transforms: Vec<Transform<S>>,
    pub rigid_bodies: Vec<RigidBody<S>>,
    pub models: Vec<GraphicsModel<S>>,
    pub controllers: Vec<Controller<S>>,
    pub cameras: Vec<Camera<S>>,
}

impl<S> ComponentStore<S> {
    /// A store without records.
    pub fn new() -> (r: Self)
        ensures
            r.transforms@.len() == 0,
            r.rigid_bodies@.len() == 0,
            r.models@.len() == 0,
            r.controllers@.len() == 0,
            r.cameras@.len() == 0,
    {
        ComponentStore {
            transforms: Vec::new(),
            rigid_bodies: Vec::new(),
            models: Vec::new(),
            controllers: Vec::new(),
            cameras: Vec::new(),
        }
    }

    /// Whether this store and `other` hold the same records at the same
    /// places.
    pub open spec fn same_records(self, other: Self) -> bool {
        &&& self.transforms@ == other.transforms@
        &&& self.rigid_bodies@ == other.rigid_bodies@
        &&& self.models@ == other.models@
        &&& self.controllers@ == other.controllers@
        &&& self.cameras@ == other.cameras@
    }

    /// Whether this store holds every record of `earlier` at its old place.
    pub open spec fn extends(self, earlier: Self) -> bool {
        &&& earlier.transforms@.is_prefix_of(self.transforms@)
        &&& earlier.rigid_bodies@.is_prefix_of(self.rigid_bodies@)
        &&& earlier.models@.is_prefix_of(self.models@)
        &&& earlier.controllers@.is_prefix_of(self.controllers@)
        &&& earlier.cameras@.is_prefix_of(self.cameras@)
    }

    /// Whether every slot of `slots` that is taken names a record that this
    /// store holds and `earlier` does not hold yet.
    pub open spec fn holds_since(self, earlier: Self, slots: ComponentSlots) -> bool {
        &&& slots.transform matches Some(at) ==> earlier.transforms@.len() <= at
            < self.transforms@.len()
        &&& slots.rigid_body matches Some(at) ==> earlier.rigid_bodies@.len() <= at
            < self.rigid_bodies@.len()
        &&& slots.model matches Some(at) ==> earlier.models@.len() <= at < self.models@.len()
        &&& slots.controller matches Some(at) ==> earlier.controllers@.len() <= at
            < self.controllers@.len()
        &&& slots.camera matches Some(at) ==> earlier.cameras@.len() <= at < self.cameras@.len()
    }

    /// Whether every slot of `slots` that is taken lies on its shelf.
    pub open spec fn holds(self, slots: ComponentSlots) -> bool {
        &&& slots.transform matches Some(at) ==> at < self.transforms@.len()
        &&& slots.rigid_body matches Some(at) ==> at < self.rigid_bodies@.len()
        &&& slots.model matches Some(at) ==> at < self.models@.len()
        &&& slots.controller matches Some(at) ==> at < self.controllers@.len()
        &&& slots.camera matches Some(at) ==> at < self.cameras@.len()
    }
}

impl<S> ComponentStore<S> {
    /// Whether every slot of `slots` that is taken lies on its shelf.
    pub fn is_holding(&self, slots: ComponentSlots) -> (r: bool)
        ensures
            r == self.holds(slots),
    {
        let transform = match slots.transform {
            Some(at) => at < self.transforms.len(),
            None => true,
        };
        let rigid_body = match slots.rigid_body {
            Some(at) => at < self.rigid_bodies.len(),
            None => true,
        };
        let model = match slots.model {
            Some(at) => at < self.models.len(),
            None => true,
        };
        let controller = match slots.controller {
            Some(at) => at < self.controllers.len(),
            None => true,
        };
        let camera = match slots.camera {
            Some(at) => at < self.cameras.len(),
            None => true,
        };
        transform && rigid_body && model && controller && camera
    }
}

/// A kind of record that an entity can expose.
///
/// Each kind has a shelf of its own in the store and a slot of its own in
/// the slots of an entity.
pub trait Component: Sized {
    /// The reals this kind of record is made of.
    type Real;

    /// Whether the component takes part in the simulation.
    fn enabled(&self) -> bool;

    /// The slot of this kind.
    spec fn slot(slots: ComponentSlots) -> Option<usize>;

    /// `slots` with the slot of this kind set to `at`.
    spec fn with_slot(slots: ComponentSlots, at: usize) -> ComponentSlots;

    /// `bag` with `value` as its record of this kind.
    spec fn with_record(bag: ComponentBag<Self::Real>, value: Self) -> ComponentBag<Self::Real>;

    /// The shelf of this kind.
    spec fn shelf(store: ComponentStore<Self::Real>) -> Seq<Self>;

    /// Whether `after` is `before` with the shelf of this kind replaced by
    /// `shelf` and all other shelves untouched.
    spec fn reshelved(
        before: ComponentStore<Self::Real>,
        shelf: Seq<Self>,
        after: ComponentStore<Self::Real>,
    ) -> bool;

    /// After a shelf was replaced, it is the shelf of its kind.
    proof fn lemma_reshelved(
        before: ComponentStore<Self::Real>,
        shelf: Seq<Self>,
        after: ComponentStore<Self::Real>,
    )
        requires
            Self::reshelved(before, shelf, after),
        ensures
            Self::shelf(after) == shelf,
    ;

    /// Reads the slot of this kind.
    fn slot_in(slots: &ComponentSlots) -> (r: Option<usize>)
        ensures
            r == Self::slot(*slots),
    ;

    /// The number of records on the shelf of this kind.
    fn shelf_len(store: &ComponentStore<Self::Real>) -> (r: usize)
        ensures
            r == Self::shelf(*store).len(),
    ;

    /// The record at `at`, for reading.
    fn at(store: &ComponentStore<Self::Real>, at: usize) -> (r: &Self)
        requires
            at < Self::shelf(*store).len(),
        ensures
            *r == Self::shelf(*store)[at as int],
    ;

    /// The record at `at`, for writing. What the holder of the reference
    /// leaves in the record is what the store holds afterwards.
    fn at_mut(store: &mut ComponentStore<Self::Real>, at: usize) -> (r: &mut Self)
        requires
            at < Self::shelf(*old(store)).len(),
        ensures
            *r == Self::shelf(*old(store))[at as int],
            Self::reshelved(
                *old(store),
                Self::shelf(*old(store)).update(at as int, *final(r)),
                *final(store),
            ),
    ;

    /// Puts this record into `bag`, in place of an earlier one of its kind.
    fn stash(self, bag: &mut ComponentBag<Self::Real>)
        ensures
            *final(bag) == Self::with_record(*old(bag), self),
    ;

    /// Puts this record at the end of its shelf, notes its place in `slots`
    /// and returns that place.
    fn attach(self, store: &mut ComponentStore<Self::Real>, slots: &mut ComponentSlots) -> (at:
        usize)
        ensures
            at == Self::shelf(*old(store)).len(),
            Self::reshelved(*old(store), Self::shelf(*old(store)).push(self), *final(store)),
            *final(slots) == Self::with_slot(*old(slots), at),
    ;
}

/// Lets `f` work on what `place` refers to.
fn apply_in_place<C, R, F: FnOnce(&mut C) -> R>(place: &mut C, f: F) -> (r: R)
    requires
        forall|p: &mut C| *p == *old(place) ==> f.requires((p,)),
    ensures
        exists|p: &mut C|
            *p == *old(place) && *final(p) == *final(place) && #[trigger] f.ensures((p,), r),
{
    f(place)
}

/// A typed handle to one record in the store.
///
/// Handles are cheap to copy, and any number of them may name the same
/// record.
pub struct ComponentManager<C> {
    inner: usize,
    phantom: PhantomData<C>,
}

impl<C> Copy for ComponentManager<C> {

}

impl<C> Clone for ComponentManager<C> {
    fn clone(&self) -> (r: Self)
        ensures
            r == *self,
    {
        *self
    }
}

/// Shared read access to one record, for as long as the store is borrowed.
pub struct ComponentReadAccess<'a, C> {
    guard: &'a C,
}

impl<'a, C> ComponentReadAccess<'a, C> {
    /// The record behind this access.
    pub closed spec fn value(self) -> C {
        *self.guard
    }

    /// The record.
    pub fn get(&self) -> (r: &'a C)
        ensures
            *r == self.value(),
    {
        self.guard
    }
}

impl<'a, C> core::ops::Deref for ComponentReadAccess<'a, C> {
    type Target = C;

    fn deref(&self) -> (r: &C)
        ensures
            *r == self.value(),
    {
        self.guard
    }
}

/// Exclusive write access to one record, for as long as the store is
/// borrowed.
pub struct ComponentWriteAccess<'a, C> {
    pub guard: &'a mut C,
}

impl<'a, C> core::ops::Deref for ComponentWriteAccess<'a, C> {
    type Target = C;

    fn deref(&self) -> (r: &C)
        ensures
            *r == self.value(),
    {
        &*self.guard
    }
}

impl<'a, C> ComponentWriteAccess<'a, C> {
    /// The record behind this access.
    pub open spec fn value(self) -> C {
        *self.guard
    }

    /// The record.
    pub fn get(&self) -> (r: &C)
        ensures
            *r == self.value(),
    {
        &*self.guard
    }

    /// Overwrites the record.
    pub fn set(&mut self, value: C)
        ensures
            final(self).value() == value,
            *final(final(self).guard) == *final(old(self).guard),
    {
        *self.guard = value;
    }
}

impl<C: Component> ComponentManager<C> {
    /// The place on the shelf that this handle names.
    pub closed spec fn slot(self) -> usize {
        self.inner
    }

    /// Whether the record this handle names is in `store`.
    pub open spec fn held_by(self, store: ComponentStore<C::Real>) -> bool {
        self.slot() < C::shelf(store).len()
    }

    /// The record this handle names.
    pub open spec fn record(self, store: ComponentStore<C::Real>) -> C
        recommends
            self.held_by(store),
    {
        C::shelf(store)[self.slot() as int]
    }

    /// Makes the typed handle for the record at `inner`.
    pub fn init(inner: usize) -> (r: ComponentManager<C>)
        ensures
            r.slot() == inner,
    {
        ComponentManager { inner, phantom: PhantomData }
    }

    /// The place on the shelf that this handle names.
    pub fn index(&self) -> (r: usize)
        ensures
            r == self.slot(),
    {
        self.inner
    }

    /// Whether the record this handle names is in `store`.
    pub fn is_held_by(&self, store: &ComponentStore<C::Real>) -> (r: bool)
        ensures
            r == self.held_by(*store),
    {
        self.inner < C::shelf_len(store)
    }

    /// Applies `f` to the record and returns what it returns, or `None`
    /// where the store does not hold the record.
    pub fn peek<F, R>(&self, store: &ComponentStore<C::Real>, f: F) -> (r: Option<R>) where
        F: Fn(&C) -> R,

        requires
            self.held_by(*store) ==> f.requires((&self.record(*store),)),
        ensures
            self.held_by(*store) ==> r is Some && f.ensures(
                (&self.record(*store),),
                r->Some_0,
            ),
            !self.held_by(*store) ==> r is None,
    {
        if self.inner < C::shelf_len(store) {
            Some(f(C::at(store, self.inner)))
        } else {
            None
        }
    }

    /// Lets `f` work on the record in place and returns what `f` returns,
    /// or leaves the store as it is and returns `None` where the store does
    /// not hold the record.
    pub fn peek_mut<F, R>(&self, store: &mut ComponentStore<C::Real>, f: F) -> (r: Option<R>) where
        F: FnOnce(&mut C) -> R,

        requires
            self.held_by(*old(store)) ==> forall|place: &mut C|
                *place == self.record(*old(store)) ==> f.requires((place,)),
        ensures
            !self.held_by(*old(store)) ==> r is None && *final(store) == *old(store),
            self.held_by(*old(store)) ==> r is Some && exists|place: &mut C|
                *place == self.record(*old(store)) && #[trigger] f.ensures(
                    (place,),
                    r->Some_0,
                ) && C::reshelved(
                    *old(store),
                    C::shelf(*old(store)).update(self.slot() as int, *final(place)),
                    *final(store),
                ),
    {
        if self.inner < C::shelf_len(store) {
            let place = C::at_mut(store, self.inner);
            let ghost left = *final(place);
            let out = apply_in_place(place, f);
            let ghost witness = choose|p: &mut C|
                *p == self.record(*old(store)) && *final(p) == left && #[trigger] f.ensures(
                    (p,),
                    out,
                );
            let r = Some(out);
            assert(*witness == self.record(*old(store)) && f.ensures((witness,), r->Some_0)
                && C::reshelved(
                *old(store),
                C::shelf(*old(store)).update(self.slot() as int, *final(witness)),
                *store,
            ));
            r
        } else {
            None
        }
    }

    /// Read access to the record.
    pub fn lock_component_for_read<'a>(&self, store: &'a ComponentStore<C::Real>) -> (r:
        ComponentReadAccess<'a, C>)
        requires
            self.held_by(*store),
        ensures
            r.value() == self.record(*store),
    {
        ComponentReadAccess { guard: C::at(store, self.inner) }
    }

    /// Write access to the record. What the access holds when it is given
    /// up is what the store holds afterwards.
    pub fn lock_component_for_write<'a>(&self, store: &'a mut ComponentStore<C::Real>) -> (r:
        ComponentWriteAccess<'a, C>)
        requires
            self.held_by(*old(store)),
        ensures
            r.value() == self.record(*old(store)),
            C::reshelved(
                *old(store),
                C::shelf(*old(store)).update(self.slot() as int, *final(r.guard)),
                *final(store),
            ),
    {
        ComponentWriteAccess { guard: C::at_mut(store, self.inner) }
    }
}

/// What was written through a handle is what is read through it: after a
/// write access to the record at `manager` was given up with `value` in it,
/// the record that a read access to the same handle shows is `value`.
pub proof fn lemma_written_is_read<C: Component>(
    manager: ComponentManager<C>,
    before: ComponentStore<C::Real>,
    value: C,
    after: ComponentStore<C::Real>,
)
    requires
        manager.held_by(before),
        C::reshelved(before, C::shelf(before).update(manager.slot() as int, value), after),
    ensures
        manager.held_by(after),
        manager.record(after) == value,
{
    C::lemma_reshelved(before, C::shelf(before).update(manager.slot() as int, value), after);
}

/// A write through one handle leaves the records at all other places of the
/// shelf as they were.
pub proof fn lemma_written_elsewhere<C: Component>(
    manager: ComponentManager<C>,
    other: ComponentManager<C>,
    before: ComponentStore<C::Real>,
    value: C,
    after: ComponentStore<C::Real>,
)
    requires
        manager.held_by(before),
        other.held_by(before),
        other.slot() != manager.slot(),
        C::reshelved(before, C::shelf(before).update(manager.slot() as int, value), after),
    ensures
        other.held_by(after),
        other.record(after) == other.record(before),
{
    C::lemma_reshelved(before, C::shelf(before).update(manager.slot() as int, value), after);
}

} // verus!
