//! The controller component: input that steers an entity.

use vstd::prelude::*;
use crate::world::entity::component::{Component, ComponentBag, ComponentSlots, ComponentStore};
use crate::input::entity::WASDEntityController;
use crate::math::scalar::Scalar;
use crate::world::entity::Entity;

verus! {

/// The source of input that steers an entity.
pub struct Controller<S> {
    pub input_source: WASDEntityController<S>,
}

impl<S: Copy> Copy for Controller<S> {

}

impl<S: Copy> Clone for Controller<S> {
    fn clone(&self) -> (r: Self)
        ensures
            r == *self,
    {
        *self
    }
}

impl<S> Controller<S> {
    /// A component steered by `controller`.
    pub fn new(controller: WASDEntityController<S>) -> (r: Self)
        ensures
            r.input_source == controller,
    {
        Controller { input_source: controller }
    }
}

impl<S: Scalar> Controller<S> {
    /// Lets the source of input steer `entity`. Returns whether `entity`
    /// has a rigid body to steer.
    pub fn update(&self, entity: &Entity, store: &mut ComponentStore<S>, delta: S) -> (r: bool)
        requires
            entity.spec_slots().rigid_body matches Some(at) ==> at < old(store).rigid_bodies@.len(),
        ensures
            r == entity.spec_slots().rigid_body is Some,
            WASDEntityController::is_updated(
                self.input_source,
                *entity,
                *old(store),
                *final(store),
            ),
    {
        self.input_source.update_entity(entity, store, delta)
    }
}

impl<S> Component for Controller<S> {
    type Real = S;

    fn enabled(&self) -> (r: bool)
        ensures
            r,
    {
        true
    }

    open spec fn slot(slots: ComponentSlots) -> Option<usize> {
        slots.controller
    }

    open spec fn with_slot(slots: ComponentSlots, at: usize) -> ComponentSlots {
        ComponentSlots { controller: Some(at), ..slots }
    }

    open spec fn with_record(bag: ComponentBag<S>, value: Self) -> ComponentBag<S> {
        ComponentBag { controller: Some(value), ..bag }
    }

    open spec fn shelf(store: ComponentStore<S>) -> Seq<Self> {
        store.controllers@
    }

    open spec fn reshelved(
        before: ComponentStore<S>,
        shelf: Seq<Self>,
        after: ComponentStore<S>,
    ) -> bool {
        after.controllers@ == shelf && after.transforms == before.transforms && after.rigid_bodies == before.rigid_bodies && after.models == before.models && after.cameras == before.cameras
    }

    proof fn lemma_reshelved(before: ComponentStore<S>, shelf: Seq<Self>, after: ComponentStore<S>) {
    }

    fn slot_in(slots: &ComponentSlots) -> (r: Option<usize>) {
        slots.controller
    }

    fn shelf_len(store: &ComponentStore<S>) -> (r: usize) {
        store.controllers.len()
    }

    fn at(store: &ComponentStore<S>, at: usize) -> (r: &Self) {
        &store.controllers[at]
    }

    fn at_mut(store: &mut ComponentStore<S>, at: usize) -> (r: &mut Self) {
        &mut store.controllers[at]
    }

    fn stash(self, bag: &mut ComponentBag<S>) {
        bag.controller = Some(self);
    }

    fn attach(self, store: &mut ComponentStore<S>, slots: &mut ComponentSlots) -> (at: usize) {
        let at = store.controllers.len();
        slots.controller = Some(at);
        store.controllers.push(self);
        at
    }
}

} // verus!
