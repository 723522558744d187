//! The graphics model component: what an entity looks like, and where the
//! renderer is to draw it.

use vstd::prelude::*;
use crate::world::entity::component::{Component, ComponentBag, ComponentSlots, ComponentStore};
use crate::world::entity::component::transform::Transform;

verus! {

/// A drawable model. `view` is the absolute transform last handed to the
/// renderer for it, if any was.
pub struct GraphicsModel<S> {
    pub path_to_obj: &'static str,
    pub view: Option<Transform<S>>,
}

impl<S: Copy> Copy for GraphicsModel<S> {

}

impl<S: Copy> Clone for GraphicsModel<S> {
    fn clone(&self) -> (r: Self)
        ensures
            r == *self,
    {
        *self
    }
}

impl<S> GraphicsModel<S> {
    /// A model read from `path_to_obj` that was not placed yet.
    pub fn new(path_to_obj: &'static str) -> (r: Self)
        ensures
            r.path_to_obj == path_to_obj,
            r.view is None,
    {
        GraphicsModel { path_to_obj, view: None }
    }
}

impl<S> Component for GraphicsModel<S> {
    type Real = S;

    fn enabled(&self) -> (r: bool)
        ensures
            r,
    {
        true
    }

    open spec fn slot(slots: ComponentSlots) -> Option<usize> {
        slots.model
    }

    open spec fn with_slot(slots: ComponentSlots, at: usize) -> ComponentSlots {
        ComponentSlots { model: Some(at), ..slots }
    }

    open spec fn with_record(bag: ComponentBag<S>, value: Self) -> ComponentBag<S> {
        ComponentBag { model: Some(value), ..bag }
    }

    open spec fn shelf(store: ComponentStore<S>) -> Seq<Self> {
        store.models@
    }

    open spec fn reshelved(
        before: ComponentStore<S>,
        shelf: Seq<Self>,
        after: ComponentStore<S>,
    ) -> bool {
        after.models@ == shelf && after.transforms == before.transforms && after.rigid_bodies == before.rigid_bodies && after.controllers == before.controllers && after.cameras == before.cameras
    }

    proof fn lemma_reshelved(before: ComponentStore<S>, shelf: Seq<Self>, after: ComponentStore<S>) {
    }

    fn slot_in(slots: &ComponentSlots) -> (r: Option<usize>) {
        slots.model
    }

    fn shelf_len(store: &ComponentStore<S>) -> (r: usize) {
        store.models.len()
    }

    fn at(store: &ComponentStore<S>, at: usize) -> (r: &Self) {
        &store.models[at]
    }

    fn at_mut(store: &mut ComponentStore<S>, at: usize) -> (r: &mut Self) {
        &mut store.models[at]
    }

    fn stash(self, bag: &mut ComponentBag<S>) {
        bag.model = Some(self);
    }

    fn attach(self, store: &mut ComponentStore<S>, slots: &mut ComponentSlots) -> (at: usize) {
        let at = store.models.len();
        slots.model = Some(at);
        store.models.push(self);
        at
    }
}

} // verus!
