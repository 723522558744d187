//! The camera component: from where the scene is looked at.

use vstd::prelude::*;
use crate::world::entity::component::{Component, ComponentBag, ComponentSlots, ComponentStore};

verus! {

/// How a camera relates to the entity it looks at.
pub enum CameraPerspective<S> {
    FirstPersonView,
    ThirdPersonView { distance: S, angle_horiz: S, angle_vert: S },
    BirdsEyeView,
}

impl<S: Copy> Copy for CameraPerspective<S> {

}

impl<S: Copy> Clone for CameraPerspective<S> {
    fn clone(&self) -> (r: Self)
        ensures
            r == *self,
    {
        *self
    }
}

/// A camera attached to an entity.
pub struct Camera<S> {
    pub perspective: CameraPerspective<S>,
}

impl<S: Copy> Copy for Camera<S> {

}

impl<S: Copy> Clone for Camera<S> {
    fn clone(&self) -> (r: Self)
        ensures
            r == *self,
    {
        *self
    }
}

impl<S> CameraPerspective<S> {
    /// A third person view at the given distance and angles.
    pub fn new_third_person(distance: S, angle_horiz: S, angle_vert: S) -> (r: Self)
        ensures
            r == (CameraPerspective::ThirdPersonView { distance, angle_horiz, angle_vert }),
    {
        CameraPerspective::ThirdPersonView { distance, angle_horiz, angle_vert }
    }
}

impl<S> Camera<S> {
    /// A camera with the given perspective.
    pub fn new(perspective: CameraPerspective<S>) -> (r: Self)
        ensures
            r.perspective == perspective,
    {
        Camera { perspective }
    }
}

impl<S> Component for Camera<S> {
    type Real = S;

    fn enabled(&self) -> (r: bool)
        ensures
            r,
    {
        true
    }

    open spec fn slot(slots: ComponentSlots) -> Option<usize> {
        slots.camera
    }

    open spec fn with_slot(slots: ComponentSlots, at: usize) -> ComponentSlots {
        ComponentSlots { camera: Some(at), ..slots }
    }

    open spec fn with_record(bag: ComponentBag<S>, value: Self) -> ComponentBag<S> {
        ComponentBag { camera: Some(value), ..bag }
    }

    open spec fn shelf(store: ComponentStore<S>) -> Seq<Self> {
        store.cameras@
    }

    open spec fn reshelved(
        before: ComponentStore<S>,
        shelf: Seq<Self>,
        after: ComponentStore<S>,
    ) -> bool {
        after.cameras@ == shelf && after.transforms == before.transforms && after.rigid_bodies == before.rigid_bodies && after.models == before.models && after.controllers == before.controllers
    }

    proof fn lemma_reshelved(before: ComponentStore<S>, shelf: Seq<Self>, after: ComponentStore<S>) {
    }

    fn slot_in(slots: &ComponentSlots) -> (r: Option<usize>) {
        slots.camera
    }

    fn shelf_len(store: &ComponentStore<S>) -> (r: usize) {
        store.cameras.len()
    }

    fn at(store: &ComponentStore<S>, at: usize) -> (r: &Self) {
        &store.cameras[at]
    }

    fn at_mut(store: &mut ComponentStore<S>, at: usize) -> (r: &mut Self) {
        &mut store.cameras[at]
    }

    fn stash(self, bag: &mut ComponentBag<S>) {
        bag.camera = Some(self);
    }

    fn attach(self, store: &mut ComponentStore<S>, slots: &mut ComponentSlots) -> (at: usize) {
        let at = store.cameras.len();
        slots.camera = Some(at);
        store.cameras.push(self);
        at
    }
}

} // verus!
