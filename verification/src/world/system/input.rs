//! The system that lets controllers steer their entities, and the dispatch
//! of device events to the controllers.

use vstd::prelude::*;
use crate::input::entity::WASDEntityController;
use crate::input::event::DeviceEvent;
use crate::math::scalar::Scalar;
use crate::math::sequence::{lemma_filter_map_empty, lemma_filter_map_first};
use crate::world::entity::component::controller::Controller;
use crate::world::entity::component::{ComponentManager, ComponentStore};
use crate::world::entity::query::ComponentIterator;
use crate::world::entity::{Entity, EntityContainer};
use crate::world::system::{System, SystemRuntimeError};

verus! {

/// Lets the controller of every entity that has one steer that entity.
pub struct InputSystem<'a, S> {
    resources: Vec<(ComponentManager<Controller<S>>, &'a Entity)>,
}

impl<'a, S: Scalar> InputSystem<'a, S> {
    /// The place of the controller of each entity the system works on, and
    /// the entity.
    pub closed spec fn handles(self) -> Seq<(usize, Entity)> {
        self.resources@.map_values(
            |pair: (ComponentManager<Controller<S>>, &'a Entity)| (pair.0.slot(), *pair.1),
        )
    }

    /// Whether an entity has a controller.
    pub open spec fn is_steered() -> spec_fn(Entity) -> bool {
        |e: Entity| e.spec_slots().controller is Some
    }

    /// The place of the controller of an entity, and the entity.
    pub open spec fn resource() -> spec_fn(Entity) -> (usize, Entity) {
        |e: Entity| (e.spec_slots().controller->Some_0, e)
    }

    /// `after` is `before` after the controller at `handle.0` steered the
    /// entity `handle.1`.
    pub open spec fn is_steered_at(
        handle: (usize, Entity),
        before: ComponentStore<S>,
        after: ComponentStore<S>,
    ) -> bool {
        &&& handle.0 < before.controllers@.len()
        &&& WASDEntityController::is_updated(
            before.controllers@[handle.0 as int].input_source,
            handle.1,
            before,
            after,
        )
    }

    /// `after` is `before` after the controllers at `handles` steered
    /// their entities, one after the other.
    pub open spec fn is_input_applied(
        handles: Seq<(usize, Entity)>,
        before: ComponentStore<S>,
        after: ComponentStore<S>,
    ) -> bool
        decreases handles.len(),
    {
        if handles.len() == 0 {
            after == before
        } else {
            exists|mid: ComponentStore<S>|
                #![trigger Self::is_steered_at(handles.last(), mid, after)]
                Self::is_input_applied(handles.drop_last(), before, mid) && Self::is_steered_at(
                    handles.last(),
                    mid,
                    after,
                )
        }
    }

    /// Whether the entity of a handle has no rigid body for its controller
    /// to steer.
    pub open spec fn lacks_body() -> spec_fn((usize, Entity)) -> bool {
        |handle: (usize, Entity)| handle.1.spec_slots().rigid_body is None
    }

    /// The entity of a handle.
    pub open spec fn entity_of() -> spec_fn((usize, Entity)) -> Entity {
        |handle: (usize, Entity)| handle.1
    }

    /// A system that has not fetched yet.
    pub fn new() -> (r: Self)
        ensures
            r.handles().len() == 0,
    {
        InputSystem { resources: Vec::new() }
    }

    /// The entities the system works on that have a controller but no
    /// rigid body, in the order in which they were fetched. A run passes
    /// over them: their controllers have nothing to steer.
    pub fn unsteered(&self) -> (r: Vec<&'a Entity>)
        ensures
            r@.map_values(|e: &Entity| *e) == self.handles().filter(
                Self::lacks_body(),
            ).map_values(Self::entity_of()),
    {
        let mut found: Vec<&'a Entity> = Vec::new();
        let mut i: usize = 0;
        while i < self.resources.len()
            invariant
                i <= self.resources.len(),
                found@.map_values(|e: &Entity| *e) == self.handles().take(i as int).filter(
                    Self::lacks_body(),
                ).map_values(Self::entity_of()),
            decreases self.resources.len() - i,
        {
            let (manager, entity) = self.resources[i];
            let ghost so_far = found@.map_values(|e: &Entity| *e);
            let ghost kept = self.handles().take(i as int).filter(Self::lacks_body());
            proof {
                let upto = self.handles().take(i + 1);
                reveal(Seq::filter);
                assert(upto.drop_last() =~= self.handles().take(i as int));
                assert(upto.last() == (manager.slot(), *entity));
            }
            if entity.slots().rigid_body.is_none() {
                found.push(entity);
                proof {
                    assert(found@.map_values(|e: &Entity| *e) =~= so_far.push(*entity));
                    assert(kept.push((manager.slot(), *entity)).map_values(Self::entity_of())
                        =~= kept.map_values(Self::entity_of()).push(*entity));
                }
            }
            i = i + 1;
        }
        proof {
            assert(self.handles().take(i as int) =~= self.handles());
        }
        found
    }
}

impl<'a, S: Scalar> InputSystem<'a, S> {
    /// Whether `store` holds the controller of every entity the system
    /// works on, and the rigid body of the entity where it has one.
    pub open spec fn holds_all(self, store: ComponentStore<S>) -> bool {
        forall|i: int|
            0 <= i < self.handles().len() ==> (#[trigger] self.handles()[i]).0
                < store.controllers@.len() && (
            self.handles()[i].1.spec_slots().rigid_body matches Some(at) ==> at
                < store.rigid_bodies@.len())
    }

    /// Keeps the handle to the controller of every entity of the tree,
    /// `source` included, that has one, together with the entity, in
    /// pre-order. What was kept before is dropped.
    pub fn fetch(&mut self, source: &'a Entity)
        ensures
            final(self).handles() == source.traversal(None, true, false).filter(
                Self::is_steered(),
            ).map_values(Self::resource()),
    {
        self.resources.clear();
        let mut iter = source.query_entities(true);
        let ghost all = iter.remaining();
        loop
            invariant
                iter.wf(),
                self.handles() + iter.remaining().filter(Self::is_steered()).map_values(
                    Self::resource(),
                ) == all.filter(Self::is_steered()).map_values(Self::resource()),
            ensures
                self.handles() == all.filter(Self::is_steered()).map_values(Self::resource()),
            decreases iter.remaining().len(),
        {
            let ghost before = iter.remaining();
            let ghost kept = self.handles();
            match iter.next() {
                None => {
                    proof {
                        lemma_filter_map_empty(before, Self::is_steered(), Self::resource());
                        assert(kept + before.filter(Self::is_steered()).map_values(
                            Self::resource(),
                        ) =~= kept);
                    }
                    break ;
                },
                Some(entity) => {
                    proof {
                        lemma_filter_map_first(before, Self::is_steered(), Self::resource());
                    }
                    if let Some(controller) = entity.component::<Controller<S>>() {
                        self.resources.push((controller, entity));
                        proof {
                            let rest = iter.remaining().filter(Self::is_steered()).map_values(
                                Self::resource(),
                            );
                            assert(self.handles() =~= kept + seq![(controller.slot(), *entity)]);
                            assert(self.handles() + rest =~= kept + (seq![
                                (controller.slot(), *entity),
                            ] + rest));
                        }
                    }
                },
            }
        }
    }

    /// Whether `store` holds the controller of every entity the system
    /// works on, and the rigid body of the entity where it has one.
    pub fn is_frozen(&self, store: &ComponentStore<S>) -> (r: bool)
        ensures
            r == self.holds_all(*store),
    {
        let mut i: usize = 0;
        while i < self.resources.len()
            invariant
                i <= self.resources.len(),
                forall|k: int|
                    0 <= k < i ==> (#[trigger] self.handles()[k]).0 < store.controllers@.len() && (
                    self.handles()[k].1.spec_slots().rigid_body matches Some(at) ==> at
                        < store.rigid_bodies@.len()),
            decreases self.resources.len() - i,
        {
            let (controller, entity) = self.resources[i];
            let body_held = match entity.slots().rigid_body {
                Some(at) => at < store.rigid_bodies.len(),
                None => true,
            };
            if !controller.is_held_by(store) || !body_held {
                assert(!(self.handles()[i as int].0 < store.controllers@.len() && (
                self.handles()[i as int].1.spec_slots().rigid_body matches Some(at) ==> at
                    < store.rigid_bodies@.len())));
                return false;
            }
            i = i + 1;
        }
        true
    }

    /// Lets every controller the system works on steer its entity, in the
    /// order in which they were fetched. `delta` is the time since the run
    /// before, in seconds.
    pub fn run(&self, store: &mut ComponentStore<S>, delta: S)
        requires
            self.holds_all(*old(store)),
        ensures
            Self::is_input_applied(self.handles(), *old(store), *final(store)),
    {
        let mut i: usize = 0;
        while i < self.resources.len()
            invariant
                i <= self.resources.len(),
                self.holds_all(*store),
                Self::is_input_applied(self.handles().take(i as int), *old(store), *store),
            decreases self.resources.len() - i,
        {
            let ghost mid = *store;
            let (manager, entity) = self.resources[i];
            assert(self.handles()[i as int] == (manager.slot(), *entity));
            let controller = store.controllers[manager.index()];
            controller.update(entity, store, delta);
            proof {
                let upto = self.handles().take(i + 1);
                assert(upto.drop_last() =~= self.handles().take(i as int));
                assert(upto.last() == self.handles()[i as int]);
                assert(Self::is_steered_at(upto.last(), mid, *store));
            }
            i = i + 1;
        }
        proof {
            assert(self.handles().take(i as int) =~= self.handles());
        }
    }
}

impl<'a, S: Scalar> System<'a> for InputSystem<'a, S> {
    type Real = S;

    open spec fn frozen(&self, store: ComponentStore<S>) -> bool {
        self.holds_all(store)
    }

    open spec fn fetched(&self, before: Self, source: Entity) -> bool {
        self.handles() == source.traversal(None, true, false).filter(
            Self::is_steered(),
        ).map_values(Self::resource())
    }

    open spec fn ran(&self, delta: S, before: ComponentStore<S>, after: ComponentStore<S>) -> bool {
        Self::is_input_applied(self.handles(), before, after)
    }

    /// Keeps the handle to the controller of every entity of the tree,
    /// `source` included, that has one, together with the entity, in
    /// pre-order. What was kept before is dropped.
    fn on_fetch(&mut self, source: &'a Entity) -> (r: Result<(), SystemRuntimeError>)
        ensures
            r is Ok,
            final(self).handles() == source.traversal(None, true, false).filter(
                Self::is_steered(),
            ).map_values(Self::resource()),
    {
        self.fetch(source);
        Ok(())
    }

    fn on_freeze(&self, store: &ComponentStore<S>) -> (r: Result<(), SystemRuntimeError>) {
        if self.is_frozen(store) {
            Ok(())
        } else {
            Err(SystemRuntimeError("a controller or the body it steers is not in the store"))
        }
    }

    /// Lets every controller the system works on steer its entity, in the
    /// order in which they were fetched.
    fn on_run(&self, store: &mut ComponentStore<S>, delta: S) {
        self.run(store, delta);
    }
}

/// Whether none of the first `upto` places of `slots` lies on a shelf of
/// `len` records.
pub open spec fn none_held(slots: Seq<usize>, upto: int, len: nat) -> bool {
    forall|i: int| 0 <= i < upto ==> (#[trigger] slots[i]) >= len
}

/// Offers a device event to the controllers of the tree, `source`
/// included, in pre-order, until one uses it up. Returns whether one did.
///
/// All controllers claim the same events, so an event that is claimed goes
/// to the first controller that the store holds, and to no other.
pub fn dispatch_event<S: Scalar>(
    source: &Entity,
    store: &mut ComponentStore<S>,
    event: &DeviceEvent,
) -> (consumed: bool)
    ensures
        final(store).transforms == old(store).transforms,
        final(store).rigid_bodies == old(store).rigid_bodies,
        final(store).models == old(store).models,
        final(store).cameras == old(store).cameras,
        ({
            let slots = ComponentIterator::<Controller<S>>::slots_of(
                source.traversal(None, true, false),
            );
            let len = old(store).controllers@.len();
            if consumed {
                &&& WASDEntityController::<S>::claimed(*event) is Some
                &&& exists|k: int|
                    #![trigger slots[k]]
                    {
                        &&& 0 <= k < slots.len()
                        &&& slots[k] < len
                        &&& none_held(slots, k, len)
                        &&& final(store).controllers@ == old(store).controllers@.update(
                            slots[k] as int,
                            Controller {
                                input_source: old(
                                    store,
                                ).controllers@[slots[k] as int].input_source.after(*event),
                            },
                        )
                    }
            } else {
                &&& final(store).controllers@ == old(store).controllers@
                &&& WASDEntityController::<S>::claimed(*event) is None || none_held(
                    slots,
                    slots.len() as int,
                    len,
                )
            }
        }),
{
    let mut iter = source.query_components::<Controller<S>>(true);
    let ghost slots = iter.remaining();
    let ghost len = store.controllers@.len();
    let ghost mut seen: int = 0;
    let mut consumed = false;
    loop
        invariant_except_break
            !consumed,
            store.controllers@ == old(store).controllers@,
            0 <= seen <= slots.len(),
            iter.remaining() == slots.skip(seen),
            none_held(slots, seen, len) || WASDEntityController::<S>::claimed(*event) is None,
        invariant
            iter.wf(),
            len == old(store).controllers@.len(),
            store.transforms == old(store).transforms,
            store.rigid_bodies == old(store).rigid_bodies,
            store.models == old(store).models,
            store.cameras == old(store).cameras,
        ensures
            if consumed {
                &&& WASDEntityController::<S>::claimed(*event) is Some
                &&& exists|k: int|
                    #![trigger slots[k]]
                    {
                        &&& 0 <= k < slots.len()
                        &&& slots[k] < len
                        &&& none_held(slots, k, len)
                        &&& store.controllers@ == old(store).controllers@.update(
                            slots[k] as int,
                            Controller {
                                input_source: old(
                                    store,
                                ).controllers@[slots[k] as int].input_source.after(*event),
                            },
                        )
                    }
            } else {
                &&& store.controllers@ == old(store).controllers@
                &&& WASDEntityController::<S>::claimed(*event) is None || none_held(
                    slots,
                    slots.len() as int,
                    len,
                )
            },
        decreases iter.remaining().len(),
    {
        let ghost before = iter.remaining();
        match iter.next() {
            None => {
                break ;
            },
            Some(manager) => {
                proof {
                    assert(before[0] == slots[seen]);
                    assert(before.drop_first() =~= slots.skip(seen + 1));
                }
                if manager.is_held_by(store) {
                    let controller = &mut store.controllers[manager.index()];
                    let used = controller.input_source.on_incoming_event(event);
                    if used {
                        consumed = true;
                        proof {
                            assert(slots[seen] < len);
                            assert(store.controllers@ =~= old(store).controllers@.update(
                                slots[seen] as int,
                                Controller {
                                    input_source: old(
                                        store,
                                    ).controllers@[slots[seen] as int].input_source.after(*event),
                                },
                            ));
                        }
                        break ;
                    } else {
                        proof {
                            assert(store.controllers@ =~= old(store).controllers@);
                        }
                    }
                }
                proof {
                    seen = seen + 1;
                }
            },
        }
    }
    consumed
}

} // verus!
