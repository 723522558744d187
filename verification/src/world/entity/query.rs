//! Traversals that yield the components of the entities of a tree.

use vstd::prelude::*;
use crate::math::sequence::{lemma_filter_map_empty, lemma_filter_map_first};
use crate::world::entity::component::{Component, ComponentManager, ComponentStore};
use crate::world::entity::{Entity, EntityIterator};

verus! {

/// A traversal that yields the handle to the component of kind `T` of each
/// entity that has one.
pub struct ComponentIterator<'a, T> {
    entity: &'a Entity,
    entity_iter: EntityIterator<'a>,
    component: core::marker::PhantomData<T>,
}

impl<'a, T: Component> ComponentIterator<'a, T> {
    /// Whether an entity has a component of kind `T`.
    pub open spec fn has_component() -> spec_fn(Entity) -> bool {
        |e: Entity| T::slot(e.spec_slots()) is Some
    }

    /// The place of the component of kind `T` of an entity.
    pub open spec fn slot_of() -> spec_fn(Entity) -> usize {
        |e: Entity| T::slot(e.spec_slots())->Some_0
    }

    /// The places of the components of kind `T` of `entities`, in order.
    pub open spec fn slots_of(entities: Seq<Entity>) -> Seq<usize> {
        entities.filter(Self::has_component()).map_values(Self::slot_of())
    }

    /// The traversal is in a state that `new` and `next` leave it in.
    pub closed spec fn wf(self) -> bool {
        self.entity_iter.wf() && self.entity_iter.filter() is None
    }

    /// The entity the traversal started at.
    pub closed spec fn origin(self) -> Entity {
        *self.entity
    }

    /// The places of the components this iterator has yet to yield.
    pub closed spec fn remaining(self) -> Seq<usize> {
        Self::slots_of(self.entity_iter.remaining())
    }

    /// Starts a traversal at `entity`, with or without `entity` itself.
    pub fn new(entity: &'a Entity, include_parent: bool) -> (r: Self)
        ensures
            r.wf(),
            r.origin() == *entity,
            r.remaining() == Self::slots_of(entity.traversal(None, include_parent, false)),
    {
        ComponentIterator {
            entity,
            entity_iter: EntityIterator::new(entity, None, include_parent, false),
            component: core::marker::PhantomData,
        }
    }

    /// Yields the next handle of the traversal, or `None` once it is over.
    pub fn next(&mut self) -> (r: Option<ComponentManager<T>>)
        requires
            old(self).wf(),
        ensures
            final(self).wf(),
            final(self).origin() == old(self).origin(),
            match r {
                Some(manager) => {
                    &&& old(self).remaining().len() > 0
                    &&& manager.slot() == old(self).remaining()[0]
                    &&& final(self).remaining() == old(self).remaining().drop_first()
                },
                None => {
                    &&& old(self).remaining().len() == 0
                    &&& final(self).remaining().len() == 0
                },
            },
    {
        let mut found: Option<ComponentManager<T>> = None;
        loop
            invariant_except_break
                found is None,
                self.remaining() == old(self).remaining(),
            invariant
                self.wf(),
                self.origin() == old(self).origin(),
            ensures
                match found {
                    Some(manager) => {
                        &&& old(self).remaining().len() > 0
                        &&& manager.slot() == old(self).remaining()[0]
                        &&& self.remaining() == old(self).remaining().drop_first()
                    },
                    None => {
                        &&& old(self).remaining().len() == 0
                        &&& self.remaining().len() == 0
                    },
                },
            decreases self.entity_iter.remaining().len(),
        {
            let ghost before = self.entity_iter.remaining();
            match self.entity_iter.next() {
                None => {
                    proof {
                        lemma_filter_map_empty(before, Self::has_component(), Self::slot_of());
                        lemma_filter_map_empty(
                            self.entity_iter.remaining(),
                            Self::has_component(),
                            Self::slot_of(),
                        );
                    }
                    break;
                },
                Some(entity) => {
                    proof {
                        lemma_filter_map_first(before, Self::has_component(), Self::slot_of());
                    }
                    if let Some(candidate) = entity.component::<T>() {
                        found = Some(candidate);
                        break;
                    }
                },
            }
        }
        found
    }
}

impl<'a, T: Component> ComponentIterator<'a, T> {
    /// Runs the traversal to its end and returns what it yields, in order.
    pub fn collect(self) -> (r: Vec<ComponentManager<T>>)
        requires
            self.wf(),
        ensures
            r@.map_values(|manager: ComponentManager<T>| manager.slot()) == self.remaining(),
    {
        let mut iter = self;
        let mut found: Vec<ComponentManager<T>> = Vec::new();
        loop
            invariant
                iter.wf(),
                found@.map_values(|manager: ComponentManager<T>| manager.slot()) + iter.remaining()
                    == self.remaining(),
            ensures
                found@.map_values(|manager: ComponentManager<T>| manager.slot())
                    == self.remaining(),
            decreases iter.remaining().len(),
        {
            let ghost before = iter.remaining();
            let ghost so_far = found@.map_values(|manager: ComponentManager<T>| manager.slot());
            match iter.next() {
                None => {
                    assert(so_far + before =~= so_far);
                    break ;
                },
                Some(manager) => {
                    found.push(manager);
                    proof {
                        assert(found@.map_values(|manager: ComponentManager<T>| manager.slot())
                            =~= so_far.push(manager.slot()));
                        assert(so_far.push(manager.slot()) + iter.remaining() =~= so_far + before);
                    }
                },
            }
        }
        found
    }
}

/// A traversal that yields the handles to the components of kind `T` for
/// whose record a predicate holds.
pub struct FilteredComponentIterator<'a, T, F> {
    iter: ComponentIterator<'a, T>,
    predicate: F,
}

impl<'a, T: Component, F: Fn(&T) -> bool> FilteredComponentIterator<'a, T, F> {
    /// The traversal is in a state that `new` and `next` leave it in.
    pub closed spec fn wf(self) -> bool {
        self.iter.wf()
    }

    /// The predicate of this traversal.
    pub closed spec fn predicate(self) -> F {
        self.predicate
    }

    /// The places of the components that the predicate was not yet asked
    /// about.
    pub closed spec fn candidates(self) -> Seq<usize> {
        self.iter.remaining()
    }

    /// Whether the traversal passes over the record at `at`: the store does
    /// not hold it, or the predicate can answer no for it.
    pub open spec fn passes_over(self, store: ComponentStore<T::Real>, at: usize) -> bool {
        at < T::shelf(store).len() ==> self.predicate().ensures(
            (&T::shelf(store)[at as int],),
            false,
        )
    }

    /// Starts a traversal at `entity`, with or without `entity` itself.
    pub fn new(entity: &'a Entity, predicate: F, include_parent: bool) -> (r: Self)
        ensures
            r.wf(),
            r.predicate() == predicate,
            r.candidates() == ComponentIterator::<T>::slots_of(
                entity.traversal(None, include_parent, false),
            ),
    {
        FilteredComponentIterator { iter: ComponentIterator::new(entity, include_parent), predicate }
    }

    /// Yields the next handle whose record is in `store` and meets the
    /// predicate, or `None` once the traversal is over.
    ///
    /// With `k` the number of candidates that were looked at, the first
    /// `k - 1` of them were passed over and the last one is yielded; at the
    /// end of the traversal all candidates were passed over.
    pub fn next(&mut self, store: &ComponentStore<T::Real>) -> (r: Option<ComponentManager<T>>)
        requires
            old(self).wf(),
            forall|i: int|
                0 <= i < old(self).candidates().len() && (#[trigger] old(
                    self,
                ).candidates()[i]) < T::shelf(*store).len() ==> old(self).predicate().requires(
                    (&T::shelf(*store)[old(self).candidates()[i] as int],),
                ),
        ensures
            final(self).wf(),
            final(self).predicate() == old(self).predicate(),
            exists|k: int|
                #![trigger old(self).candidates().skip(k)]
                {
                    &&& 0 <= k <= old(self).candidates().len()
                    &&& final(self).candidates() == old(self).candidates().skip(k)
                    &&& match r {
                        Some(manager) => {
                            &&& k > 0
                            &&& manager.slot() == old(self).candidates()[k - 1]
                            &&& manager.held_by(*store)
                            &&& old(self).predicate().ensures((&manager.record(*store),), true)
                            &&& forall|i: int|
                                0 <= i < k - 1 ==> old(self).passes_over(
                                    *store,
                                    #[trigger] old(self).candidates()[i],
                                )
                        },
                        None => {
                            &&& k == old(self).candidates().len()
                            &&& forall|i: int|
                                0 <= i < k ==> old(self).passes_over(
                                    *store,
                                    #[trigger] old(self).candidates()[i],
                                )
                        },
                    }
                },
    {
        let mut found: Option<ComponentManager<T>> = None;
        let ghost mut seen: int = 0;
        loop
            invariant_except_break
                found is None,
            invariant
                self.wf(),
                self.predicate() == old(self).predicate(),
                0 <= seen <= old(self).candidates().len(),
                self.candidates() == old(self).candidates().skip(seen),
                forall|i: int|
                    0 <= i < old(self).candidates().len() && (#[trigger] old(
                        self,
                    ).candidates()[i]) < T::shelf(*store).len() ==> old(
                        self,
                    ).predicate().requires(
                        (&T::shelf(*store)[old(self).candidates()[i] as int],),
                    ),
                match found {
                    Some(manager) => {
                        &&& seen > 0
                        &&& manager.slot() == old(self).candidates()[seen - 1]
                        &&& manager.held_by(*store)
                        &&& old(self).predicate().ensures((&manager.record(*store),), true)
                        &&& forall|i: int|
                            0 <= i < seen - 1 ==> old(self).passes_over(
                                *store,
                                #[trigger] old(self).candidates()[i],
                            )
                    },
                    None => forall|i: int|
                        0 <= i < seen ==> old(self).passes_over(
                            *store,
                            #[trigger] old(self).candidates()[i],
                        ),
                },
            ensures
                found is None ==> seen == old(self).candidates().len(),
            decreases self.candidates().len(),
        {
            let ghost before = self.candidates();
            match self.iter.next() {
                None => {
                    break;
                },
                Some(manager) => {
                    proof {
                        assert(before[0] == old(self).candidates()[seen]);
                        assert(before.drop_first() =~= old(self).candidates().skip(seen + 1));
                        seen = seen + 1;
                    }
                    if manager.is_held_by(store) {
                        let ok = (self.predicate)(T::at(store, manager.index()));
                        if ok {
                            found = Some(manager);
                            break;
                        }
                    }
                },
            }
        }
        proof {
            assert(self.candidates() == old(self).candidates().skip(seen));
        }
        found
    }
}

} // verus!
