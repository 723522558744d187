//! The entity tree, its components and the systems that act on them.

use vstd::prelude::*;
use crate::math::scalar::Scalar;
use crate::world::entity::builder::EntityBuilder;
use crate::world::entity::component::ComponentStore;
use crate::world::entity::{Entity, EntityContainer};

pub mod entity;
pub mod system;

verus! {

/// A tree of entities together with the store that holds their components.
pub struct World<S> {
    pub root: Entity,
    pub store: ComponentStore<S>,
}

impl<S: Scalar> World<S> {
    /// Builds the world that `builder` describes, in a store of its own.
    pub fn new(builder: EntityBuilder<S>) -> (r: Self)
        ensures
            builder.describes(r.root, r.store),
    {
        let mut store = ComponentStore::new();
        let root = builder.build(&mut store);
        World { root, store }
    }

    /// Builds the entity that `builder` describes and adds it as the last
    /// child of the root. What the store held stays where it was.
    pub fn spawn(&mut self, builder: EntityBuilder<S>)
        ensures
            final(self).store.extends(old(self).store),
            final(self).root.same_node(old(self).root),
            final(self).root.spec_children().len() == old(self).root.spec_children().len() + 1,
            final(self).root.spec_children().drop_last() == old(self).root.spec_children(),
            builder.describes(final(self).root.spec_children().last(), final(self).store),
    {
        let entity = builder.build(&mut self.store);
        self.root.spawn_entity(entity);
        proof {
            assert(self.root.spec_children().drop_last() =~= old(self).root.spec_children());
        }
    }
}

impl<S> EntityContainer for World<S> {
    open spec fn root(&self) -> Entity {
        self.root
    }

    fn as_entity(&self) -> (r: &Entity) {
        &self.root
    }

    fn spawn_entity(&mut self, entity: Entity) {
        self.root.spawn_entity(entity);
    }
}

} // verus!
