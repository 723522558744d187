//! Building entities.

use vstd::prelude::*;
use crate::math::scalar::Scalar;
use crate::world::entity::component::{Component, ComponentBag, ComponentSlots, ComponentStore};
use crate::world::entity::{lemma_forest_last, separate, Entity};

verus! {

/// Collects the name, the children and the components of an entity that is
/// yet to be built.
///
/// Building puts the component records into a store and seals the entity:
/// from then on its set of components is fixed.
pub struct EntityBuilder<S> {
    name: String,
    children: Vec<EntityBuilder<S>>,
    components: ComponentBag<S>,
}

impl<S: Scalar> EntityBuilder<S> {
    /// The name the entity will have.
    pub closed spec fn spec_name(self) -> Seq<char> {
        self.name@
    }

    /// The builders of the children the entity will have, in order.
    pub closed spec fn spec_children(self) -> Seq<EntityBuilder<S>> {
        self.children@
    }

    /// The component records the entity will have.
    pub closed spec fn spec_components(self) -> ComponentBag<S> {
        self.components
    }

    /// Whether `entity`, with its records in `store`, is what this builder
    /// describes: it has the name, it is enabled and valid, its slots name
    /// places in `store` that hold exactly the collected records, and its
    /// children are, one by one, what the builders of the children describe.
    pub open spec fn describes(self, entity: Entity, store: ComponentStore<S>) -> bool
        decreases self,
    {
        &&& entity.spec_name() == self.spec_name()
        &&& entity.spec_enabled()
        &&& !entity.spec_invalidated()
        &&& self.spec_components().placed(entity.spec_slots(), store)
        &&& entity.spec_children().len() == self.spec_children().len()
        &&& forall|i: int|
            0 <= i < self.spec_children().len() ==> (#[trigger] self.spec_children()[i]).describes(
                entity.spec_children()[i],
                store,
            )
    }

    /// Whether building this builder into `before` gives `entity` and
    /// leaves `after`: the records of the entity itself go to the ends of
    /// their shelves first, then the children are built one after the
    /// other, in order, each into what the one before it left.
    pub open spec fn is_built(
        self,
        before: ComponentStore<S>,
        entity: Entity,
        after: ComponentStore<S>,
    ) -> bool
        decreases self, 1int,
    {
        &&& entity.spec_name() == self.spec_name()
        &&& entity.spec_enabled()
        &&& !entity.spec_invalidated()
        &&& exists|shelved: ComponentStore<S>|
            #![trigger self.spec_components().is_shelved(before, entity.spec_slots(), shelved)]
            self.spec_components().is_shelved(before, entity.spec_slots(), shelved)
                && Self::are_built(self.spec_children(), shelved, entity.spec_children(), after)
    }

    /// Whether building `builders` one after the other, starting from
    /// `before`, gives `entities` and leaves `after`. What a store holds
    /// stays where it is while more is built into it.
    pub open spec fn are_built(
        builders: Seq<EntityBuilder<S>>,
        before: ComponentStore<S>,
        entities: Seq<Entity>,
        after: ComponentStore<S>,
    ) -> bool
        decreases builders, 0int,
    {
        &&& entities.len() == builders.len()
        &&& if builders.len() == 0 {
            after.same_records(before)
        } else {
            exists|mid: ComponentStore<S>|
                #![trigger mid.extends(before)]
                mid.extends(before) && Self::are_built(
                    builders.drop_last(),
                    before,
                    entities.drop_last(),
                    mid,
                ) && builders.last().is_built(mid, entities.last(), after)
        }
    }

    /// A builder for an entity called "Unnamed", without children or
    /// components.
    pub fn new() -> (r: Self)
        ensures
            r.spec_name() == "Unnamed"@,
            r.spec_children().len() == 0,
            r.spec_components().transform is None,
            r.spec_components().rigid_body is None,
            r.spec_components().model is None,
            r.spec_components().controller is None,
            r.spec_components().camera is None,
    {
        EntityBuilder { name: "Unnamed".to_owned(), children: Vec::new(), components: ComponentBag::new() }
    }

    /// Names the entity.
    pub fn with_name(self, name: &'static str) -> (r: Self)
        ensures
            r.spec_name() == name@,
            r.spec_children() == self.spec_children(),
            r.spec_components() == self.spec_components(),
    {
        EntityBuilder { name: name.to_owned(), children: self.children, components: self.components }
    }

    /// Adds a child after those added before.
    pub fn with_child(self, child: EntityBuilder<S>) -> (r: Self)
        ensures
            r.spec_name() == self.spec_name(),
            r.spec_children() == self.spec_children().push(child),
            r.spec_components() == self.spec_components(),
    {
        let mut builder = self;
        builder.children.push(child);
        builder
    }

    /// Adds children, in their order, after those added before.
    pub fn with_children(self, children: Vec<EntityBuilder<S>>) -> (r: Self)
        ensures
            r.spec_name() == self.spec_name(),
            r.spec_children() == self.spec_children() + children@,
            r.spec_components() == self.spec_components(),
    {
        let mut builder = self;
        let mut children = children;
        builder.children.append(&mut children);
        builder
    }

    /// Gives the entity a component. A component of the same kind given
    /// before is replaced.
    pub fn with_component<C: Component<Real = S>>(self, component: C) -> (r: Self)
        ensures
            r.spec_name() == self.spec_name(),
            r.spec_children() == self.spec_children(),
            r.spec_components() == C::with_record(self.spec_components(), component),
    {
        let mut builder = self;
        component.stash(&mut builder.components);
        builder
    }

    /// Builds the entity and, below it, its children. The component records
    /// go to the end of their shelves in `store`, those of an entity before
    /// those of its children; what `store` held stays where it was.
    pub fn build(self, store: &mut ComponentStore<S>) -> (r: Entity)
        ensures
            self.is_built(*old(store), r, *final(store)),
            final(store).extends(*old(store)),
            self.describes(r, *final(store)),
        decreases self,
    {
        let ghost plan = self;
        let EntityBuilder { name, children, components } = self;
        let slots = place(components, store);
        let ghost placed_in = *store;
        let mut built: Vec<Entity> = Vec::new();
        for child in it: children
            invariant
                plan == self,
                plan.spec_children() == children@,
                it.seq() == children@,
                built@.len() == it.index(),
                store.extends(placed_in),
                Self::are_built(children@.take(it.index() as int), placed_in, built@, *store),
                forall|i: int|
                    0 <= i < built@.len() ==> (#[trigger] plan.spec_children()[i]).describes(
                        built@[i],
                        *store,
                    ),
        {
            let ghost before = *store;
            let ghost described = built@;
            proof {
                let at = it.index() as int;
                assert(child == plan.children@[at]);
                assert(decreases_to!(plan => plan.children));
                assert(decreases_to!(plan.children => plan.children@));
                assert(decreases_to!(plan.children@ => plan.children@[at]));
                assert(decreases_to!(plan => child));
            }
            let entity = child.build(store);
            built.push(entity);
            proof {
                let upto = children@.take(it.index() + 1);
                assert(upto.drop_last() =~= children@.take(it.index() as int));
                assert(upto.last() == child);
                assert(built@.drop_last() =~= described);
                assert(Self::are_built(upto.drop_last(), placed_in, built@.drop_last(), before));
                assert(upto.last().is_built(before, built@.last(), *store));
                assert(before.extends(placed_in));
                assert(Self::are_built(upto, placed_in, built@, *store));
            }
            proof {
                assert forall|i: int| 0 <= i < built@.len() implies (
                #[trigger] plan.spec_children()[i]).describes(built@[i], *store) by {
                    if i < described.len() {
                        assert(built@[i] == described[i]);
                        lemma_describes_extended(plan.spec_children()[i], built@[i], before, *store);
                    }
                }
            }
        }
        proof {
            lemma_placed_extended(components, slots, placed_in, *store);
            assert(children@.take(children@.len() as int) =~= children@);
            assert(components.is_shelved(*old(store), slots, placed_in));
        }
        Entity::assemble(name, built, slots)
    }
}

/// Puts the records of a bag into a store and returns where they went.
fn place<S: Scalar>(components: ComponentBag<S>, store: &mut ComponentStore<S>) -> (slots:
    ComponentSlots)
    ensures
        components.is_shelved(*old(store), slots, *final(store)),
        final(store).extends(*old(store)),
        components.placed(slots, *final(store)),
{
    let ComponentBag { transform, rigid_body, model, controller, camera } = components;
    let mut slots = ComponentSlots::empty();
    if let Some(record) = transform {
        record.attach(store, &mut slots);
    }
    if let Some(record) = rigid_body {
        record.attach(store, &mut slots);
    }
    if let Some(record) = model {
        record.attach(store, &mut slots);
    }
    if let Some(record) = controller {
        record.attach(store, &mut slots);
    }
    if let Some(record) = camera {
        record.attach(store, &mut slots);
    }
    slots
}

/// Records that were placed stay placed when the store grows.
proof fn lemma_placed_extended<S>(
    components: ComponentBag<S>,
    slots: ComponentSlots,
    earlier: ComponentStore<S>,
    later: ComponentStore<S>,
)
    requires
        components.placed(slots, earlier),
        later.extends(earlier),
    ensures
        components.placed(slots, later),
{
}

/// An entity that a builder describes stays so described when the store
/// grows.
proof fn lemma_describes_extended<S: Scalar>(
    builder: EntityBuilder<S>,
    entity: Entity,
    earlier: ComponentStore<S>,
    later: ComponentStore<S>,
)
    requires
        builder.describes(entity, earlier),
        later.extends(earlier),
    ensures
        builder.describes(entity, later),
    decreases builder,
{
    lemma_placed_extended(builder.spec_components(), entity.spec_slots(), earlier, later);
    assert forall|i: int| 0 <= i < builder.spec_children().len() implies (
    #[trigger] builder.spec_children()[i]).describes(entity.spec_children()[i], later) by {
        lemma_describes_extended(
            builder.spec_children()[i],
            entity.spec_children()[i],
            earlier,
            later,
        );
    }
}

/// Whether every entity of `entities` names only records that `later`
/// holds and `earlier` does not hold yet.
pub open spec fn all_held_since<S>(
    entities: Seq<Entity>,
    earlier: ComponentStore<S>,
    later: ComponentStore<S>,
) -> bool {
    forall|i: int|
        0 <= i < entities.len() ==> later.holds_since(earlier, (#[trigger] entities[i]).spec_slots())
}

/// Entities that were built one after the other name no record in common.
proof fn lemma_apart<S>(
    first: Seq<Entity>,
    second: Seq<Entity>,
    before: ComponentStore<S>,
    mid: ComponentStore<S>,
    after: ComponentStore<S>,
)
    requires
        separate(first),
        separate(second),
        all_held_since(first, before, mid),
        all_held_since(second, mid, after),
        mid.extends(before),
        after.extends(mid),
    ensures
        separate(first + second),
        all_held_since(first + second, before, after),
{
    let all = first + second;
    assert forall|i: int| 0 <= i < all.len() implies after.holds_since(
        before,
        (#[trigger] all[i]).spec_slots(),
    ) by {
        if i < first.len() {
            assert(all[i] == first[i]);
        } else {
            assert(all[i] == second[i - first.len()]);
        }
    }
    assert forall|i: int, j: int| 0 <= i < j < all.len() implies (
    #[trigger] all[i]).spec_slots().apart_from((#[trigger] all[j]).spec_slots()) by {
        if j < first.len() {
            assert(all[i] == first[i]);
            assert(all[j] == first[j]);
        } else if i >= first.len() {
            assert(all[i] == second[i - first.len()]);
            assert(all[j] == second[j - first.len()]);
        } else {
            assert(all[i] == first[i]);
            assert(all[j] == second[j - first.len()]);
        }
    }
}

/// Every entity of a tree that was built names records of its own: each
/// record it names went into the store while the tree was built, and no
/// other entity of the tree names it.
pub proof fn lemma_built_is_separate<S: Scalar>(
    builder: EntityBuilder<S>,
    before: ComponentStore<S>,
    entity: Entity,
    after: ComponentStore<S>,
)
    requires
        builder.is_built(before, entity, after),
    ensures
        after.extends(before),
        separate(entity.subtree()),
        all_held_since(entity.subtree(), before, after),
    decreases builder, 1int,
{
    let shelved = choose|shelved: ComponentStore<S>|
        #![trigger builder.spec_components().is_shelved(before, entity.spec_slots(), shelved)]
        builder.spec_components().is_shelved(before, entity.spec_slots(), shelved)
            && EntityBuilder::are_built(
            builder.spec_children(),
            shelved,
            entity.spec_children(),
            after,
        );
    lemma_built_are_separate(builder.spec_children(), shelved, entity.spec_children(), after);
    let own = seq![entity];
    assert(shelved.extends(before));
    assert(shelved.holds_since(before, own[0].spec_slots()));
    lemma_apart(own, Entity::forest(entity.spec_children()), before, shelved, after);
}

/// The same, for trees that were built one after the other.
pub proof fn lemma_built_are_separate<S: Scalar>(
    builders: Seq<EntityBuilder<S>>,
    before: ComponentStore<S>,
    entities: Seq<Entity>,
    after: ComponentStore<S>,
)
    requires
        EntityBuilder::are_built(builders, before, entities, after),
    ensures
        after.extends(before),
        separate(Entity::forest(entities)),
        all_held_since(Entity::forest(entities), before, after),
    decreases builders, 0int,
{
    if builders.len() > 0 {
        let mid = choose|mid: ComponentStore<S>|
            #![trigger mid.extends(before)]
            mid.extends(before) && EntityBuilder::are_built(
                builders.drop_last(),
                before,
                entities.drop_last(),
                mid,
            ) && builders.last().is_built(mid, entities.last(), after);
        lemma_built_are_separate(builders.drop_last(), before, entities.drop_last(), mid);
        lemma_built_is_separate(builders.last(), mid, entities.last(), after);
        lemma_forest_last(entities);
        lemma_apart(
            Entity::forest(entities.drop_last()),
            entities.last().subtree(),
            before,
            mid,
            after,
        );
    } else {
        assert(Entity::forest(entities) =~= Seq::<Entity>::empty());
    }
}

} // verus!
