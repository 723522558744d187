//! Entities: the nodes of the scene tree, and the traversals over them.

use vstd::prelude::*;
use crate::math::sequence::lemma_filter_first;
use crate::world::entity::component::{Component, ComponentManager, ComponentSlots};
use crate::world::entity::query::{ComponentIterator, FilteredComponentIterator};

pub mod builder;
pub mod component;
pub mod query;

verus! {

/// A node of the scene tree.
///
/// An entity owns its children. Its set of components is fixed when it is
/// built; afterwards only the records behind the slots change.
pub struct Entity {
    enabled: bool,
    invalidated: bool,
    name: String,
    children: Vec<Entity>,
    components: ComponentSlots,
}

impl Entity {
    /// The name of this entity.
    pub closed spec fn spec_name(self) -> Seq<char> {
        self.name@
    }

    /// Whether this entity takes part in the simulation.
    pub closed spec fn spec_enabled(self) -> bool {
        self.enabled
    }

    /// Whether this entity was marked as no longer valid.
    pub closed spec fn spec_invalidated(self) -> bool {
        self.invalidated
    }

    /// The children of this entity, in the order they were added.
    pub closed spec fn spec_children(self) -> Seq<Entity> {
        self.children@
    }

    /// The component slots of this entity.
    pub closed spec fn spec_slots(self) -> ComponentSlots {
        self.components
    }

    /// This entity followed by all its descendants, depth first, each node
    /// before its children.
    pub open spec fn subtree(self) -> Seq<Entity>
        decreases self, 1int,
    {
        seq![self] + Self::forest(self.spec_children())
    }

    /// The subtrees of `roots`, one after the other.
    pub open spec fn forest(roots: Seq<Entity>) -> Seq<Entity>
        decreases roots, 0int,
    {
        if roots.len() == 0 {
            Seq::empty()
        } else {
            roots[0].subtree() + Self::forest(roots.drop_first())
        }
    }

    /// Whether this entity passes a name filter: no filter admits every
    /// entity, a filter admits the entities of exactly that name.
    pub open spec fn admitted(self, filter: Option<Seq<char>>) -> bool {
        filter matches Some(name) ==> self.spec_name() == name
    }

    /// The predicate that `admitted` defines for a given filter.
    pub open spec fn admits(filter: Option<Seq<char>>) -> spec_fn(Entity) -> bool {
        |e: Entity| e.admitted(filter)
    }

    /// The entities a traversal from this entity yields, in order: of the
    /// candidates, those that pass the name filter.
    pub open spec fn traversal(
        self,
        filter: Option<Seq<char>>,
        include_parent: bool,
        direct_only: bool,
    ) -> Seq<Entity> {
        self.candidates(include_parent, direct_only).filter(Self::admits(filter))
    }

    /// The entities a traversal from this entity looks at, in order: this
    /// entity itself, if `include_parent`, and then either its children
    /// (`direct_only`) or all its descendants in pre-order.
    pub open spec fn candidates(self, include_parent: bool, direct_only: bool) -> Seq<Entity> {
        let head = if include_parent {
            seq![self]
        } else {
            Seq::empty()
        };
        let tail = if direct_only {
            self.spec_children()
        } else {
            Self::forest(self.spec_children())
        };
        head + tail
    }

    /// Whether `holds` is true of this entity and of all its descendants.
    pub open spec fn each(self, holds: spec_fn(Entity) -> bool) -> bool
        decreases self,
    {
        &&& holds(self)
        &&& forall|i: int|
            0 <= i < self.spec_children().len() ==> (#[trigger] self.spec_children()[i]).each(
                holds,
            )
    }

    /// A child is a smaller tree than its parent.
    pub proof fn lemma_child_smaller(self, i: int)
        requires
            0 <= i < self.spec_children().len(),
        ensures
            decreases_to!(self => self.spec_children()[i]),
    {
    }

    /// Whether this entity and `other` agree in everything but their
    /// children.
    pub open spec fn same_node(self, other: Entity) -> bool {
        &&& self.spec_name() == other.spec_name()
        &&& self.spec_enabled() == other.spec_enabled()
        &&& self.spec_invalidated() == other.spec_invalidated()
        &&& self.spec_slots() == other.spec_slots()
    }

    /// The name of this entity.
    pub fn name(&self) -> (r: &String)
        ensures
            r@ == self.spec_name(),
    {
        &self.name
    }

    /// Renames this entity.
    pub fn set_name(&mut self, name: String)
        ensures
            final(self).spec_name() == name@,
            final(self).spec_enabled() == old(self).spec_enabled(),
            final(self).spec_invalidated() == old(self).spec_invalidated(),
            final(self).spec_children() == old(self).spec_children(),
            final(self).spec_slots() == old(self).spec_slots(),
    {
        self.name = name;
    }

    /// Whether this entity takes part in the simulation.
    pub fn enabled(&self) -> (r: bool)
        ensures
            r == self.spec_enabled(),
    {
        self.enabled
    }

    /// Switches this entity on or off.
    pub fn set_enabled(&mut self, enabled: bool)
        ensures
            final(self).spec_enabled() == enabled,
            final(self).spec_name() == old(self).spec_name(),
            final(self).spec_invalidated() == old(self).spec_invalidated(),
            final(self).spec_children() == old(self).spec_children(),
            final(self).spec_slots() == old(self).spec_slots(),
    {
        self.enabled = enabled;
    }

    /// Whether this entity was marked as no longer valid.
    pub fn invalidated(&self) -> (r: bool)
        ensures
            r == self.spec_invalidated(),
    {
        self.invalidated
    }

    /// Marks this entity as valid or as no longer valid.
    pub fn set_invalidated(&mut self, invalidated: bool)
        ensures
            final(self).spec_invalidated() == invalidated,
            final(self).spec_name() == old(self).spec_name(),
            final(self).spec_enabled() == old(self).spec_enabled(),
            final(self).spec_children() == old(self).spec_children(),
            final(self).spec_slots() == old(self).spec_slots(),
    {
        self.invalidated = invalidated;
    }

    /// The children of this entity.
    pub fn children(&self) -> (r: &Vec<Entity>)
        ensures
            r@ == self.spec_children(),
    {
        &self.children
    }

    /// The component slots of this entity.
    pub fn slots(&self) -> (r: ComponentSlots)
        ensures
            r == self.spec_slots(),
    {
        self.components
    }

    /// The handle to the component of kind `C` of this entity, if it has
    /// one.
    pub fn component<C: Component>(&self) -> (r: Option<ComponentManager<C>>)
        ensures
            match r {
                Some(manager) => C::slot(self.spec_slots()) == Some(manager.slot()),
                None => C::slot(self.spec_slots()) is None,
            },
    {
        match C::slot_in(&self.components) {
            Some(at) => Some(ComponentManager::init(at)),
            None => None,
        }
    }

    /// An enabled, valid entity made of the given parts.
    pub(crate) fn assemble(name: String, children: Vec<Entity>, components: ComponentSlots) -> (r:
        Entity)
        ensures
            r.spec_name() == name@,
            r.spec_enabled(),
            !r.spec_invalidated(),
            r.spec_children() == children@,
            r.spec_slots() == components,
    {
        Entity { enabled: true, invalidated: false, name, children, components }
    }

    /// A fresh entity: enabled, valid, without children or components.
    pub fn new(name: &'static str) -> (r: Entity)
        ensures
            r.spec_name() == name@,
            r.spec_enabled(),
            !r.spec_invalidated(),
            r.spec_children() == Seq::<Entity>::empty(),
            r.spec_slots() == ComponentSlots::none(),
    {
        Entity {
            enabled: true,
            invalidated: false,
            name: name.to_owned(),
            children: Vec::new(),
            components: ComponentSlots::empty(),
        }
    }
}

/// Something that stands for a tree of entities and can be searched.
pub trait EntityContainer {
    /// The entity at the top of the tree.
    spec fn root(&self) -> Entity;

    /// The entity at the top of the tree.
    fn as_entity(&self) -> (r: &Entity)
        ensures
            *r == self.root(),
    ;

    /// Adds `entity` as the last child of the top of the tree.
    fn spawn_entity(&mut self, entity: Entity)
        ensures
            final(self).root().spec_children() == old(self).root().spec_children().push(entity),
            final(self).root().same_node(old(self).root()),
    ;

    /// All entities of the tree in pre-order, with or without the top.
    fn query_entities(&self, include_parent: bool) -> (r: EntityIterator<'_>)
        ensures
            r.wf(),
            r.filter() is None,
            r.remaining() == self.root().traversal(None, include_parent, false),
    {
        EntityIterator::new(self.as_entity(), None, include_parent, false)
    }

    /// The children of the top of the tree.
    fn query_direct_children(&self) -> (r: EntityIterator<'_>)
        ensures
            r.wf(),
            r.filter() is None,
            r.remaining() == self.root().traversal(None, false, true),
    {
        EntityIterator::new(self.as_entity(), None, false, true)
    }

    /// The entities of the tree that are called `name`, in pre-order.
    fn query_entity_by_name(&self, name: &'static str, include_parent: bool) -> (r:
        EntityIterator<'_>)
        ensures
            r.wf(),
            r.filter() == Some(name@),
            r.remaining() == self.root().traversal(Some(name@), include_parent, false),
    {
        EntityIterator::new(self.as_entity(), Some(name.to_owned()), include_parent, false)
    }

    /// The handles to the components of kind `T` in the tree, in the
    /// pre-order of the entities that have one.
    fn query_components<T: Component>(&self, include_parent: bool) -> (r: ComponentIterator<
        '_,
        T,
    >)
        ensures
            r.wf(),
            r.remaining() == ComponentIterator::<T>::slots_of(
                self.root().traversal(None, include_parent, false),
            ),
    {
        ComponentIterator::new(self.as_entity(), include_parent)
    }

    /// The handles to the components of kind `T` in the tree for whose
    /// record `filter_predicate` holds.
    fn query_components_by_predicate<T: Component, F: Fn(&T) -> bool>(
        &self,
        filter_predicate: F,
        include_parent: bool,
    ) -> (r: FilteredComponentIterator<'_, T, F>)
        ensures
            r.wf(),
            r.predicate() == filter_predicate,
            r.candidates() == ComponentIterator::<T>::slots_of(
                self.root().traversal(None, include_parent, false),
            ),
    {
        FilteredComponentIterator::new(self.as_entity(), filter_predicate, include_parent)
    }
}

impl EntityContainer for Entity {
    open spec fn root(&self) -> Entity {
        *self
    }

    fn as_entity(&self) -> (r: &Entity) {
        self
    }

    fn spawn_entity(&mut self, entity: Entity) {
        self.children.push(entity);
    }
}

/// A traversal that includes the parent and has no filter yields the
/// parent first and then its descendants in pre-order.
pub proof fn lemma_traversal_starts_with_parent(parent: Entity)
    ensures
        parent.traversal(None, true, false) == parent.subtree(),
        parent.traversal(None, true, false).len() > 0,
        parent.traversal(None, true, false)[0] == parent,
{
    lemma_no_filter(parent.subtree());
}

/// Without a filter, every candidate is yielded.
pub proof fn lemma_no_filter(candidates: Seq<Entity>)
    ensures
        candidates.filter(Entity::admits(None)) == candidates,
    decreases candidates.len(),
{
    reveal_with_fuel(Seq::filter, 1);
    if candidates.len() > 0 {
        lemma_no_filter(candidates.drop_last());
        assert(candidates.drop_last().push(candidates.last()) =~= candidates);
    }
}

/// A traversal with a name filter yields entities of that name only.
pub proof fn lemma_traversal_yields_named(
    parent: Entity,
    name: Seq<char>,
    include_parent: bool,
    direct_only: bool,
    i: int,
)
    requires
        0 <= i < parent.traversal(Some(name), include_parent, direct_only).len(),
    ensures
        parent.traversal(Some(name), include_parent, direct_only)[i].spec_name() == name,
{
    let candidates = parent.candidates(include_parent, direct_only);
    candidates.lemma_filter_pred(Entity::admits(Some(name)), i);
}

/// A traversal with a name filter yields every candidate of that name.
pub proof fn lemma_traversal_yields_all_named(
    parent: Entity,
    name: Seq<char>,
    include_parent: bool,
    direct_only: bool,
    i: int,
)
    requires
        0 <= i < parent.candidates(include_parent, direct_only).len(),
        parent.candidates(include_parent, direct_only)[i].spec_name() == name,
    ensures
        parent.traversal(Some(name), include_parent, direct_only).contains(
            parent.candidates(include_parent, direct_only)[i],
        ),
{
    let candidates = parent.candidates(include_parent, direct_only);
    candidates.lemma_filter_contains(Entity::admits(Some(name)), i);
}

/// A traversal that includes the parent and filters by the name of the
/// parent yields the parent first.
pub proof fn lemma_traversal_yields_named_parent(parent: Entity, direct_only: bool)
    ensures
        parent.traversal(Some(parent.spec_name()), true, direct_only).len() > 0,
        parent.traversal(Some(parent.spec_name()), true, direct_only)[0] == parent,
{
    let candidates = parent.candidates(true, direct_only);
    assert(candidates[0] == parent);
    lemma_filter_first(candidates, Entity::admits(Some(parent.spec_name())));
}

/// Whether no two entities of `entities` name a record in common.
pub open spec fn separate(entities: Seq<Entity>) -> bool {
    forall|i: int, j: int|
        0 <= i < j < entities.len() ==> (#[trigger] entities[i]).spec_slots().apart_from(
            (#[trigger] entities[j]).spec_slots(),
        )
}

/// The subtrees of a sequence of roots are those of all but the last
/// root, and then the subtree of the last root.
pub proof fn lemma_forest_last(roots: Seq<Entity>)
    requires
        roots.len() > 0,
    ensures
        Entity::forest(roots) == Entity::forest(roots.drop_last()) + roots.last().subtree(),
    decreases roots.len(),
{
    if roots.len() == 1 {
        assert(roots.drop_first() =~= Seq::<Entity>::empty());
        assert(roots.drop_last() =~= Seq::<Entity>::empty());
        assert(Entity::forest(roots.drop_first()) =~= Seq::<Entity>::empty());
        assert(Entity::forest(roots.drop_last()) =~= Seq::<Entity>::empty());
        assert(Entity::forest(roots) =~= roots[0].subtree());
        assert(Entity::forest(roots.drop_last()) + roots.last().subtree() =~= roots[0].subtree());
    } else {
        let rest = roots.drop_first();
        lemma_forest_last(rest);
        assert(rest.drop_last() =~= roots.drop_last().drop_first());
        assert(rest.last() == roots.last());
        assert(roots.drop_last()[0] == roots[0]);
        assert(Entity::forest(roots.drop_last()) == roots[0].subtree() + Entity::forest(
            roots.drop_last().drop_first(),
        ));
        assert(Entity::forest(roots) =~= Entity::forest(roots.drop_last())
            + roots.last().subtree());
    }
}

/// What is kept of a sequence of separate entities is separate.
pub proof fn lemma_filter_separate(entities: Seq<Entity>, keep: spec_fn(Entity) -> bool)
    requires
        separate(entities),
    ensures
        separate(entities.filter(keep)),
    decreases entities.len(),
{
    reveal(Seq::filter);
    if entities.len() > 0 {
        let earlier = entities.drop_last();
        let last = entities.last();
        assert forall|i: int, j: int| 0 <= i < j < earlier.len() implies (
        #[trigger] earlier[i]).spec_slots().apart_from((#[trigger] earlier[j]).spec_slots()) by {
            assert(earlier[i] == entities[i]);
            assert(earlier[j] == entities[j]);
        }
        lemma_filter_separate(earlier, keep);
        let kept = earlier.filter(keep);
        if keep(last) {
            assert(entities.filter(keep) == kept.push(last));
            assert forall|i: int, j: int| 0 <= i < j < kept.push(last).len() implies (
            #[trigger] kept.push(last)[i]).spec_slots().apart_from(
                (#[trigger] kept.push(last)[j]).spec_slots(),
            ) by {
                if j < kept.len() {
                    assert(kept.push(last)[i] == kept[i]);
                    assert(kept.push(last)[j] == kept[j]);
                } else {
                    assert(kept.contains(kept[i]));
                    earlier.lemma_filter_contains_rev(keep, kept[i]);
                    let at = choose|at: int| 0 <= at < earlier.len() && earlier[at] == kept[i];
                    assert(entities[at] == kept[i]);
                    assert(entities[entities.len() - 1] == last);
                }
            }
        } else {
            assert(entities.filter(keep) == kept);
        }
    }
}

/// The view of a name filter.
pub open spec fn filter_view(filter: Option<String>) -> Option<Seq<char>> {
    match filter {
        Some(name) => Some(name@),
        None => None,
    }
}

/// A node whose children are being visited, and the index of the next one.
#[derive(Clone, Copy)]
struct Cursor<'a> {
    node: &'a Entity,
    next: usize,
}

impl<'a> Cursor<'a> {
    spec fn wf(self) -> bool {
        self.next <= self.node.spec_children().len()
    }

    /// The candidates this cursor still stands for.
    spec fn rest(self, direct_only: bool) -> Seq<Entity> {
        let pending = self.node.spec_children().skip(self.next as int);
        if direct_only {
            pending
        } else {
            Entity::forest(pending)
        }
    }
}

/// The candidates a stack of cursors stands for, the topmost cursor first.
spec fn stack_rest(stack: Seq<Cursor>, direct_only: bool) -> Seq<Entity>
    decreases stack.len(),
{
    if stack.len() == 0 {
        Seq::empty()
    } else {
        stack.last().rest(direct_only) + stack_rest(stack.drop_last(), direct_only)
    }
}

/// A traversal of the entities below (and optionally including) one entity.
///
/// The iterator walks the tree lazily and cannot be restarted: for a second
/// pass, make a new one.
pub struct EntityIterator<'a> {
    parent: Option<&'a Entity>,
    stack: Vec<Cursor<'a>>,
    name_filter: Option<String>,
    first_relatives_only: bool,
}

impl<'a> EntityIterator<'a> {
    /// No cursor of the traversal points past the children of its node.
    pub closed spec fn wf(self) -> bool {
        forall|i: int| 0 <= i < self.stack@.len() ==> (#[trigger] self.stack@[i]).wf()
    }

    /// The entities not yet looked at, whether or not the filter admits them.
    pub closed spec fn candidates(self) -> Seq<Entity> {
        let head = match self.parent {
            Some(p) => seq![*p],
            None => Seq::empty(),
        };
        head + stack_rest(self.stack@, self.first_relatives_only)
    }

    /// The name filter of this traversal.
    pub closed spec fn filter(self) -> Option<Seq<char>> {
        filter_view(self.name_filter)
    }

    /// The entities this iterator has yet to yield, in order.
    pub open spec fn remaining(self) -> Seq<Entity> {
        self.candidates().filter(Entity::admits(self.filter()))
    }

    /// Starts a traversal at `parent`.
    ///
    /// With `include_parent` the traversal begins with `parent` itself. With
    /// `first_relatives_only` it goes no deeper than the children of
    /// `parent`. A `name_filter` restricts what is yielded to the entities of
    /// exactly that name.
    pub fn new(
        parent: &'a Entity,
        name_filter: Option<String>,
        include_parent: bool,
        first_relatives_only: bool,
    ) -> (r: Self)
        ensures
            r.wf(),
            r.filter() == filter_view(name_filter),
            r.remaining() == parent.traversal(
                filter_view(name_filter),
                include_parent,
                first_relatives_only,
            ),
    {
        let mut stack: Vec<Cursor<'a>> = Vec::new();
        stack.push(Cursor { node: parent, next: 0 });
        let r = EntityIterator {
            parent: if include_parent {
                Some(parent)
            } else {
                None
            },
            stack,
            name_filter,
            first_relatives_only,
        };
        proof {
            let top = r.stack@[0];
            assert(r.stack@.drop_last() =~= Seq::<Cursor>::empty());
            assert(parent.spec_children().skip(0) =~= parent.spec_children());
            assert(stack_rest(r.stack@.drop_last(), first_relatives_only) =~= Seq::<
                Entity,
            >::empty());
            assert(stack_rest(r.stack@, first_relatives_only) =~= top.rest(first_relatives_only));
        }
        r
    }

    /// Yields the next entity of the traversal, or `None` once it is over.
    pub fn next(&mut self) -> (r: Option<&'a Entity>)
        requires
            old(self).wf(),
        ensures
            final(self).wf(),
            final(self).filter() == old(self).filter(),
            match r {
                Some(e) => {
                    &&& old(self).remaining().len() > 0
                    &&& *e == old(self).remaining()[0]
                    &&& final(self).remaining() == old(self).remaining().drop_first()
                },
                None => {
                    &&& old(self).remaining().len() == 0
                    &&& final(self).remaining().len() == 0
                },
            },
    {
        let ghost pred = Entity::admits(self.filter());
        if let Some(p) = self.parent {
            self.parent = None;
            let ok = admits_entity(&self.name_filter, p);
            proof {
                let all = seq![*p] + self.candidates();
                assert(all.drop_first() =~= self.candidates());
                lemma_filter_first(all, pred);
            }
            if ok {
                return Some(p);
            }
        }
        let mut found: Option<&'a Entity> = None;
        loop
            invariant_except_break
                found is None,
                self.remaining() == old(self).remaining(),
            invariant
                self.wf(),
                self.parent is None,
                self.filter() == old(self).filter(),
                pred == Entity::admits(self.filter()),
            ensures
                match found {
                    Some(e) => {
                        &&& old(self).remaining().len() > 0
                        &&& *e == old(self).remaining()[0]
                        &&& self.remaining() == old(self).remaining().drop_first()
                    },
                    None => {
                        &&& old(self).remaining().len() == 0
                        &&& self.remaining().len() == 0
                    },
                },
            decreases self.candidates().len(), self.stack@.len(),
        {
            if self.stack.len() == 0 {
                proof {
                    reveal_with_fuel(Seq::filter, 1);
                    assert(self.candidates() =~= Seq::<Entity>::empty());
                }
                break;
            }
            if let Some(child) = self.step() {
                let ok = admits_entity(&self.name_filter, child);
                proof {
                    let all = seq![*child] + self.candidates();
                    assert(all.drop_first() =~= self.candidates());
                    lemma_filter_first(all, pred);
                }
                if ok {
                    found = Some(child);
                    break;
                }
            }
        }
        found
    }

    /// Runs the traversal to its end and returns what it yields, in order.
    pub fn collect(self) -> (r: Vec<&'a Entity>)
        requires
            self.wf(),
        ensures
            r@.map_values(|e: &Entity| *e) == self.remaining(),
    {
        let mut iter = self;
        let mut found: Vec<&'a Entity> = Vec::new();
        loop
            invariant
                iter.wf(),
                found@.map_values(|e: &Entity| *e) + iter.remaining() == self.remaining(),
            ensures
                found@.map_values(|e: &Entity| *e) == self.remaining(),
            decreases iter.remaining().len(),
        {
            let ghost before = iter.remaining();
            let ghost so_far = found@.map_values(|e: &Entity| *e);
            match iter.next() {
                None => {
                    assert(so_far + before =~= so_far);
                    break ;
                },
                Some(entity) => {
                    found.push(entity);
                    proof {
                        assert(found@.map_values(|e: &Entity| *e) =~= so_far.push(*entity));
                        assert(so_far.push(*entity) + iter.remaining() =~= so_far + before);
                    }
                },
            }
        }
        found
    }

    /// Moves the traversal on by one node: either down to the next child of
    /// the topmost cursor, which is returned, or, where that cursor is
    /// exhausted, back up to the cursor below it.
    fn step(&mut self) -> (r: Option<&'a Entity>)
        requires
            old(self).wf(),
            old(self).parent is None,
            old(self).stack@.len() > 0,
        ensures
            final(self).wf(),
            final(self).parent is None,
            final(self).filter() == old(self).filter(),
            match r {
                Some(child) => old(self).candidates() == seq![*child] + final(self).candidates(),
                None => {
                    &&& final(self).candidates() == old(self).candidates()
                    &&& final(self).stack@.len() < old(self).stack@.len()
                },
            },
    {
        let depth = self.stack.len();
        let top = self.stack[depth - 1];
        let ghost below = self.stack@.drop_last();
        let ghost direct = self.first_relatives_only;
        if top.next < top.node.children.len() {
            let child = &top.node.children[top.next];
            let advanced = Cursor { node: top.node, next: top.next + 1 };
            self.stack.set(depth - 1, advanced);
            let ghost raised = self.stack@;
            proof {
                assert(raised.drop_last() =~= below);
                assert(raised.last() == advanced);
                assert(stack_rest(raised, direct) == advanced.rest(direct) + stack_rest(
                    below,
                    direct,
                ));
                lemma_cursor_step(top, advanced, direct);
            }
            if !self.first_relatives_only {
                let fresh = Cursor { node: child, next: 0 };
                self.stack.push(fresh);
                proof {
                    assert(self.stack@.drop_last() =~= raised);
                    assert(self.stack@.last() == fresh);
                    assert(child.spec_children().skip(0) =~= child.spec_children());
                    assert(stack_rest(self.stack@, direct) == fresh.rest(direct) + stack_rest(
                        raised,
                        direct,
                    ));
                }
            }
            proof {
                assert(old(self).candidates() =~= seq![*child] + self.candidates());
            }
            Some(child)
        } else {
            self.stack.pop();
            proof {
                assert(top.node.spec_children().skip(top.next as int) =~= Seq::<Entity>::empty());
                assert(self.candidates() =~= old(self).candidates());
            }
            None
        }
    }
}

/// Tests an entity against a name filter.
fn admits_entity(filter: &Option<String>, e: &Entity) -> (r: bool)
    ensures
        r == e.admitted(filter_view(*filter)),
{
    match filter {
        None => true,
        Some(name) => *name == e.name,
    }
}

/// What a cursor stands for begins with its next child.
proof fn lemma_cursor_step(c: Cursor, advanced: Cursor, direct_only: bool)
    requires
        c.next < c.node.spec_children().len(),
        advanced.node == c.node,
        advanced.next == c.next + 1,
    ensures
        ({
            let child = c.node.spec_children()[c.next as int];
            let below = if direct_only {
                Seq::empty()
            } else {
                Entity::forest(child.spec_children())
            };
            c.rest(direct_only) == seq![child] + below + advanced.rest(direct_only)
        }),
{
    let kids = c.node.spec_children();
    let pending = kids.skip(c.next as int);
    assert(pending.drop_first() =~= kids.skip(c.next + 1));
    assert(pending[0] == kids[c.next as int]);
    if direct_only {
        assert(pending =~= seq![pending[0]] + pending.drop_first());
    } else {
        assert(Entity::forest(pending) == pending[0].subtree() + Entity::forest(
            pending.drop_first(),
        ));
        assert(pending[0].subtree() == seq![pending[0]] + Entity::forest(
            pending[0].spec_children(),
        ));
    }
}

} // verus!
