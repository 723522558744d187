//! The system that flattens the hierarchy of transforms into absolute
//! poses.

use vstd::prelude::*;
use crate::math::scalar::Scalar;
use crate::world::entity::component::rigid_body::RigidBody;
use crate::world::entity::component::model::GraphicsModel;
use crate::world::entity::component::transform::Transform;
use crate::world::entity::component::ComponentStore;
use crate::math::sequence::lemma_filter_map_first;
use crate::world::entity::{lemma_filter_separate, separate, Entity};
use crate::world::system::{System, SystemRuntimeError};

verus! {

/// An entity that is to be placed: the places of its model and of its
/// rigid body, and the transforms of the entities on the way from the root
/// down to it, outermost first.
pub struct Target<S> {
    pub model: Option<usize>,
    pub rigid_body: Option<usize>,
    pub offsets: Vec<Transform<S>>,
}

/// What a `Target` holds.
pub struct TargetView<S> {
    pub model: Option<usize>,
    pub rigid_body: Option<usize>,
    pub offsets: Seq<Transform<S>>,
}

impl<S> View for Target<S> {
    type V = TargetView<S>;

    open spec fn view(&self) -> TargetView<S> {
        TargetView { model: self.model, rigid_body: self.rigid_body, offsets: self.offsets@ }
    }
}

/// Gives every entity that has a model or a rigid body its absolute pose:
/// the fold of the transforms from the root down to it.
pub struct TranslateSystem<'a, S> {
    root: Option<&'a Entity>,
    real: core::marker::PhantomData<S>,
}

impl<'a, S: Scalar> TranslateSystem<'a, S> {
    /// The root of the tree the system works on, once it has fetched.
    pub closed spec fn root(self) -> Option<Entity> {
        match self.root {
            Some(root) => Some(*root),
            None => None,
        }
    }

    /// Whether `store` holds every component of an entity.
    pub open spec fn held_in(store: ComponentStore<S>) -> spec_fn(Entity) -> bool {
        |e: Entity| store.holds(e.spec_slots())
    }

    /// The stack of offsets below `e`: `stack`, and on top of it the
    /// transform of `e` where it has one.
    pub open spec fn entered(
        e: Entity,
        stack: Seq<Transform<S>>,
        transforms: Seq<Transform<S>>,
    ) -> Seq<Transform<S>> {
        match e.spec_slots().transform {
            Some(at) => stack.push(transforms[at as int]),
            None => stack,
        }
    }

    /// `e` as a target, if it has a model or a rigid body.
    pub open spec fn own_target(e: Entity, offsets: Seq<Transform<S>>) -> Seq<TargetView<S>> {
        if e.spec_slots().model is Some || e.spec_slots().rigid_body is Some {
            seq![
                TargetView {
                    model: e.spec_slots().model,
                    rigid_body: e.spec_slots().rigid_body,
                    offsets,
                },
            ]
        } else {
            Seq::empty()
        }
    }

    /// The targets in the tree below and including `e`, in pre-order, when
    /// `e` is reached with the offsets `stack`.
    ///
    /// Every child of `e` is reached with the same offsets: those of `e`.
    /// What a child puts on the stack is gone before its next sibling is
    /// visited.
    pub open spec fn targets(
        e: Entity,
        stack: Seq<Transform<S>>,
        transforms: Seq<Transform<S>>,
    ) -> Seq<TargetView<S>>
        decreases e, e.spec_children().len() + 1,
    {
        let inner = Self::entered(e, stack, transforms);
        Self::own_target(e, inner) + Self::targets_from(e, 0, inner, transforms)
    }

    /// The targets in the trees below the children of `e` from the one at
    /// `from` on, each child reached with the offsets `inner`.
    pub open spec fn targets_from(
        e: Entity,
        from: int,
        inner: Seq<Transform<S>>,
        transforms: Seq<Transform<S>>,
    ) -> Seq<TargetView<S>>
        decreases e, e.spec_children().len() - from,
    {
        if 0 <= from < e.spec_children().len() {
            proof {
                e.lemma_child_smaller(from);
            }
            Self::targets(e.spec_children()[from], inner, transforms) + Self::targets_from(
                e,
                from + 1,
                inner,
                transforms,
            )
        } else {
            Seq::empty()
        }
    }

    /// `after` is `before` with `target` placed at some fold of its offsets:
    /// its model shows that pose, its rigid body has the position of that
    /// pose as its last absolute position, and nothing else changed.
    pub open spec fn is_placed(
        target: TargetView<S>,
        before: ComponentStore<S>,
        after: ComponentStore<S>,
    ) -> bool {
        exists|absolute: Transform<S>|
            #![trigger Transform::is_composed(target.offsets, absolute)]
            Transform::is_composed(target.offsets, absolute) && Self::is_placed_at(
                target,
                absolute,
                before,
                after,
            )
    }

    /// `after` is `before` with `target` placed at `absolute`.
    pub open spec fn is_placed_at(
        target: TargetView<S>,
        absolute: Transform<S>,
        before: ComponentStore<S>,
        after: ComponentStore<S>,
    ) -> bool {
        &&& after.transforms == before.transforms
        &&& after.controllers == before.controllers
        &&& after.cameras == before.cameras
        &&& match target.model {
            Some(at) => at < before.models@.len() && after.models@ == before.models@.update(
                at as int,
                GraphicsModel { view: Some(absolute), ..before.models@[at as int] },
            ),
            None => after.models@ == before.models@,
        }
        &&& match target.rigid_body {
            Some(at) => at < before.rigid_bodies@.len() && after.rigid_bodies@
                == before.rigid_bodies@.update(
                at as int,
                RigidBody {
                    last_absolute_position: absolute.pos,
                    ..before.rigid_bodies@[at as int]
                },
            ),
            None => after.rigid_bodies@ == before.rigid_bodies@,
        }
    }

    /// `after` is `before` with the targets placed one after the other.
    pub open spec fn is_translated(
        targets: Seq<TargetView<S>>,
        before: ComponentStore<S>,
        after: ComponentStore<S>,
    ) -> bool
        decreases targets.len(),
    {
        if targets.len() == 0 {
            after == before
        } else {
            exists|mid: ComponentStore<S>|
                #![trigger Self::is_placed(targets.last(), mid, after)]
                Self::is_translated(targets.drop_last(), before, mid) && Self::is_placed(
                    targets.last(),
                    mid,
                    after,
                )
        }
    }

    /// A system that has not fetched yet.
    pub fn new() -> (r: Self)
        ensures
            r.root() is None,
    {
        TranslateSystem { root: None, real: core::marker::PhantomData }
    }

    /// Whether `store` holds every component of `e` and of its descendants.
    pub fn held_everywhere(e: &Entity, store: &ComponentStore<S>) -> (r: bool)
        ensures
            r == e.each(Self::held_in(*store)),
        decreases e,
    {
        let slots = e.slots();
        if !store.is_holding(slots) {
            return false;
        }
        let children = e.children();
        let mut i: usize = 0;
        while i < children.len()
            invariant
                i <= children.len(),
                children@ == e.spec_children(),
                Self::held_in(*store)(*e),
                forall|k: int|
                    0 <= k < i ==> (#[trigger] e.spec_children()[k]).each(Self::held_in(*store)),
            decreases children.len() - i,
        {
            proof {
                e.lemma_child_smaller(i as int);
            }
            if !Self::held_everywhere(&children[i], store) {
                return false;
            }
            i = i + 1;
        }
        true
    }

    /// A copy of a stack of offsets.
    fn snapshot(stack: &Vec<Transform<S>>) -> (r: Vec<Transform<S>>)
        ensures
            r@ == stack@,
    {
        let mut copy: Vec<Transform<S>> = Vec::new();
        let mut i: usize = 0;
        while i < stack.len()
            invariant
                i <= stack.len(),
                copy@ == stack@.take(i as int),
            decreases stack.len() - i,
        {
            copy.push(stack[i]);
            proof {
                assert(stack@.take(i + 1) =~= stack@.take(i as int).push(stack@[i as int]));
            }
            i = i + 1;
        }
        proof {
            assert(stack@.take(i as int) =~= stack@);
        }
        copy
    }

    /// The views of a list of targets.
    pub open spec fn views(targets: Seq<Target<S>>) -> Seq<TargetView<S>> {
        targets.map_values(|t: Target<S>| t@)
    }

    /// Walks the tree below and including `parent` depth first and adds
    /// the targets it finds to `found`. `acc_offsets` holds the offsets
    /// `parent` is reached with, and holds them again when the walk is
    /// over.
    pub fn translate(
        parent: &Entity,
        store: &ComponentStore<S>,
        acc_offsets: &mut Vec<Transform<S>>,
        found: &mut Vec<Target<S>>,
    )
        requires
            parent.each(Self::held_in(*store)),
        ensures
            final(acc_offsets)@ == old(acc_offsets)@,
            Self::views(final(found)@) == Self::views(old(found)@) + Self::targets(
                *parent,
                old(acc_offsets)@,
                store.transforms@,
            ),
        decreases parent,
    {
        let slots = parent.slots();
        let ghost inner = Self::entered(*parent, old(acc_offsets)@, store.transforms@);
        assert(Self::held_in(*store)(*parent));
        if let Some(at) = slots.transform {
            acc_offsets.push(store.transforms[at]);
        }
        if slots.model.is_some() || slots.rigid_body.is_some() {
            let target = Target {
                model: slots.model,
                rigid_body: slots.rigid_body,
                offsets: Self::snapshot(acc_offsets),
            };
            found.push(target);
            proof {
                assert(Self::views(found@) =~= Self::views(old(found)@) + Self::own_target(
                    *parent,
                    inner,
                ));
            }
        } else {
            proof {
                assert(Self::views(found@) =~= Self::views(old(found)@) + Self::own_target(
                    *parent,
                    inner,
                ));
            }
        }
        let children = parent.children();
        let ghost base = Self::views(old(found)@) + Self::own_target(*parent, inner);
        let mut i: usize = 0;
        while i < children.len()
            invariant
                i <= children.len(),
                children@ == parent.spec_children(),
                parent.each(Self::held_in(*store)),
                acc_offsets@ == inner,
                inner == Self::entered(*parent, old(acc_offsets)@, store.transforms@),
                base == Self::views(old(found)@) + Self::own_target(*parent, inner),
                Self::views(found@) + Self::targets_from(
                    *parent,
                    i as int,
                    inner,
                    store.transforms@,
                ) == base + Self::targets_from(*parent, 0, inner, store.transforms@),
            decreases children.len() - i,
        {
            let ghost before = Self::views(found@);
            proof {
                parent.lemma_child_smaller(i as int);
                assert(parent.spec_children()[i as int].each(Self::held_in(*store)));
            }
            Self::translate(&children[i], store, acc_offsets, found);
            proof {
                let here = Self::targets(children@[i as int], inner, store.transforms@);
                let rest = Self::targets_from(*parent, i + 1, inner, store.transforms@);
                assert(Self::targets_from(*parent, i as int, inner, store.transforms@) == here
                    + rest);
                assert((before + here) + rest =~= before + (here + rest));
            }
            i = i + 1;
        }
        proof {
            assert(Self::targets_from(*parent, i as int, inner, store.transforms@)
                =~= Seq::<TargetView<S>>::empty());
            assert(Self::views(found@) =~= base + Self::targets_from(
                *parent,
                0,
                inner,
                store.transforms@,
            ));
            assert(base + Self::targets_from(*parent, 0, inner, store.transforms@)
                =~= Self::views(old(found)@) + Self::targets(
                *parent,
                old(acc_offsets)@,
                store.transforms@,
            ));
        }
        if slots.transform.is_some() {
            acc_offsets.pop();
            proof {
                assert(acc_offsets@ =~= old(acc_offsets)@);
            }
        }
    }

    /// Places one target at the fold of its offsets.
    pub fn place(target: &Target<S>, store: &mut ComponentStore<S>)
        requires
            target.model matches Some(at) ==> at < old(store).models@.len(),
            target.rigid_body matches Some(at) ==> at < old(store).rigid_bodies@.len(),
        ensures
            Self::is_placed(target@, *old(store), *final(store)),
    {
        let absolute = Transform::compose(&target.offsets);
        if let Some(at) = target.model {
            let model = &mut store.models[at];
            model.view = Some(absolute);
        }
        if let Some(at) = target.rigid_body {
            let body = &mut store.rigid_bodies[at];
            body.last_absolute_position = absolute.pos;
        }
        proof {
            assert(Transform::is_composed(target@.offsets, absolute));
            assert(Self::is_placed_at(target@, absolute, *old(store), *store));
        }
    }
}

impl<'a, S: Scalar> TranslateSystem<'a, S> {
    /// Whether `store` holds every component of the tree the system works
    /// on. Before the system has fetched, any store will do.
    pub open spec fn holds_tree(self, store: ComponentStore<S>) -> bool {
        self.root() matches Some(root) ==> root.each(Self::held_in(store))
    }

    /// Whether `after` is `before` with every target of the tree placed,
    /// in pre-order. Before the system has fetched, nothing is placed.
    pub open spec fn placed_tree(self, before: ComponentStore<S>, after: ComponentStore<S>) -> bool {
        match self.root() {
            Some(root) => Self::is_translated(
                Self::targets(root, Seq::empty(), before.transforms@),
                before,
                after,
            ),
            None => after == before,
        }
    }

    /// Keeps the root of the tree.
    pub fn fetch(&mut self, source: &'a Entity)
        ensures
            final(self).root() == Some(*source),
    {
        self.root = Some(source);
    }

    /// Whether `store` holds every component of the tree the system works
    /// on.
    pub fn is_frozen(&self, store: &ComponentStore<S>) -> (r: bool)
        ensures
            r == self.holds_tree(*store),
    {
        match self.root {
            None => true,
            Some(root) => Self::held_everywhere(root, store),
        }
    }

    /// Places every target of the tree, in pre-order. Before the system
    /// has fetched, nothing happens.
    pub fn run(&self, store: &mut ComponentStore<S>)
        requires
            self.holds_tree(*old(store)),
        ensures
            self.placed_tree(*old(store), *final(store)),
    {
        if let Some(parent) = self.root {
            let mut acc_offsets: Vec<Transform<S>> = Vec::new();
            let mut found: Vec<Target<S>> = Vec::new();
            Self::translate(parent, store, &mut acc_offsets, &mut found);
            let ghost plan = Self::targets(*parent, Seq::empty(), old(store).transforms@);
            proof {
                assert(Self::views(found@) =~= plan);
                lemma_targets_held(*parent, Seq::empty(), *old(store));
            }
            let mut i: usize = 0;
            while i < found.len()
                invariant
                    i <= found.len(),
                    Self::views(found@) == plan,
                    store.models@.len() == old(store).models@.len(),
                    store.rigid_bodies@.len() == old(store).rigid_bodies@.len(),
                    forall|k: int| 0 <= k < plan.len() ==> target_held(#[trigger] plan[k], *old(store)),
                    Self::is_translated(plan.take(i as int), *old(store), *store),
                decreases found.len() - i,
            {
                let ghost mid = *store;
                assert(found@[i as int]@ == plan[i as int]);
                Self::place(&found[i], store);
                proof {
                    let upto = plan.take(i + 1);
                    assert(upto.drop_last() =~= plan.take(i as int));
                    assert(upto.last() == plan[i as int]);
                    assert(Self::is_placed(upto.last(), mid, *store));
                }
                i = i + 1;
            }
            proof {
                assert(plan.take(i as int) =~= plan);
            }
        }
    }
}

impl<'a, S: Scalar> System<'a> for TranslateSystem<'a, S> {
    type Real = S;

    open spec fn frozen(&self, store: ComponentStore<S>) -> bool {
        self.holds_tree(store)
    }

    open spec fn fetched(&self, before: Self, source: Entity) -> bool {
        self.root() == Some(source)
    }

    open spec fn ran(&self, delta: S, before: ComponentStore<S>, after: ComponentStore<S>) -> bool {
        self.placed_tree(before, after)
    }

    /// Keeps the root of the tree.
    fn on_fetch(&mut self, source: &'a Entity) -> (r: Result<(), SystemRuntimeError>)
        ensures
            r is Ok,
            final(self).root() == Some(*source),
    {
        self.fetch(source);
        Ok(())
    }

    fn on_freeze(&self, store: &ComponentStore<S>) -> (r: Result<(), SystemRuntimeError>) {
        if self.is_frozen(store) {
            Ok(())
        } else {
            Err(SystemRuntimeError("a component of the tree is not in the store"))
        }
    }

    /// Places every target of the tree, in pre-order. Before the system
    /// has fetched, nothing happens.
    fn on_run(&self, store: &mut ComponentStore<S>, delta: S) {
        self.run(store);
    }
}

/// Whether the places that a target names lie on their shelves.
pub open spec fn target_held<S>(target: TargetView<S>, store: ComponentStore<S>) -> bool {
    &&& target.model matches Some(at) ==> at < store.models@.len()
    &&& target.rigid_body matches Some(at) ==> at < store.rigid_bodies@.len()
}

/// In a tree whose components are all in the store, every target names
/// places that lie on their shelves.
pub proof fn lemma_targets_held<S: Scalar>(
    e: Entity,
    stack: Seq<Transform<S>>,
    store: ComponentStore<S>,
)
    requires
        e.each(TranslateSystem::<S>::held_in(store)),
    ensures
        forall|k: int|
            0 <= k < TranslateSystem::<S>::targets(e, stack, store.transforms@).len()
                ==> target_held(
                #[trigger] TranslateSystem::<S>::targets(e, stack, store.transforms@)[k],
                store,
            ),
    decreases e, e.spec_children().len() + 1,
{
    let inner = TranslateSystem::<S>::entered(e, stack, store.transforms@);
    let own = TranslateSystem::<S>::own_target(e, inner);
    let below = TranslateSystem::<S>::targets_from(e, 0, inner, store.transforms@);
    let all = TranslateSystem::<S>::targets(e, stack, store.transforms@);
    assert(TranslateSystem::<S>::held_in(store)(e));
    lemma_targets_from_held(e, 0, inner, store);
    assert forall|k: int| 0 <= k < all.len() implies target_held(#[trigger] all[k], store) by {
        if k < own.len() {
            assert(all[k] == own[k]);
        } else {
            assert(all[k] == below[k - own.len()]);
        }
    }
}

/// The same, for the trees below the children of an entity.
pub proof fn lemma_targets_from_held<S: Scalar>(
    e: Entity,
    from: int,
    inner: Seq<Transform<S>>,
    store: ComponentStore<S>,
)
    requires
        e.each(TranslateSystem::<S>::held_in(store)),
        0 <= from,
    ensures
        forall|k: int|
            0 <= k < TranslateSystem::<S>::targets_from(e, from, inner, store.transforms@).len()
                ==> target_held(
                #[trigger] TranslateSystem::<S>::targets_from(e, from, inner, store.transforms@)[k],
                store,
            ),
    decreases e, e.spec_children().len() - from,
{
    if from < e.spec_children().len() {
        e.lemma_child_smaller(from);
        assert(e.spec_children()[from].each(TranslateSystem::<S>::held_in(store)));
        lemma_targets_held(e.spec_children()[from], inner, store);
        lemma_targets_from_held(e, from + 1, inner, store);
        let here = TranslateSystem::<S>::targets(e.spec_children()[from], inner, store.transforms@);
        let rest = TranslateSystem::<S>::targets_from(e, from + 1, inner, store.transforms@);
        let all = TranslateSystem::<S>::targets_from(e, from, inner, store.transforms@);
        assert forall|k: int| 0 <= k < all.len() implies target_held(#[trigger] all[k], store) by {
            if k < here.len() {
                assert(all[k] == here[k]);
            } else {
                assert(all[k] == rest[k - here.len()]);
            }
        }
    }
}

/// Whether `path` leads from `e` down to a descendant: each of its numbers
/// is the index of a child of the entity reached so far.
pub open spec fn is_path(e: Entity, path: Seq<int>) -> bool
    decreases path.len(),
{
    path.len() > 0 ==> 0 <= path[0] < e.spec_children().len() && is_path(
        e.spec_children()[path[0]],
        path.drop_first(),
    )
}

/// The entity that `path` leads to from `e`.
pub open spec fn node_at(e: Entity, path: Seq<int>) -> Entity
    decreases path.len(),
{
    if path.len() == 0 {
        e
    } else {
        node_at(e.spec_children()[path[0]], path.drop_first())
    }
}

/// The transforms of the entities on `path` from `e` down, `e` and the
/// entity that the path leads to included, on top of `stack`.
pub open spec fn offsets_along<S: Scalar>(
    e: Entity,
    path: Seq<int>,
    stack: Seq<Transform<S>>,
    transforms: Seq<Transform<S>>,
) -> Seq<Transform<S>>
    decreases path.len(),
{
    let inner = TranslateSystem::<S>::entered(e, stack, transforms);
    if path.len() == 0 {
        inner
    } else {
        offsets_along(e.spec_children()[path[0]], path.drop_first(), inner, transforms)
    }
}

/// What is a target below a child is a target below the parent.
proof fn lemma_targets_from_contain<S: Scalar>(
    e: Entity,
    from: int,
    child: int,
    inner: Seq<Transform<S>>,
    transforms: Seq<Transform<S>>,
    target: TargetView<S>,
)
    requires
        0 <= from <= child < e.spec_children().len(),
        TranslateSystem::<S>::targets(e.spec_children()[child], inner, transforms).contains(
            target,
        ),
    ensures
        TranslateSystem::<S>::targets_from(e, from, inner, transforms).contains(target),
    decreases child - from,
{
    let here = TranslateSystem::<S>::targets(e.spec_children()[from], inner, transforms);
    let rest = TranslateSystem::<S>::targets_from(e, from + 1, inner, transforms);
    let all = TranslateSystem::<S>::targets_from(e, from, inner, transforms);
    assert(all == here + rest);
    if from == child {
        let k = choose|k: int| 0 <= k < here.len() && here[k] == target;
        assert(all[k] == target);
    } else {
        lemma_targets_from_contain(e, from + 1, child, inner, transforms, target);
        let k = choose|k: int| 0 <= k < rest.len() && rest[k] == target;
        assert(all[here.len() + k] == target);
    }
}

/// The offsets of a target are the transforms of the entities on the way
/// from the root down to it and of nothing else: what lies in the subtrees
/// of its siblings, or of the siblings of its ancestors, does not reach it.
pub proof fn lemma_target_offsets_follow_path<S: Scalar>(
    e: Entity,
    path: Seq<int>,
    stack: Seq<Transform<S>>,
    transforms: Seq<Transform<S>>,
)
    requires
        is_path(e, path),
        node_at(e, path).spec_slots().model is Some || node_at(e, path).spec_slots().rigid_body
            is Some,
    ensures
        TranslateSystem::<S>::targets(e, stack, transforms).contains(
            TargetView {
                model: node_at(e, path).spec_slots().model,
                rigid_body: node_at(e, path).spec_slots().rigid_body,
                offsets: offsets_along(e, path, stack, transforms),
            },
        ),
    decreases path.len(),
{
    let inner = TranslateSystem::<S>::entered(e, stack, transforms);
    let own = TranslateSystem::<S>::own_target(e, inner);
    let below = TranslateSystem::<S>::targets_from(e, 0, inner, transforms);
    let all = TranslateSystem::<S>::targets(e, stack, transforms);
    let target = TargetView {
        model: node_at(e, path).spec_slots().model,
        rigid_body: node_at(e, path).spec_slots().rigid_body,
        offsets: offsets_along(e, path, stack, transforms),
    };
    if path.len() == 0 {
        assert(own[0] == target);
        assert(all[0] == target);
    } else {
        let child = e.spec_children()[path[0]];
        lemma_target_offsets_follow_path(child, path.drop_first(), inner, transforms);
        lemma_targets_from_contain(e, 0, path[0], inner, transforms, target);
        let k = choose|k: int| 0 <= k < below.len() && below[k] == target;
        assert(all[own.len() + k] == target);
    }
}

/// The last placement of a rigid body stands: after a translation, the
/// last absolute position of a rigid body is the position of a fold of the
/// offsets of the last target that names it.
pub proof fn lemma_last_position_stands<S: Scalar>(
    targets: Seq<TargetView<S>>,
    before: ComponentStore<S>,
    after: ComponentStore<S>,
    k: int,
    at: usize,
)
    requires
        TranslateSystem::<S>::is_translated(targets, before, after),
        0 <= k < targets.len(),
        targets[k].rigid_body == Some(at),
        forall|j: int| k < j < targets.len() ==> (#[trigger] targets[j]).rigid_body != Some(at),
    ensures
        at < after.rigid_bodies@.len(),
        exists|absolute: Transform<S>|
            #![trigger Transform::is_composed(targets[k].offsets, absolute)]
            Transform::is_composed(targets[k].offsets, absolute)
                && after.rigid_bodies@[at as int].last_absolute_position == absolute.pos,
    decreases targets.len(),
{
    let last = targets.last();
    let mid = choose|mid: ComponentStore<S>|
        #![trigger TranslateSystem::<S>::is_placed(targets.last(), mid, after)]
        TranslateSystem::<S>::is_translated(targets.drop_last(), before, mid)
            && TranslateSystem::<S>::is_placed(targets.last(), mid, after);
    let placed = choose|absolute: Transform<S>|
        #![trigger Transform::is_composed(last.offsets, absolute)]
        Transform::is_composed(last.offsets, absolute) && TranslateSystem::<S>::is_placed_at(
            last,
            absolute,
            mid,
            after,
        );
    if k == targets.len() - 1 {
        assert(Transform::is_composed(targets[k].offsets, placed));
    } else {
        let earlier = targets.drop_last();
        assert(earlier[k] == targets[k]);
        assert forall|j: int| k < j < earlier.len() implies (#[trigger] earlier[j]).rigid_body
            != Some(at) by {
            assert(earlier[j] == targets[j]);
        }
        lemma_last_position_stands(earlier, before, mid, k, at);
        let absolute = choose|absolute: Transform<S>|
            #![trigger Transform::is_composed(earlier[k].offsets, absolute)]
            Transform::is_composed(earlier[k].offsets, absolute)
                && mid.rigid_bodies@[at as int].last_absolute_position == absolute.pos;
        assert(last.rigid_body != Some(at));
        assert(after.rigid_bodies@[at as int] == mid.rigid_bodies@[at as int]);
        assert(Transform::is_composed(targets[k].offsets, absolute));
    }
}

/// The last placement of a model stands: after a translation, the view of
/// a model is a fold of the offsets of the last target that names it.
pub proof fn lemma_last_view_stands<S: Scalar>(
    targets: Seq<TargetView<S>>,
    before: ComponentStore<S>,
    after: ComponentStore<S>,
    k: int,
    at: usize,
)
    requires
        TranslateSystem::<S>::is_translated(targets, before, after),
        0 <= k < targets.len(),
        targets[k].model == Some(at),
        forall|j: int| k < j < targets.len() ==> (#[trigger] targets[j]).model != Some(at),
    ensures
        at < after.models@.len(),
        after.models@[at as int].view is Some,
        Transform::is_composed(targets[k].offsets, after.models@[at as int].view->Some_0),
    decreases targets.len(),
{
    let last = targets.last();
    let mid = choose|mid: ComponentStore<S>|
        #![trigger TranslateSystem::<S>::is_placed(targets.last(), mid, after)]
        TranslateSystem::<S>::is_translated(targets.drop_last(), before, mid)
            && TranslateSystem::<S>::is_placed(targets.last(), mid, after);
    let placed = choose|absolute: Transform<S>|
        #![trigger Transform::is_composed(last.offsets, absolute)]
        Transform::is_composed(last.offsets, absolute) && TranslateSystem::<S>::is_placed_at(
            last,
            absolute,
            mid,
            after,
        );
    if k < targets.len() - 1 {
        let earlier = targets.drop_last();
        assert(earlier[k] == targets[k]);
        assert forall|j: int| k < j < earlier.len() implies (#[trigger] earlier[j]).model != Some(
            at,
        ) by {
            assert(earlier[j] == targets[j]);
        }
        lemma_last_view_stands(earlier, before, mid, k, at);
        assert(last.model != Some(at));
        assert(after.models@[at as int] == mid.models@[at as int]);
    }
}

/// Whether an entity is a target: it has a model or a rigid body.
pub open spec fn is_target() -> spec_fn(Entity) -> bool {
    |e: Entity| e.spec_slots().model is Some || e.spec_slots().rigid_body is Some
}

/// The places of the model and of the rigid body of an entity.
pub open spec fn names_of() -> spec_fn(Entity) -> (Option<usize>, Option<usize>) {
    |e: Entity| (e.spec_slots().model, e.spec_slots().rigid_body)
}

/// The places of the model and of the rigid body that a target names.
pub open spec fn named<S>() -> spec_fn(TargetView<S>) -> (Option<usize>, Option<usize>) {
    |t: TargetView<S>| (t.model, t.rigid_body)
}

/// Filtering and mapping two sequences in a row is filtering and mapping
/// the one and then the other.
proof fn lemma_filter_map_add<A, B>(
    a: Seq<A>,
    b: Seq<A>,
    keep: spec_fn(A) -> bool,
    f: spec_fn(A) -> B,
)
    ensures
        (a + b).filter(keep).map_values(f) == a.filter(keep).map_values(f) + b.filter(
            keep,
        ).map_values(f),
{
    Seq::filter_distributes_over_add(a, b, keep);
    assert((a.filter(keep) + b.filter(keep)).map_values(f) =~= a.filter(keep).map_values(f)
        + b.filter(keep).map_values(f));
}

/// The targets of a tree are, in order, the entities of the tree that
/// have a model or a rigid body.
pub proof fn lemma_targets_are_entities<S: Scalar>(
    e: Entity,
    stack: Seq<Transform<S>>,
    transforms: Seq<Transform<S>>,
)
    ensures
        TranslateSystem::<S>::targets(e, stack, transforms).map_values(named::<S>())
            == e.subtree().filter(is_target()).map_values(names_of()),
    decreases e, e.spec_children().len() + 1,
{
    let inner = TranslateSystem::<S>::entered(e, stack, transforms);
    let own = TranslateSystem::<S>::own_target(e, inner);
    let below = TranslateSystem::<S>::targets_from(e, 0, inner, transforms);
    let tree = e.subtree();
    lemma_targets_from_are_entities::<S>(e, 0, inner, transforms);
    assert(e.spec_children().skip(0) =~= e.spec_children());
    assert(tree.drop_first() =~= Entity::forest(e.spec_children()));
    assert(tree[0] == e);
    lemma_filter_map_first(tree, is_target(), names_of());
    assert((own + below).map_values(named::<S>()) =~= own.map_values(named::<S>())
        + below.map_values(named::<S>()));
    if is_target()(e) {
        assert(own.map_values(named::<S>()) =~= seq![names_of()(e)]);
    } else {
        assert(own.map_values(named::<S>()) =~= Seq::<(Option<usize>, Option<usize>)>::empty());
        assert(Seq::<(Option<usize>, Option<usize>)>::empty() + below.map_values(named::<S>())
            =~= below.map_values(named::<S>()));
    }
}

/// The same, for the trees below the children of an entity.
pub proof fn lemma_targets_from_are_entities<S: Scalar>(
    e: Entity,
    from: int,
    inner: Seq<Transform<S>>,
    transforms: Seq<Transform<S>>,
)
    requires
        0 <= from <= e.spec_children().len(),
    ensures
        TranslateSystem::<S>::targets_from(e, from, inner, transforms).map_values(named::<S>())
            == Entity::forest(e.spec_children().skip(from)).filter(is_target()).map_values(
            names_of(),
        ),
    decreases e, e.spec_children().len() - from,
{
    let pending = e.spec_children().skip(from);
    if from < e.spec_children().len() {
        e.lemma_child_smaller(from);
        let child = e.spec_children()[from];
        let here = TranslateSystem::<S>::targets(child, inner, transforms);
        let rest = TranslateSystem::<S>::targets_from(e, from + 1, inner, transforms);
        lemma_targets_are_entities::<S>(child, inner, transforms);
        lemma_targets_from_are_entities::<S>(e, from + 1, inner, transforms);
        assert(pending[0] == child);
        assert(pending.drop_first() =~= e.spec_children().skip(from + 1));
        assert(Entity::forest(pending) == child.subtree() + Entity::forest(
            e.spec_children().skip(from + 1),
        ));
        lemma_filter_map_add(
            child.subtree(),
            Entity::forest(e.spec_children().skip(from + 1)),
            is_target(),
            names_of(),
        );
        assert((here + rest).map_values(named::<S>()) =~= here.map_values(named::<S>())
            + rest.map_values(named::<S>()));
    } else {
        assert(pending =~= Seq::<Entity>::empty());
        assert(Entity::forest(pending) =~= Seq::<Entity>::empty());
        Entity::forest(pending).lemma_filter_len(is_target());
        assert(TranslateSystem::<S>::targets_from(e, from, inner, transforms).map_values(
            named::<S>(),
        ) =~= Entity::forest(pending).filter(is_target()).map_values(names_of()));
    }
}

/// In a tree whose entities name no record in common, no two targets name
/// the same model or the same rigid body.
pub proof fn lemma_targets_apart<S: Scalar>(
    e: Entity,
    stack: Seq<Transform<S>>,
    transforms: Seq<Transform<S>>,
    i: int,
    j: int,
)
    requires
        separate(e.subtree()),
        0 <= i < j < TranslateSystem::<S>::targets(e, stack, transforms).len(),
    ensures
        ({
            let targets = TranslateSystem::<S>::targets(e, stack, transforms);
            &&& targets[i].model is Some ==> targets[i].model != targets[j].model
            &&& targets[i].rigid_body is Some ==> targets[i].rigid_body != targets[j].rigid_body
            &&& targets[j].model is Some ==> targets[i].model != targets[j].model
            &&& targets[j].rigid_body is Some ==> targets[i].rigid_body != targets[j].rigid_body
        }),
{
    let targets = TranslateSystem::<S>::targets(e, stack, transforms);
    let found = e.subtree().filter(is_target());
    lemma_targets_are_entities::<S>(e, stack, transforms);
    lemma_filter_separate(e.subtree(), is_target());
    assert(targets.map_values(named::<S>()).len() == found.map_values(names_of()).len());
    assert(targets.map_values(named::<S>())[i] == found.map_values(names_of())[i]);
    assert(targets.map_values(named::<S>())[j] == found.map_values(names_of())[j]);
    assert(found[i].spec_slots().apart_from(found[j].spec_slots()));
}

/// In a tree whose entities name no record in common, as every tree is
/// that was built, a translation gives every rigid body the position of a
/// fold of the transforms on the way from the root down to its entity.
pub proof fn lemma_each_body_placed<S: Scalar>(
    root: Entity,
    path: Seq<int>,
    before: ComponentStore<S>,
    after: ComponentStore<S>,
    at: usize,
)
    requires
        separate(root.subtree()),
        is_path(root, path),
        node_at(root, path).spec_slots().rigid_body == Some(at),
        TranslateSystem::<S>::is_translated(
            TranslateSystem::<S>::targets(root, Seq::empty(), before.transforms@),
            before,
            after,
        ),
    ensures
        at < after.rigid_bodies@.len(),
        exists|absolute: Transform<S>|
            #![trigger Transform::is_composed(offsets_along(root, path, Seq::empty(), before.transforms@), absolute)]
            Transform::is_composed(
                offsets_along(root, path, Seq::empty(), before.transforms@),
                absolute,
            ) && after.rigid_bodies@[at as int].last_absolute_position == absolute.pos,
{
    let targets = TranslateSystem::<S>::targets(root, Seq::empty(), before.transforms@);
    let target = TargetView {
        model: node_at(root, path).spec_slots().model,
        rigid_body: node_at(root, path).spec_slots().rigid_body,
        offsets: offsets_along(root, path, Seq::empty(), before.transforms@),
    };
    lemma_target_offsets_follow_path::<S>(root, path, Seq::empty(), before.transforms@);
    let k = choose|k: int| 0 <= k < targets.len() && targets[k] == target;
    assert forall|j: int| k < j < targets.len() implies (#[trigger] targets[j]).rigid_body != Some(
        at,
    ) by {
        lemma_targets_apart::<S>(root, Seq::empty(), before.transforms@, k, j);
    }
    lemma_last_position_stands(targets, before, after, k, at);
}

/// In a tree whose entities name no record in common, as every tree is
/// that was built, a translation shows every model at a fold of the
/// transforms on the way from the root down to its entity.
pub proof fn lemma_each_model_placed<S: Scalar>(
    root: Entity,
    path: Seq<int>,
    before: ComponentStore<S>,
    after: ComponentStore<S>,
    at: usize,
)
    requires
        separate(root.subtree()),
        is_path(root, path),
        node_at(root, path).spec_slots().model == Some(at),
        TranslateSystem::<S>::is_translated(
            TranslateSystem::<S>::targets(root, Seq::empty(), before.transforms@),
            before,
            after,
        ),
    ensures
        at < after.models@.len(),
        after.models@[at as int].view is Some,
        Transform::is_composed(
            offsets_along(root, path, Seq::empty(), before.transforms@),
            after.models@[at as int].view->Some_0,
        ),
{
    let targets = TranslateSystem::<S>::targets(root, Seq::empty(), before.transforms@);
    let target = TargetView {
        model: node_at(root, path).spec_slots().model,
        rigid_body: node_at(root, path).spec_slots().rigid_body,
        offsets: offsets_along(root, path, Seq::empty(), before.transforms@),
    };
    lemma_target_offsets_follow_path::<S>(root, path, Seq::empty(), before.transforms@);
    let k = choose|k: int| 0 <= k < targets.len() && targets[k] == target;
    assert forall|j: int| k < j < targets.len() implies (#[trigger] targets[j]).model != Some(
        at,
    ) by {
        lemma_targets_apart::<S>(root, Seq::empty(), before.transforms@, k, j);
    }
    lemma_last_view_stands(targets, before, after, k, at);
}

} // verus!
