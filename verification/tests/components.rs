use kristall::math::scalar::Scalar;
use kristall::math::vector::Vector3;
use kristall::world::entity::builder::EntityBuilder;
use kristall::world::entity::component::camera::{Camera, CameraPerspective};
use kristall::world::entity::component::model::GraphicsModel;
use kristall::world::entity::component::rigid_body::RigidBody;
use kristall::world::entity::component::transform::Transform;
use kristall::world::entity::component::{Component, ComponentManager, ComponentStore};
use kristall::world::entity::{Entity, EntityContainer};
use kristall::world::World;

#[derive(Clone, Copy, Debug, PartialEq)]
struct Real(f32);

impl Scalar for Real {
    fn zero() -> Self {
        Real(0.0)
    }

    fn one() -> Self {
        Real(1.0)
    }

    fn plus(self, rhs: Self) -> Self {
        Real(self.0 + rhs.0)
    }

    fn minus(self, rhs: Self) -> Self {
        Real(self.0 - rhs.0)
    }

    fn times(self, rhs: Self) -> Self {
        Real(self.0 * rhs.0)
    }

    fn over(self, rhs: Self) -> Self {
        Real(self.0 / rhs.0)
    }

    fn root(self) -> Self {
        Real(self.0.sqrt())
    }

    fn is_nan(self) -> bool {
        self.0.is_nan()
    }

    fn is_positive(self) -> bool {
        self.0 > 0.0
    }
}

fn vec3(x: f32, y: f32, z: f32) -> Vector3<Real> {
    Vector3 { x: Real(x), y: Real(y), z: Real(z) }
}

fn xyz(v: Vector3<Real>) -> (f32, f32, f32) {
    (v.x.0, v.y.0, v.z.0)
}

fn body(mass: f32) -> RigidBody<Real> {
    RigidBody::new(Real(mass))
}

fn at(x: f32, y: f32, z: f32) -> Transform<Real> {
    Transform::new(vec3(0.1, 0.1, 0.1)).with_position(vec3(x, y, z))
}

/// world
///  ├─ sun     (transform, body 5)
///  │   └─ moon (transform, body 1, model)
///  ├─ ghost   (no components)
///  └─ rock    (body 3)
fn sample() -> World<Real> {
    World::new(
        EntityBuilder::new()
            .with_name("world")
            .with_child(
                EntityBuilder::new()
                    .with_name("sun")
                    .with_component(at(1.0, 0.0, 0.0))
                    .with_component(body(5.0))
                    .with_child(
                        EntityBuilder::new()
                            .with_name("moon")
                            .with_component(at(0.0, 2.0, 0.0))
                            .with_component(body(1.0))
                            .with_component(GraphicsModel::new("moon.obj")),
                    ),
            )
            .with_child(EntityBuilder::new().with_name("ghost"))
            .with_child(EntityBuilder::new().with_name("rock").with_component(body(3.0))),
    )
}

fn find<'a>(root: &'a Entity, name: &'static str) -> &'a Entity {
    root.query_entity_by_name(name, true).next().expect("no entity of that name")
}

#[test]
fn builder_starts_unnamed_and_bare() {
    let mut store: ComponentStore<Real> = ComponentStore::new();
    let entity = EntityBuilder::new().build(&mut store);
    assert_eq!(entity.name(), "Unnamed");
    assert!(entity.enabled());
    assert!(!entity.invalidated());
    assert!(entity.children().is_empty());
    assert!(entity.component::<Transform<Real>>().is_none());
    assert!(store.transforms.is_empty());
    assert!(store.rigid_bodies.is_empty());
}

#[test]
fn builder_keeps_the_order_of_children() {
    let mut store: ComponentStore<Real> = ComponentStore::new();
    let entity = EntityBuilder::new()
        .with_name("parent")
        .with_child(EntityBuilder::new().with_name("first"))
        .with_children(vec![
            EntityBuilder::new().with_name("second"),
            EntityBuilder::new().with_name("third"),
        ])
        .with_child(EntityBuilder::new().with_name("fourth"))
        .build(&mut store);
    let names: Vec<&str> = entity.children().iter().map(|c| c.name().as_str()).collect();
    assert_eq!(names, vec!["first", "second", "third", "fourth"]);
}

#[test]
fn built_components_are_found_by_type() {
    let world = sample();
    let sun = find(&world.root, "sun");
    let transform = sun.component::<Transform<Real>>().expect("sun has a transform");
    let rigid_body = sun.component::<RigidBody<Real>>().expect("sun has a body");
    assert!(sun.component::<GraphicsModel<Real>>().is_none());
    assert!(sun.component::<Camera<Real>>().is_none());
    assert_eq!(xyz(transform.lock_component_for_read(&world.store).get().pos), (1.0, 0.0, 0.0));
    assert_eq!(rigid_body.lock_component_for_read(&world.store).get().mass, Real(5.0));
    let moon = find(&world.root, "moon");
    let model = moon.component::<GraphicsModel<Real>>().expect("moon has a model");
    assert_eq!(model.lock_component_for_read(&world.store).get().path_to_obj, "moon.obj");
    let ghost = find(&world.root, "ghost");
    assert!(ghost.component::<Transform<Real>>().is_none());
    assert!(ghost.component::<RigidBody<Real>>().is_none());
}

#[test]
fn a_later_component_of_the_same_kind_replaces_the_earlier() {
    let mut store: ComponentStore<Real> = ComponentStore::new();
    let entity = EntityBuilder::new()
        .with_component(body(1.0))
        .with_component(body(7.0))
        .build(&mut store);
    let handle = entity.component::<RigidBody<Real>>().unwrap();
    assert_eq!(store.rigid_bodies.len(), 1);
    assert_eq!(handle.lock_component_for_read(&store).get().mass, Real(7.0));
}

#[test]
fn building_into_a_store_keeps_what_it_held() {
    let mut store: ComponentStore<Real> = ComponentStore::new();
    let first = EntityBuilder::new().with_component(body(1.0)).build(&mut store);
    let second = EntityBuilder::new().with_component(body(2.0)).build(&mut store);
    let a = first.component::<RigidBody<Real>>().unwrap();
    let b = second.component::<RigidBody<Real>>().unwrap();
    assert_ne!(a.index(), b.index());
    assert_eq!(a.lock_component_for_read(&store).get().mass, Real(1.0));
    assert_eq!(b.lock_component_for_read(&store).get().mass, Real(2.0));
}

#[test]
fn a_written_component_is_read_back() {
    let mut world = sample();
    let handle = find(&world.root, "sun").component::<Transform<Real>>().unwrap();
    {
        let mut access = handle.lock_component_for_write(&mut world.store);
        let changed = access.get().with_position(vec3(9.0, 8.0, 7.0));
        access.set(changed);
        assert_eq!(xyz(access.get().pos), (9.0, 8.0, 7.0));
    }
    let access = handle.lock_component_for_read(&world.store);
    assert_eq!(xyz(access.get().pos), (9.0, 8.0, 7.0));
}

#[test]
fn what_a_write_access_is_set_to_reaches_the_store() {
    let mut world = sample();
    let handle = find(&world.root, "rock").component::<RigidBody<Real>>().unwrap();
    let mut heavier = body(30.0);
    heavier.movable = false;
    handle.lock_component_for_write(&mut world.store).set(heavier);
    assert_eq!(world.store.rigid_bodies[handle.index()].mass, Real(30.0));
    assert!(!world.store.rigid_bodies[handle.index()].movable);
    assert_eq!(handle.peek(&world.store, |b: &RigidBody<Real>| b.mass), Some(Real(30.0)));
}

#[test]
fn a_write_leaves_other_components_alone() {
    let mut world = sample();
    let sun = find(&world.root, "sun").component::<Transform<Real>>().unwrap();
    let moon = find(&world.root, "moon").component::<Transform<Real>>().unwrap();
    {
        let mut access = sun.lock_component_for_write(&mut world.store);
        let changed = access.get().with_position(vec3(9.0, 8.0, 7.0));
        access.set(changed);
    }
    assert_eq!(xyz(moon.lock_component_for_read(&world.store).get().pos), (0.0, 2.0, 0.0));
}

#[test]
fn copies_of_a_handle_name_the_same_record() {
    let mut world = sample();
    let handle = find(&world.root, "rock").component::<RigidBody<Real>>().unwrap();
    let copy = handle.clone();
    handle.peek_mut(&mut world.store, |b: &mut RigidBody<Real>| b.mass = Real(42.0));
    assert_eq!(copy.peek(&world.store, |b: &RigidBody<Real>| b.mass), Some(Real(42.0)));
}

#[test]
fn peek_returns_what_the_closure_returns() {
    let world = sample();
    let handle = find(&world.root, "rock").component::<RigidBody<Real>>().unwrap();
    assert_eq!(handle.peek(&world.store, |b: &RigidBody<Real>| b.mass.0 * 2.0), Some(6.0));
}

#[test]
fn peek_mut_changes_the_record_and_returns_the_result() {
    let mut world = sample();
    let handle = find(&world.root, "rock").component::<RigidBody<Real>>().unwrap();
    let old = handle.peek_mut(&mut world.store, |b: &mut RigidBody<Real>| {
        let old = b.mass;
        b.mass = Real(4.0);
        b.movable = false;
        old
    });
    assert_eq!(old, Some(Real(3.0)));
    let body = &world.store.rigid_bodies[handle.index()];
    assert_eq!(body.mass, Real(4.0));
    assert!(!body.movable);
}

#[test]
fn a_handle_to_a_record_that_is_not_there_yields_nothing() {
    let mut world = sample();
    let stale: ComponentManager<RigidBody<Real>> = ComponentManager::init(99);
    assert_eq!(stale.index(), 99);
    assert!(!stale.is_held_by(&world.store));
    assert_eq!(stale.peek(&world.store, |b: &RigidBody<Real>| b.mass), None);
    assert_eq!(stale.peek_mut(&mut world.store, |b: &mut RigidBody<Real>| b.mass = Real(0.0)), None);
    assert_eq!(world.store.rigid_bodies.len(), 3);
}

#[test]
fn init_names_the_record_at_the_given_place() {
    let world = sample();
    let rock = find(&world.root, "rock").component::<RigidBody<Real>>().unwrap();
    let again: ComponentManager<RigidBody<Real>> = ComponentManager::init(rock.index());
    assert!(again.is_held_by(&world.store));
    assert_eq!(again.lock_component_for_read(&world.store).get().mass, Real(3.0));
}

#[test]
fn component_iterator_yields_components_in_pre_order() {
    let world = sample();
    let mut iter = world.query_components::<RigidBody<Real>>(true);
    let mut masses = Vec::new();
    while let Some(handle) = iter.next() {
        masses.push(handle.lock_component_for_read(&world.store).get().mass.0);
    }
    assert_eq!(masses, vec![5.0, 1.0, 3.0]);
    assert!(iter.next().is_none());
}

#[test]
fn component_iterator_skips_entities_without_the_component() {
    let world = sample();
    let mut iter = world.query_components::<GraphicsModel<Real>>(true);
    let first = iter.next().expect("the moon has a model");
    assert_eq!(first.lock_component_for_read(&world.store).get().path_to_obj, "moon.obj");
    assert!(iter.next().is_none());
    assert!(world.query_components::<Camera<Real>>(true).next().is_none());
}

#[test]
fn component_iterator_can_leave_out_the_parent() {
    let world = sample();
    let sun = find(&world.root, "sun");
    let mut with_parent = sun.query_components::<RigidBody<Real>>(true);
    assert_eq!(with_parent.next().unwrap().peek(&world.store, |b: &RigidBody<Real>| b.mass.0), Some(5.0));
    assert_eq!(with_parent.next().unwrap().peek(&world.store, |b: &RigidBody<Real>| b.mass.0), Some(1.0));
    assert!(with_parent.next().is_none());
    let mut without_parent = sun.query_components::<RigidBody<Real>>(false);
    assert_eq!(without_parent.next().unwrap().peek(&world.store, |b: &RigidBody<Real>| b.mass.0), Some(1.0));
    assert!(without_parent.next().is_none());
}

#[test]
fn filtered_iterator_yields_the_components_that_meet_the_predicate() {
    let world = sample();
    let mut iter = world
        .query_components_by_predicate::<RigidBody<Real>, _>(|b: &RigidBody<Real>| b.mass.0 > 2.0, true);
    let mut masses = Vec::new();
    while let Some(handle) = iter.next(&world.store) {
        masses.push(handle.lock_component_for_read(&world.store).get().mass.0);
    }
    assert_eq!(masses, vec![5.0, 3.0]);
    assert!(iter.next(&world.store).is_none());
}

#[test]
fn filtered_iterator_passes_over_records_that_are_not_in_the_store() {
    let world = sample();
    let empty: ComponentStore<Real> = ComponentStore::new();
    let mut iter =
        world.query_components_by_predicate::<RigidBody<Real>, _>(|_: &RigidBody<Real>| true, true);
    assert!(iter.next(&empty).is_none());
}

#[test]
fn every_component_kind_is_enabled() {
    assert!(Transform::<Real>::new(vec3(0.0, 0.0, 0.0)).enabled());
    assert!(body(1.0).enabled());
    assert!(GraphicsModel::<Real>::new("x.obj").enabled());
    assert!(Camera::new(CameraPerspective::<Real>::FirstPersonView).enabled());
}

#[test]
fn world_spawn_adds_a_last_child_with_its_components() {
    let mut world = sample();
    world.spawn(EntityBuilder::new().with_name("comet").with_component(body(0.5)));
    let names: Vec<&str> = world.root.children().iter().map(|c| c.name().as_str()).collect();
    assert_eq!(names, vec!["sun", "ghost", "rock", "comet"]);
    let comet = find(&world.root, "comet").component::<RigidBody<Real>>().unwrap();
    assert_eq!(comet.lock_component_for_read(&world.store).get().mass, Real(0.5));
    let sun = find(&world.root, "sun").component::<RigidBody<Real>>().unwrap();
    assert_eq!(sun.lock_component_for_read(&world.store).get().mass, Real(5.0));
}

#[test]
fn entity_flags_and_name_can_be_changed() {
    let mut entity = Entity::new("before");
    entity.set_name("after".to_string());
    entity.set_enabled(false);
    entity.set_invalidated(true);
    assert_eq!(entity.name(), "after");
    assert!(!entity.enabled());
    assert!(entity.invalidated());
}

#[test]
fn a_new_rigid_body_is_movable_and_at_rest() {
    let b = body(2.5);
    assert_eq!(b.mass, Real(2.5));
    assert!(b.movable);
    assert_eq!(xyz(b.last_absolute_position), (0.0, 0.0, 0.0));
    assert_eq!(xyz(b.velocity), (0.0, 0.0, 0.0));
    assert_eq!(xyz(b.acceleration), (0.0, 0.0, 0.0));
    assert_eq!(xyz(b.angular_velocity), (0.0, 0.0, 0.0));
    assert_eq!(xyz(b.angular_acceleration), (0.0, 0.0, 0.0));
    assert!(b.forces.is_empty());
}

#[test]
fn a_new_transform_is_at_the_origin_and_at_rest_but_for_its_angular_acceleration() {
    let t: Transform<Real> = Transform::new(vec3(0.1, 0.2, 0.3));
    assert_eq!(xyz(t.pos), (0.0, 0.0, 0.0));
    assert_eq!(xyz(t.scale), (1.0, 1.0, 1.0));
    assert_eq!(xyz(t.rot), (0.0, 0.0, 0.0));
    assert_eq!(xyz(t.vel), (0.0, 0.0, 0.0));
    assert_eq!(xyz(t.acc), (0.0, 0.0, 0.0));
    assert_eq!(xyz(t.rot_vel), (0.0, 0.0, 0.0));
    assert_eq!(xyz(t.rot_acc), (0.1, 0.2, 0.3));
    assert!(!t.frozen);
    let held = Transform::<Real>::frozen(vec3(0.1, 0.2, 0.3));
    assert!(held.frozen);
    assert_eq!(xyz(held.pos), (0.0, 0.0, 0.0));
    assert_eq!(xyz(held.scale), (1.0, 1.0, 1.0));
    assert_eq!(xyz(held.rot_acc), (0.1, 0.2, 0.3));
    assert_eq!(xyz(t.with_velocity(vec3(1.0, 2.0, 3.0)).vel), (1.0, 2.0, 3.0));
    assert_eq!(xyz(t.with_velocity(vec3(1.0, 2.0, 3.0)).rot_acc), (0.1, 0.2, 0.3));
}

#[test]
fn accesses_can_be_read_through_like_references() {
    let mut world = sample();
    let handle = find(&world.root, "rock").component::<RigidBody<Real>>().unwrap();
    assert_eq!(handle.lock_component_for_read(&world.store).mass, Real(3.0));
    let access = handle.lock_component_for_write(&mut world.store);
    assert_eq!(access.mass, Real(3.0));
    assert!(access.movable);
}

#[test]
fn iterators_can_be_collected() {
    let world = sample();
    let names: Vec<&str> =
        world.query_entities(true).collect().into_iter().map(|e| e.name().as_str()).collect();
    assert_eq!(names, vec!["world", "sun", "moon", "ghost", "rock"]);
    let masses: Vec<f32> = world
        .query_components::<RigidBody<Real>>(false)
        .collect()
        .into_iter()
        .map(|h| h.lock_component_for_read(&world.store).mass.0)
        .collect();
    assert_eq!(masses, vec![5.0, 1.0, 3.0]);
}

#[test]
fn records_are_shelved_in_the_order_of_the_tree() {
    let world = sample();
    let slots: Vec<usize> = world
        .query_components::<RigidBody<Real>>(true)
        .collect()
        .into_iter()
        .map(|h| h.index())
        .collect();
    assert_eq!(slots, vec![0, 1, 2]);
    let sun = find(&world.root, "sun").component::<Transform<Real>>().unwrap();
    let moon = find(&world.root, "moon").component::<Transform<Real>>().unwrap();
    assert_eq!((sun.index(), moon.index()), (0, 1));
}

#[test]
fn a_store_tells_whether_it_holds_the_slots_of_an_entity() {
    let world = sample();
    let empty: ComponentStore<Real> = ComponentStore::new();
    for entity in world.query_entities(true).collect() {
        assert!(world.store.is_holding(entity.slots()));
    }
    assert!(!empty.is_holding(find(&world.root, "sun").slots()));
    assert!(empty.is_holding(find(&world.root, "ghost").slots()));
}
