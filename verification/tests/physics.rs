use cgmath::InnerSpace;
use kristall::math::scalar::{Scalar, Widen};
use kristall::math::vector::Vector3;
use kristall::world::entity::builder::EntityBuilder;
use kristall::world::entity::component::model::GraphicsModel;
use kristall::world::entity::component::rigid_body::RigidBody;
use kristall::world::entity::component::transform::Transform;
use kristall::world::entity::component::ComponentStore;
use kristall::world::entity::{Entity, EntityContainer};
use kristall::world::system::gravity::GravitySystem;
use kristall::world::system::integrate::IntegrateSystem;
use kristall::world::system::translate::{Target, TranslateSystem};
use kristall::world::system::System;
use kristall::world::World;

#[derive(Clone, Copy, Debug, PartialEq)]
struct Real(f32);

impl Scalar for Real {
    fn zero() -> Self {
        Real(0.0)
    }

    fn one() -> Self {
        Real(1.0)
    }

    fn plus(self, rhs: Self) -> Self {
        Real(self.0 + rhs.0)
    }

    fn minus(self, rhs: Self) -> Self {
        Real(self.0 - rhs.0)
    }

    fn times(self, rhs: Self) -> Self {
        Real(self.0 * rhs.0)
    }

    fn over(self, rhs: Self) -> Self {
        Real(self.0 / rhs.0)
    }

    fn root(self) -> Self {
        Real(self.0.sqrt())
    }

    fn is_nan(self) -> bool {
        self.0.is_nan()
    }

    fn is_positive(self) -> bool {
        self.0 > 0.0
    }
}

#[derive(Clone, Copy, Debug, PartialEq)]
struct Double(f64);

impl Scalar for Double {
    fn zero() -> Self {
        Double(0.0)
    }

    fn one() -> Self {
        Double(1.0)
    }

    fn plus(self, rhs: Self) -> Self {
        Double(self.0 + rhs.0)
    }

    fn minus(self, rhs: Self) -> Self {
        Double(self.0 - rhs.0)
    }

    fn times(self, rhs: Self) -> Self {
        Double(self.0 * rhs.0)
    }

    fn over(self, rhs: Self) -> Self {
        Double(self.0 / rhs.0)
    }

    fn root(self) -> Self {
        Double(self.0.sqrt())
    }

    fn is_nan(self) -> bool {
        self.0.is_nan()
    }

    fn is_positive(self) -> bool {
        self.0 > 0.0
    }
}

impl Widen for Real {
    type Wide = Double;

    fn widen(self) -> Double {
        Double(self.0 as f64)
    }

    fn narrow(wide: Double) -> Real {
        Real(wide.0 as f32)
    }
}

fn vec3(x: f32, y: f32, z: f32) -> Vector3<Real> {
    Vector3 { x: Real(x), y: Real(y), z: Real(z) }
}

fn xyz(v: Vector3<Real>) -> (f32, f32, f32) {
    (v.x.0, v.y.0, v.z.0)
}

const G: f64 = 0.000000000067;

fn body_at(mass: f32, x: f32, y: f32, z: f32) -> RigidBody<Real> {
    let mut body = RigidBody::new(Real(mass));
    body.last_absolute_position = vec3(x, y, z);
    body
}

fn at(x: f32, y: f32, z: f32) -> Transform<Real> {
    Transform::new(vec3(0.1, 0.1, 0.1)).with_position(vec3(x, y, z))
}

fn force(body: &RigidBody<Real>, source: &str) -> Option<(f32, f32, f32)> {
    let found: Vec<_> = body.forces.iter().filter(|f| f.source == source).collect();
    assert!(found.len() <= 1, "a source has one entry at most");
    found.first().map(|f| xyz(f.force))
}

fn length(v: (f32, f32, f32)) -> f32 {
    (v.0 * v.0 + v.1 * v.1 + v.2 * v.2).sqrt()
}

fn close(a: f32, b: f32) -> bool {
    (a - b).abs() <= 1e-5 * a.abs().max(b.abs())
}

fn find<'a>(root: &'a Entity, name: &'static str) -> &'a Entity {
    root.query_entity_by_name(name, true).next().expect("no entity of that name")
}

fn bodies(list: Vec<RigidBody<Real>>) -> World<Real> {
    let mut root = EntityBuilder::new().with_name("space");
    for body in list {
        root = root.with_child(EntityBuilder::new().with_name("body").with_component(body));
    }
    World::new(root)
}

fn run_gravity(world: &mut World<Real>) {
    let mut gravity = GravitySystem::new(Double(G));
    assert!(gravity.on_fetch(&world.root).is_ok());
    assert!(gravity.tick(&mut world.store, Real(0.01)));
}

#[test]
fn vector_operations_agree_with_cgmath() {
    let a = vec3(1.5, -2.0, 0.25);
    let b = vec3(-4.0, 0.5, 3.0);
    let ca = cgmath::Vector3::new(1.5f32, -2.0, 0.25);
    let cb = cgmath::Vector3::new(-4.0f32, 0.5, 3.0);
    let same = |v: Vector3<Real>, c: cgmath::Vector3<f32>| xyz(v) == (c.x, c.y, c.z);
    assert!(same(a.plus(b), ca + cb));
    assert!(same(a.minus(b), ca - cb));
    assert!(same(a.scaled(Real(3.5)), ca * 3.5));
    assert!(same(a.divided(Real(3.5)), ca / 3.5));
    assert!(same(a.normalize(), ca.normalize()));
    assert!(same(b.normalize(), cb.normalize()));
    assert_eq!(a.dot(b).0, ca.dot(cb));
    assert_eq!(a.magnitude().0, ca.magnitude());
    assert_eq!(xyz(a.times(b)), (-6.0, -1.0, 0.75));
    assert_eq!(xyz(Vector3::<Real>::origin()), (0.0, 0.0, 0.0));
    assert_eq!(xyz(Vector3::<Real>::ones()), (1.0, 1.0, 1.0));
    assert_eq!(vec3(3.0, 4.0, 12.0).magnitude().0, 13.0);
    assert_eq!(xyz(vec3(0.0, 0.0, 2.0).normalize()), (0.0, 0.0, 1.0));
}

#[test]
fn net_force_agrees_with_the_sum_of_cgmath() {
    let forces = vec![(0.1f32, 0.2f32, 0.3f32), (1e8, -1e-3, 7.0), (-1e8, 0.25, 1e-9)];
    let mut body = RigidBody::new(Real(1.0));
    let names = ["a", "b", "c"];
    for (name, f) in names.iter().zip(forces.iter()) {
        body.commit_force(name, vec3(f.0, f.1, f.2));
    }
    let sum: cgmath::Vector3<f32> =
        forces.iter().map(|f| cgmath::Vector3::new(f.0, f.1, f.2)).sum();
    assert_eq!(xyz(body.net_force()), (sum.x, sum.y, sum.z));
}

#[test]
fn commit_force_stores_zero_for_each_component_that_is_not_a_number() {
    let mut body = RigidBody::new(Real(1.0));
    body.commit_force("wind", vec3(f32::NAN, 2.0, -3.0));
    assert_eq!(force(&body, "wind"), Some((0.0, 2.0, -3.0)));
    body.commit_force("wind", vec3(1.0, f32::NAN, f32::NAN));
    assert_eq!(force(&body, "wind"), Some((1.0, 0.0, 0.0)));
    body.commit_force("wind", vec3(f32::NAN, f32::NAN, f32::NAN));
    assert_eq!(force(&body, "wind"), Some((0.0, 0.0, 0.0)));
    body.commit_force("wind", vec3(f32::INFINITY, -0.5, f32::NEG_INFINITY));
    assert_eq!(force(&body, "wind"), Some((f32::INFINITY, -0.5, f32::NEG_INFINITY)));
    assert_eq!(xyz(RigidBody::clean(vec3(4.0, f32::NAN, 6.0))), (4.0, 0.0, 6.0));
}

#[test]
fn net_force_is_the_sum_of_the_named_forces() {
    let mut body = RigidBody::new(Real(1.0));
    assert_eq!(xyz(body.net_force()), (0.0, 0.0, 0.0));
    body.commit_force("gravity", vec3(1.0, 2.0, 3.0));
    assert_eq!(xyz(body.net_force()), (1.0, 2.0, 3.0));
    body.commit_force("input", vec3(10.0, -20.0, 0.5));
    assert_eq!(xyz(body.net_force()), (11.0, -18.0, 3.5));
}

#[test]
fn committing_under_the_same_name_overwrites() {
    let mut body = RigidBody::new(Real(1.0));
    body.commit_force("gravity", vec3(1.0, 2.0, 3.0));
    body.commit_force("input", vec3(10.0, 20.0, 30.0));
    body.commit_force("gravity", vec3(-1.0, 0.0, 0.0));
    assert_eq!(body.forces.len(), 2);
    assert_eq!(force(&body, "gravity"), Some((-1.0, 0.0, 0.0)));
    assert_eq!(force(&body, "input"), Some((10.0, 20.0, 30.0)));
    assert_eq!(xyz(body.net_force()), (9.0, 20.0, 30.0));
    assert_eq!(body.forces[0].source, "gravity");
    assert_eq!(body.forces[1].source, "input");
}

#[test]
fn commit_force_leaves_the_motion_of_the_body_alone() {
    let mut body = body_at(3.0, 1.0, 2.0, 3.0);
    body.velocity = vec3(4.0, 5.0, 6.0);
    body.movable = false;
    body.commit_force("gravity", vec3(1.0, 1.0, 1.0));
    assert_eq!(body.mass, Real(3.0));
    assert!(!body.movable);
    assert_eq!(xyz(body.last_absolute_position), (1.0, 2.0, 3.0));
    assert_eq!(xyz(body.velocity), (4.0, 5.0, 6.0));
}

#[test]
fn gravity_pulls_two_bodies_towards_each_other() {
    let (m1, m2) = (9000000.0f32, 4000000.0f32);
    let mut world = bodies(vec![body_at(m1, 1.0, 2.0, 3.0), body_at(m2, 4.0, 6.0, 15.0)]);
    run_gravity(&mut world);
    let f1 = force(&world.store.rigid_bodies[0], "gravity").expect("gravity on the first body");
    let f2 = force(&world.store.rigid_bodies[1], "gravity").expect("gravity on the second body");
    let r = 13.0f32;
    let expected = (G * (m1 as f64 * m2 as f64) / (r as f64 * r as f64)) as f32;
    assert!(close(length(f1), expected), "{} is not {}", length(f1), expected);
    assert!(close(length(f2), expected), "{} is not {}", length(f2), expected);
    assert!(close(length(f1), length(f2)));
    assert!(close(f1.0, -f2.0) && close(f1.1, -f2.1) && close(f1.2, -f2.2));
    assert!(f1.0 > 0.0 && f1.1 > 0.0 && f1.2 > 0.0, "the first body is pulled towards the second");
    assert!(close(f1.0 / length(f1), 3.0 / 13.0));
    assert!(close(f1.1 / length(f1), 4.0 / 13.0));
    assert!(close(f1.2 / length(f1), 12.0 / 13.0));
}

#[test]
fn gravity_along_one_axis_has_the_exact_magnitude() {
    let mut world = bodies(vec![body_at(2.0, 0.0, 0.0, 0.0), body_at(8.0, 2.0, 0.0, 0.0)]);
    let mut gravity = GravitySystem::new(Double(0.5));
    assert!(gravity.on_fetch(&world.root).is_ok());
    assert!(gravity.tick(&mut world.store, Real(1.0)));
    assert_eq!(force(&world.store.rigid_bodies[0], "gravity"), Some((2.0, 0.0, 0.0)));
    assert_eq!(force(&world.store.rigid_bodies[1], "gravity"), Some((-2.0, 0.0, 0.0)));
    let (f1, f2) = GravitySystem::attraction(Double(0.5), vec3(0.0, 0.0, 0.0), Real(2.0), vec3(2.0, 0.0, 0.0), Real(8.0));
    assert_eq!(xyz(f1), (2.0, 0.0, 0.0));
    assert_eq!(xyz(f2), (-2.0, 0.0, 0.0));
}

#[test]
fn gravity_computes_the_magnitude_in_double_precision() {
    let (m1, m2) = (9000000.0f32, 7654321.0f32);
    let mut world = bodies(vec![body_at(m1, 0.0, 0.0, 0.0), body_at(m2, 3.0, 0.0, 0.0)]);
    run_gravity(&mut world);
    let r = 3.0f32;
    let expected = (G * (m1 as f64 * m2 as f64) / (r as f64 * r as f64)) as f32;
    assert_eq!(force(&world.store.rigid_bodies[0], "gravity"), Some((expected, 0.0, 0.0)));
    assert_eq!(force(&world.store.rigid_bodies[1], "gravity"), Some((-expected, 0.0, 0.0)));
}

#[test]
fn a_second_fetch_of_gravity_keeps_every_body_once() {
    let mut world = bodies(vec![body_at(2.0, 0.0, 0.0, 0.0), body_at(8.0, 2.0, 0.0, 0.0)]);
    let mut gravity = GravitySystem::new(Double(0.5));
    assert!(gravity.on_fetch(&world.root).is_ok());
    assert!(gravity.on_fetch(&world.root).is_ok());
    assert!(gravity.tick(&mut world.store, Real(1.0)));
    assert_eq!(force(&world.store.rigid_bodies[0], "gravity"), Some((2.0, 0.0, 0.0)));
    assert_eq!(force(&world.store.rigid_bodies[1], "gravity"), Some((-2.0, 0.0, 0.0)));
    let mut alone = bodies(vec![body_at(2.0, 1.0, 1.0, 1.0)]);
    let mut gravity = GravitySystem::new(Double(0.5));
    assert!(gravity.on_fetch(&alone.root).is_ok());
    assert!(gravity.on_fetch(&alone.root).is_ok());
    assert!(gravity.tick(&mut alone.store, Real(1.0)));
    assert!(alone.store.rigid_bodies[0].forces.is_empty(), "a body is not paired with itself");
}

#[test]
fn a_fetch_of_gravity_from_another_tree_drops_the_handles_of_the_first() {
    let first = bodies(vec![
        body_at(2.0, 0.0, 0.0, 0.0),
        body_at(8.0, 2.0, 0.0, 0.0),
        body_at(4.0, 0.0, 4.0, 0.0),
    ]);
    let mut second = bodies(vec![body_at(2.0, 0.0, 0.0, 0.0), body_at(8.0, 2.0, 0.0, 0.0)]);
    let mut gravity = GravitySystem::new(Double(0.5));
    assert!(gravity.on_fetch(&first.root).is_ok());
    assert!(gravity.on_freeze(&second.store).is_err());
    assert!(gravity.on_fetch(&second.root).is_ok());
    assert!(gravity.tick(&mut second.store, Real(1.0)));
    assert_eq!(force(&second.store.rigid_bodies[0], "gravity"), Some((2.0, 0.0, 0.0)));
}

#[test]
fn committing_forces_keeps_one_entry_for_each_source() {
    let mut body = RigidBody::new(Real(1.0));
    for round in 0..3 {
        for name in ["gravity", "input", "wind"] {
            body.commit_force(name, vec3(round as f32, 0.0, 0.0));
        }
    }
    let names: Vec<&str> = body.forces.iter().map(|f| f.source.as_str()).collect();
    assert_eq!(names, vec!["gravity", "input", "wind"]);
    assert_eq!(xyz(body.net_force()), (6.0, 0.0, 0.0));
}

#[test]
fn gravity_leaves_bodies_without_mass_alone() {
    let mut still = body_at(0.0, 1.0, 0.0, 0.0);
    still.commit_force("input", vec3(1.0, 1.0, 1.0));
    let mut world = bodies(vec![
        body_at(5.0, 0.0, 0.0, 0.0),
        still,
        body_at(-3.0, 0.0, 2.0, 0.0),
        body_at(7.0, 0.0, 0.0, 3.0),
        body_at(f32::NAN, 5.0, 5.0, 5.0),
    ]);
    run_gravity(&mut world);
    let store = &world.store;
    assert!(force(&store.rigid_bodies[0], "gravity").is_some());
    assert!(force(&store.rigid_bodies[3], "gravity").is_some());
    assert_eq!(force(&store.rigid_bodies[1], "gravity"), None);
    assert_eq!(force(&store.rigid_bodies[1], "input"), Some((1.0, 1.0, 1.0)));
    assert_eq!(store.rigid_bodies[1].forces.len(), 1);
    assert!(store.rigid_bodies[2].forces.is_empty());
    assert!(store.rigid_bodies[4].forces.is_empty());
    let f0 = force(&store.rigid_bodies[0], "gravity").unwrap();
    assert!(f0.0 == 0.0 && f0.1 == 0.0 && f0.2 > 0.0, "only the body with mass pulls: {:?}", f0);
}

#[test]
fn gravity_does_not_pull_a_body_whose_transform_is_frozen() {
    let mut world = World::new(
        EntityBuilder::new()
            .with_name("space")
            .with_child(
                EntityBuilder::new()
                    .with_name("held")
                    .with_component(Transform::<Real>::frozen(vec3(0.1, 0.1, 0.1)))
                    .with_component(body_at(2.0, 0.0, 0.0, 0.0)),
            )
            .with_child(
                EntityBuilder::new()
                    .with_name("free")
                    .with_component(at(2.0, 0.0, 0.0))
                    .with_component(body_at(8.0, 2.0, 0.0, 0.0)),
            ),
    );
    let mut gravity = GravitySystem::new(Double(0.5));
    assert!(gravity.on_fetch(&world.root).is_ok());
    assert!(gravity.tick(&mut world.store, Real(1.0)));
    assert!(world.store.rigid_bodies[0].forces.is_empty());
    assert_eq!(force(&world.store.rigid_bodies[1], "gravity"), Some((-2.0, 0.0, 0.0)));
    world.store.transforms[0].frozen = false;
    assert!(gravity.tick(&mut world.store, Real(1.0)));
    assert_eq!(force(&world.store.rigid_bodies[0], "gravity"), Some((2.0, 0.0, 0.0)));
}

#[test]
fn gravity_overwrites_the_gravity_of_the_tick_before() {
    let mut first = body_at(2.0, 0.0, 0.0, 0.0);
    first.commit_force("gravity", vec3(100.0, 100.0, 100.0));
    first.commit_force("input", vec3(1.0, 2.0, 3.0));
    let mut world = bodies(vec![first, body_at(8.0, 2.0, 0.0, 0.0)]);
    let mut gravity = GravitySystem::new(Double(0.5));
    assert!(gravity.on_fetch(&world.root).is_ok());
    assert!(gravity.tick(&mut world.store, Real(1.0)));
    assert!(gravity.tick(&mut world.store, Real(1.0)));
    let body = &world.store.rigid_bodies[0];
    assert_eq!(body.forces.len(), 2);
    assert_eq!(force(body, "gravity"), Some((2.0, 0.0, 0.0)));
    assert_eq!(force(body, "input"), Some((1.0, 2.0, 3.0)));
}

#[test]
fn gravity_keeps_the_pull_of_the_last_pair_of_each_body() {
    let mut world = bodies(vec![
        body_at(2.0, 0.0, 0.0, 0.0),
        body_at(8.0, 2.0, 0.0, 0.0),
        body_at(4.0, 0.0, 4.0, 0.0),
    ]);
    let mut gravity = GravitySystem::new(Double(1.0));
    assert!(gravity.on_fetch(&world.root).is_ok());
    assert!(gravity.tick(&mut world.store, Real(1.0)));
    assert_eq!(force(&world.store.rigid_bodies[0], "gravity"), Some((0.0, 0.5, 0.0)));
    let (f1, f2) = GravitySystem::attraction(Double(1.0), vec3(2.0, 0.0, 0.0), Real(8.0), vec3(0.0, 4.0, 0.0), Real(4.0));
    assert_eq!(force(&world.store.rigid_bodies[1], "gravity"), Some(xyz(f1)));
    assert_eq!(force(&world.store.rigid_bodies[2], "gravity"), Some(xyz(f2)));
}

#[test]
fn gravity_fetch_collects_every_rigid_body_of_the_tree() {
    let world = World::new(
        EntityBuilder::new()
            .with_name("root")
            .with_component(body_at(1.0, 0.0, 0.0, 0.0))
            .with_child(
                EntityBuilder::new()
                    .with_name("a")
                    .with_child(EntityBuilder::new().with_name("deep").with_component(body_at(2.0, 1.0, 0.0, 0.0))),
            )
            .with_child(EntityBuilder::new().with_name("b").with_component(body_at(3.0, 0.0, 1.0, 0.0))),
    );
    let mut world = world;
    run_gravity(&mut world);
    for body in world.store.rigid_bodies.iter() {
        assert!(force(body, "gravity").is_some());
    }
}

#[test]
fn gravity_does_not_freeze_on_a_store_that_lacks_its_bodies() {
    let world = bodies(vec![body_at(1.0, 0.0, 0.0, 0.0), body_at(1.0, 1.0, 0.0, 0.0)]);
    let mut gravity = GravitySystem::new(Double(G));
    assert!(gravity.on_fetch(&world.root).is_ok());
    let mut empty: ComponentStore<Real> = ComponentStore::new();
    assert!(gravity.on_freeze(&empty).is_err());
    assert!(!gravity.tick(&mut empty, Real(1.0)));
    assert!(empty.rigid_bodies.is_empty());
    assert!(gravity.on_freeze(&world.store).is_ok());
}

fn moving_world(movable: bool) -> World<Real> {
    let mut body = RigidBody::new(Real(2.0));
    body.velocity = vec3(1.0, 0.0, 0.0);
    body.acceleration = vec3(0.0, 0.0, 0.0);
    body.angular_velocity = vec3(0.0, 0.5, 0.0);
    body.angular_acceleration = vec3(0.0, 0.0, 0.25);
    body.movable = movable;
    body.commit_force("gravity", vec3(1.0, 0.0, 0.0));
    body.commit_force("input", vec3(3.0, 0.0, 0.0));
    World::new(
        EntityBuilder::new()
            .with_name("mover")
            .with_component(at(10.0, 20.0, 30.0))
            .with_component(body),
    )
}

#[test]
fn integrate_advances_position_then_velocity_then_recomputes_acceleration() {
    let mut world = moving_world(true);
    let mut integrate = IntegrateSystem::new();
    assert!(integrate.on_fetch(&world.root).is_ok());
    assert!(integrate.tick(&mut world.store, Real(1.0)));
    let transform = &world.store.transforms[0];
    let body = &world.store.rigid_bodies[0];
    assert_eq!(xyz(transform.pos), (11.0, 20.0, 30.0));
    assert_eq!(xyz(body.velocity), (1.0, 0.0, 0.0));
    assert_eq!(xyz(body.acceleration), (2.0, 0.0, 0.0));
    assert_eq!(xyz(transform.rot), (0.0, 0.5, 0.0));
    assert_eq!(xyz(body.angular_velocity), (0.0, 0.5, 0.25));
    assert_eq!(xyz(body.angular_acceleration), (0.0, 0.0, 0.25));
    assert_eq!(body.forces.len(), 2);
    assert_eq!(body.mass, Real(2.0));
}

#[test]
fn integrate_uses_the_new_acceleration_in_the_next_tick_only() {
    let mut world = moving_world(true);
    let mut integrate = IntegrateSystem::new();
    assert!(integrate.on_fetch(&world.root).is_ok());
    assert!(integrate.tick(&mut world.store, Real(1.0)));
    assert!(integrate.tick(&mut world.store, Real(0.5)));
    let transform = &world.store.transforms[0];
    let body = &world.store.rigid_bodies[0];
    assert_eq!(xyz(transform.pos), (11.5, 20.0, 30.0));
    assert_eq!(xyz(body.velocity), (2.0, 0.0, 0.0));
    assert_eq!(xyz(body.acceleration), (2.0, 0.0, 0.0));
}

#[test]
fn integrate_skips_bodies_that_are_not_movable() {
    let mut world = moving_world(false);
    let mut integrate = IntegrateSystem::new();
    assert!(integrate.on_fetch(&world.root).is_ok());
    assert!(integrate.tick(&mut world.store, Real(1.0)));
    assert_eq!(xyz(world.store.transforms[0].pos), (10.0, 20.0, 30.0));
    assert_eq!(xyz(world.store.rigid_bodies[0].velocity), (1.0, 0.0, 0.0));
    assert_eq!(xyz(world.store.rigid_bodies[0].acceleration), (0.0, 0.0, 0.0));
    assert_eq!(xyz(world.store.rigid_bodies[0].angular_velocity), (0.0, 0.5, 0.0));
}

#[test]
fn integrate_step_on_a_single_body() {
    let mut transform = at(0.0, 0.0, 0.0);
    let mut body = RigidBody::new(Real(4.0));
    body.velocity = vec3(2.0, 0.0, -2.0);
    body.acceleration = vec3(0.0, 8.0, 0.0);
    body.commit_force("push", vec3(0.0, 0.0, 12.0));
    IntegrateSystem::step(&mut transform, &mut body, Real(0.5));
    assert_eq!(xyz(transform.pos), (1.0, 0.0, -1.0));
    assert_eq!(xyz(body.velocity), (2.0, 4.0, -2.0));
    assert_eq!(xyz(body.acceleration), (0.0, 0.0, 3.0));
}

#[test]
fn integrate_works_on_entities_with_both_components_only() {
    let mut world = World::new(
        EntityBuilder::new()
            .with_name("root")
            .with_child(EntityBuilder::new().with_name("only transform").with_component(at(1.0, 1.0, 1.0)))
            .with_child(EntityBuilder::new().with_name("only body").with_component({
                let mut b = RigidBody::new(Real(1.0));
                b.velocity = vec3(1.0, 1.0, 1.0);
                b.acceleration = vec3(1.0, 1.0, 1.0);
                b
            }))
            .with_child(
                EntityBuilder::new()
                    .with_name("both")
                    .with_component(at(0.0, 0.0, 0.0))
                    .with_component({
                        let mut b = RigidBody::new(Real(1.0));
                        b.velocity = vec3(1.0, 2.0, 3.0);
                        b
                    }),
            ),
    );
    let mut integrate = IntegrateSystem::new();
    assert!(integrate.on_fetch(&world.root).is_ok());
    assert!(integrate.on_fetch(&world.root).is_ok());
    assert!(integrate.tick(&mut world.store, Real(1.0)));
    let lone = find(&world.root, "only transform").component::<Transform<Real>>().unwrap();
    assert_eq!(xyz(world.store.transforms[lone.index()].pos), (1.0, 1.0, 1.0));
    let lone = find(&world.root, "only body").component::<RigidBody<Real>>().unwrap();
    assert_eq!(xyz(world.store.rigid_bodies[lone.index()].velocity), (1.0, 1.0, 1.0));
    let both = find(&world.root, "both").component::<Transform<Real>>().unwrap();
    assert_eq!(xyz(world.store.transforms[both.index()].pos), (1.0, 2.0, 3.0));
}

/// grandparent (1,0,0)
///  ├─ parent (0,1,0)
///  │   └─ leaf (0,0,1), body, model
///  ├─ uncle, body
///  └─ aunt (5,5,5)
///      └─ cousin, body
fn family() -> World<Real> {
    World::new(
        EntityBuilder::new()
            .with_name("grandparent")
            .with_component(at(1.0, 0.0, 0.0))
            .with_child(
                EntityBuilder::new()
                    .with_name("parent")
                    .with_component(at(0.0, 1.0, 0.0))
                    .with_child(
                        EntityBuilder::new()
                            .with_name("leaf")
                            .with_component(at(0.0, 0.0, 1.0))
                            .with_component(RigidBody::new(Real(1.0)))
                            .with_component(GraphicsModel::new("leaf.obj")),
                    ),
            )
            .with_child(EntityBuilder::new().with_name("uncle").with_component(RigidBody::new(Real(1.0))))
            .with_child(
                EntityBuilder::new()
                    .with_name("aunt")
                    .with_component(at(5.0, 5.0, 5.0))
                    .with_child(
                        EntityBuilder::new().with_name("cousin").with_component(RigidBody::new(Real(1.0))),
                    ),
            ),
    )
}

fn last_position(world: &World<Real>, name: &'static str) -> (f32, f32, f32) {
    let handle = find(&world.root, name).component::<RigidBody<Real>>().unwrap();
    xyz(world.store.rigid_bodies[handle.index()].last_absolute_position)
}

#[test]
fn translate_composes_a_chain_of_three() {
    let mut world = family();
    let mut translate = TranslateSystem::new();
    assert!(translate.on_fetch(&world.root).is_ok());
    assert!(translate.tick(&mut world.store, Real(0.01)));
    assert_eq!(last_position(&world, "leaf"), (1.0, 1.0, 1.0));
    let model = find(&world.root, "leaf").component::<GraphicsModel<Real>>().unwrap();
    let view = world.store.models[model.index()].view.expect("the model was placed");
    assert_eq!(xyz(view.pos), (1.0, 1.0, 1.0));
    assert_eq!(xyz(view.scale), (1.0, 1.0, 1.0));
    assert_eq!(xyz(view.rot), (0.0, 0.0, 0.0));
}

#[test]
fn translate_keeps_the_offsets_of_a_subtree_from_its_siblings() {
    let mut world = family();
    let mut translate = TranslateSystem::new();
    assert!(translate.on_fetch(&world.root).is_ok());
    assert!(translate.tick(&mut world.store, Real(0.01)));
    assert_eq!(last_position(&world, "uncle"), (1.0, 0.0, 0.0));
    assert_eq!(last_position(&world, "cousin"), (6.0, 5.0, 5.0));
}

#[test]
fn translate_adds_rotations_and_multiplies_scales() {
    let mut outer: Transform<Real> = Transform::new(vec3(0.1, 0.1, 0.1)).with_position(vec3(1.0, 2.0, 3.0));
    outer.rot = vec3(0.25, 0.0, 0.5);
    outer.scale = vec3(2.0, 3.0, 4.0);
    let mut inner: Transform<Real> = Transform::new(vec3(0.1, 0.1, 0.1)).with_position(vec3(10.0, 20.0, 30.0));
    inner.rot = vec3(0.5, 1.0, 0.0);
    inner.scale = vec3(0.5, 1.0, 2.0);
    let absolute = Transform::compose(&vec![outer, inner]);
    assert_eq!(xyz(absolute.pos), (11.0, 22.0, 33.0));
    assert_eq!(xyz(absolute.rot), (0.75, 1.0, 0.5));
    assert_eq!(xyz(absolute.scale), (1.0, 3.0, 8.0));
    let alone = Transform::<Real>::new(vec3(0.0, 0.0, 0.0)).with_offset(&inner);
    assert_eq!(xyz(alone.pos), (10.0, 20.0, 30.0));
    assert_eq!(xyz(alone.scale), (0.5, 1.0, 2.0));
    let nothing: Transform<Real> = Transform::compose(&Vec::new());
    assert_eq!(xyz(nothing.pos), (0.0, 0.0, 0.0));
    assert_eq!(xyz(nothing.scale), (1.0, 1.0, 1.0));
}

#[test]
fn translate_walk_lists_targets_in_pre_order_and_restores_the_stack() {
    let world = family();
    let mut stack: Vec<Transform<Real>> = vec![at(100.0, 0.0, 0.0)];
    let mut found: Vec<Target<Real>> = Vec::new();
    TranslateSystem::translate(&world.root, &world.store, &mut stack, &mut found);
    assert_eq!(stack.len(), 1);
    assert_eq!(xyz(stack[0].pos), (100.0, 0.0, 0.0));
    let depths: Vec<usize> = found.iter().map(|t| t.offsets.len()).collect();
    assert_eq!(depths, vec![4, 2, 3]);
    assert!(found[0].model.is_some() && found[0].rigid_body.is_some());
    assert!(found[1].model.is_none() && found[1].rigid_body.is_some());
    let uncle: Vec<_> = found[1].offsets.iter().map(|t| xyz(t.pos)).collect();
    assert_eq!(uncle, vec![(100.0, 0.0, 0.0), (1.0, 0.0, 0.0)]);
    let cousin: Vec<_> = found[2].offsets.iter().map(|t| xyz(t.pos)).collect();
    assert_eq!(cousin, vec![(100.0, 0.0, 0.0), (1.0, 0.0, 0.0), (5.0, 5.0, 5.0)]);
}

#[test]
fn translate_can_be_run_without_the_scheduling_contract() {
    let mut world = family();
    let mut translate: TranslateSystem<'_, Real> = TranslateSystem::new();
    assert!(translate.is_frozen(&world.store));
    translate.run(&mut world.store);
    assert_eq!(last_position(&world, "leaf"), (0.0, 0.0, 0.0));
    translate.fetch(&world.root);
    assert!(translate.is_frozen(&world.store));
    assert!(!translate.is_frozen(&ComponentStore::new()));
    translate.run(&mut world.store);
    assert_eq!(last_position(&world, "leaf"), (1.0, 1.0, 1.0));
    assert_eq!(last_position(&world, "cousin"), (6.0, 5.0, 5.0));
}

#[test]
fn the_fold_of_offsets_starts_at_rest() {
    let mut world = family();
    let mut translate = TranslateSystem::new();
    assert!(translate.on_fetch(&world.root).is_ok());
    assert!(translate.tick(&mut world.store, Real(0.01)));
    let model = find(&world.root, "leaf").component::<GraphicsModel<Real>>().unwrap();
    let view = world.store.models[model.index()].view.unwrap();
    assert_eq!(xyz(view.vel), (0.0, 0.0, 0.0));
    assert_eq!(xyz(view.rot_acc), (0.0, 0.0, 0.0));
    assert!(!view.frozen);
    let leaf = find(&world.root, "leaf").component::<Transform<Real>>().unwrap();
    assert_eq!(xyz(world.store.transforms[leaf.index()].rot_acc), (0.1, 0.1, 0.1));
}

#[test]
fn translate_before_fetch_does_nothing() {
    let mut world = family();
    let translate: TranslateSystem<'_, Real> = TranslateSystem::new();
    assert!(translate.tick(&mut world.store, Real(0.01)));
    assert_eq!(last_position(&world, "leaf"), (0.0, 0.0, 0.0));
}

#[test]
fn translate_follows_a_transform_that_moved() {
    let mut world = family();
    let mut translate = TranslateSystem::new();
    assert!(translate.on_fetch(&world.root).is_ok());
    assert!(translate.tick(&mut world.store, Real(0.01)));
    let parent = find(&world.root, "parent").component::<Transform<Real>>().unwrap();
    parent.peek_mut(&mut world.store, |t: &mut Transform<Real>| t.pos = vec3(0.0, 7.0, 0.0));
    assert!(translate.tick(&mut world.store, Real(0.01)));
    assert_eq!(last_position(&world, "leaf"), (1.0, 7.0, 1.0));
    assert_eq!(last_position(&world, "uncle"), (1.0, 0.0, 0.0));
}

#[test]
fn translate_does_not_freeze_on_a_store_that_lacks_a_component() {
    let world = family();
    let mut translate = TranslateSystem::new();
    assert!(translate.on_fetch(&world.root).is_ok());
    let mut empty: ComponentStore<Real> = ComponentStore::new();
    assert!(translate.on_freeze(&empty).is_err());
    assert!(!translate.tick(&mut empty, Real(0.01)));
    assert!(translate.on_freeze(&world.store).is_ok());
    assert!(TranslateSystem::held_everywhere(&world.root, &world.store));
    assert!(!TranslateSystem::held_everywhere(&world.root, &empty));
}

#[test]
fn translate_then_gravity_uses_the_absolute_positions() {
    let mut world = World::new(
        EntityBuilder::new()
            .with_name("root")
            .with_component(at(0.0, 10.0, 0.0))
            .with_child(
                EntityBuilder::new()
                    .with_name("left")
                    .with_component(at(0.0, 0.0, 0.0))
                    .with_component(RigidBody::new(Real(2.0))),
            )
            .with_child(
                EntityBuilder::new()
                    .with_name("right")
                    .with_component(at(2.0, 0.0, 0.0))
                    .with_component(RigidBody::new(Real(8.0))),
            ),
    );
    let mut translate = TranslateSystem::new();
    assert!(translate.on_fetch(&world.root).is_ok());
    assert!(translate.tick(&mut world.store, Real(0.01)));
    assert_eq!(last_position(&world, "left"), (0.0, 10.0, 0.0));
    assert_eq!(last_position(&world, "right"), (2.0, 10.0, 0.0));
    let mut gravity = GravitySystem::new(Double(0.5));
    assert!(gravity.on_fetch(&world.root).is_ok());
    assert!(gravity.tick(&mut world.store, Real(0.01)));
    let left = find(&world.root, "left").component::<RigidBody<Real>>().unwrap();
    assert_eq!(force(&world.store.rigid_bodies[left.index()], "gravity"), Some((2.0, 0.0, 0.0)));
}
