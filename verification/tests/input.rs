use kristall::input::camera::KeyArrowCameraController;
use kristall::input::entity::{InputAccelerationMethod, WASDEntityController};
use kristall::input::event::{DeviceEvent, ElementState, VirtualKeyCode};
use kristall::math::scalar::Scalar;
use kristall::math::vector::Vector3;
use kristall::world::entity::builder::EntityBuilder;
use kristall::world::entity::component::camera::CameraPerspective;
use kristall::world::entity::component::controller::Controller;
use kristall::world::entity::component::rigid_body::RigidBody;
use kristall::world::entity::component::ComponentStore;
use kristall::world::entity::{Entity, EntityContainer};
use kristall::world::system::input::{dispatch_event, InputSystem};
use kristall::world::system::System;
use kristall::world::World;

#[derive(Clone, Copy, Debug, PartialEq)]
struct Real(f32);

impl Scalar for Real {
    fn zero() -> Self {
        Real(0.0)
    }

    fn one() -> Self {
        Real(1.0)
    }

    fn plus(self, rhs: Self) -> Self {
        Real(self.0 + rhs.0)
    }

    fn minus(self, rhs: Self) -> Self {
        Real(self.0 - rhs.0)
    }

    fn times(self, rhs: Self) -> Self {
        Real(self.0 * rhs.0)
    }

    fn over(self, rhs: Self) -> Self {
        Real(self.0 / rhs.0)
    }

    fn root(self) -> Self {
        Real(self.0.sqrt())
    }

    fn is_nan(self) -> bool {
        self.0.is_nan()
    }

    fn is_positive(self) -> bool {
        self.0 > 0.0
    }
}

fn vec3(x: f32, y: f32, z: f32) -> Vector3<Real> {
    Vector3 { x: Real(x), y: Real(y), z: Real(z) }
}

fn xyz(v: Vector3<Real>) -> (f32, f32, f32) {
    (v.x.0, v.y.0, v.z.0)
}

fn press(key: VirtualKeyCode) -> DeviceEvent {
    DeviceEvent::Key { state: ElementState::Pressed, virtual_keycode: Some(key) }
}

fn release(key: VirtualKeyCode) -> DeviceEvent {
    DeviceEvent::Key { state: ElementState::Released, virtual_keycode: Some(key) }
}

fn by_force(magnitude: f32) -> WASDEntityController<Real> {
    WASDEntityController::new(InputAccelerationMethod::Force(Real(magnitude)))
}

fn by_velocity(magnitude: f32) -> WASDEntityController<Real> {
    WASDEntityController::new(InputAccelerationMethod::Velocity(Real(magnitude)))
}

fn flags(c: &WASDEntityController<Real>) -> [bool; 6] {
    [c.forward, c.back, c.left, c.right, c.up, c.down]
}

fn find<'a>(root: &'a Entity, name: &'static str) -> &'a Entity {
    root.query_entity_by_name(name, true).next().expect("no entity of that name")
}

#[test]
fn a_new_controller_holds_no_key() {
    let c = by_force(1.0);
    assert_eq!(flags(&c), [false; 6]);
    assert!(matches!(c.acc_method, InputAccelerationMethod::Force(Real(m)) if m == 1.0));
}

#[test]
fn each_of_the_six_keys_sets_its_flag() {
    let keys = [
        VirtualKeyCode::W,
        VirtualKeyCode::S,
        VirtualKeyCode::A,
        VirtualKeyCode::D,
        VirtualKeyCode::Space,
        VirtualKeyCode::LShift,
    ];
    for (i, key) in keys.iter().enumerate() {
        let mut c = by_force(1.0);
        assert!(c.on_incoming_event(&press(*key)));
        let mut expected = [false; 6];
        expected[i] = true;
        assert_eq!(flags(&c), expected);
        assert!(c.on_incoming_event(&release(*key)));
        assert_eq!(flags(&c), [false; 6]);
    }
}

#[test]
fn other_events_are_not_consumed_and_change_nothing() {
    let mut c = by_force(1.0);
    assert!(c.on_incoming_event(&press(VirtualKeyCode::W)));
    let before = flags(&c);
    for key in [VirtualKeyCode::Up, VirtualKeyCode::Down, VirtualKeyCode::Left, VirtualKeyCode::Right, VirtualKeyCode::Other] {
        assert!(!c.on_incoming_event(&press(key)));
        assert!(!c.on_incoming_event(&release(key)));
    }
    assert!(!c.on_incoming_event(&DeviceEvent::Other));
    assert!(!c.on_incoming_event(&DeviceEvent::Key { state: ElementState::Pressed, virtual_keycode: None }));
    assert_eq!(flags(&c), before);
}

#[test]
fn the_push_follows_the_held_keys() {
    let mut c = by_force(2.0);
    assert_eq!(xyz(c.push(Real(2.0))), (0.0, 0.0, 0.0));
    c.on_incoming_event(&press(VirtualKeyCode::D));
    c.on_incoming_event(&press(VirtualKeyCode::Space));
    c.on_incoming_event(&press(VirtualKeyCode::S));
    assert_eq!(xyz(c.push(Real(2.0))), (2.0, 2.0, 2.0));
    c.on_incoming_event(&press(VirtualKeyCode::A));
    c.on_incoming_event(&press(VirtualKeyCode::LShift));
    c.on_incoming_event(&press(VirtualKeyCode::W));
    assert_eq!(xyz(c.push(Real(2.0))), (-2.0, -2.0, -2.0));
    c.on_incoming_event(&release(VirtualKeyCode::D));
    c.on_incoming_event(&release(VirtualKeyCode::Space));
    c.on_incoming_event(&release(VirtualKeyCode::S));
    assert_eq!(xyz(c.push(Real(0.5))), (-0.5, -0.5, -0.5));
}

#[test]
fn a_force_controller_commits_a_force_called_input() {
    let mut c = by_force(3.0);
    c.on_incoming_event(&press(VirtualKeyCode::W));
    c.on_incoming_event(&press(VirtualKeyCode::D));
    let mut body = RigidBody::new(Real(1.0));
    body.velocity = vec3(9.0, 9.0, 9.0);
    c.steer(&mut body);
    assert_eq!(body.forces.len(), 1);
    assert_eq!(body.forces[0].source, "input");
    assert_eq!(xyz(body.forces[0].force), (3.0, 0.0, -3.0));
    assert_eq!(xyz(body.velocity), (9.0, 9.0, 9.0));
    c.on_incoming_event(&release(VirtualKeyCode::W));
    c.steer(&mut body);
    assert_eq!(body.forces.len(), 1);
    assert_eq!(xyz(body.forces[0].force), (3.0, 0.0, 0.0));
}

#[test]
fn a_velocity_controller_sets_the_velocity() {
    let mut c = by_velocity(10.0);
    c.on_incoming_event(&press(VirtualKeyCode::A));
    c.on_incoming_event(&press(VirtualKeyCode::Space));
    let mut body = RigidBody::new(Real(1.0));
    body.velocity = vec3(9.0, 9.0, 9.0);
    c.steer(&mut body);
    assert_eq!(xyz(body.velocity), (-10.0, 10.0, 0.0));
    assert!(body.forces.is_empty());
}

fn player(controller: WASDEntityController<Real>) -> EntityBuilder<Real> {
    EntityBuilder::new()
        .with_name("player")
        .with_component(RigidBody::new(Real(1.0)))
        .with_component(Controller::new(controller))
}

#[test]
fn update_entity_steers_the_rigid_body_of_the_entity() {
    let mut world = World::new(
        EntityBuilder::new()
            .with_name("root")
            .with_child(player(by_velocity(10.0)))
            .with_child(EntityBuilder::new().with_name("bystander").with_component(RigidBody::new(Real(1.0)))),
    );
    let mut c = by_velocity(10.0);
    c.on_incoming_event(&press(VirtualKeyCode::S));
    assert!(c.update_entity(find(&world.root, "player"), &mut world.store, Real(0.01)));
    let steered = find(&world.root, "player").component::<RigidBody<Real>>().unwrap();
    let other = find(&world.root, "bystander").component::<RigidBody<Real>>().unwrap();
    assert_eq!(xyz(world.store.rigid_bodies[steered.index()].velocity), (0.0, 0.0, 10.0));
    assert_eq!(xyz(world.store.rigid_bodies[other.index()].velocity), (0.0, 0.0, 0.0));
}

#[test]
fn update_entity_skips_an_entity_without_a_rigid_body() {
    let mut world: World<Real> = World::new(
        EntityBuilder::new()
            .with_name("root")
            .with_component(RigidBody::new(Real(1.0)))
            .with_child(EntityBuilder::new().with_name("bodiless")),
    );
    let mut c = by_velocity(10.0);
    c.on_incoming_event(&press(VirtualKeyCode::S));
    assert!(!c.update_entity(find(&world.root, "bodiless"), &mut world.store, Real(0.01)));
    assert!(!Controller::new(c).update(find(&world.root, "bodiless"), &mut world.store, Real(0.01)));
    assert_eq!(xyz(world.store.rigid_bodies[0].velocity), (0.0, 0.0, 0.0));
}

#[test]
fn dispatch_gives_a_claimed_event_to_the_first_controller_only() {
    let mut world = World::new(
        EntityBuilder::new()
            .with_name("root")
            .with_child(player(by_force(1.0)))
            .with_child(player(by_force(2.0))),
    );
    assert!(dispatch_event(&world.root, &mut world.store, &press(VirtualKeyCode::W)));
    assert_eq!(flags(&world.store.controllers[0].input_source), [true, false, false, false, false, false]);
    assert_eq!(flags(&world.store.controllers[1].input_source), [false; 6]);
    assert!(dispatch_event(&world.root, &mut world.store, &release(VirtualKeyCode::W)));
    assert_eq!(flags(&world.store.controllers[0].input_source), [false; 6]);
}

#[test]
fn dispatch_reports_an_event_that_nobody_claims() {
    let mut world = World::new(EntityBuilder::new().with_name("root").with_child(player(by_force(1.0))));
    assert!(!dispatch_event(&world.root, &mut world.store, &press(VirtualKeyCode::Up)));
    assert!(!dispatch_event(&world.root, &mut world.store, &DeviceEvent::Other));
    assert_eq!(flags(&world.store.controllers[0].input_source), [false; 6]);
    let mut bare: World<Real> = World::new(EntityBuilder::new().with_name("root"));
    assert!(!dispatch_event(&bare.root, &mut bare.store, &press(VirtualKeyCode::W)));
}

#[test]
fn dispatch_passes_over_controllers_that_are_not_in_the_store() {
    let world = World::new(EntityBuilder::new().with_name("root").with_child(player(by_force(1.0))));
    let mut empty: ComponentStore<Real> = ComponentStore::new();
    assert!(!dispatch_event(&world.root, &mut empty, &press(VirtualKeyCode::W)));
}

#[test]
fn the_input_system_lets_every_controller_steer_its_entity() {
    let mut world = World::new(
        EntityBuilder::new()
            .with_name("root")
            .with_child(player(by_velocity(10.0)))
            .with_child(EntityBuilder::new().with_name("bystander").with_component(RigidBody::new(Real(1.0))))
            .with_child(
                EntityBuilder::new()
                    .with_name("ghost")
                    .with_component(Controller::new(by_velocity(5.0))),
            )
            .with_child(player(by_force(4.0))),
    );
    for controller in world.store.controllers.iter_mut() {
        controller.input_source.on_incoming_event(&press(VirtualKeyCode::D));
    }
    let mut input = InputSystem::new();
    assert!(input.on_fetch(&world.root).is_ok());
    assert!(input.on_fetch(&world.root).is_ok());
    assert!(input.tick(&mut world.store, Real(0.01)));
    let bodies = &world.store.rigid_bodies;
    assert_eq!(xyz(bodies[0].velocity), (10.0, 0.0, 0.0));
    assert!(bodies[0].forces.is_empty());
    assert_eq!(xyz(bodies[1].velocity), (0.0, 0.0, 0.0));
    assert!(bodies[1].forces.is_empty());
    assert_eq!(xyz(bodies[2].velocity), (0.0, 0.0, 0.0));
    assert_eq!(bodies[2].forces.len(), 1);
    assert_eq!(bodies[2].forces[0].source, "input");
    assert_eq!(xyz(bodies[2].forces[0].force), (4.0, 0.0, 0.0));
}

#[test]
fn the_input_system_lists_the_controlled_entities_without_a_rigid_body() {
    let world = World::new(
        EntityBuilder::new()
            .with_name("root")
            .with_component(Controller::new(by_force(1.0)))
            .with_child(player(by_velocity(10.0)))
            .with_child(EntityBuilder::new().with_name("bystander").with_component(RigidBody::new(Real(1.0))))
            .with_child(
                EntityBuilder::new()
                    .with_name("ghost")
                    .with_component(Controller::new(by_velocity(5.0))),
            )
            .with_child(player(by_force(4.0))),
    );
    let mut input: InputSystem<'_, Real> = InputSystem::new();
    assert!(input.unsteered().is_empty());
    assert!(input.on_fetch(&world.root).is_ok());
    let names: Vec<&str> = input.unsteered().into_iter().map(|e| e.name().as_str()).collect();
    assert_eq!(names, vec!["root", "ghost"]);
    let all_steered = World::new(EntityBuilder::new().with_name("root").with_child(player(by_force(1.0))));
    assert!(input.on_fetch(&all_steered.root).is_ok());
    assert!(input.unsteered().is_empty());
}

#[test]
fn the_input_system_can_be_run_without_the_scheduling_contract() {
    let mut world = World::new(EntityBuilder::new().with_name("root").with_child(player(by_velocity(10.0))));
    world.store.controllers[0].input_source.on_incoming_event(&press(VirtualKeyCode::A));
    let mut input: InputSystem<'_, Real> = InputSystem::new();
    assert!(input.is_frozen(&ComponentStore::new()));
    input.fetch(&world.root);
    assert!(!input.is_frozen(&ComponentStore::new()));
    assert!(input.is_frozen(&world.store));
    input.run(&mut world.store, Real(0.01));
    assert_eq!(xyz(world.store.rigid_bodies[0].velocity), (-10.0, 0.0, 0.0));
}

#[test]
fn the_input_system_does_not_freeze_on_a_store_that_lacks_its_controllers() {
    let world = World::new(EntityBuilder::new().with_name("root").with_child(player(by_force(1.0))));
    let mut input = InputSystem::new();
    assert!(input.on_fetch(&world.root).is_ok());
    let mut empty: ComponentStore<Real> = ComponentStore::new();
    assert!(input.on_freeze(&empty).is_err());
    assert!(!input.tick(&mut empty, Real(0.01)));
    assert!(input.on_freeze(&world.store).is_ok());
}

fn camera_keys(c: &KeyArrowCameraController<Real>) -> [bool; 6] {
    [c.left, c.right, c.up, c.down, c.zoom_in, c.zoom_out]
}

fn third_person(distance: f32, horiz: f32, vert: f32) -> CameraPerspective<Real> {
    CameraPerspective::new_third_person(Real(distance), Real(horiz), Real(vert))
}

fn view(p: &CameraPerspective<Real>) -> (f32, f32, f32) {
    match p {
        CameraPerspective::ThirdPersonView { distance, angle_horiz, angle_vert } => {
            (distance.0, angle_horiz.0, angle_vert.0)
        }
        _ => panic!("not a third person view"),
    }
}

#[test]
fn the_camera_controller_reads_the_arrows_space_and_shift() {
    let keys = [
        VirtualKeyCode::Left,
        VirtualKeyCode::Right,
        VirtualKeyCode::Up,
        VirtualKeyCode::Down,
        VirtualKeyCode::Space,
        VirtualKeyCode::LShift,
    ];
    for (i, key) in keys.iter().enumerate() {
        let mut c = KeyArrowCameraController::new(Real(0.5));
        assert!(c.on_incoming_event(&press(*key)));
        let mut expected = [false; 6];
        expected[i] = true;
        assert_eq!(camera_keys(&c), expected);
        assert!(c.on_incoming_event(&release(*key)));
        assert_eq!(camera_keys(&c), [false; 6]);
    }
    let mut c = KeyArrowCameraController::new(Real(0.5));
    assert!(!c.on_incoming_event(&press(VirtualKeyCode::W)));
    assert!(!c.on_incoming_event(&DeviceEvent::Other));
    assert_eq!(camera_keys(&c), [false; 6]);
}

#[test]
fn the_camera_controller_turns_and_zooms_by_speed_times_time() {
    let mut c = KeyArrowCameraController::new(Real(0.5));
    let mut p = third_person(25.0, 1.0, 2.0);
    c.on_update_perspective(&mut p, Real(4.0));
    assert_eq!(view(&p), (25.0, 1.0, 2.0));
    c.on_incoming_event(&press(VirtualKeyCode::Left));
    c.on_incoming_event(&press(VirtualKeyCode::Down));
    c.on_incoming_event(&press(VirtualKeyCode::Space));
    c.on_update_perspective(&mut p, Real(4.0));
    assert_eq!(view(&p), (27.0, -1.0, 4.0));
    c.on_incoming_event(&release(VirtualKeyCode::Left));
    c.on_incoming_event(&release(VirtualKeyCode::Down));
    c.on_incoming_event(&release(VirtualKeyCode::Space));
    c.on_incoming_event(&press(VirtualKeyCode::Right));
    c.on_incoming_event(&press(VirtualKeyCode::Up));
    c.on_incoming_event(&press(VirtualKeyCode::LShift));
    c.on_update_perspective(&mut p, Real(2.0));
    assert_eq!(view(&p), (26.0, 0.0, 3.0));
}

#[test]
fn of_two_opposite_camera_keys_the_first_wins() {
    let mut c = KeyArrowCameraController::new(Real(1.0));
    for key in [
        VirtualKeyCode::Left,
        VirtualKeyCode::Right,
        VirtualKeyCode::Up,
        VirtualKeyCode::Down,
        VirtualKeyCode::Space,
        VirtualKeyCode::LShift,
    ] {
        c.on_incoming_event(&press(key));
    }
    let mut p = third_person(10.0, 10.0, 10.0);
    c.on_update_perspective(&mut p, Real(1.0));
    assert_eq!(view(&p), (11.0, 9.0, 9.0));
}

#[test]
fn the_camera_controller_moves_a_third_person_view_only() {
    let mut c = KeyArrowCameraController::new(Real(1.0));
    c.on_incoming_event(&press(VirtualKeyCode::Left));
    let mut first = CameraPerspective::<Real>::FirstPersonView;
    c.on_update_perspective(&mut first, Real(1.0));
    assert!(matches!(first, CameraPerspective::FirstPersonView));
    let mut birds = CameraPerspective::<Real>::BirdsEyeView;
    c.on_update_perspective(&mut birds, Real(1.0));
    assert!(matches!(birds, CameraPerspective::BirdsEyeView));
}
