//! Controllers that steer an entity from the keyboard.

use vstd::prelude::*;
use crate::input::event::{DeviceEvent, ElementState, VirtualKeyCode};
use crate::math::scalar::{is_difference, is_one, is_zero, Scalar};
use crate::math::vector::Vector3;
use crate::world::entity::component::rigid_body::RigidBody;
use crate::world::entity::component::ComponentStore;
use crate::world::entity::Entity;

verus! {

/// What the magnitude of an entity controller's push is applied to.
pub enum InputAccelerationMethod<S> {
    /// The push is a force of the given magnitude.
    Force(S),
    /// The push sets the velocity to the given magnitude.
    Velocity(S),
}

impl<S: Copy> Copy for InputAccelerationMethod<S> {

}

impl<S: Copy> Clone for InputAccelerationMethod<S> {
    fn clone(&self) -> (r: Self)
        ensures
            r == *self,
    {
        *self
    }
}

/// Steers an entity with W, A, S, D, space and left shift.
pub struct WASDEntityController<S> {
    pub forward: bool,
    pub back: bool,
    pub left: bool,
    pub right: bool,
    pub up: bool,
    pub down: bool,
    pub acc_method: InputAccelerationMethod<S>,
}

impl<S: Copy> Copy for WASDEntityController<S> {

}

impl<S: Copy> Clone for WASDEntityController<S> {
    fn clone(&self) -> (r: Self)
        ensures
            r == *self,
    {
        *self
    }
}

impl<S> WASDEntityController<S> {
    /// The key of `event` and whether it went down, where `event` is about
    /// one of the six keys this controller reads.
    pub open spec fn claimed(event: DeviceEvent) -> Option<(VirtualKeyCode, bool)> {
        match event {
            DeviceEvent::Key { state, virtual_keycode: Some(key) } => {
                if key == VirtualKeyCode::W || key == VirtualKeyCode::S || key
                    == VirtualKeyCode::A || key == VirtualKeyCode::D || key
                    == VirtualKeyCode::Space || key == VirtualKeyCode::LShift {
                    Some((key, state == ElementState::Pressed))
                } else {
                    None
                }
            },
            _ => None,
        }
    }

    /// This controller after `event`: the flag of the key that `event` is
    /// about follows the key, all else stays.
    pub open spec fn after(self, event: DeviceEvent) -> Self {
        match Self::claimed(event) {
            Some((key, pressed)) => WASDEntityController {
                forward: if key == VirtualKeyCode::W {
                    pressed
                } else {
                    self.forward
                },
                back: if key == VirtualKeyCode::S {
                    pressed
                } else {
                    self.back
                },
                left: if key == VirtualKeyCode::A {
                    pressed
                } else {
                    self.left
                },
                right: if key == VirtualKeyCode::D {
                    pressed
                } else {
                    self.right
                },
                up: if key == VirtualKeyCode::Space {
                    pressed
                } else {
                    self.up
                },
                down: if key == VirtualKeyCode::LShift {
                    pressed
                } else {
                    self.down
                },
                acc_method: self.acc_method,
            },
            None => self,
        }
    }

    /// A controller with no key held.
    pub fn new(acc_method: InputAccelerationMethod<S>) -> (r: Self)
        ensures
            r == (WASDEntityController {
                forward: false,
                back: false,
                left: false,
                right: false,
                up: false,
                down: false,
                acc_method,
            }),
    {
        WASDEntityController {
            forward: false,
            back: false,
            left: false,
            right: false,
            up: false,
            down: false,
            acc_method,
        }
    }

    /// Takes note of a device event. Returns whether the event was about a
    /// key of this controller, and so is used up.
    pub fn on_incoming_event(&mut self, incoming_event: &DeviceEvent) -> (consumed: bool)
        ensures
            consumed == Self::claimed(*incoming_event) is Some,
            *final(self) == old(self).after(*incoming_event),
    {
        match incoming_event {
            DeviceEvent::Key { state, virtual_keycode: Some(keycode) } => {
                let pressed = *state == ElementState::Pressed;
                match keycode {
                    VirtualKeyCode::W => {
                        self.forward = pressed;
                        true
                    },
                    VirtualKeyCode::S => {
                        self.back = pressed;
                        true
                    },
                    VirtualKeyCode::A => {
                        self.left = pressed;
                        true
                    },
                    VirtualKeyCode::D => {
                        self.right = pressed;
                        true
                    },
                    VirtualKeyCode::Space => {
                        self.up = pressed;
                        true
                    },
                    VirtualKeyCode::LShift => {
                        self.down = pressed;
                        true
                    },
                    _ => false,
                }
            },
            _ => false,
        }
    }
}

impl<S: Scalar> WASDEntityController<S> {
    /// `r` is the direction along one axis: minus one (zero less one) where
    /// the key towards the negative end is held, else one where the key
    /// towards the positive end is held, else zero.
    pub open spec fn is_direction(negative: bool, positive: bool, r: S) -> bool {
        if negative {
            exists|zero: S, one: S|
                #![trigger is_difference(zero, one, r)]
                is_zero(zero) && is_one(one) && is_difference(zero, one, r)
        } else if positive {
            is_one(r)
        } else {
            is_zero(r)
        }
    }

    /// `r` is the push of this controller at the given magnitude: along
    /// each axis the direction the held keys give, times the magnitude.
    /// Left and right give x, down and up give y, forward and back give z.
    pub open spec fn is_push(self, magnitude: S, r: Vector3<S>) -> bool {
        exists|dir: Vector3<S>|
            #![trigger Vector3::is_scaled(dir, magnitude, r)]
            Self::is_direction(self.left, self.right, dir.x) && Self::is_direction(
                self.down,
                self.up,
                dir.y,
            ) && Self::is_direction(self.forward, self.back, dir.z) && Vector3::is_scaled(
                dir,
                magnitude,
                r,
            )
    }

    /// `after` is the body `before` as this controller steers it: by a
    /// force called "input", or by setting the velocity.
    pub open spec fn is_steered(self, before: RigidBody<S>, after: RigidBody<S>) -> bool {
        match self.acc_method {
            InputAccelerationMethod::Force(magnitude) => exists|
                push: Vector3<S>,
                cleaned: Vector3<S>,
            |
                #![trigger self.is_push(magnitude, push), RigidBody::is_cleaned(push, cleaned)]
                self.is_push(magnitude, push) && RigidBody::is_cleaned(push, cleaned)
                    && RigidBody::same_motion(before, after) && RigidBody::is_committed(
                    before.forces@,
                    "input"@,
                    cleaned,
                    after.forces@,
                ),
            InputAccelerationMethod::Velocity(magnitude) => exists|push: Vector3<S>|
                #![trigger self.is_push(magnitude, push)]
                self.is_push(magnitude, push) && after == (RigidBody { velocity: push, ..before }),
        }
    }

    fn direction(negative: bool, positive: bool) -> (r: S)
        ensures
            Self::is_direction(negative, positive, r),
    {
        if negative {
            let zero = S::zero();
            let one = S::one();
            let r = zero.minus(one);
            assert(is_difference(zero, one, r));
            r
        } else if positive {
            S::one()
        } else {
            S::zero()
        }
    }

    /// The push of this controller at the given magnitude.
    pub fn push(&self, magnitude: S) -> (r: Vector3<S>)
        ensures
            self.is_push(magnitude, r),
    {
        let dir = Vector3 {
            x: Self::direction(self.left, self.right),
            y: Self::direction(self.down, self.up),
            z: Self::direction(self.forward, self.back),
        };
        let r = dir.scaled(magnitude);
        assert(Vector3::is_scaled(dir, magnitude, r));
        r
    }

    /// Steers a body.
    pub fn steer(&self, rigid_body: &mut RigidBody<S>)
        ensures
            self.is_steered(*old(rigid_body), *final(rigid_body)),
    {
        match self.acc_method {
            InputAccelerationMethod::Force(magnitude) => {
                let push = self.push(magnitude);
                rigid_body.commit_force("input", push);
                proof {
                    let cleaned = choose|cleaned: Vector3<S>|
                        #![trigger RigidBody::is_cleaned(push, cleaned)]
                        RigidBody::is_cleaned(push, cleaned) && RigidBody::is_committed(
                            old(rigid_body).forces@,
                            "input"@,
                            cleaned,
                            rigid_body.forces@,
                        );
                    assert(self.is_push(magnitude, push) && RigidBody::is_cleaned(push, cleaned));
                }
            },
            InputAccelerationMethod::Velocity(magnitude) => {
                let push = self.push(magnitude);
                rigid_body.velocity = push;
                assert(self.is_push(magnitude, push));
            },
        }
    }

    /// Steers the rigid body of `entity`. Returns whether `entity` has one;
    /// where it has none, nothing happens.
    pub fn update_entity(&self, entity: &Entity, store: &mut ComponentStore<S>, delta: S) -> (r:
        bool)
        requires
            entity.spec_slots().rigid_body matches Some(at) ==> at < old(store).rigid_bodies@.len(),
        ensures
            r == entity.spec_slots().rigid_body is Some,
            Self::is_updated(*self, *entity, *old(store), *final(store)),
    {
        match entity.component::<RigidBody<S>>() {
            Some(manager) => {
                self.steer(&mut store.rigid_bodies[manager.index()]);
                true
            },
            None => false,
        }
    }

    /// `after` is `before` with the rigid body of `entity` steered by
    /// `controller`; where `entity` has none, `after` is `before`.
    pub open spec fn is_updated(
        controller: Self,
        entity: Entity,
        before: ComponentStore<S>,
        after: ComponentStore<S>,
    ) -> bool {
        match entity.spec_slots().rigid_body {
            Some(at) => {
                &&& at < before.rigid_bodies@.len()
                &&& after.rigid_bodies@.len() == before.rigid_bodies@.len()
                &&& controller.is_steered(
                    before.rigid_bodies@[at as int],
                    after.rigid_bodies@[at as int],
                )
                &&& forall|i: int|
                    0 <= i < before.rigid_bodies@.len() && i != at ==> after.rigid_bodies@[i]
                        == before.rigid_bodies@[i]
                &&& after.transforms == before.transforms
                &&& after.models == before.models
                &&& after.controllers == before.controllers
                &&& after.cameras == before.cameras
            },
            None => after == before,
        }
    }
}

} // verus!
