//! Controllers that move a camera from the keyboard.

use vstd::prelude::*;
use crate::input::event::{DeviceEvent, ElementState, VirtualKeyCode};
use crate::math::scalar::{is_difference, is_product, is_sum, Scalar};
use crate::world::entity::component::camera::CameraPerspective;

verus! {

/// Turns a third person camera with the arrow keys and zooms it with space
/// and left shift.
pub struct KeyArrowCameraController<S> {
    pub speed: S,
    pub left: bool,
    pub right: bool,
    pub up: bool,
    pub down: bool,
    pub zoom_in: bool,
    pub zoom_out: bool,
}

impl<S: Copy> Copy for KeyArrowCameraController<S> {

}

impl<S: Copy> Clone for KeyArrowCameraController<S> {
    fn clone(&self) -> (r: Self)
        ensures
            r == *self,
    {
        *self
    }
}

impl<S: Scalar> KeyArrowCameraController<S> {
    /// The key of `event` and whether it went down, where `event` is about
    /// one of the six keys this controller reads.
    pub open spec fn claimed(event: DeviceEvent) -> Option<(VirtualKeyCode, bool)> {
        match event {
            DeviceEvent::Key { state, virtual_keycode: Some(key) } => {
                if key == VirtualKeyCode::Space || key == VirtualKeyCode::LShift || key
                    == VirtualKeyCode::Up || key == VirtualKeyCode::Down || key
                    == VirtualKeyCode::Left || key == VirtualKeyCode::Right {
                    Some((key, state == ElementState::Pressed))
                } else {
                    None
                }
            },
            _ => None,
        }
    }

    /// This controller after `event`: the flag of the key that `event` is
    /// about follows the key, all else stays.
    pub open spec fn after(self, event: DeviceEvent) -> Self {
        match Self::claimed(event) {
            Some((key, pressed)) => KeyArrowCameraController {
                speed: self.speed,
                left: if key == VirtualKeyCode::Left {
                    pressed
                } else {
                    self.left
                },
                right: if key == VirtualKeyCode::Right {
                    pressed
                } else {
                    self.right
                },
                up: if key == VirtualKeyCode::Up {
                    pressed
                } else {
                    self.up
                },
                down: if key == VirtualKeyCode::Down {
                    pressed
                } else {
                    self.down
                },
                zoom_in: if key == VirtualKeyCode::Space {
                    pressed
                } else {
                    self.zoom_in
                },
                zoom_out: if key == VirtualKeyCode::LShift {
                    pressed
                } else {
                    self.zoom_out
                },
            },
            None => self,
        }
    }

    /// `r` is `x` less `step` where `less` holds, else `x` plus `step`
    /// where `more` holds, else `x`.
    pub open spec fn is_nudged(less: bool, more: bool, x: S, step: S, r: S) -> bool {
        if less {
            is_difference(x, step, r)
        } else if more {
            is_sum(x, step, r)
        } else {
            r == x
        }
    }

    /// `after` is the perspective `before` after the held keys acted on it
    /// for `delta` milliseconds.
    ///
    /// Only a third person view moves. With a step of the speed times
    /// `delta`, left turns it horizontally by the step backwards and right
    /// forwards, up turns it vertically backwards and down forwards, and the
    /// zoom keys move the distance, zooming in adding and zooming out taking
    /// the step. Of two opposite keys that are both held, the first named
    /// wins.
    pub open spec fn is_moved(
        self,
        before: CameraPerspective<S>,
        delta: S,
        after: CameraPerspective<S>,
    ) -> bool {
        match before {
            CameraPerspective::ThirdPersonView { distance, angle_horiz, angle_vert } => exists|
                step: S,
            |
                #![trigger is_product(self.speed, delta, step)]
                is_product(self.speed, delta, step) && (
                after matches CameraPerspective::ThirdPersonView {
                    distance: d,
                    angle_horiz: h,
                    angle_vert: v,
                } && Self::is_nudged(self.left, self.right, angle_horiz, step, h)
                    && Self::is_nudged(self.up, self.down, angle_vert, step, v) && Self::is_nudged(
                    !self.zoom_in && self.zoom_out,
                    self.zoom_in,
                    distance,
                    step,
                    d,
                )),
            _ => after == before,
        }
    }

    /// A controller of the given speed, in units per millisecond, with no
    /// key held.
    pub fn new(speed: S) -> (r: Self)
        ensures
            r == (KeyArrowCameraController {
                speed,
                left: false,
                right: false,
                up: false,
                down: false,
                zoom_in: false,
                zoom_out: false,
            }),
    {
        KeyArrowCameraController {
            speed,
            left: false,
            right: false,
            up: false,
            down: false,
            zoom_in: false,
            zoom_out: false,
        }
    }

    /// Takes note of a device event. Returns whether the event was about a
    /// key of this controller, and so is used up.
    pub fn on_incoming_event(&mut self, incoming_event: &DeviceEvent) -> (consumed: bool)
        ensures
            consumed == Self::claimed(*incoming_event) is Some,
            *final(self) == old(self).after(*incoming_event),
    {
        match incoming_event {
            DeviceEvent::Key { state, virtual_keycode: Some(keycode) } => {
                let pressed = *state == ElementState::Pressed;
                match keycode {
                    VirtualKeyCode::Space => {
                        self.zoom_in = pressed;
                        true
                    },
                    VirtualKeyCode::LShift => {
                        self.zoom_out = pressed;
                        true
                    },
                    VirtualKeyCode::Up => {
                        self.up = pressed;
                        true
                    },
                    VirtualKeyCode::Down => {
                        self.down = pressed;
                        true
                    },
                    VirtualKeyCode::Left => {
                        self.left = pressed;
                        true
                    },
                    VirtualKeyCode::Right => {
                        self.right = pressed;
                        true
                    },
                    _ => false,
                }
            },
            _ => false,
        }
    }

    fn nudge(less: bool, more: bool, x: S, step: S) -> (r: S)
        ensures
            Self::is_nudged(less, more, x, step, r),
    {
        if less {
            x.minus(step)
        } else if more {
            x.plus(step)
        } else {
            x
        }
    }

    /// Lets the held keys act on `perspective` for `delta` milliseconds.
    pub fn on_update_perspective(&self, perspective: &mut CameraPerspective<S>, delta: S)
        ensures
            self.is_moved(*old(perspective), delta, *final(perspective)),
    {
        match *perspective {
            CameraPerspective::ThirdPersonView { distance, angle_horiz, angle_vert } => {
                let step = self.speed.times(delta);
                assert(is_product(self.speed, delta, step));
                *perspective = CameraPerspective::ThirdPersonView {
                    distance: Self::nudge(
                        !self.zoom_in && self.zoom_out,
                        self.zoom_in,
                        distance,
                        step,
                    ),
                    angle_horiz: Self::nudge(self.left, self.right, angle_horiz, step),
                    angle_vert: Self::nudge(self.up, self.down, angle_vert, step),
                };
            },
            _ => {},
        }
    }
}

} // verus!
