use vstd::prelude::*;

verus! {

/// The keys that steer the camera; every other key is `Other`.
#[derive(Clone, Copy, Debug, PartialEq, Eq)]
pub enum Key {
    KeyW,
    KeyA,
    KeyS,
    KeyD,
    Space,
    ShiftLeft,
    Other,
}

/// What the camera controller is told of a window event: a key going down or up, or
/// anything else.
#[derive(Clone, Copy, Debug, PartialEq, Eq)]
pub enum InputEvent {
    Keyboard { key: Key, pressed: bool },
    Other,
}

/// Which of the movement keys are held down.
#[derive(Clone, Copy, Debug, PartialEq, Eq)]
pub struct CameraController {
    pub is_forward_pressed: bool,
    pub is_backward_pressed: bool,
    pub is_left_pressed: bool,
    pub is_right_pressed: bool,
    pub is_up_pressed: bool,
    pub is_down_pressed: bool,
}

/// The controller after `key` went down (`pressed`) or up; keys that do not steer the
/// camera leave it as it was.
pub open spec fn after_key(c: CameraController, key: Key, pressed: bool) -> CameraController {
    match key {
        Key::KeyW => CameraController { is_forward_pressed: pressed, ..c },
        Key::KeyA => CameraController { is_left_pressed: pressed, ..c },
        Key::KeyS => CameraController { is_backward_pressed: pressed, ..c },
        Key::KeyD => CameraController { is_right_pressed: pressed, ..c },
        Key::Space => CameraController { is_up_pressed: pressed, ..c },
        Key::ShiftLeft => CameraController { is_down_pressed: pressed, ..c },
        Key::Other => c,
    }
}

/// The event is a movement key going down or up.
pub open spec fn steers(event: InputEvent) -> bool {
    match event {
        InputEvent::Keyboard { key, pressed: _ } => key != Key::Other,
        InputEvent::Other => false,
    }
}

impl CameraController {
    /// A controller with no key held down.
    pub fn new() -> (c: CameraController)
        ensures
            !c.is_forward_pressed,
            !c.is_backward_pressed,
            !c.is_left_pressed,
            !c.is_right_pressed,
            !c.is_up_pressed,
            !c.is_down_pressed,
    {
        CameraController {
            is_forward_pressed: false,
            is_backward_pressed: false,
            is_left_pressed: false,
            is_right_pressed: false,
            is_up_pressed: false,
            is_down_pressed: false,
        }
    }

    /// Records a movement key going down or up (W, A, S, D, Space, left Shift) and says
    /// whether the event was one of them.
    pub fn process_events(&mut self, event: &InputEvent) -> (handled: bool)
        ensures
            handled == steers(*event),
            *final(self) == match *event {
                InputEvent::Keyboard { key, pressed } => after_key(*old(self), key, pressed),
                InputEvent::Other => *old(self),
            },
            final(self).is_forward_pressed == match *event {
                InputEvent::Keyboard { key: Key::KeyW, pressed } => pressed,
                _ => old(self).is_forward_pressed,
            },
            final(self).is_left_pressed == match *event {
                InputEvent::Keyboard { key: Key::KeyA, pressed } => pressed,
                _ => old(self).is_left_pressed,
            },
            final(self).is_backward_pressed == match *event {
                InputEvent::Keyboard { key: Key::KeyS, pressed } => pressed,
                _ => old(self).is_backward_pressed,
            },
            final(self).is_right_pressed == match *event {
                InputEvent::Keyboard { key: Key::KeyD, pressed } => pressed,
                _ => old(self).is_right_pressed,
            },
            final(self).is_up_pressed == match *event {
                InputEvent::Keyboard { key: Key::Space, pressed } => pressed,
                _ => old(self).is_up_pressed,
            },
            final(self).is_down_pressed == match *event {
                InputEvent::Keyboard { key: Key::ShiftLeft, pressed } => pressed,
                _ => old(self).is_down_pressed,
            },
    {
        match event {
            InputEvent::Keyboard { key, pressed } => {
                let is_pressed = *pressed;
                match key {
                    Key::KeyW => {
                        self.is_forward_pressed = is_pressed;
                        true
                    },
                    Key::KeyA => {
                        self.is_left_pressed = is_pressed;
                        true
                    },
                    Key::KeyS => {
                        self.is_backward_pressed = is_pressed;
                        true
                    },
                    Key::KeyD => {
                        self.is_right_pressed = is_pressed;
                        true
                    },
                    Key::Space => {
                        self.is_up_pressed = is_pressed;
                        true
                    },
                    Key::ShiftLeft => {
                        self.is_down_pressed = is_pressed;
                        true
                    },
                    Key::Other => false,
                }
            },
            InputEvent::Other => false,
        }
    }
}

/// Releasing a key after pressing it leaves the controller as releasing it alone would,
/// and for a movement key a press and a release leave different states: the last event
/// of a key decides whether it is held.
pub proof fn lemma_release_undoes_press(c: CameraController, key: Key)
    ensures
        after_key(after_key(c, key, true), key, false) == after_key(c, key, false),
        after_key(after_key(c, key, false), key, true) == after_key(c, key, true),
        key != Key::Other ==> after_key(c, key, true) != after_key(c, key, false),
{
}

} // verus!
