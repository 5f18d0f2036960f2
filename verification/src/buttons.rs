//! Physical controller buttons and axes, and their dense ordinal indices.
//!
//! Per-button and per-axis engine state lives in fixed-size arrays indexed by
//! these ordinals, so every enum here comes with an index function whose
//! result is pinned down exactly.

use vstd::prelude::*;

verus! {

/// Number of physical buttons the engine tracks state for.
pub const NUM_BUTTONS: usize = 23;

/// Number of analog axes the engine tracks state for.
pub const NUM_AXES: usize = 6;

/// Number of analog sticks (left, right) built out of axis pairs.
pub const NUM_STICKS: usize = 2;

/// A physical button of the controller.
#[derive(Copy, Clone, Eq, PartialEq, Hash, Debug, Structural)]
pub enum Button {
    A,
    B,
    X,
    Y,
    Back,
    Guide,
    Start,
    LeftStick,
    RightStick,
    LeftShoulder,
    RightShoulder,
    DPadUp,
    DPadDown,
    DPadLeft,
    DPadRight,
    Misc1,
    Paddle1,
    Paddle2,
    Paddle3,
    Paddle4,
    Touchpad,
    TriggerLeft,
    TriggerRight,
}

/// An analog axis of the controller. The trigger axes usually behave as
/// buttons and are not part of a stick.
#[derive(Copy, Clone, Eq, PartialEq, Hash, Debug, Structural)]
pub enum Axis {
    LeftX,
    LeftY,
    RightX,
    RightY,
    TriggerLeft,
    TriggerRight,
}

impl Button {
    /// Dense ordinal of this button, as an abstract value.
    pub open spec fn spec_index(self) -> usize {
        match self {
            Button::A => 0,
            Button::B => 1,
            Button::X => 2,
            Button::Y => 3,
            Button::Back => 4,
            Button::Guide => 5,
            Button::Start => 6,
            Button::LeftStick => 7,
            Button::RightStick => 8,
            Button::LeftShoulder => 9,
            Button::RightShoulder => 10,
            Button::DPadUp => 11,
            Button::DPadDown => 12,
            Button::DPadLeft => 13,
            Button::DPadRight => 14,
            Button::Misc1 => 15,
            Button::Paddle1 => 16,
            Button::Paddle2 => 17,
            Button::Paddle3 => 18,
            Button::Paddle4 => 19,
            Button::Touchpad => 20,
            Button::TriggerLeft => 21,
            Button::TriggerRight => 22,
        }
    }

    /// Dense ordinal of this button, used to index per-button state arrays.
    #[verifier::when_used_as_spec(spec_index)]
    pub fn index(self) -> (i: usize)
        ensures
            i == self.spec_index(),
            i < NUM_BUTTONS,
    {
        match self {
            Button::A => 0,
            Button::B => 1,
            Button::X => 2,
            Button::Y => 3,
            Button::Back => 4,
            Button::Guide => 5,
            Button::Start => 6,
            Button::LeftStick => 7,
            Button::RightStick => 8,
            Button::LeftShoulder => 9,
            Button::RightShoulder => 10,
            Button::DPadUp => 11,
            Button::DPadDown => 12,
            Button::DPadLeft => 13,
            Button::DPadRight => 14,
            Button::Misc1 => 15,
            Button::Paddle1 => 16,
            Button::Paddle2 => 17,
            Button::Paddle3 => 18,
            Button::Paddle4 => 19,
            Button::Touchpad => 20,
            Button::TriggerLeft => 21,
            Button::TriggerRight => 22,
        }
    }
}

impl Axis {
    /// Dense ordinal of this axis, as an abstract value.
    pub open spec fn spec_index(self) -> usize {
        match self {
            Axis::LeftX => 0,
            Axis::LeftY => 1,
            Axis::RightX => 2,
            Axis::RightY => 3,
            Axis::TriggerLeft => 4,
            Axis::TriggerRight => 5,
        }
    }

    /// Dense ordinal of this axis, used to index the per-axis state array.
    #[verifier::when_used_as_spec(spec_index)]
    pub fn index(self) -> (i: usize)
        ensures
            i == self.spec_index(),
            i < NUM_AXES,
    {
        match self {
            Axis::LeftX => 0,
            Axis::LeftY => 1,
            Axis::RightX => 2,
            Axis::RightY => 3,
            Axis::TriggerLeft => 4,
            Axis::TriggerRight => 5,
        }
    }
}

} // verus!
