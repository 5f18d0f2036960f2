//! Remaps a physical game controller into virtual keyboard input.
//!
//! The heart of the crate is a resolution engine: a state machine that
//! distinguishes isolated button presses from multi-button chords using a
//! timing window, maintains a stack of mapping overlays with priority-ordered
//! lookup, and classifies analog stick motion into discrete angular sectors
//! with edge-triggered transitions. Every state transition carries a contract
//! that pins down the successor state and the emitted key actions exactly.

pub mod buttons;
pub mod cache;
pub mod config;
pub mod engine;
pub mod keys;
pub mod laws;
pub mod stick;

pub use buttons::{Axis, Button, NUM_AXES, NUM_BUTTONS, NUM_STICKS};
pub use keys::Key;
pub use cache::{ButtonComboList, CachedCombo, CachedConfig, CachedOverlay};
pub use engine::{ButtonState, State, StickState};
pub use config::{Action, Binding, ButtonCombo, ButtonHandler, CircleHandler, ConfigError, GamepadConfig, InputEvent, Overlay, Sector, StateMapping, StickHandler};
