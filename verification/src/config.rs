//! The declarative mapping document and the event/action vocabularies.
//!
//! A mapping document declares chords (`combos`), named mapping contexts
//! (`overlays`, each a list of bindings from a button, chord, or stick to a
//! handler) and the name of the base overlay that is always active. Stick
//! geometry is carried in integer units: angles in millidegrees
//! (0..=360_000) and magnitudes in thousandths of full deflection, so every
//! comparison the engine makes is exact.

use vstd::prelude::*;

use crate::buttons::{Axis, Button};
use crate::keys::Key;

verus! {

/// What a handler does when it activates or deactivates: emit a key edge, or
/// enter/leave a named overlay.
#[derive(Debug)]
pub enum StateMapping {
    Key(Key),
    Overlay(String),
}

/// Behavior bound to a button or chord: an optional mapping to trigger and an
/// optional display label.
#[derive(Debug)]
pub struct ButtonHandler {
    pub mapping: Option<StateMapping>,
    pub label: Option<String>,
}

/// One angular sector of a stick's range. `from_millideg` is the sector's
/// lower boundary in millidegrees; the sector extends to the next boundary.
#[derive(Debug)]
pub struct Sector {
    pub from_millideg: u64,
    pub mapping: Option<StateMapping>,
    pub label: Option<String>,
}

/// Angular sector layout for a stick: a dead-zone threshold (thousandths of
/// full deflection, inclusive) and the sector list.
#[derive(Debug)]
pub struct CircleHandler {
    pub min_value: u64,
    pub sectors: Vec<Sector>,
}

/// Behavior bound to a stick.
#[derive(Debug)]
pub struct StickHandler {
    pub circle: Option<CircleHandler>,
}

/// One binding of an overlay: a button, a chord (by name), or a stick (by
/// index) associated with a handler.
#[derive(Debug)]
pub enum Binding {
    Button { button: Button, handler: ButtonHandler },
    Combo { combo: String, handler: ButtonHandler },
    Stick { stick: usize, handler: StickHandler },
}

/// A named mapping context: a display label and its bindings.
#[derive(Debug)]
pub struct Overlay {
    pub label: Option<String>,
    pub bindings: Vec<Binding>,
}

/// A chord: a set of buttons that resolve to one combined action when all are
/// down within `timeout` milliseconds.
#[derive(Debug)]
pub struct ButtonCombo {
    pub timeout: u64,
    pub buttons: Vec<Button>,
}

/// The validated mapping document: chords and overlays by name, and the name
/// of the base overlay.
#[derive(Debug)]
pub struct GamepadConfig {
    pub combos: Vec<(String, ButtonCombo)>,
    pub overlays: Vec<(String, Overlay)>,
    pub base_overlay: String,
}

/// A normalized input event from the controller reader.
#[derive(Clone, Debug)]
pub enum InputEvent {
    ButtonDown(u32, Button),
    ButtonUp(u32, Button),
    AxisMoved(u32, Axis, i16),
    DeviceAdded(u32, String),
    DeviceRemoved(u32),
}

/// A resolved action handed to the output emitter.
#[derive(Copy, Clone, Eq, PartialEq, Hash, Debug, Structural)]
pub enum Action {
    KeyDown(Key),
    KeyUp(Key),
}

/// A fatal error while building the lookup cache from a mapping document.
#[derive(Copy, Clone, Eq, PartialEq, Debug, Structural)]
pub enum ConfigError {
    /// The document's base overlay name matches none of its overlays.
    BaseOverlayNotFound,
}

/// Equality of two mappings, comparing overlay names by their character
/// sequences. The active-mapping bookkeeping list is pruned by this relation.
pub open spec fn mapping_eq(a: StateMapping, b: StateMapping) -> bool {
    match (a, b) {
        (StateMapping::Key(x), StateMapping::Key(y)) => x == y,
        (StateMapping::Overlay(s), StateMapping::Overlay(t)) => s@ == t@,
        _ => false,
    }
}

impl StateMapping {
    /// Decides `mapping_eq` on two mappings.
    pub fn matches_mapping(&self, other: &StateMapping) -> (r: bool)
        ensures
            r == mapping_eq(*self, *other),
    {
        match (self, other) {
            (StateMapping::Key(x), StateMapping::Key(y)) => *x == *y,
            (StateMapping::Overlay(s), StateMapping::Overlay(t)) => s.eq(t),
            _ => false,
        }
    }

    /// An identical copy of this mapping.
    pub fn duplicate(&self) -> (r: StateMapping)
        ensures
            r == *self,
    {
        match self {
            StateMapping::Key(k) => StateMapping::Key(*k),
            StateMapping::Overlay(s) => StateMapping::Overlay(s.clone()),
        }
    }
}

/// An identical copy of an optional string.
pub fn clone_opt_string(s: &Option<String>) -> (r: Option<String>)
    ensures
        r == *s,
{
    match s {
        Some(x) => Some(x.clone()),
        None => None,
    }
}

/// An identical copy of an optional mapping.
pub fn clone_opt_mapping(m: &Option<StateMapping>) -> (r: Option<StateMapping>)
    ensures
        r == *m,
{
    match m {
        Some(x) => Some(x.duplicate()),
        None => None,
    }
}

impl ButtonHandler {
    /// An identical copy of this handler.
    pub fn duplicate(&self) -> (r: ButtonHandler)
        ensures
            r == *self,
    {
        ButtonHandler { mapping: clone_opt_mapping(&self.mapping), label: clone_opt_string(&self.label) }
    }
}

impl Sector {
    /// An identical copy of this sector.
    pub fn duplicate(&self) -> (r: Sector)
        ensures
            r == *self,
    {
        Sector {
            from_millideg: self.from_millideg,
            mapping: clone_opt_mapping(&self.mapping),
            label: clone_opt_string(&self.label),
        }
    }
}

} // verus!
