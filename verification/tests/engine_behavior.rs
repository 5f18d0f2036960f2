use tamepad::{
    Action, Binding, Button, ButtonCombo, ButtonHandler, ButtonState, CachedConfig, ConfigError,
    GamepadConfig, Key, Overlay, State, StateMapping,
};

fn key_binding(button: Button, key: Key) -> Binding {
    Binding::Button {
        button,
        handler: ButtonHandler { mapping: Some(StateMapping::Key(key)), label: None },
    }
}

fn overlay_binding(button: Button, name: &str) -> Binding {
    Binding::Button {
        button,
        handler: ButtonHandler {
            mapping: Some(StateMapping::Overlay(String::from(name))),
            label: None,
        },
    }
}

fn combo_binding(name: &str, key: Key) -> Binding {
    Binding::Combo {
        combo: String::from(name),
        handler: ButtonHandler { mapping: Some(StateMapping::Key(key)), label: None },
    }
}

/// Base overlay: A -> Z key, X/Y individual handlers, chord {X, Y} -> C key
/// with a 200 ms window, Start pushes overlay "shift" which rebinds A -> Q.
fn test_config() -> GamepadConfig {
    GamepadConfig {
        combos: vec![(
            String::from("xy"),
            ButtonCombo { timeout: 200, buttons: vec![Button::X, Button::Y] },
        )],
        overlays: vec![
            (
                String::from("base"),
                Overlay {
                    label: None,
                    bindings: vec![
                        key_binding(Button::A, Key::Z),
                        key_binding(Button::X, Key::A),
                        key_binding(Button::Y, Key::B),
                        combo_binding("xy", Key::C),
                        overlay_binding(Button::Start, "shift"),
                    ],
                },
            ),
            (
                String::from("shift"),
                Overlay { label: None, bindings: vec![key_binding(Button::A, Key::Q)] },
            ),
        ],
        base_overlay: String::from("base"),
    }
}

fn engine() -> (CachedConfig, State) {
    let cfg = CachedConfig::build(&test_config()).expect("config builds");
    let state = State::new(&cfg);
    (cfg, state)
}

#[test]
fn no_chord_press_resolves_immediately() {
    let (cfg, mut s) = engine();
    let mut out = Vec::new();
    s.handle_button(&cfg, Button::A, true, 0, &mut out);
    assert_eq!(out, vec![Action::KeyDown(Key::Z)]);
    assert!(s.button_states[Button::A.index()].handled);
    assert!(s.button_states[Button::A.index()].down);
}

#[test]
fn no_chord_release_resolves_immediately() {
    let (cfg, mut s) = engine();
    let mut out = Vec::new();
    s.handle_button(&cfg, Button::A, true, 0, &mut out);
    out.clear();
    s.handle_button(&cfg, Button::A, false, 10, &mut out);
    assert_eq!(out, vec![Action::KeyUp(Key::Z)]);
    assert!(s.button_states[Button::A.index()].handled);
    assert!(!s.button_states[Button::A.index()].down);
}

#[test]
fn duplicate_edge_is_a_no_op() {
    let (cfg, mut s) = engine();
    let mut out = Vec::new();
    s.handle_button(&cfg, Button::A, true, 0, &mut out);
    out.clear();
    s.handle_button(&cfg, Button::A, true, 5, &mut out);
    assert!(out.is_empty());
}

#[test]
fn unbound_button_resolves_silently() {
    let (cfg, mut s) = engine();
    let mut out = Vec::new();
    s.handle_button(&cfg, Button::B, true, 0, &mut out);
    assert!(out.is_empty());
    assert!(s.button_states[Button::B.index()].handled);
}

#[test]
fn chord_member_press_goes_pending() {
    let (cfg, mut s) = engine();
    let mut out = Vec::new();
    s.handle_button(&cfg, Button::X, true, 0, &mut out);
    assert!(out.is_empty());
    let bs = &s.button_states[Button::X.index()];
    assert!(bs.down);
    assert!(!bs.handled);
    assert_eq!(bs.handle_at, Some(200));
    assert_eq!(s.next_deadline(), Some(200));
}

#[test]
fn chord_completes_within_window() {
    let (cfg, mut s) = engine();
    let mut out = Vec::new();
    s.handle_button(&cfg, Button::X, true, 0, &mut out);
    s.handle_button(&cfg, Button::Y, true, 100, &mut out);
    // Exactly the chord's down action; the members' own handlers never fire.
    assert_eq!(out, vec![Action::KeyDown(Key::C)]);
    assert!(s.combo_states[0]);
    let xs = &s.button_states[Button::X.index()];
    let ys = &s.button_states[Button::Y.index()];
    assert!(xs.handled && ys.handled);
    assert_eq!(xs.in_combo, Some(0));
    assert_eq!(ys.in_combo, Some(0));
}

#[test]
fn redundant_timer_after_completion_is_inert() {
    let (cfg, mut s) = engine();
    let mut out = Vec::new();
    s.handle_button(&cfg, Button::X, true, 0, &mut out);
    s.handle_button(&cfg, Button::Y, true, 100, &mut out);
    out.clear();
    // The completing press still arms a timer entry, but the sweep skips
    // resolved buttons: the timer fires nothing.
    assert_eq!(s.next_deadline(), Some(300));
    s.handle_timeouts(&cfg, 300, &mut out);
    assert!(out.is_empty());
    assert!(s.combo_states[0]);
}

#[test]
fn chord_times_out_to_ordinary_press() {
    let (cfg, mut s) = engine();
    let mut out = Vec::new();
    s.handle_button(&cfg, Button::X, true, 0, &mut out);
    // Strictly before the deadline nothing resolves.
    s.handle_timeouts(&cfg, 199, &mut out);
    assert!(out.is_empty());
    assert!(!s.button_states[Button::X.index()].handled);
    // At the deadline the press falls back to X's own handler.
    s.handle_timeouts(&cfg, 200, &mut out);
    assert_eq!(out, vec![Action::KeyDown(Key::A)]);
    assert!(s.button_states[Button::X.index()].handled);
}

#[test]
fn chord_breaks_on_partial_release() {
    let (cfg, mut s) = engine();
    let mut out = Vec::new();
    s.handle_button(&cfg, Button::X, true, 0, &mut out);
    s.handle_button(&cfg, Button::Y, true, 100, &mut out);
    out.clear();
    s.handle_button(&cfg, Button::X, false, 150, &mut out);
    assert_eq!(out, vec![Action::KeyUp(Key::C)]);
    assert!(!s.combo_states[0]);
    let reset = ButtonState { down: false, handled: true, in_combo: None, handle_at: None };
    assert_eq!(s.button_states[Button::X.index()], reset);
    assert_eq!(s.button_states[Button::Y.index()], reset);
    // The other member was force-reset, so its later release is a duplicate
    // edge and fires nothing.
    out.clear();
    s.handle_button(&cfg, Button::Y, false, 160, &mut out);
    assert!(out.is_empty());
}

#[test]
fn rapid_opposite_edge_flushes_pending_press() {
    let (cfg, mut s) = engine();
    let mut out = Vec::new();
    s.handle_button(&cfg, Button::X, true, 0, &mut out);
    assert!(out.is_empty());
    // The release first flushes the unresolved press (down action), then
    // resolves the release itself: every edge produces exactly one resolution.
    s.handle_button(&cfg, Button::X, false, 50, &mut out);
    assert_eq!(out, vec![Action::KeyDown(Key::A), Action::KeyUp(Key::A)]);
    assert!(s.button_states[Button::X.index()].handled);
}

#[test]
fn overlay_precedence_and_fallback() {
    let (cfg, mut s) = engine();
    let mut out = Vec::new();
    // Base handler first.
    s.handle_button(&cfg, Button::A, true, 0, &mut out);
    s.handle_button(&cfg, Button::A, false, 1, &mut out);
    assert_eq!(out, vec![Action::KeyDown(Key::Z), Action::KeyUp(Key::Z)]);
    out.clear();
    // Push the shift overlay: its binding now wins.
    s.handle_button(&cfg, Button::Start, true, 2, &mut out);
    assert!(out.is_empty());
    assert_eq!(s.current_overlays, vec![0, 1]);
    s.handle_button(&cfg, Button::A, true, 3, &mut out);
    s.handle_button(&cfg, Button::A, false, 4, &mut out);
    assert_eq!(out, vec![Action::KeyDown(Key::Q), Action::KeyUp(Key::Q)]);
    out.clear();
    // Release the overlay trigger: lookups fall back to the base.
    s.handle_button(&cfg, Button::Start, false, 5, &mut out);
    assert_eq!(s.current_overlays, vec![0]);
    s.handle_button(&cfg, Button::A, true, 6, &mut out);
    assert_eq!(out, vec![Action::KeyDown(Key::Z)]);
}

#[test]
fn overlay_push_is_idempotent() {
    let (cfg, mut s) = engine();
    let mut out = Vec::new();
    s.handle_button(&cfg, Button::Start, true, 0, &mut out);
    assert_eq!(s.current_overlays, vec![0, 1]);
    // A second activation of the same overlay mapping does not duplicate it.
    s.add_overlay(&cfg, &String::from("shift"));
    assert_eq!(s.current_overlays, vec![0, 1]);
}

#[test]
fn base_overlay_is_never_removed() {
    let (cfg, mut s) = engine();
    s.remove_overlay(&cfg, &String::from("base"));
    assert_eq!(s.current_overlays, vec![0]);
}

#[test]
fn unknown_overlay_trigger_is_a_no_op() {
    let (cfg, mut s) = engine();
    s.add_overlay(&cfg, &String::from("nope"));
    assert_eq!(s.current_overlays, vec![0]);
}

#[test]
fn missing_base_overlay_is_fatal() {
    let mut doc = test_config();
    doc.base_overlay = String::from("absent");
    match CachedConfig::build(&doc) {
        Err(e) => assert_eq!(e, ConfigError::BaseOverlayNotFound),
        Ok(_) => panic!("a missing base overlay must be fatal"),
    }
}

#[test]
fn unknown_combo_reference_is_dropped() {
    let mut doc = test_config();
    doc.overlays[0].1.bindings.push(combo_binding("nope", Key::D));
    let cfg = CachedConfig::build(&doc).expect("unresolved binding is not fatal");
    // Only the resolvable chord binding remains in the table.
    assert_eq!(cfg.overlays[0].combos.len(), 1);
    assert_eq!(cfg.overlays[0].combos[0].0, 0);
}

#[test]
fn button_state_default_is_up_and_resolved() {
    let bs = ButtonState::default();
    assert!(!bs.down);
    assert!(bs.handled);
    assert_eq!(bs.in_combo, None);
    assert_eq!(bs.handle_at, None);
}

#[test]
fn next_deadline_is_earliest_pending() {
    let (cfg, mut s) = engine();
    assert_eq!(s.next_deadline(), None);
    let mut out = Vec::new();
    s.handle_button(&cfg, Button::X, true, 50, &mut out);
    assert_eq!(s.next_deadline(), Some(250));
}

#[test]
fn active_maps_record_and_prune_by_value() {
    // The bookkeeping list records (overlay, mapping) on activation and is
    // pruned by mapping value on deactivation; nothing else consumes it.
    let (cfg, mut s) = engine();
    let mut out = Vec::new();
    assert!(s.active_maps.is_empty());
    s.handle_button(&cfg, Button::A, true, 0, &mut out);
    assert_eq!(s.active_maps.len(), 1);
    assert_eq!(s.active_maps[0].0, 0);
    assert!(s.active_maps[0].1.matches_mapping(&StateMapping::Key(Key::Z)));
    s.handle_button(&cfg, Button::Start, true, 1, &mut out);
    assert_eq!(s.active_maps.len(), 2);
    s.handle_button(&cfg, Button::Start, false, 2, &mut out);
    // Pruning matches the mapping value: only the key activation remains.
    assert_eq!(s.active_maps.len(), 1);
    assert!(s.active_maps[0].1.matches_mapping(&StateMapping::Key(Key::Z)));
    s.handle_button(&cfg, Button::A, false, 3, &mut out);
    assert!(s.active_maps.is_empty());
}

#[test]
fn stick_state_default_is_at_rest() {
    let ss = tamepad::StickState::default();
    assert_eq!(ss.angle_millideg, 0);
    assert_eq!(ss.magnitude, 0);
    assert_eq!(ss.sector, None);
}

#[test]
fn release_resolves_through_current_overlay_context() {
    // A press resolved under the base overlay and released after a mode
    // switch resolves its release through the overlay stack as it stands at
    // release time.
    let (cfg, mut s) = engine();
    let mut out = Vec::new();
    s.handle_button(&cfg, Button::A, true, 0, &mut out);
    assert_eq!(out, vec![Action::KeyDown(Key::Z)]);
    out.clear();
    s.handle_button(&cfg, Button::Start, true, 1, &mut out);
    s.handle_button(&cfg, Button::A, false, 2, &mut out);
    assert_eq!(out, vec![Action::KeyUp(Key::Q)]);
}
