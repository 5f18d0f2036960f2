use tamepad::stick::classify_sector;
use tamepad::{
    Action, Axis, Binding, Button, ButtonCombo, CachedConfig, CircleHandler, GamepadConfig, Key,
    Overlay, Sector, State, StateMapping, StickHandler,
};

fn sector(from_millideg: u64, key: Key) -> Sector {
    Sector { from_millideg, mapping: Some(StateMapping::Key(key)), label: None }
}

/// Four quadrant sectors with boundaries at 20, 110, 200 and 290 degrees and
/// a dead zone of 0.3 (in thousandths), bound to the left stick.
fn quad_circle() -> CircleHandler {
    CircleHandler {
        min_value: 300,
        sectors: vec![
            sector(20_000, Key::H),
            sector(110_000, Key::J),
            sector(200_000, Key::K),
            sector(290_000, Key::L),
        ],
    }
}

fn stick_config() -> GamepadConfig {
    GamepadConfig {
        combos: Vec::new(),
        overlays: vec![(
            String::from("base"),
            Overlay {
                label: None,
                bindings: vec![Binding::Stick {
                    stick: 0,
                    handler: StickHandler { circle: Some(quad_circle()) },
                }],
            },
        )],
        base_overlay: String::from("base"),
    }
}

fn engine() -> (CachedConfig, State) {
    let cfg = CachedConfig::build(&stick_config()).expect("config builds");
    let state = State::new(&cfg);
    (cfg, state)
}

#[test]
fn magnitude_at_dead_zone_yields_no_sector() {
    let ch = quad_circle();
    // Inclusive dead zone: exactly the threshold is still "no sector".
    assert_eq!(classify_sector(&ch, 50_000, 300), None);
    assert_eq!(classify_sector(&ch, 50_000, 299), None);
    // Exclusive sector entry: one unit above the threshold classifies.
    assert_eq!(classify_sector(&ch, 50_000, 301), Some(0));
}

#[test]
fn classify_picks_last_boundary_at_or_below_angle() {
    let ch = quad_circle();
    assert_eq!(classify_sector(&ch, 20_000, 1000), Some(0));
    assert_eq!(classify_sector(&ch, 109_999, 1000), Some(0));
    assert_eq!(classify_sector(&ch, 110_000, 1000), Some(1));
    assert_eq!(classify_sector(&ch, 250_000, 1000), Some(2));
    assert_eq!(classify_sector(&ch, 359_000, 1000), Some(3));
}

#[test]
fn classify_wraps_below_first_boundary_to_last_sector() {
    let ch = quad_circle();
    // 10 degrees lies below the smallest boundary: the wrap sector (the last
    // one, spanning through 360 back to the first boundary) applies.
    assert_eq!(classify_sector(&ch, 10_000, 1000), Some(3));
}

#[test]
fn classify_with_no_sectors_yields_none() {
    let ch = CircleHandler { min_value: 300, sectors: Vec::new() };
    assert_eq!(classify_sector(&ch, 10_000, 1000), None);
}

#[test]
fn entering_a_sector_fires_enter_only() {
    let (cfg, mut s) = engine();
    let mut out = Vec::new();
    s.update_stick(&cfg, 0, 50_000, 800, &mut out);
    assert_eq!(out, vec![Action::KeyDown(Key::H)]);
    assert_eq!(s.stick_states[0].sector, Some(0));
    assert_eq!(s.stick_states[0].angle_millideg, 50_000);
    assert_eq!(s.stick_states[0].magnitude, 800);
}

#[test]
fn samples_within_one_sector_do_not_retrigger() {
    let (cfg, mut s) = engine();
    let mut out = Vec::new();
    s.update_stick(&cfg, 0, 50_000, 800, &mut out);
    out.clear();
    s.update_stick(&cfg, 0, 60_000, 700, &mut out);
    s.update_stick(&cfg, 0, 80_000, 900, &mut out);
    assert!(out.is_empty());
    assert_eq!(s.stick_states[0].sector, Some(0));
}

#[test]
fn crossing_sectors_fires_exit_then_enter() {
    let (cfg, mut s) = engine();
    let mut out = Vec::new();
    s.update_stick(&cfg, 0, 50_000, 800, &mut out);
    out.clear();
    s.update_stick(&cfg, 0, 150_000, 800, &mut out);
    assert_eq!(out, vec![Action::KeyUp(Key::H), Action::KeyDown(Key::J)]);
    assert_eq!(s.stick_states[0].sector, Some(1));
}

#[test]
fn returning_to_dead_zone_fires_exit_only() {
    let (cfg, mut s) = engine();
    let mut out = Vec::new();
    s.update_stick(&cfg, 0, 50_000, 800, &mut out);
    out.clear();
    s.update_stick(&cfg, 0, 50_000, 100, &mut out);
    assert_eq!(out, vec![Action::KeyUp(Key::H)]);
    assert_eq!(s.stick_states[0].sector, None);
}

#[test]
fn sectors_are_sorted_by_boundary_at_build() {
    // The same circle declared out of order classifies identically: the cache
    // sorts sector boundaries ascending.
    let mut doc = stick_config();
    doc.overlays[0].1.bindings = vec![Binding::Stick {
        stick: 0,
        handler: StickHandler {
            circle: Some(CircleHandler {
                min_value: 300,
                sectors: vec![
                    sector(290_000, Key::L),
                    sector(20_000, Key::H),
                    sector(200_000, Key::K),
                    sector(110_000, Key::J),
                ],
            }),
        },
    }];
    let cfg = CachedConfig::build(&doc).expect("config builds");
    let mut s = State::new(&cfg);
    let mut out = Vec::new();
    s.update_stick(&cfg, 0, 50_000, 800, &mut out);
    assert_eq!(out, vec![Action::KeyDown(Key::H)]);
    assert_eq!(s.stick_states[0].sector, Some(0));
}

#[test]
fn update_axis_names_the_stick_it_feeds() {
    let cfg = CachedConfig::build(&stick_config()).expect("config builds");
    let mut s = State::new(&cfg);
    assert_eq!(s.update_axis(Axis::LeftX, 1000), Some((0, 1000, 0)));
    assert_eq!(s.update_axis(Axis::LeftY, -2000), Some((0, 1000, -2000)));
    assert_eq!(s.update_axis(Axis::RightY, 7), Some((1, 0, 7)));
    assert_eq!(s.update_axis(Axis::TriggerLeft, 5), None);
    assert_eq!(s.axis_states, vec![1000, -2000, 0, 7, 5, 0]);
}

#[test]
fn stick_without_handler_keeps_stale_sector() {
    // A config whose only overlay binds nothing for stick 1: updates record
    // the pose but never touch the sector.
    let (cfg, mut s) = engine();
    let mut out = Vec::new();
    s.update_stick(&cfg, 1, 90_000, 900, &mut out);
    assert!(out.is_empty());
    assert_eq!(s.stick_states[1].sector, None);
    assert_eq!(s.stick_states[1].angle_millideg, 90_000);
}

#[test]
fn chordless_config_builds_empty_reverse_table() {
    let doc = GamepadConfig {
        combos: vec![(
            String::from("ab"),
            ButtonCombo { timeout: 150, buttons: vec![Button::A, Button::B] },
        )],
        overlays: vec![(String::from("base"), Overlay { label: None, bindings: Vec::new() })],
        base_overlay: String::from("base"),
    };
    let cfg = CachedConfig::build(&doc).expect("config builds");
    assert_eq!(cfg.button_combos.len(), tamepad::NUM_BUTTONS);
    assert_eq!(cfg.button_combos[Button::A.index()].combos, vec![0]);
    assert_eq!(cfg.button_combos[Button::A.index()].max_timeout, 150);
    assert_eq!(cfg.button_combos[Button::X.index()].combos, Vec::<usize>::new());
    assert_eq!(cfg.button_combos[Button::X.index()].max_timeout, 0);
}

#[test]
fn reverse_table_takes_longest_timeout() {
    let doc = GamepadConfig {
        combos: vec![
            (
                String::from("ab"),
                ButtonCombo { timeout: 150, buttons: vec![Button::A, Button::B] },
            ),
            (
                String::from("ax"),
                ButtonCombo { timeout: 500, buttons: vec![Button::A, Button::X] },
            ),
        ],
        overlays: vec![(String::from("base"), Overlay { label: None, bindings: Vec::new() })],
        base_overlay: String::from("base"),
    };
    let cfg = CachedConfig::build(&doc).expect("config builds");
    assert_eq!(cfg.button_combos[Button::A.index()].combos, vec![0, 1]);
    assert_eq!(cfg.button_combos[Button::A.index()].max_timeout, 500);
    assert_eq!(cfg.button_combos[Button::B.index()].max_timeout, 150);
    assert_eq!(cfg.combos[1].members, vec![Button::A.index(), Button::X.index()]);
}

#[test]
fn equal_boundaries_keep_document_order() {
    // Two sectors share a boundary: the sort is stable, and classification
    // picks the last sector whose boundary is at or below the angle — the
    // later of the two in document order.
    let ch = CircleHandler {
        min_value: 300,
        sectors: vec![sector(90_000, Key::H), sector(90_000, Key::J)],
    };
    assert_eq!(classify_sector(&ch, 90_000, 1000), Some(1));
    assert_eq!(classify_sector(&ch, 89_999, 1000), Some(1));
}
