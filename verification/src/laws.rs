//! The library's laws: properties of the resolution engine, overlay stack and
//! stick classifier, proved once and for all over the transition functions.

use vstd::prelude::*;

use crate::buttons::NUM_BUTTONS;
use crate::cache::{assoc, CachedConfig};
use crate::config::{Action, ButtonHandler, CircleHandler, StateMapping};
use crate::engine::{
    spec_check_combos, spec_claim_members, spec_clear_members, spec_combo_up,
    spec_do_handle_button, spec_find_button_handler, spec_find_combo_handler, spec_handle_button,
    spec_handle_timeouts, spec_sweep_from, spec_trigger_handler, spec_trigger_mapping, ButtonState,
    StateModel, Step,
};
use crate::stick::{spec_classify, spec_update_stick};

verus! {

/// Firing a mapping touches only the overlay stack and the active-mapping
/// list: buttons, chords, axes and sticks are untouched.
pub proof fn lemma_trigger_mapping_frame(
    cfg: CachedConfig,
    m: StateModel,
    map: StateMapping,
    down: bool,
    oidx: usize,
)
    ensures
        ({
            let s = spec_trigger_mapping(cfg, m, map, down, oidx);
            &&& s.state.buttons == m.buttons
            &&& s.state.combos == m.combos
            &&& s.state.axes == m.axes
            &&& s.state.sticks == m.sticks
        }),
{
}

/// Firing a handler touches only the overlay stack and the active-mapping
/// list.
pub proof fn lemma_trigger_handler_frame(
    cfg: CachedConfig,
    m: StateModel,
    h: ButtonHandler,
    down: bool,
    oidx: usize,
)
    ensures
        ({
            let s = spec_trigger_handler(cfg, m, h, down, oidx);
            &&& s.state.buttons == m.buttons
            &&& s.state.combos == m.combos
            &&& s.state.axes == m.axes
            &&& s.state.sticks == m.sticks
        }),
{
    match h.mapping {
        Some(map) => lemma_trigger_mapping_frame(cfg, m, map, down, oidx),
        None => {},
    }
}

/// Resolving a button rewrites exactly that button's state — marked handled,
/// deadline cleared — and leaves every other state vector untouched.
pub proof fn lemma_do_handle_frame(cfg: CachedConfig, m: StateModel, bi: usize, down: bool)
    requires
        bi < m.buttons.len(),
    ensures
        ({
            let s = spec_do_handle_button(cfg, m, bi, down);
            &&& s.state.buttons == m.buttons.update(
                bi as int,
                ButtonState {
                    down: m.buttons[bi as int].down,
                    handled: true,
                    in_combo: m.buttons[bi as int].in_combo,
                    handle_at: None,
                },
            )
            &&& s.state.combos == m.combos
            &&& s.state.axes == m.axes
            &&& s.state.sticks == m.sticks
        }),
{
    let b1 = ButtonState {
        down: m.buttons[bi as int].down,
        handled: true,
        in_combo: m.buttons[bi as int].in_combo,
        handle_at: None,
    };
    let m1 = StateModel { buttons: m.buttons.update(bi as int, b1), ..m };
    match spec_find_button_handler(cfg, m1.overlays, bi) {
        Some((oidx, h)) => lemma_trigger_handler_frame(cfg, m1, h, down, oidx),
        None => {},
    }
}

/// The actions a resolution emits: exactly the key edge of the handler found
/// for the button when that handler maps to a key, and nothing otherwise.
pub proof fn lemma_do_handle_actions(cfg: CachedConfig, m: StateModel, bi: usize, down: bool)
    requires
        bi < m.buttons.len(),
    ensures
        ({
            let s = spec_do_handle_button(cfg, m, bi, down);
            match spec_find_button_handler(cfg, m.overlays, bi) {
                Some((oidx, h)) => match h.mapping {
                    Some(StateMapping::Key(k)) => s.actions == seq![
                        if down {
                            Action::KeyDown(k)
                        } else {
                            Action::KeyUp(k)
                        },
                    ],
                    Some(StateMapping::Overlay(name)) => s.actions == Seq::<Action>::empty(),
                    None => s.actions == Seq::<Action>::empty(),
                },
                None => s.actions == Seq::<Action>::empty(),
            }
        }),
{
}

/// Dead-zone boundary: a magnitude at (or below) the dead-zone threshold
/// yields no sector — the dead zone is inclusive, sector entry exclusive.
pub proof fn law_dead_zone_inclusive(ch: CircleHandler, angle: u64, magnitude: u64)
    requires
        magnitude <= ch.min_value,
    ensures
        spec_classify(ch, angle, magnitude) is None,
{
}

/// Sector edge-triggering, quiet half: a sample whose pose stays in the same
/// sector (or stays out of every sector) fires nothing — the pose fields are
/// updated and no enter or exit mapping runs.
pub proof fn law_sector_no_retrigger(
    cfg: CachedConfig,
    m: StateModel,
    si: usize,
    angle: u64,
    magnitude: u64,
)
    requires
        si < m.sticks.len(),
        ({
            match crate::engine::spec_find_stick_handler(cfg, m.overlays, si) {
                Some((oidx, h)) => match h.circle {
                    Some(ch) => spec_classify(ch, angle, magnitude) == m.sticks[si as int].sector,
                    None => true,
                },
                None => true,
            }
        }),
    ensures
        ({
            let s = spec_update_stick(cfg, m, si, angle, magnitude);
            &&& s.actions == Seq::<Action>::empty()
            &&& s.state.sticks[si as int].sector == m.sticks[si as int].sector
            &&& s.state.buttons == m.buttons
            &&& s.state.overlays == m.overlays
        }),
{
}

/// Sector edge-triggering, firing half: a sample that crosses from one sector
/// into another fires exactly one exit (the old sector's mapping, as a
/// deactivation) followed by one enter (the new sector's mapping, as an
/// activation) — here stated for key mappings, where the emitted actions are
/// exactly that pair.
pub proof fn law_sector_cross_fires_once(
    cfg: CachedConfig,
    m: StateModel,
    si: usize,
    angle: u64,
    magnitude: u64,
    oidx: usize,
    ch: CircleHandler,
    pi: usize,
    ni: usize,
    exit_key: crate::keys::Key,
    enter_key: crate::keys::Key,
)
    requires
        si < m.sticks.len(),
        ({
            match crate::engine::spec_find_stick_handler(cfg, m.overlays, si) {
                Some((o, h)) => o == oidx && h.circle == Some(ch),
                None => false,
            }
        }),
        m.sticks[si as int].sector == Some(pi),
        spec_classify(ch, angle, magnitude) == Some(ni),
        ni != pi,
        pi < ch.sectors@.len(),
        ni < ch.sectors@.len(),
        ch.sectors@[pi as int].mapping == Some(StateMapping::Key(exit_key)),
        ch.sectors@[ni as int].mapping == Some(StateMapping::Key(enter_key)),
    ensures
        ({
            let s = spec_update_stick(cfg, m, si, angle, magnitude);
            &&& s.actions == seq![Action::KeyUp(exit_key), Action::KeyDown(enter_key)]
            &&& s.state.sticks[si as int].sector == Some(ni)
        }),
{
    let s = spec_update_stick(cfg, m, si, angle, magnitude);
    assert(s.actions =~= seq![Action::KeyUp(exit_key), Action::KeyDown(enter_key)]);
}

/// Overlay precedence: with overlay `top` pushed above the base and both
/// binding the same button, the pushed overlay's handler wins; on the bare
/// base stack, the base handler wins. Removing `top` from the two-overlay
/// stack yields exactly the bare base stack, so subsequent events fall back to
/// the base handler.
pub proof fn law_overlay_precedence(
    cfg: CachedConfig,
    base: usize,
    top: usize,
    bi: usize,
    hb: ButtonHandler,
    h0: ButtonHandler,
)
    requires
        base < cfg.overlays@.len(),
        top < cfg.overlays@.len(),
        base != top,
        assoc(cfg.overlays@[top as int].buttons@, bi) == Some(hb),
        assoc(cfg.overlays@[base as int].buttons@, bi) == Some(h0),
    ensures
        spec_find_button_handler(cfg, seq![base, top], bi) == Some((top, hb)),
        spec_find_button_handler(cfg, seq![base], bi) == Some((base, h0)),
        crate::engine::spec_remove_all(seq![base, top], top) == seq![base],
{
    let two = seq![base, top];
    assert(two.drop_last() =~= seq![base]);
    assert(seq![base].drop_last() =~= Seq::<usize>::empty());
    assert(crate::engine::spec_remove_all(Seq::<usize>::empty(), top) =~= Seq::<usize>::empty());
    assert(crate::engine::spec_remove_all(seq![base], top) =~= seq![base]);
    assert(crate::engine::spec_remove_all(two, top) =~= seq![base]);
}

/// No-chord immediacy: an edge on a button that participates in no chord and
/// has no unresolved prior edge resolves within the same step — the button
/// comes out handled, and the emitted actions are exactly the key edge of the
/// handler found for it (nothing when no handler or a non-key mapping is
/// found).
pub proof fn law_no_chord_immediacy(
    cfg: CachedConfig,
    m: StateModel,
    bi: usize,
    down: bool,
    now: u64,
)
    requires
        cfg.wf(),
        m.wf(cfg),
        bi < NUM_BUTTONS,
        cfg.button_combos@[bi as int].combos@.len() == 0,
        m.buttons[bi as int].in_combo is None,
        m.buttons[bi as int].handled,
        m.buttons[bi as int].down != down,
    ensures
        ({
            let step = spec_handle_button(cfg, m, bi, down, now);
            &&& step.state.buttons[bi as int].handled
            &&& step.state.buttons[bi as int].down == down
            &&& match spec_find_button_handler(cfg, m.overlays, bi) {
                Some((oidx, h)) => match h.mapping {
                    Some(StateMapping::Key(k)) => step.actions == seq![
                        if down {
                            Action::KeyDown(k)
                        } else {
                            Action::KeyUp(k)
                        },
                    ],
                    Some(StateMapping::Overlay(name)) => step.actions == Seq::<Action>::empty(),
                    None => step.actions == Seq::<Action>::empty(),
                },
                None => step.actions == Seq::<Action>::empty(),
            }
        }),
{
    let prev = m.buttons[bi as int];
    let m2 = StateModel {
        buttons: m.buttons.update(
            bi as int,
            ButtonState { down, handled: false, in_combo: prev.in_combo, handle_at: prev.handle_at },
        ),
        ..m
    };
    let s3 = spec_do_handle_button(cfg, m2, bi, down);
    lemma_do_handle_frame(cfg, m2, bi, down);
    lemma_do_handle_actions(cfg, m2, bi, down);
    let step = spec_handle_button(cfg, m, bi, down, now);
    assert(step.state == s3.state);
    assert(step.actions =~= s3.actions);
    assert(m2.overlays == m.overlays);
}

/// What clearing chord members does, button by button: members are fully
/// reset, everything else is untouched.
pub proof fn lemma_clear_members_elems(buttons: Seq<ButtonState>, members: Seq<usize>)
    requires
        buttons.len() <= usize::MAX,
    ensures
        spec_clear_members(buttons, members).len() == buttons.len(),
        forall|i: int|
            0 <= i < buttons.len() && !members.contains(i as usize)
                ==> spec_clear_members(buttons, members)[i] == buttons[i],
        forall|i: int|
            0 <= i < buttons.len() && members.contains(i as usize) ==> spec_clear_members(
                buttons,
                members,
            )[i] == (ButtonState { down: false, handled: true, in_combo: None, handle_at: None }),
    decreases members.len(),
{
    crate::engine::lemma_clear_members_len(buttons, members);
    if members.len() == 0 {
    } else {
        let dl = members.drop_last();
        lemma_clear_members_elems(buttons, dl);
        assert forall|v: usize| dl.contains(v) implies members.contains(v) by {
            let j = choose|j: int| 0 <= j < dl.len() && dl[j] == v;
            assert(members[j] == v);
        }
        assert(members.contains(members.last())) by {
            assert(members[members.len() - 1] == members.last());
        }
        assert forall|i: int|
            0 <= i < buttons.len() && members.contains(i as usize) implies spec_clear_members(
            buttons,
            members,
        )[i] == (ButtonState { down: false, handled: true, in_combo: None, handle_at: None }) by {
            if members.last() == i as usize {
            } else {
                let j = choose|j: int| 0 <= j < members.len() && members[j] == i as usize;
                assert(dl[j] == i as usize);
                assert(dl.contains(i as usize));
            }
        }
    }
}

/// What claiming chord members does, button by button: members keep their
/// direction, come out resolved and claimed by the chord with no deadline;
/// everything else is untouched.
pub proof fn lemma_claim_members_elems(buttons: Seq<ButtonState>, members: Seq<usize>, cidx: usize)
    requires
        buttons.len() <= usize::MAX,
    ensures
        spec_claim_members(buttons, members, cidx).len() == buttons.len(),
        forall|i: int|
            0 <= i < buttons.len() && !members.contains(i as usize)
                ==> spec_claim_members(buttons, members, cidx)[i] == buttons[i],
        forall|i: int|
            0 <= i < buttons.len() && members.contains(i as usize) ==> spec_claim_members(
                buttons,
                members,
                cidx,
            )[i] == (ButtonState {
                down: buttons[i].down,
                handled: true,
                in_combo: Some(cidx),
                handle_at: None,
            }),
    decreases members.len(),
{
    crate::engine::lemma_claim_members_len(buttons, members, cidx);
    if members.len() == 0 {
    } else {
        let dl = members.drop_last();
        lemma_claim_members_elems(buttons, dl, cidx);
        assert forall|v: usize| dl.contains(v) implies members.contains(v) by {
            let j = choose|j: int| 0 <= j < dl.len() && dl[j] == v;
            assert(members[j] == v);
        }
        assert(members.contains(members.last())) by {
            assert(members[members.len() - 1] == members.last());
        }
        assert forall|i: int|
            0 <= i < buttons.len() && members.contains(i as usize) implies spec_claim_members(
            buttons,
            members,
            cidx,
        )[i] == (ButtonState {
            down: buttons[i].down,
            handled: true,
            in_combo: Some(cidx),
            handle_at: None,
        }) by {
            if members.last() == i as usize {
            } else {
                let j = choose|j: int| 0 <= j < members.len() && members[j] == i as usize;
                assert(dl[j] == i as usize);
                assert(dl.contains(i as usize));
            }
        }
    }
}

/// The chord-claim invariant: a button claimed by a chord names a real,
/// currently active chord that has the button among its members.
pub open spec fn chord_claim_inv(cfg: CachedConfig, m: StateModel) -> bool {
    forall|i: int|
        0 <= i < m.buttons.len() ==> ((#[trigger] m.buttons[i]).in_combo matches Some(c) ==> {
            &&& c < cfg.combos@.len()
            &&& c < m.combos.len()
            &&& m.combos[c as int]
            &&& cfg.combos@[c as int].members@.contains(i as usize)
        })
}

/// A freshly unclaimed state satisfies the chord-claim invariant.
pub proof fn lemma_claim_inv_unclaimed(cfg: CachedConfig, m: StateModel)
    requires
        forall|i: int| 0 <= i < m.buttons.len() ==> (#[trigger] m.buttons[i]).in_combo is None,
    ensures
        chord_claim_inv(cfg, m),
{
}

/// Resolving a button preserves the chord-claim invariant.
proof fn lemma_claim_inv_do_handle(cfg: CachedConfig, m: StateModel, bi: usize, down: bool)
    requires
        chord_claim_inv(cfg, m),
        bi < m.buttons.len(),
    ensures
        chord_claim_inv(cfg, spec_do_handle_button(cfg, m, bi, down).state),
{
    lemma_do_handle_frame(cfg, m, bi, down);
    let r = spec_do_handle_button(cfg, m, bi, down).state;
    assert forall|i: int|
        0 <= i < r.buttons.len() implies ((#[trigger] r.buttons[i]).in_combo matches Some(c) ==> {
        &&& c < cfg.combos@.len()
        &&& c < r.combos.len()
        &&& r.combos[c as int]
        &&& cfg.combos@[c as int].members@.contains(i as usize)
    }) by {
        if i != bi {
            assert(r.buttons[i] == m.buttons[i]);
        } else {
            assert(r.buttons[i].in_combo == m.buttons[i].in_combo);
        }
    }
}

/// Whether the sweep at `now` would resolve button `j` of `m`.
pub open spec fn spec_due(m: StateModel, j: int, now: u64) -> bool {
    &&& 0 <= j < m.buttons.len()
    &&& !m.buttons[j].handled
    &&& m.buttons[j].handle_at matches Some(t) && t <= now
}

/// A sweep over buttons none of which are due changes nothing and emits
/// nothing.
pub proof fn lemma_sweep_skips(cfg: CachedConfig, m: StateModel, now: u64, bi: int)
    requires
        0 <= bi,
        forall|j: int| bi <= j < NUM_BUTTONS ==> !spec_due(m, j, now),
    ensures
        spec_sweep_from(cfg, m, now, bi) == (Step { state: m, actions: Seq::<Action>::empty() }),
    decreases NUM_BUTTONS - bi,
{
    if bi >= NUM_BUTTONS {
    } else {
        assert(!spec_due(m, bi, now));
        lemma_sweep_skips(cfg, m, now, bi + 1);
        assert(spec_sweep_from(cfg, m, now, bi).actions =~= Seq::<Action>::empty());
    }
}

/// A sweep in which exactly one button is due resolves that button with its
/// current direction and does nothing else.
pub proof fn lemma_sweep_single(cfg: CachedConfig, m: StateModel, now: u64, bi: int, xi: usize)
    requires
        0 <= bi <= xi < NUM_BUTTONS,
        m.buttons.len() == NUM_BUTTONS,
        spec_due(m, xi as int, now),
        forall|j: int| bi <= j < NUM_BUTTONS && j != xi ==> !spec_due(m, j, now),
    ensures
        spec_sweep_from(cfg, m, now, bi) == (Step {
            state: spec_do_handle_button(cfg, m, xi, m.buttons[xi as int].down).state,
            actions: spec_do_handle_button(cfg, m, xi, m.buttons[xi as int].down).actions,
        }),
    decreases NUM_BUTTONS - bi,
{
    if bi == xi {
        let s1 = spec_do_handle_button(cfg, m, xi, m.buttons[xi as int].down);
        lemma_do_handle_frame(cfg, m, xi, m.buttons[xi as int].down);
        assert forall|j: int| bi + 1 <= j < NUM_BUTTONS implies !spec_due(s1.state, j, now) by {
            assert(!spec_due(m, j, now));
            assert(s1.state.buttons[j] == m.buttons[j]);
        }
        lemma_sweep_skips(cfg, s1.state, now, bi + 1);
        assert(spec_sweep_from(cfg, m, now, bi).actions =~= s1.actions);
    } else {
        assert(!spec_due(m, bi, now));
        lemma_sweep_single(cfg, m, now, bi + 1, xi);
        assert(spec_sweep_from(cfg, m, now, bi).actions =~= spec_sweep_from(
            cfg,
            m,
            now,
            bi + 1,
        ).actions);
    }
}

/// Chord break on partial release: releasing one member of an active chord
/// immediately ends the chord — the chord deactivates, every member resets to
/// up/resolved/unclaimed regardless of its own state, and the chord handler's
/// deactivation fires (for a key mapping, exactly one key-up).
pub proof fn law_chord_break_on_release(
    cfg: CachedConfig,
    m: StateModel,
    c: usize,
    xi: usize,
    yi: usize,
    now: u64,
)
    requires
        cfg.wf(),
        m.wf(cfg),
        xi < NUM_BUTTONS,
        yi < NUM_BUTTONS,
        xi != yi,
        c < cfg.combos@.len(),
        cfg.combos@[c as int].members@ == seq![xi, yi],
        m.buttons[xi as int].down,
        m.buttons[xi as int].handled,
        m.buttons[xi as int].in_combo == Some(c),
    ensures
        ({
            let step = spec_handle_button(cfg, m, xi, false, now);
            let reset = ButtonState { down: false, handled: true, in_combo: None, handle_at: None };
            &&& step.state.buttons[xi as int] == reset
            &&& step.state.buttons[yi as int] == reset
            &&& step.state.combos[c as int] == false
            &&& match spec_find_combo_handler(cfg, m.overlays, c) {
                Some((oidx, h)) => match h.mapping {
                    Some(StateMapping::Key(k)) => step.actions == seq![Action::KeyUp(k)],
                    Some(StateMapping::Overlay(name)) => step.actions == Seq::<Action>::empty(),
                    None => step.actions == Seq::<Action>::empty(),
                },
                None => step.actions == Seq::<Action>::empty(),
            }
        }),
{
    let reset = ButtonState { down: false, handled: true, in_combo: None, handle_at: None };
    let prev = m.buttons[xi as int];
    let m2 = StateModel {
        buttons: m.buttons.update(
            bi_int(xi),
            ButtonState {
                down: false,
                handled: false,
                in_combo: prev.in_combo,
                handle_at: prev.handle_at,
            },
        ),
        ..m
    };
    let members = cfg.combos@[c as int].members@;
    assert(members.drop_last() =~= seq![xi]);
    assert(seq![xi].drop_last() =~= Seq::<usize>::empty());
    let cleared = crate::engine::spec_clear_members(m2.buttons, members);
    assert(crate::engine::spec_clear_members(m2.buttons, Seq::<usize>::empty()) == m2.buttons);
    assert(crate::engine::spec_clear_members(m2.buttons, seq![xi]) == m2.buttons.update(
        bi_int(xi),
        reset,
    ));
    assert(cleared == m2.buttons.update(bi_int(xi), reset).update(bi_int(yi), reset));
    let m3 = StateModel {
        combos: m2.combos.update(c as int, false),
        buttons: cleared,
        ..m2
    };
    let s3 = spec_combo_up(cfg, m2, c);
    match spec_find_combo_handler(cfg, m3.overlays, c) {
        Some((oidx, h)) => {
            lemma_trigger_handler_frame(cfg, m3, h, false, oidx);
        },
        None => {},
    }
    let step = spec_handle_button(cfg, m, xi, false, now);
    assert(step.actions =~= s3.actions);
}

/// A button ordinal as a sequence index.
pub open spec fn bi_int(bi: usize) -> int {
    bi as int
}

/// Chord timeout fallback: pressing one member of a chord alone arms a
/// deadline of the press time plus the chord list's longest timeout and emits
/// nothing; a sweep strictly before the deadline changes nothing; a sweep at
/// or after the deadline resolves the press as an ordinary press through the
/// overlay lookup (for a key handler, exactly one key-down) — at, and not
/// before, the deadline.
pub proof fn law_chord_timeout_fallback(
    cfg: CachedConfig,
    m: StateModel,
    c: usize,
    xi: usize,
    yi: usize,
    t: u64,
    t2: u64,
)
    requires
        cfg.wf(),
        m.wf(cfg),
        xi < NUM_BUTTONS,
        yi < NUM_BUTTONS,
        xi != yi,
        c < cfg.combos@.len(),
        cfg.combos@[c as int].members@ == seq![xi, yi],
        cfg.button_combos@[xi as int].combos@ == seq![c],
        m.buttons[xi as int] == (ButtonState {
            down: false,
            handled: true,
            in_combo: None,
            handle_at: None,
        }),
        !m.buttons[yi as int].down,
        !m.combos[c as int],
        forall|j: int| 0 <= j < m.buttons.len() ==> (#[trigger] m.buttons[j]).handled,
        t + cfg.button_combos@[xi as int].max_timeout <= u64::MAX,
    ensures
        ({
            let s1 = spec_handle_button(cfg, m, xi, true, t);
            let deadline = (t + cfg.button_combos@[xi as int].max_timeout) as u64;
            &&& s1.actions == Seq::<Action>::empty()
            &&& s1.state.buttons[xi as int] == (ButtonState {
                down: true,
                handled: false,
                in_combo: None,
                handle_at: Some(deadline),
            })
            &&& (t2 < deadline ==> spec_handle_timeouts(cfg, s1.state, t2) == (Step {
                state: s1.state,
                actions: Seq::<Action>::empty(),
            }))
            &&& (t2 >= deadline ==> ({
                let s2 = spec_handle_timeouts(cfg, s1.state, t2);
                &&& s2.state.buttons[xi as int].handled
                &&& match spec_find_button_handler(cfg, s1.state.overlays, xi) {
                    Some((oidx, h)) => match h.mapping {
                        Some(StateMapping::Key(k)) => s2.actions == seq![Action::KeyDown(k)],
                        Some(StateMapping::Overlay(name)) => s2.actions == Seq::<Action>::empty(),
                        None => s2.actions == Seq::<Action>::empty(),
                    },
                    None => s2.actions == Seq::<Action>::empty(),
                }
            }))
        }),
{
    let deadline = (t + cfg.button_combos@[xi as int].max_timeout) as u64;
    let prev = m.buttons[xi as int];
    let m2 = StateModel {
        buttons: m.buttons.update(
            bi_int(xi),
            ButtonState { down: true, handled: false, in_combo: None, handle_at: None },
        ),
        ..m
    };
    // The chord cannot complete: the second member is up.
    let members = cfg.combos@[c as int].members@;
    assert(members[1] == yi);
    assert(!m2.buttons[bi_int(yi)].down);
    assert(!crate::engine::spec_all_down(m2.buttons, members));
    assert(!crate::engine::spec_ready(cfg, m2, c));
    let list = cfg.button_combos@[xi as int].combos@;
    assert(list.drop_first() =~= Seq::<usize>::empty());
    assert(crate::engine::spec_first_ready(cfg, m2, Seq::<usize>::empty()) is None);
    assert(list[0] == c && !crate::engine::spec_ready(cfg, m2, c));
    assert(crate::engine::spec_first_ready(cfg, m2, list) is None);
    assert(spec_check_combos(cfg, m2, xi) == (Step { state: m2, actions: Seq::<Action>::empty() }));
    let s1 = spec_handle_button(cfg, m, xi, true, t);
    assert(s1.actions =~= Seq::<Action>::empty());
    assert(s1.state.buttons == m2.buttons.update(
        bi_int(xi),
        ButtonState { down: true, handled: false, in_combo: None, handle_at: Some(deadline) },
    ));
    // Not before the deadline: nothing is due.
    if t2 < deadline {
        assert forall|j: int| 0 <= j < NUM_BUTTONS implies !spec_due(s1.state, j, t2) by {
            if j != xi {
                assert(s1.state.buttons[j] == m.buttons[j]);
            }
        }
        lemma_sweep_skips(cfg, s1.state, t2, 0);
    }
    // At or after the deadline: exactly the one press resolves.
    if t2 >= deadline {
        assert(spec_due(s1.state, bi_int(xi), t2));
        assert forall|j: int| 0 <= j < NUM_BUTTONS && j != xi implies !spec_due(s1.state, j, t2) by {
            assert(s1.state.buttons[j] == m.buttons[j]);
        }
        lemma_sweep_single(cfg, s1.state, t2, 0, xi);
        lemma_do_handle_frame(cfg, s1.state, xi, true);
        lemma_do_handle_actions(cfg, s1.state, xi, true);
        assert(s1.state.buttons[bi_int(xi)].down);
    }
}

/// Chord completion: pressing the first member of a chord emits nothing and
/// leaves the press pending; pressing the second member within the window
/// (before any sweep) claims the chord — both members come out resolved and
/// in-chord, the chord activates, and across both steps the emitted actions
/// are exactly the chord handler's activation (for a key mapping, one
/// key-down): the members' individual handlers never fire.
pub proof fn law_chord_completion(
    cfg: CachedConfig,
    m: StateModel,
    c: usize,
    xi: usize,
    yi: usize,
    t1: u64,
    t2: u64,
)
    requires
        cfg.wf(),
        m.wf(cfg),
        xi < NUM_BUTTONS,
        yi < NUM_BUTTONS,
        xi != yi,
        c < cfg.combos@.len(),
        cfg.combos@[c as int].members@ == seq![xi, yi],
        cfg.button_combos@[xi as int].combos@ == seq![c],
        cfg.button_combos@[yi as int].combos@ == seq![c],
        m.buttons[xi as int] == (ButtonState {
            down: false,
            handled: true,
            in_combo: None,
            handle_at: None,
        }),
        m.buttons[yi as int] == (ButtonState {
            down: false,
            handled: true,
            in_combo: None,
            handle_at: None,
        }),
        !m.combos[c as int],
        t1 + cfg.button_combos@[xi as int].max_timeout <= u64::MAX,
        t2 + cfg.button_combos@[yi as int].max_timeout <= u64::MAX,
    ensures
        ({
            let s1 = spec_handle_button(cfg, m, xi, true, t1);
            let s2 = spec_handle_button(cfg, s1.state, yi, true, t2);
            &&& s1.actions == Seq::<Action>::empty()
            &&& s2.state.combos[c as int]
            &&& s2.state.buttons[xi as int].handled
            &&& s2.state.buttons[xi as int].in_combo == Some(c)
            &&& s2.state.buttons[yi as int].handled
            &&& s2.state.buttons[yi as int].in_combo == Some(c)
            &&& match spec_find_combo_handler(cfg, m.overlays, c) {
                Some((oidx, h)) => match h.mapping {
                    Some(StateMapping::Key(k)) => s2.actions == seq![Action::KeyDown(k)],
                    Some(StateMapping::Overlay(name)) => s2.actions == Seq::<Action>::empty(),
                    None => s2.actions == Seq::<Action>::empty(),
                },
                None => s2.actions == Seq::<Action>::empty(),
            }
        }),
{
    let deadline1 = (t1 + cfg.button_combos@[xi as int].max_timeout) as u64;
    let members = cfg.combos@[c as int].members@;
    // First press: the chord cannot complete (the second member is up), so the
    // press goes pending with a deadline and emits nothing.
    let m2a = StateModel {
        buttons: m.buttons.update(
            bi_int(xi),
            ButtonState { down: true, handled: false, in_combo: None, handle_at: None },
        ),
        ..m
    };
    assert(members[1] == yi);
    assert(!m2a.buttons[bi_int(yi)].down);
    assert(!crate::engine::spec_all_down(m2a.buttons, members));
    let list_x = cfg.button_combos@[xi as int].combos@;
    assert(list_x.drop_first() =~= Seq::<usize>::empty());
    assert(crate::engine::spec_first_ready(cfg, m2a, Seq::<usize>::empty()) is None);
    assert(list_x[0] == c && !crate::engine::spec_ready(cfg, m2a, c));
    assert(crate::engine::spec_first_ready(cfg, m2a, list_x) is None);
    assert(spec_check_combos(cfg, m2a, xi) == (Step { state: m2a, actions: Seq::<Action>::empty() }));
    let s1 = spec_handle_button(cfg, m, xi, true, t1);
    assert(s1.actions =~= Seq::<Action>::empty());
    assert(s1.state == (StateModel {
        buttons: m2a.buttons.update(
            bi_int(xi),
            ButtonState { down: true, handled: false, in_combo: None, handle_at: Some(deadline1) },
        ),
        ..m
    }));
    // Second press: now every member is down, so the chord completes once.
    let m2b = StateModel {
        buttons: s1.state.buttons.update(
            bi_int(yi),
            ButtonState { down: true, handled: false, in_combo: None, handle_at: None },
        ),
        ..s1.state
    };
    assert(members[0] == xi);
    assert(m2b.buttons[bi_int(xi)].down);
    assert(m2b.buttons[bi_int(yi)].down);
    assert(crate::engine::spec_all_down(m2b.buttons, members)) by {
        assert forall|j: int| 0 <= j < members.len() implies #[trigger] members[j]
            < m2b.buttons.len() && m2b.buttons[members[j] as int].down by {
            if j == 0 {
            } else {
                assert(j == 1);
            }
        }
    }
    assert(crate::engine::spec_ready(cfg, m2b, c));
    let list_y = cfg.button_combos@[yi as int].combos@;
    assert(list_y[0] == c);
    assert(crate::engine::spec_first_ready(cfg, m2b, list_y) == Some(c));
    // The claim rewrites exactly the two members.
    assert(members.drop_last() =~= seq![xi]);
    assert(seq![xi].drop_last() =~= Seq::<usize>::empty());
    let claimed = crate::engine::spec_claim_members(m2b.buttons, members, c);
    assert(crate::engine::spec_claim_members(m2b.buttons, Seq::<usize>::empty(), c)
        == m2b.buttons);
    assert(crate::engine::spec_claim_members(m2b.buttons, seq![xi], c) == m2b.buttons.update(
        bi_int(xi),
        ButtonState {
            down: true,
            handled: true,
            in_combo: Some(c),
            handle_at: None,
        },
    ));
    let m3 = StateModel { combos: m2b.combos.update(c as int, true), buttons: claimed, ..m2b };
    match spec_find_combo_handler(cfg, m3.overlays, c) {
        Some((oidx, h)) => {
            lemma_trigger_handler_frame(cfg, m3, h, true, oidx);
        },
        None => {},
    }
    let sc = spec_check_combos(cfg, m2b, yi);
    let s2 = spec_handle_button(cfg, s1.state, yi, true, t2);
    assert(s2.actions =~= sc.actions);
    assert(s2.state.buttons == sc.state.buttons.update(
        bi_int(yi),
        ButtonState {
            down: sc.state.buttons[bi_int(yi)].down,
            handled: sc.state.buttons[bi_int(yi)].handled,
            in_combo: sc.state.buttons[bi_int(yi)].in_combo,
            handle_at: Some((t2 + cfg.button_combos@[yi as int].max_timeout) as u64),
        },
    ));
}

/// Breaking a chord preserves the chord-claim invariant: every holder of the
/// broken chord is one of its members and is therefore reset.
proof fn lemma_claim_inv_combo_up(cfg: CachedConfig, m: StateModel, cidx: usize)
    requires
        chord_claim_inv(cfg, m),
        m.buttons.len() <= usize::MAX,
    ensures
        chord_claim_inv(cfg, spec_combo_up(cfg, m, cidx).state),
{
    let members = if cidx < cfg.combos@.len() {
        cfg.combos@[cidx as int].members@
    } else {
        Seq::empty()
    };
    lemma_clear_members_elems(m.buttons, members);
    let cleared = spec_clear_members(m.buttons, members);
    let combos1 = if cidx < m.combos.len() {
        m.combos.update(cidx as int, false)
    } else {
        m.combos
    };
    let m1 = StateModel { combos: combos1, buttons: cleared, ..m };
    assert(chord_claim_inv(cfg, m1)) by {
        assert forall|i: int|
            0 <= i < m1.buttons.len() implies ((#[trigger] m1.buttons[i]).in_combo matches Some(c)
            ==> {
            &&& c < cfg.combos@.len()
            &&& c < m1.combos.len()
            &&& m1.combos[c as int]
            &&& cfg.combos@[c as int].members@.contains(i as usize)
        }) by {
            if members.contains(i as usize) {
                assert(m1.buttons[i].in_combo is None);
            } else {
                assert(m1.buttons[i] == m.buttons[i]);
                match m.buttons[i].in_combo {
                    Some(c) => {
                        // A holder of the broken chord would be a member, and
                        // members were reset: the chord held here is another one.
                        assert(c != cidx);
                        assert(m1.combos[c as int] == m.combos[c as int]);
                    },
                    None => {},
                }
            }
        }
    }
    match spec_find_combo_handler(cfg, m1.overlays, cidx) {
        Some((oidx, h)) => {
            lemma_trigger_handler_frame(cfg, m1, h, false, oidx);
        },
        None => {},
    }
}

/// A chord completion attempt preserves the chord-claim invariant: the
/// claimed chord was inactive, so nothing held it before, and its members now
/// hold exactly it.
proof fn lemma_claim_inv_check_combos(cfg: CachedConfig, m: StateModel, bi: usize)
    requires
        chord_claim_inv(cfg, m),
        m.buttons.len() <= usize::MAX,
    ensures
        chord_claim_inv(cfg, spec_check_combos(cfg, m, bi).state),
        spec_check_combos(cfg, m, bi).state.buttons.len() == m.buttons.len(),
{
    let list = if bi < cfg.button_combos@.len() {
        cfg.button_combos@[bi as int].combos@
    } else {
        Seq::empty()
    };
    crate::engine::lemma_first_ready_ready(cfg, m, list);
    match crate::engine::spec_first_ready(cfg, m, list) {
        Some(cidx) => {
            let members = cfg.combos@[cidx as int].members@;
            lemma_claim_members_elems(m.buttons, members, cidx);
            let claimed = spec_claim_members(m.buttons, members, cidx);
            let m1 = StateModel {
                combos: m.combos.update(cidx as int, true),
                buttons: claimed,
                ..m
            };
            assert(chord_claim_inv(cfg, m1)) by {
                assert forall|i: int|
                    0 <= i < m1.buttons.len() implies ((#[trigger] m1.buttons[i]).in_combo
                    matches Some(c) ==> {
                    &&& c < cfg.combos@.len()
                    &&& c < m1.combos.len()
                    &&& m1.combos[c as int]
                    &&& cfg.combos@[c as int].members@.contains(i as usize)
                }) by {
                    if members.contains(i as usize) {
                        assert(m1.buttons[i].in_combo == Some(cidx));
                        assert(m1.combos[cidx as int]);
                    } else {
                        assert(m1.buttons[i] == m.buttons[i]);
                        match m.buttons[i].in_combo {
                            Some(c) => {
                                // Nothing held the claimed chord before: it
                                // was inactive, and holders name active
                                // chords only.
                                assert(m.combos[c as int]);
                                assert(!m.combos[cidx as int]);
                                assert(c != cidx);
                                assert(m1.combos[c as int] == m.combos[c as int]);
                            },
                            None => {},
                        }
                    }
                }
            }
            match spec_find_combo_handler(cfg, m1.overlays, cidx) {
                Some((oidx, h)) => {
                    lemma_trigger_handler_frame(cfg, m1, h, true, oidx);
                },
                None => {},
            }
        },
        None => {},
    }
}

/// One button edge preserves the chord-claim invariant.
pub proof fn law_claim_invariant_edge(
    cfg: CachedConfig,
    m: StateModel,
    bi: usize,
    down: bool,
    now: u64,
)
    requires
        cfg.wf(),
        m.wf(cfg),
        chord_claim_inv(cfg, m),
        bi < NUM_BUTTONS,
    ensures
        chord_claim_inv(cfg, spec_handle_button(cfg, m, bi, down, now).state),
{
    let b0 = m.buttons[bi as int];
    if b0.down == down {
    } else {
        let s1 = if !b0.handled {
            spec_do_handle_button(cfg, m, bi, !down)
        } else {
            Step { state: m, actions: Seq::empty() }
        };
        if !b0.handled {
            lemma_claim_inv_do_handle(cfg, m, bi, !down);
            crate::engine::lemma_do_handle_wf(cfg, m, bi, !down);
        }
        let m1 = s1.state;
        let prev = m1.buttons[bi as int];
        let m2 = StateModel {
            buttons: m1.buttons.update(
                bi as int,
                ButtonState {
                    down,
                    handled: false,
                    in_combo: prev.in_combo,
                    handle_at: prev.handle_at,
                },
            ),
            ..m1
        };
        assert(chord_claim_inv(cfg, m2)) by {
            assert forall|i: int|
                0 <= i < m2.buttons.len() implies ((#[trigger] m2.buttons[i]).in_combo
                matches Some(c) ==> {
                &&& c < cfg.combos@.len()
                &&& c < m2.combos.len()
                &&& m2.combos[c as int]
                &&& cfg.combos@[c as int].members@.contains(i as usize)
            }) by {
                if i != bi {
                    assert(m2.buttons[i] == m1.buttons[i]);
                } else {
                    assert(m2.buttons[i].in_combo == m1.buttons[bi as int].in_combo);
                }
            }
        }
        match prev.in_combo {
            Some(cidx) => {
                lemma_claim_inv_combo_up(cfg, m2, cidx);
            },
            None => {
                if down && bi < cfg.button_combos@.len() && cfg.button_combos@[bi as int].combos@.len() > 0 {
                    lemma_claim_inv_check_combos(cfg, m2, bi);
                    let sc = spec_check_combos(cfg, m2, bi);
                    let mb = sc.state.buttons[bi as int];
                    let final_state = spec_handle_button(cfg, m, bi, down, now).state;
                    assert(chord_claim_inv(cfg, final_state)) by {
                        assert forall|i: int|
                            0 <= i < final_state.buttons.len()
                            implies ((#[trigger] final_state.buttons[i]).in_combo matches Some(c)
                            ==> {
                            &&& c < cfg.combos@.len()
                            &&& c < final_state.combos.len()
                            &&& final_state.combos[c as int]
                            &&& cfg.combos@[c as int].members@.contains(i as usize)
                        }) by {
                            if i != bi {
                                assert(final_state.buttons[i] == sc.state.buttons[i]);
                            } else {
                                assert(final_state.buttons[i].in_combo == mb.in_combo);
                            }
                        }
                    }
                } else {
                    lemma_claim_inv_do_handle(cfg, m2, bi, down);
                }
            },
        }
    }
}

/// The timeout sweep preserves the chord-claim invariant.
pub proof fn law_claim_invariant_sweep(cfg: CachedConfig, m: StateModel, now: u64, bi: int)
    requires
        chord_claim_inv(cfg, m),
        m.buttons.len() <= usize::MAX,
    ensures
        chord_claim_inv(cfg, spec_sweep_from(cfg, m, now, bi).state),
    decreases NUM_BUTTONS - bi,
{
    if bi < 0 || bi >= NUM_BUTTONS {
    } else {
        let due = bi < m.buttons.len() && !m.buttons[bi].handled && (m.buttons[bi].handle_at
            matches Some(t) && t <= now);
        if due {
            lemma_claim_inv_do_handle(cfg, m, bi as usize, m.buttons[bi].down);
            lemma_do_handle_frame(cfg, m, bi as usize, m.buttons[bi].down);
            law_claim_invariant_sweep(
                cfg,
                spec_do_handle_button(cfg, m, bi as usize, m.buttons[bi].down).state,
                now,
                bi + 1,
            );
        } else {
            law_claim_invariant_sweep(cfg, m, now, bi + 1);
        }
    }
}

/// A stick update preserves the chord-claim invariant: it only fires
/// mappings, which never touch buttons or chords.
pub proof fn law_claim_invariant_stick(
    cfg: CachedConfig,
    m: StateModel,
    si: usize,
    angle: u64,
    magnitude: u64,
)
    requires
        chord_claim_inv(cfg, m),
        si < m.sticks.len(),
    ensures
        chord_claim_inv(cfg, spec_update_stick(cfg, m, si, angle, magnitude).state),
{
    let prev = m.sticks[si as int].sector;
    let m1 = StateModel {
        sticks: m.sticks.update(
            si as int,
            crate::engine::StickState { angle_millideg: angle, magnitude, sector: prev },
        ),
        ..m
    };
    match crate::engine::spec_find_stick_handler(cfg, m1.overlays, si) {
        None => {},
        Some((oidx, h)) => match h.circle {
            None => {},
            Some(ch) => {
                let ns = spec_classify(ch, angle, magnitude);
                let m2 = StateModel {
                    sticks: m1.sticks.update(
                        si as int,
                        crate::engine::StickState { angle_millideg: angle, magnitude, sector: ns },
                    ),
                    ..m1
                };
                if ns == prev {
                } else {
                    let s3 = match prev {
                        Some(pi) => if pi < ch.sectors@.len() {
                            match ch.sectors@[pi as int].mapping {
                                Some(mp) => {
                                    lemma_trigger_mapping_frame(cfg, m2, mp, false, oidx);
                                    spec_trigger_mapping(cfg, m2, mp, false, oidx)
                                },
                                None => Step { state: m2, actions: Seq::empty() },
                            }
                        } else {
                            Step { state: m2, actions: Seq::empty() }
                        },
                        None => Step { state: m2, actions: Seq::empty() },
                    };
                    match ns {
                        Some(nsi) => if nsi < ch.sectors@.len() {
                            match ch.sectors@[nsi as int].mapping {
                                Some(mp) => {
                                    lemma_trigger_mapping_frame(cfg, s3.state, mp, true, oidx);
                                },
                                None => {},
                            }
                        },
                        None => {},
                    }
                }
            },
        },
    }
}

/// The deadline invariant: a pending deadline sits only on buttons that
/// participate in at least one chord. (A deadline may sit on an already
/// resolved button — the inert timer armed by a completing press — so nothing
/// is claimed about `handled` here; the sweep skips resolved buttons.)
pub open spec fn deadline_inv(cfg: CachedConfig, m: StateModel) -> bool {
    forall|i: int|
        0 <= i < m.buttons.len() ==> ((#[trigger] m.buttons[i]).handle_at is Some ==> {
            &&& i < cfg.button_combos@.len()
            &&& cfg.button_combos@[i].combos@.len() > 0
        })
}

/// A state without deadlines satisfies the deadline invariant.
pub proof fn lemma_deadline_inv_unarmed(cfg: CachedConfig, m: StateModel)
    requires
        forall|i: int| 0 <= i < m.buttons.len() ==> (#[trigger] m.buttons[i]).handle_at is None,
    ensures
        deadline_inv(cfg, m),
{
}

/// Resolving a button preserves the deadline invariant: it only clears a
/// deadline.
proof fn lemma_deadline_inv_do_handle(cfg: CachedConfig, m: StateModel, bi: usize, down: bool)
    requires
        deadline_inv(cfg, m),
        bi < m.buttons.len(),
    ensures
        deadline_inv(cfg, spec_do_handle_button(cfg, m, bi, down).state),
{
    lemma_do_handle_frame(cfg, m, bi, down);
    let r = spec_do_handle_button(cfg, m, bi, down).state;
    assert forall|i: int|
        0 <= i < r.buttons.len() implies ((#[trigger] r.buttons[i]).handle_at is Some ==> {
        &&& i < cfg.button_combos@.len()
        &&& cfg.button_combos@[i].combos@.len() > 0
    }) by {
        if i != bi {
            assert(r.buttons[i] == m.buttons[i]);
        }
    }
}

/// One button edge preserves the deadline invariant: a deadline is armed only
/// on a press of a chord-member button.
pub proof fn law_deadline_invariant_edge(
    cfg: CachedConfig,
    m: StateModel,
    bi: usize,
    down: bool,
    now: u64,
)
    requires
        cfg.wf(),
        m.wf(cfg),
        deadline_inv(cfg, m),
        bi < NUM_BUTTONS,
    ensures
        deadline_inv(cfg, spec_handle_button(cfg, m, bi, down, now).state),
{
    let b0 = m.buttons[bi as int];
    if b0.down == down {
    } else {
        let s1 = if !b0.handled {
            spec_do_handle_button(cfg, m, bi, !down)
        } else {
            Step { state: m, actions: Seq::empty() }
        };
        if !b0.handled {
            lemma_deadline_inv_do_handle(cfg, m, bi, !down);
            crate::engine::lemma_do_handle_wf(cfg, m, bi, !down);
        }
        let m1 = s1.state;
        let prev = m1.buttons[bi as int];
        let m2 = StateModel {
            buttons: m1.buttons.update(
                bi as int,
                ButtonState {
                    down,
                    handled: false,
                    in_combo: prev.in_combo,
                    handle_at: prev.handle_at,
                },
            ),
            ..m1
        };
        assert(deadline_inv(cfg, m2)) by {
            assert forall|i: int|
                0 <= i < m2.buttons.len() implies ((#[trigger] m2.buttons[i]).handle_at is Some
                ==> {
                &&& i < cfg.button_combos@.len()
                &&& cfg.button_combos@[i].combos@.len() > 0
            }) by {
                if i != bi {
                    assert(m2.buttons[i] == m1.buttons[i]);
                } else {
                    assert(m2.buttons[i].handle_at == m1.buttons[bi as int].handle_at);
                }
            }
        }
        match prev.in_combo {
            Some(cidx) => {
                let members = if cidx < cfg.combos@.len() {
                    cfg.combos@[cidx as int].members@
                } else {
                    Seq::empty()
                };
                lemma_clear_members_elems(m2.buttons, members);
                let m3 = StateModel {
                    combos: if cidx < m2.combos.len() {
                        m2.combos.update(cidx as int, false)
                    } else {
                        m2.combos
                    },
                    buttons: spec_clear_members(m2.buttons, members),
                    ..m2
                };
                assert(deadline_inv(cfg, m3)) by {
                    assert forall|i: int|
                        0 <= i < m3.buttons.len() implies ((#[trigger] m3.buttons[i]).handle_at
                        is Some ==> {
                        &&& i < cfg.button_combos@.len()
                        &&& cfg.button_combos@[i].combos@.len() > 0
                    }) by {
                        if members.contains(i as usize) {
                            assert(m3.buttons[i].handle_at is None);
                        } else {
                            assert(m3.buttons[i] == m2.buttons[i]);
                        }
                    }
                }
                match spec_find_combo_handler(cfg, m3.overlays, cidx) {
                    Some((oidx, h)) => {
                        lemma_trigger_handler_frame(cfg, m3, h, false, oidx);
                    },
                    None => {},
                }
            },
            None => {
                if down && bi < cfg.button_combos@.len() && cfg.button_combos@[bi as int].combos@.len() > 0 {
                    lemma_deadline_inv_check_combos(cfg, m2, bi);
                    let sc = spec_check_combos(cfg, m2, bi);
                    let mb = sc.state.buttons[bi as int];
                    let final_state = spec_handle_button(cfg, m, bi, down, now).state;
                    assert(deadline_inv(cfg, final_state)) by {
                        assert forall|i: int|
                            0 <= i < final_state.buttons.len()
                            implies ((#[trigger] final_state.buttons[i]).handle_at is Some ==> {
                            &&& i < cfg.button_combos@.len()
                            &&& cfg.button_combos@[i].combos@.len() > 0
                        }) by {
                            if i != bi {
                                assert(final_state.buttons[i] == sc.state.buttons[i]);
                            }
                        }
                    }
                } else {
                    lemma_deadline_inv_do_handle(cfg, m2, bi, down);
                }
            },
        }
    }
}

/// A chord completion attempt preserves the deadline invariant: claiming only
/// clears deadlines.
proof fn lemma_deadline_inv_check_combos(cfg: CachedConfig, m: StateModel, bi: usize)
    requires
        deadline_inv(cfg, m),
        m.buttons.len() <= usize::MAX,
    ensures
        deadline_inv(cfg, spec_check_combos(cfg, m, bi).state),
        spec_check_combos(cfg, m, bi).state.buttons.len() == m.buttons.len(),
{
    let list = if bi < cfg.button_combos@.len() {
        cfg.button_combos@[bi as int].combos@
    } else {
        Seq::empty()
    };
    crate::engine::lemma_first_ready_ready(cfg, m, list);
    match crate::engine::spec_first_ready(cfg, m, list) {
        Some(cidx) => {
            let members = cfg.combos@[cidx as int].members@;
            lemma_claim_members_elems(m.buttons, members, cidx);
            let m1 = StateModel {
                combos: m.combos.update(cidx as int, true),
                buttons: spec_claim_members(m.buttons, members, cidx),
                ..m
            };
            assert(deadline_inv(cfg, m1)) by {
                assert forall|i: int|
                    0 <= i < m1.buttons.len() implies ((#[trigger] m1.buttons[i]).handle_at
                    is Some ==> {
                    &&& i < cfg.button_combos@.len()
                    &&& cfg.button_combos@[i].combos@.len() > 0
                }) by {
                    if members.contains(i as usize) {
                        assert(m1.buttons[i].handle_at is None);
                    } else {
                        assert(m1.buttons[i] == m.buttons[i]);
                    }
                }
            }
            match spec_find_combo_handler(cfg, m1.overlays, cidx) {
                Some((oidx, h)) => {
                    lemma_trigger_handler_frame(cfg, m1, h, true, oidx);
                },
                None => {},
            }
        },
        None => {},
    }
}

/// The timeout sweep preserves the deadline invariant.
pub proof fn law_deadline_invariant_sweep(cfg: CachedConfig, m: StateModel, now: u64, bi: int)
    requires
        deadline_inv(cfg, m),
    ensures
        deadline_inv(cfg, spec_sweep_from(cfg, m, now, bi).state),
    decreases NUM_BUTTONS - bi,
{
    if bi < 0 || bi >= NUM_BUTTONS {
    } else {
        let due = bi < m.buttons.len() && !m.buttons[bi].handled && (m.buttons[bi].handle_at
            matches Some(t) && t <= now);
        if due {
            lemma_deadline_inv_do_handle(cfg, m, bi as usize, m.buttons[bi].down);
            law_deadline_invariant_sweep(
                cfg,
                spec_do_handle_button(cfg, m, bi as usize, m.buttons[bi].down).state,
                now,
                bi + 1,
            );
        } else {
            law_deadline_invariant_sweep(cfg, m, now, bi + 1);
        }
    }
}

/// A stick update preserves the deadline invariant: it never touches buttons.
pub proof fn law_deadline_invariant_stick(
    cfg: CachedConfig,
    m: StateModel,
    si: usize,
    angle: u64,
    magnitude: u64,
)
    requires
        deadline_inv(cfg, m),
        si < m.sticks.len(),
    ensures
        deadline_inv(cfg, spec_update_stick(cfg, m, si, angle, magnitude).state),
{
    let prev = m.sticks[si as int].sector;
    let m1 = StateModel {
        sticks: m.sticks.update(
            si as int,
            crate::engine::StickState { angle_millideg: angle, magnitude, sector: prev },
        ),
        ..m
    };
    match crate::engine::spec_find_stick_handler(cfg, m1.overlays, si) {
        None => {},
        Some((oidx, h)) => match h.circle {
            None => {},
            Some(ch) => {
                let ns = spec_classify(ch, angle, magnitude);
                let m2 = StateModel {
                    sticks: m1.sticks.update(
                        si as int,
                        crate::engine::StickState { angle_millideg: angle, magnitude, sector: ns },
                    ),
                    ..m1
                };
                if ns == prev {
                } else {
                    let s3 = match prev {
                        Some(pi) => if pi < ch.sectors@.len() {
                            match ch.sectors@[pi as int].mapping {
                                Some(mp) => {
                                    lemma_trigger_mapping_frame(cfg, m2, mp, false, oidx);
                                    spec_trigger_mapping(cfg, m2, mp, false, oidx)
                                },
                                None => Step { state: m2, actions: Seq::empty() },
                            }
                        } else {
                            Step { state: m2, actions: Seq::empty() }
                        },
                        None => Step { state: m2, actions: Seq::empty() },
                    };
                    match ns {
                        Some(nsi) => if nsi < ch.sectors@.len() {
                            match ch.sectors@[nsi as int].mapping {
                                Some(mp) => {
                                    lemma_trigger_mapping_frame(cfg, s3.state, mp, true, oidx);
                                },
                                None => {},
                            }
                        },
                        None => {},
                    }
                }
            },
        },
    }
}

} // verus!
