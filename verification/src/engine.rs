//! The input resolution engine: button/chord state machine, overlay stack and
//! the aggregate engine state.
//!
//! The engine owns all mutable mapping state. Each public operation takes one
//! event or timeout tick and rewrites the state; its contract equates the new
//! state and the emitted actions with a purely mathematical transition
//! function over the state's model, so the whole step is pinned down exactly.

use vstd::prelude::*;

use crate::buttons::{Axis, Button, NUM_AXES, NUM_BUTTONS, NUM_STICKS};
use crate::cache::{assoc, assoc_get, overlay_index_from, CachedConfig};
use crate::config::{mapping_eq, Action, ButtonHandler, StateMapping, StickHandler};

verus! {

/// Resolution state of one physical button.
///
/// `down` is the last recorded direction; `handled` says whether that edge has
/// been resolved; `in_combo` is the chord currently claiming the button, if
/// any; `handle_at` is the pending resolution deadline in engine milliseconds.
#[derive(Copy, Clone, Eq, PartialEq, Debug)]
pub struct ButtonState {
    pub down: bool,
    pub handled: bool,
    pub in_combo: Option<usize>,
    pub handle_at: Option<u64>,
}

impl Default for ButtonState {
    /// A button starts up, resolved, unclaimed and without a deadline.
    fn default() -> (r: Self)
        ensures
            r == (ButtonState { down: false, handled: true, in_combo: None, handle_at: None }),
    {
        ButtonState { down: false, handled: true, in_combo: None, handle_at: None }
    }
}

/// Resolved pose of one analog stick: angle in millidegrees, magnitude in
/// thousandths of full deflection, and the sector the pose falls in, if any.
#[derive(Copy, Clone, Eq, PartialEq, Debug)]
pub struct StickState {
    pub angle_millideg: u64,
    pub magnitude: u64,
    pub sector: Option<usize>,
}

impl Default for StickState {
    /// A stick starts centered with no sector.
    fn default() -> (r: Self)
        ensures
            r == (StickState { angle_millideg: 0, magnitude: 0, sector: None }),
    {
        StickState { angle_millideg: 0, magnitude: 0, sector: None }
    }
}

/// The mathematical model of the engine state: one sequence per state vector.
#[verifier::ext_equal]
pub ghost struct StateModel {
    pub overlays: Seq<usize>,
    pub buttons: Seq<ButtonState>,
    pub combos: Seq<bool>,
    pub axes: Seq<i16>,
    pub sticks: Seq<StickState>,
    pub active: Seq<(usize, StateMapping)>,
}

/// The result of one engine transition: the successor state model and the
/// key actions emitted during the transition, in order.
#[verifier::ext_equal]
pub ghost struct Step {
    pub state: StateModel,
    pub actions: Seq<Action>,
}

/// Aggregate engine state: the overlay stack and all per-button, per-chord,
/// per-axis and per-stick state, plus the active-mapping bookkeeping list.
#[derive(Debug)]
pub struct State {
    pub current_overlays: Vec<usize>,
    pub button_states: Vec<ButtonState>,
    pub combo_states: Vec<bool>,
    pub axis_states: Vec<i16>,
    pub stick_states: Vec<StickState>,
    pub active_maps: Vec<(usize, StateMapping)>,
}

impl View for State {
    type V = StateModel;

    open spec fn view(&self) -> StateModel {
        StateModel {
            overlays: self.current_overlays@,
            buttons: self.button_states@,
            combos: self.combo_states@,
            axes: self.axis_states@,
            sticks: self.stick_states@,
            active: self.active_maps@,
        }
    }
}

impl StateModel {
    /// Well-formedness against a cache: vector lengths match the button, axis,
    /// stick and chord counts; the overlay stack is nonempty, starts at the
    /// base overlay and only names existing overlays; chord claims only name
    /// existing chords.
    pub open spec fn wf(self, cfg: CachedConfig) -> bool {
        &&& self.buttons.len() == NUM_BUTTONS
        &&& self.combos.len() == cfg.combos@.len()
        &&& self.axes.len() == NUM_AXES
        &&& self.sticks.len() == NUM_STICKS
        &&& self.overlays.len() >= 1
        &&& self.overlays[0] == cfg.base_index
        &&& forall|i: int| 0 <= i < self.overlays.len() ==> #[trigger] self.overlays[i] < cfg.overlays@.len()
        &&& forall|i: int|
            0 <= i < self.buttons.len() ==> ((#[trigger] self.buttons[i]).in_combo matches Some(c)
                ==> c < cfg.combos@.len())
    }
}

/// Priority lookup of a button handler: the topmost overlay on the stack that
/// binds button ordinal `bi` wins.
pub open spec fn spec_find_button_handler(cfg: CachedConfig, stack: Seq<usize>, bi: usize) -> Option<
    (usize, ButtonHandler),
>
    decreases stack.len(),
{
    if stack.len() == 0 {
        None
    } else {
        let top = stack.last();
        let rest = spec_find_button_handler(cfg, stack.drop_last(), bi);
        if top < cfg.overlays@.len() {
            match assoc(cfg.overlays@[top as int].buttons@, bi) {
                Some(h) => Some((top, h)),
                None => rest,
            }
        } else {
            rest
        }
    }
}

/// Priority lookup of a chord handler: the topmost overlay on the stack that
/// binds chord index `ci` wins.
pub open spec fn spec_find_combo_handler(cfg: CachedConfig, stack: Seq<usize>, ci: usize) -> Option<
    (usize, ButtonHandler),
>
    decreases stack.len(),
{
    if stack.len() == 0 {
        None
    } else {
        let top = stack.last();
        let rest = spec_find_combo_handler(cfg, stack.drop_last(), ci);
        if top < cfg.overlays@.len() {
            match assoc(cfg.overlays@[top as int].combos@, ci) {
                Some(h) => Some((top, h)),
                None => rest,
            }
        } else {
            rest
        }
    }
}

/// Priority lookup of a stick handler: the topmost overlay on the stack that
/// binds stick index `si` wins.
pub open spec fn spec_find_stick_handler(cfg: CachedConfig, stack: Seq<usize>, si: usize) -> Option<
    (usize, StickHandler),
>
    decreases stack.len(),
{
    if stack.len() == 0 {
        None
    } else {
        let top = stack.last();
        let rest = spec_find_stick_handler(cfg, stack.drop_last(), si);
        if top < cfg.overlays@.len() {
            match assoc(cfg.overlays@[top as int].sticks@, si) {
                Some(h) => Some((top, h)),
                None => rest,
            }
        } else {
            rest
        }
    }
}

/// The overlay stack after pushing the overlay named `name`: appended if the
/// name resolves and is not already on the stack, unchanged otherwise.
pub open spec fn spec_add_overlay(cfg: CachedConfig, overlays: Seq<usize>, name: Seq<char>) -> Seq<usize> {
    match overlay_index_from(cfg.overlays@, name, 0) {
        Some(idx) => if overlays.contains(idx) {
            overlays
        } else {
            overlays.push(idx)
        },
        None => overlays,
    }
}

/// A sequence with every occurrence of `x` removed.
pub open spec fn spec_remove_all(s: Seq<usize>, x: usize) -> Seq<usize>
    decreases s.len(),
{
    if s.len() == 0 {
        Seq::empty()
    } else {
        spec_remove_all(s.drop_last(), x) + if s.last() == x {
            Seq::empty()
        } else {
            seq![s.last()]
        }
    }
}

/// The overlay stack after removing the overlay named `name`: all occurrences
/// deleted if the name resolves, except that the base overlay is never
/// removed; unchanged otherwise.
pub open spec fn spec_remove_overlay(cfg: CachedConfig, overlays: Seq<usize>, name: Seq<char>) -> Seq<usize> {
    match overlay_index_from(cfg.overlays@, name, 0) {
        Some(idx) => if idx == cfg.base_index {
            overlays
        } else {
            spec_remove_all(overlays, idx)
        },
        None => overlays,
    }
}

/// The active-mapping list pruned of every entry whose mapping equals `m`.
pub open spec fn spec_prune_active(active: Seq<(usize, StateMapping)>, m: StateMapping) -> Seq<
    (usize, StateMapping),
>
    decreases active.len(),
{
    if active.len() == 0 {
        Seq::empty()
    } else {
        spec_prune_active(active.drop_last(), m) + if mapping_eq(active.last().1, m) {
            Seq::empty()
        } else {
            seq![active.last()]
        }
    }
}

/// One mapping trigger: a key mapping emits the key edge matching `down`; an
/// overlay mapping pushes its overlay on activation and removes it on
/// deactivation. Activation also records `(oidx, mapping)` in the bookkeeping
/// list; deactivation prunes the list by mapping value.
pub open spec fn spec_trigger_mapping(
    cfg: CachedConfig,
    m: StateModel,
    map: StateMapping,
    down: bool,
    oidx: usize,
) -> Step {
    let overlays1 = match map {
        StateMapping::Key(k) => m.overlays,
        StateMapping::Overlay(name) => if down {
            spec_add_overlay(cfg, m.overlays, name@)
        } else {
            spec_remove_overlay(cfg, m.overlays, name@)
        },
    };
    let actions = match map {
        StateMapping::Key(k) => seq![
            if down {
                Action::KeyDown(k)
            } else {
                Action::KeyUp(k)
            },
        ],
        StateMapping::Overlay(name) => Seq::empty(),
    };
    let active1 = if down {
        m.active.push((oidx, map))
    } else {
        spec_prune_active(m.active, map)
    };
    Step { state: StateModel { overlays: overlays1, active: active1, ..m }, actions }
}

/// One handler trigger: fires the handler's mapping if it has one.
pub open spec fn spec_trigger_handler(
    cfg: CachedConfig,
    m: StateModel,
    h: ButtonHandler,
    down: bool,
    oidx: usize,
) -> Step {
    match h.mapping {
        Some(map) => spec_trigger_mapping(cfg, m, map, down, oidx),
        None => Step { state: m, actions: Seq::empty() },
    }
}

/// A found overlay index is in range of the overlay table.
pub proof fn lemma_overlay_index_in_range(cfg: CachedConfig, name: Seq<char>, i: nat)
    requires
        cfg.overlays@.len() <= usize::MAX,
    ensures
        overlay_index_from(cfg.overlays@, name, i) matches Some(r) ==> i <= r < cfg.overlays@.len(),
    decreases cfg.overlays@.len() - i,
{
    if i >= cfg.overlays@.len() {
    } else if cfg.overlays@[i as int].name@ == name {
    } else {
        lemma_overlay_index_in_range(cfg, name, i + 1);
    }
}

/// Removing a value keeps all other values, in order; in particular it keeps
/// any property the remaining elements had.
pub proof fn lemma_remove_all_props(s: Seq<usize>, x: usize)
    ensures
        spec_remove_all(s, x).len() <= s.len(),
        forall|k: int|
            0 <= k < spec_remove_all(s, x).len() ==> s.contains(#[trigger] spec_remove_all(s, x)[k])
                && spec_remove_all(s, x)[k] != x,
        s.len() >= 1 && s[0] != x ==> spec_remove_all(s, x).len() >= 1 && spec_remove_all(s, x)[0]
            == s[0],
    decreases s.len(),
{
    if s.len() == 0 {
    } else {
        let dl = s.drop_last();
        lemma_remove_all_props(dl, x);
        assert forall|k: int|
            0 <= k < spec_remove_all(s, x).len() implies s.contains(
            #[trigger] spec_remove_all(s, x)[k],
        ) && spec_remove_all(s, x)[k] != x by {
            if k < spec_remove_all(dl, x).len() {
                assert(spec_remove_all(s, x)[k] == spec_remove_all(dl, x)[k]);
                assert(dl.contains(spec_remove_all(dl, x)[k]));
                let j = choose|j: int| 0 <= j < dl.len() && dl[j] == spec_remove_all(dl, x)[k];
                assert(s[j] == spec_remove_all(s, x)[k]);
            } else {
                assert(spec_remove_all(s, x)[k] == s.last());
                assert(s[s.len() - 1] == s.last());
            }
        }
    }
}

/// The button vector after a chord break: every member is reset to
/// up/resolved/unclaimed with no deadline.
pub open spec fn spec_clear_members(buttons: Seq<ButtonState>, members: Seq<usize>) -> Seq<ButtonState>
    decreases members.len(),
{
    if members.len() == 0 {
        buttons
    } else {
        let b2 = spec_clear_members(buttons, members.drop_last());
        let mi = members.last();
        if mi < b2.len() {
            b2.update(
                mi as int,
                ButtonState { down: false, handled: true, in_combo: None, handle_at: None },
            )
        } else {
            b2
        }
    }
}

/// The button vector after a chord claim: every member is marked resolved and
/// claimed by chord `cidx`, keeping its direction; deadlines are cleared.
pub open spec fn spec_claim_members(buttons: Seq<ButtonState>, members: Seq<usize>, cidx: usize) -> Seq<ButtonState>
    decreases members.len(),
{
    if members.len() == 0 {
        buttons
    } else {
        let b2 = spec_claim_members(buttons, members.drop_last(), cidx);
        let mi = members.last();
        if mi < b2.len() {
            b2.update(
                mi as int,
                ButtonState {
                    down: b2[mi as int].down,
                    handled: true,
                    in_combo: Some(cidx),
                    handle_at: None,
                },
            )
        } else {
            b2
        }
    }
}

/// Rewriting members never changes the vector's length.
pub proof fn lemma_clear_members_len(buttons: Seq<ButtonState>, members: Seq<usize>)
    ensures
        spec_clear_members(buttons, members).len() == buttons.len(),
    decreases members.len(),
{
    if members.len() == 0 {
    } else {
        lemma_clear_members_len(buttons, members.drop_last());
    }
}

/// Rewriting members never changes the vector's length.
pub proof fn lemma_claim_members_len(buttons: Seq<ButtonState>, members: Seq<usize>, cidx: usize)
    ensures
        spec_claim_members(buttons, members, cidx).len() == buttons.len(),
    decreases members.len(),
{
    if members.len() == 0 {
    } else {
        lemma_claim_members_len(buttons, members.drop_last(), cidx);
    }
}

/// Resolving a button: it is marked handled with its deadline cleared, then
/// the handler found for it (if any) fires in direction `down`.
pub open spec fn spec_do_handle_button(cfg: CachedConfig, m: StateModel, bi: usize, down: bool) -> Step {
    let b1 = ButtonState {
        down: m.buttons[bi as int].down,
        handled: true,
        in_combo: m.buttons[bi as int].in_combo,
        handle_at: None,
    };
    let m1 = StateModel { buttons: m.buttons.update(bi as int, b1), ..m };
    match spec_find_button_handler(cfg, m1.overlays, bi) {
        Some((oidx, h)) => spec_trigger_handler(cfg, m1, h, down, oidx),
        None => Step { state: m1, actions: Seq::empty() },
    }
}

/// A chord break: the chord is deactivated, every member is reset to
/// up/resolved/unclaimed, and the chord handler's deactivation fires.
pub open spec fn spec_combo_up(cfg: CachedConfig, m: StateModel, cidx: usize) -> Step {
    let members = if cidx < cfg.combos@.len() {
        cfg.combos@[cidx as int].members@
    } else {
        Seq::empty()
    };
    let m1 = StateModel {
        combos: if cidx < m.combos.len() {
            m.combos.update(cidx as int, false)
        } else {
            m.combos
        },
        buttons: spec_clear_members(m.buttons, members),
        ..m
    };
    match spec_find_combo_handler(cfg, m1.overlays, cidx) {
        Some((oidx, h)) => spec_trigger_handler(cfg, m1, h, false, oidx),
        None => Step { state: m1, actions: Seq::empty() },
    }
}

/// Whether every member button of a member list is currently down.
pub open spec fn spec_all_down(buttons: Seq<ButtonState>, members: Seq<usize>) -> bool {
    forall|j: int|
        0 <= j < members.len() ==> #[trigger] members[j] < buttons.len() && buttons[members[j] as int].down
}

/// Whether chord `cidx` is ready to complete: all members down and the chord
/// not already active.
pub open spec fn spec_ready(cfg: CachedConfig, m: StateModel, cidx: usize) -> bool {
    &&& cidx < cfg.combos@.len()
    &&& cidx < m.combos.len()
    &&& spec_all_down(m.buttons, cfg.combos@[cidx as int].members@)
    &&& !m.combos[cidx as int]
}

/// The first chord in `list` (document order) that is ready to complete.
pub open spec fn spec_first_ready(cfg: CachedConfig, m: StateModel, list: Seq<usize>) -> Option<usize>
    decreases list.len(),
{
    if list.len() == 0 {
        None
    } else if spec_ready(cfg, m, list[0]) {
        Some(list[0])
    } else {
        spec_first_ready(cfg, m, list.drop_first())
    }
}

/// A chord completion attempt for button ordinal `bi`: the first ready chord
/// among the chords containing `bi` (if any) is claimed — members marked
/// resolved and in-chord — and its handler's activation fires.
pub open spec fn spec_check_combos(cfg: CachedConfig, m: StateModel, bi: usize) -> Step {
    let list = if bi < cfg.button_combos@.len() {
        cfg.button_combos@[bi as int].combos@
    } else {
        Seq::empty()
    };
    match spec_first_ready(cfg, m, list) {
        Some(cidx) => {
            let members = cfg.combos@[cidx as int].members@;
            let m1 = StateModel {
                combos: m.combos.update(cidx as int, true),
                buttons: spec_claim_members(m.buttons, members, cidx),
                ..m
            };
            match spec_find_combo_handler(cfg, m1.overlays, cidx) {
                Some((oidx, h)) => spec_trigger_handler(cfg, m1, h, true, oidx),
                None => Step { state: m1, actions: Seq::empty() },
            }
        },
        None => Step { state: m, actions: Seq::empty() },
    }
}

/// Firing a mapping keeps the state well-formed: pushed overlay indices are
/// resolved (hence in range) and the base overlay is never removed.
pub proof fn lemma_trigger_mapping_wf(
    cfg: CachedConfig,
    m: StateModel,
    map: StateMapping,
    down: bool,
    oidx: usize,
)
    requires
        cfg.wf(),
        m.wf(cfg),
    ensures
        spec_trigger_mapping(cfg, m, map, down, oidx).state.wf(cfg),
{
    match map {
        StateMapping::Key(k) => {},
        StateMapping::Overlay(name) => {
            lemma_overlay_index_in_range(cfg, name@, 0);
            if down {
            } else {
                match overlay_index_from(cfg.overlays@, name@, 0) {
                    Some(idx) => {
                        if idx != cfg.base_index {
                            lemma_remove_all_props(m.overlays, idx);
                            let r = spec_remove_all(m.overlays, idx);
                            assert forall|i: int| 0 <= i < r.len() implies #[trigger] r[i]
                                < cfg.overlays@.len() by {
                                assert(m.overlays.contains(r[i]));
                                let j = choose|j: int|
                                    0 <= j < m.overlays.len() && m.overlays[j] == r[i];
                            }
                        }
                    },
                    None => {},
                }
            }
        },
    }
}

/// Firing a handler keeps the state well-formed.
pub proof fn lemma_trigger_handler_wf(
    cfg: CachedConfig,
    m: StateModel,
    h: ButtonHandler,
    down: bool,
    oidx: usize,
)
    requires
        cfg.wf(),
        m.wf(cfg),
    ensures
        spec_trigger_handler(cfg, m, h, down, oidx).state.wf(cfg),
{
    match h.mapping {
        Some(map) => lemma_trigger_mapping_wf(cfg, m, map, down, oidx),
        None => {},
    }
}

/// Resolving a button keeps the state well-formed.
pub proof fn lemma_do_handle_wf(cfg: CachedConfig, m: StateModel, bi: usize, down: bool)
    requires
        cfg.wf(),
        m.wf(cfg),
        bi < m.buttons.len(),
    ensures
        spec_do_handle_button(cfg, m, bi, down).state.wf(cfg),
{
    let b1 = ButtonState {
        down: m.buttons[bi as int].down,
        handled: true,
        in_combo: m.buttons[bi as int].in_combo,
        handle_at: None,
    };
    let m1 = StateModel { buttons: m.buttons.update(bi as int, b1), ..m };
    assert(m1.wf(cfg));
    match spec_find_button_handler(cfg, m1.overlays, bi) {
        Some((oidx, h)) => lemma_trigger_handler_wf(cfg, m1, h, down, oidx),
        None => {},
    }
}

/// Clearing chord members keeps every untouched button and writes only fully
/// reset buttons.
pub proof fn lemma_clear_members_wf(buttons: Seq<ButtonState>, members: Seq<usize>, ncombos: int)
    requires
        forall|i: int|
            0 <= i < buttons.len() ==> ((#[trigger] buttons[i]).in_combo matches Some(c) ==> c
                < ncombos),
    ensures
        spec_clear_members(buttons, members).len() == buttons.len(),
        forall|i: int|
            0 <= i < buttons.len() ==> ((#[trigger] spec_clear_members(buttons, members)[i]).in_combo
                matches Some(c) ==> c < ncombos),
    decreases members.len(),
{
    lemma_clear_members_len(buttons, members);
    if members.len() == 0 {
    } else {
        lemma_clear_members_wf(buttons, members.drop_last(), ncombos);
    }
}

/// Claiming chord members writes only buttons claimed by that chord.
pub proof fn lemma_claim_members_wf(
    buttons: Seq<ButtonState>,
    members: Seq<usize>,
    cidx: usize,
    ncombos: int,
)
    requires
        cidx < ncombos,
        forall|i: int|
            0 <= i < buttons.len() ==> ((#[trigger] buttons[i]).in_combo matches Some(c) ==> c
                < ncombos),
    ensures
        spec_claim_members(buttons, members, cidx).len() == buttons.len(),
        forall|i: int|
            0 <= i < buttons.len() ==> ((#[trigger] spec_claim_members(buttons, members, cidx)[i]).in_combo
                matches Some(c) ==> c < ncombos),
    decreases members.len(),
{
    lemma_claim_members_len(buttons, members, cidx);
    if members.len() == 0 {
    } else {
        lemma_claim_members_wf(buttons, members.drop_last(), cidx, ncombos);
    }
}

/// Breaking a chord keeps the state well-formed.
pub proof fn lemma_combo_up_wf(cfg: CachedConfig, m: StateModel, cidx: usize)
    requires
        cfg.wf(),
        m.wf(cfg),
    ensures
        spec_combo_up(cfg, m, cidx).state.wf(cfg),
{
    let members = if cidx < cfg.combos@.len() {
        cfg.combos@[cidx as int].members@
    } else {
        Seq::empty()
    };
    lemma_clear_members_wf(m.buttons, members, cfg.combos@.len() as int);
    let m1 = StateModel {
        combos: if cidx < m.combos.len() {
            m.combos.update(cidx as int, false)
        } else {
            m.combos
        },
        buttons: spec_clear_members(m.buttons, members),
        ..m
    };
    assert(m1.wf(cfg));
    match spec_find_combo_handler(cfg, m1.overlays, cidx) {
        Some((oidx, h)) => lemma_trigger_handler_wf(cfg, m1, h, false, oidx),
        None => {},
    }
}

/// The first ready chord is ready and comes from the list.
pub proof fn lemma_first_ready_ready(cfg: CachedConfig, m: StateModel, list: Seq<usize>)
    ensures
        spec_first_ready(cfg, m, list) matches Some(c) ==> spec_ready(cfg, m, c) && list.contains(c),
    decreases list.len(),
{
    if list.len() == 0 {
    } else if spec_ready(cfg, m, list[0]) {
        assert(list.contains(list[0]));
    } else {
        lemma_first_ready_ready(cfg, m, list.drop_first());
        match spec_first_ready(cfg, m, list.drop_first()) {
            Some(c) => {
                assert(list.drop_first().contains(c));
                let j = choose|j: int|
                    0 <= j < list.drop_first().len() && list.drop_first()[j] == c;
                assert(list[j + 1] == c);
            },
            None => {},
        }
    }
}

/// A chord completion attempt keeps the state well-formed.
pub proof fn lemma_check_combos_wf(cfg: CachedConfig, m: StateModel, bi: usize)
    requires
        cfg.wf(),
        m.wf(cfg),
    ensures
        spec_check_combos(cfg, m, bi).state.wf(cfg),
{
    let list = if bi < cfg.button_combos@.len() {
        cfg.button_combos@[bi as int].combos@
    } else {
        Seq::empty()
    };
    lemma_first_ready_ready(cfg, m, list);
    match spec_first_ready(cfg, m, list) {
        Some(cidx) => {
            let members = cfg.combos@[cidx as int].members@;
            lemma_claim_members_wf(m.buttons, members, cidx, cfg.combos@.len() as int);
            let m1 = StateModel {
                combos: m.combos.update(cidx as int, true),
                buttons: spec_claim_members(m.buttons, members, cidx),
                ..m
            };
            assert(m1.wf(cfg));
            match spec_find_combo_handler(cfg, m1.overlays, cidx) {
                Some((oidx, h)) => lemma_trigger_handler_wf(cfg, m1, h, true, oidx),
                None => {},
            }
        },
        None => {},
    }
}

/// One button edge `(bi, down)` at time `now`, the whole transition:
///
/// 1. a duplicate edge (same direction as recorded) is a no-op;
/// 2. an unresolved prior edge is flushed first, resolved with its previous
///    direction, so every edge produces exactly one resolution;
/// 3. the new direction is recorded, unresolved;
/// 4. if an active chord claimed the button, the chord breaks immediately;
/// 5. else a press of a chord-member button attempts chord completion and in
///    either case arms a deadline of `now` plus the longest applicable chord
///    timeout (inert if the chord completed, since the sweep skips resolved
///    buttons);
/// 6. else the edge resolves immediately through the overlay-stack lookup.
pub open spec fn spec_handle_button(
    cfg: CachedConfig,
    m: StateModel,
    bi: usize,
    down: bool,
    now: u64,
) -> Step {
    let b0 = m.buttons[bi as int];
    if b0.down == down {
        Step { state: m, actions: Seq::empty() }
    } else {
        let s1 = if !b0.handled {
            spec_do_handle_button(cfg, m, bi, !down)
        } else {
            Step { state: m, actions: Seq::empty() }
        };
        let m1 = s1.state;
        let prev = m1.buttons[bi as int];
        let m2 = StateModel {
            buttons: m1.buttons.update(
                bi as int,
                ButtonState {
                    down,
                    handled: false,
                    in_combo: prev.in_combo,
                    handle_at: prev.handle_at,
                },
            ),
            ..m1
        };
        let s3 = match prev.in_combo {
            Some(cidx) => spec_combo_up(cfg, m2, cidx),
            None => {
                if down && bi < cfg.button_combos@.len() && cfg.button_combos@[bi as int].combos@.len() > 0 {
                    let sc = spec_check_combos(cfg, m2, bi);
                    let deadline = (now + cfg.button_combos@[bi as int].max_timeout) as u64;
                    let mb = sc.state.buttons[bi as int];
                    Step {
                        state: StateModel {
                            buttons: sc.state.buttons.update(
                                bi as int,
                                ButtonState {
                                    down: mb.down,
                                    handled: mb.handled,
                                    in_combo: mb.in_combo,
                                    handle_at: Some(deadline),
                                },
                            ),
                            ..sc.state
                        },
                        actions: sc.actions,
                    }
                } else {
                    spec_do_handle_button(cfg, m2, bi, down)
                }
            },
        };
        Step { state: s3.state, actions: s1.actions + s3.actions }
    }
}

/// The timeout sweep from button ordinal `bi` upward: every unresolved button
/// whose deadline is due resolves with its current direction, in ordinal
/// order.
pub open spec fn spec_sweep_from(cfg: CachedConfig, m: StateModel, now: u64, bi: int) -> Step
    decreases NUM_BUTTONS - bi,
{
    if bi < 0 || bi >= NUM_BUTTONS {
        Step { state: m, actions: Seq::empty() }
    } else {
        let due = bi < m.buttons.len() && !m.buttons[bi].handled && (m.buttons[bi].handle_at
            matches Some(t) && t <= now);
        let s1 = if due {
            spec_do_handle_button(cfg, m, bi as usize, m.buttons[bi].down)
        } else {
            Step { state: m, actions: Seq::empty() }
        };
        let s2 = spec_sweep_from(cfg, s1.state, now, bi + 1);
        Step { state: s2.state, actions: s1.actions + s2.actions }
    }
}

/// The whole timeout sweep, in button ordinal order.
pub open spec fn spec_handle_timeouts(cfg: CachedConfig, m: StateModel, now: u64) -> Step {
    spec_sweep_from(cfg, m, now, 0)
}

/// Which stick (with its latest raw axis pair) an axis update feeds, if any.
pub open spec fn spec_stick_inputs(axes: Seq<i16>, axis: Axis) -> Option<(usize, i16, i16)> {
    if axis == Axis::LeftX || axis == Axis::LeftY {
        Some((0, axes[0], axes[1]))
    } else if axis == Axis::RightX || axis == Axis::RightY {
        Some((1, axes[2], axes[3]))
    } else {
        None
    }
}

/// One button edge keeps the state well-formed.
pub proof fn lemma_handle_button_wf(cfg: CachedConfig, m: StateModel, bi: usize, down: bool, now: u64)
    requires
        cfg.wf(),
        m.wf(cfg),
        bi < NUM_BUTTONS,
    ensures
        spec_handle_button(cfg, m, bi, down, now).state.wf(cfg),
{
    let b0 = m.buttons[bi as int];
    if b0.down == down {
    } else {
        let s1 = if !b0.handled {
            spec_do_handle_button(cfg, m, bi, !down)
        } else {
            Step { state: m, actions: Seq::empty() }
        };
        if !b0.handled {
            lemma_do_handle_wf(cfg, m, bi, !down);
        }
        let m1 = s1.state;
        let prev = m1.buttons[bi as int];
        let m2 = StateModel {
            buttons: m1.buttons.update(
                bi as int,
                ButtonState {
                    down,
                    handled: false,
                    in_combo: prev.in_combo,
                    handle_at: prev.handle_at,
                },
            ),
            ..m1
        };
        assert(m2.wf(cfg));
        match prev.in_combo {
            Some(cidx) => {
                lemma_combo_up_wf(cfg, m2, cidx);
            },
            None => {
                if down && bi < cfg.button_combos@.len() && cfg.button_combos@[bi as int].combos@.len() > 0 {
                    lemma_check_combos_wf(cfg, m2, bi);
                } else {
                    lemma_do_handle_wf(cfg, m2, bi, down);
                }
            },
        }
    }
}

/// The timeout sweep keeps the state well-formed.
pub proof fn lemma_sweep_wf(cfg: CachedConfig, m: StateModel, now: u64, bi: int)
    requires
        cfg.wf(),
        m.wf(cfg),
    ensures
        spec_sweep_from(cfg, m, now, bi).state.wf(cfg),
    decreases NUM_BUTTONS - bi,
{
    if bi < 0 || bi >= NUM_BUTTONS {
    } else {
        let due = bi < m.buttons.len() && !m.buttons[bi].handled && (m.buttons[bi].handle_at
            matches Some(t) && t <= now);
        if due {
            lemma_do_handle_wf(cfg, m, bi as usize, m.buttons[bi].down);
            lemma_sweep_wf(cfg, spec_do_handle_button(cfg, m, bi as usize, m.buttons[bi].down).state, now, bi + 1);
        } else {
            lemma_sweep_wf(cfg, m, now, bi + 1);
        }
    }
}

impl State {
    /// Prunes the active-mapping list of every entry matching `m`.
    fn prune_active(&mut self, m: &StateMapping)
        ensures
            final(self)@ == (StateModel { active: spec_prune_active(old(self)@.active, *m), ..old(self)@ }),
    {
        let ghost src = self.active_maps@;
        let mut out: Vec<(usize, StateMapping)> = Vec::new();
        let n = self.active_maps.len();
        assert(src.take(0) =~= Seq::<(usize, StateMapping)>::empty());
        for i in 0..n
            invariant
                n == src.len(),
                src == self.active_maps@,
                out@ == spec_prune_active(src.take(i as int), *m),
        {
            proof {
                assert(src.take(i as int + 1).drop_last() =~= src.take(i as int));
                assert(src.take(i as int + 1).last() == src[i as int]);
            }
            let p = &self.active_maps[i];
            if !p.1.matches_mapping(m) {
                let q = (p.0, p.1.duplicate());
                out.push(q);
                assert(out@ =~= spec_prune_active(src.take(i as int + 1), *m));
            }
        }
        assert(src.take(n as int) =~= src);
        self.active_maps = out;
        assert(self@ =~= (StateModel { active: spec_prune_active(src, *m), ..old(self)@ }));
    }

    /// Pushes the overlay named `name` on the stack, if the name resolves and
    /// the overlay is not already active.
    pub fn add_overlay(&mut self, cfg: &CachedConfig, name: &String)
        ensures
            final(self)@ == (StateModel {
                overlays: spec_add_overlay(*cfg, old(self)@.overlays, name@),
                ..old(self)@
            }),
    {
        match cfg.overlay_index(name) {
            Some(idx) => {
                if !crate::cache::contains_usize(&self.current_overlays, idx) {
                    self.current_overlays.push(idx);
                }
            },
            None => {
                // Unknown overlay: the trigger is a no-op.
            },
        }
        assert(self@ =~= (StateModel {
            overlays: spec_add_overlay(*cfg, old(self)@.overlays, name@),
            ..old(self)@
        }));
    }

    /// Removes every stack occurrence of the overlay named `name`, if the name
    /// resolves; the base overlay is never removed.
    pub fn remove_overlay(&mut self, cfg: &CachedConfig, name: &String)
        ensures
            final(self)@ == (StateModel {
                overlays: spec_remove_overlay(*cfg, old(self)@.overlays, name@),
                ..old(self)@
            }),
    {
        match cfg.overlay_index(name) {
            Some(idx) => {
                if idx != cfg.base_index {
                    let ghost src = self.current_overlays@;
                    let mut out: Vec<usize> = Vec::new();
                    let n = self.current_overlays.len();
                    assert(src.take(0) =~= Seq::<usize>::empty());
                    for i in 0..n
                        invariant
                            n == src.len(),
                            src == self.current_overlays@,
                            out@ == spec_remove_all(src.take(i as int), idx),
                    {
                        proof {
                            assert(src.take(i as int + 1).drop_last() =~= src.take(i as int));
                            assert(src.take(i as int + 1).last() == src[i as int]);
                        }
                        let o = self.current_overlays[i];
                        if o != idx {
                            out.push(o);
                            assert(out@ =~= spec_remove_all(src.take(i as int + 1), idx));
                        }
                    }
                    assert(src.take(n as int) =~= src);
                    self.current_overlays = out;
                }
            },
            None => {
                // Unknown overlay: the trigger is a no-op.
            },
        }
        assert(self@ =~= (StateModel {
            overlays: spec_remove_overlay(*cfg, old(self)@.overlays, name@),
            ..old(self)@
        }));
    }

    /// Fires one mapping in direction `down` on behalf of overlay `oidx`,
    /// appending any emitted key action to `out`.
    pub(crate) fn trigger_mapping(
        &mut self,
        cfg: &CachedConfig,
        map: &StateMapping,
        down: bool,
        oidx: usize,
        out: &mut Vec<Action>,
    )
        ensures
            ({
                let step = spec_trigger_mapping(*cfg, old(self)@, *map, down, oidx);
                final(self)@ == step.state && final(out)@ == old(out)@ + step.actions
            }),
    {
        let ghost step = spec_trigger_mapping(*cfg, old(self)@, *map, down, oidx);
        match map {
            StateMapping::Key(k) => {
                out.push(
                    if down {
                        Action::KeyDown(*k)
                    } else {
                        Action::KeyUp(*k)
                    },
                );
            },
            StateMapping::Overlay(name) => {
                if down {
                    self.add_overlay(cfg, name);
                } else {
                    self.remove_overlay(cfg, name);
                }
            },
        }
        if down {
            self.active_maps.push((oidx, map.duplicate()));
        } else {
            self.prune_active(map);
        }
        assert(self@ =~= step.state);
        assert(out@ =~= old(out)@ + step.actions);
    }

    /// Fires a handler's mapping (if it has one) in direction `down`.
    fn trigger_handler(
        &mut self,
        cfg: &CachedConfig,
        h: &ButtonHandler,
        down: bool,
        oidx: usize,
        out: &mut Vec<Action>,
    )
        ensures
            ({
                let step = spec_trigger_handler(*cfg, old(self)@, *h, down, oidx);
                final(self)@ == step.state && final(out)@ == old(out)@ + step.actions
            }),
    {
        match &h.mapping {
            Some(map) => {
                self.trigger_mapping(cfg, map, down, oidx, out);
            },
            None => {
                assert(out@ =~= old(out)@ + Seq::<Action>::empty());
            },
        }
    }

    /// Resolves button ordinal `bi` in direction `down`: marks it handled,
    /// clears its deadline and fires the handler found for it, if any.
    fn do_handle_button(&mut self, cfg: &CachedConfig, bi: usize, down: bool, out: &mut Vec<Action>)
        requires
            bi < old(self)@.buttons.len(),
            forall|i: int|
                0 <= i < old(self)@.overlays.len() ==> #[trigger] old(self)@.overlays[i]
                    < cfg.overlays@.len(),
        ensures
            ({
                let step = spec_do_handle_button(*cfg, old(self)@, bi, down);
                final(self)@ == step.state && final(out)@ == old(out)@ + step.actions
            }),
    {
        let ghost step = spec_do_handle_button(*cfg, old(self)@, bi, down);
        let b = self.button_states[bi];
        self.button_states.set(
            bi,
            ButtonState { down: b.down, handled: true, in_combo: b.in_combo, handle_at: None },
        );
        let ghost m1 = StateModel {
            buttons: old(self)@.buttons.update(
                bi as int,
                ButtonState { down: b.down, handled: true, in_combo: b.in_combo, handle_at: None },
            ),
            ..old(self)@
        };
        assert(self@ =~= m1);
        match self.find_button_handler_idx(cfg, bi) {
            Some((oidx, h)) => {
                self.trigger_handler(cfg, h, down, oidx, out);
            },
            None => {
                assert(out@ =~= old(out)@ + Seq::<Action>::empty());
            },
        }
    }

    /// Breaks chord `cidx`: deactivates it, resets every member button to
    /// up/resolved/unclaimed, and fires the chord handler's deactivation.
    fn combo_up(&mut self, cfg: &CachedConfig, cidx: usize, out: &mut Vec<Action>)
        requires
            cfg.wf(),
            cidx < cfg.combos@.len(),
            cidx < old(self)@.combos.len(),
            old(self)@.buttons.len() == NUM_BUTTONS,
            forall|i: int|
                0 <= i < old(self)@.overlays.len() ==> #[trigger] old(self)@.overlays[i]
                    < cfg.overlays@.len(),
        ensures
            ({
                let step = spec_combo_up(*cfg, old(self)@, cidx);
                final(self)@ == step.state && final(out)@ == old(out)@ + step.actions
            }),
    {
        self.combo_states.set(cidx, false);
        let ghost members = cfg.combos@[cidx as int].members@;
        let ghost buttons0 = self.button_states@;
        let nm = cfg.combos[cidx].members.len();
        assert(members.take(0) =~= Seq::<usize>::empty());
        for j in 0..nm
            invariant
                nm == members.len(),
                members == cfg.combos@[cidx as int].members@,
                cidx < cfg.combos@.len(),
                cfg.combos@[cidx as int].wf(),
                buttons0.len() == NUM_BUTTONS,
                self.button_states@ == spec_clear_members(buttons0, members.take(j as int)),
                self.current_overlays@ == old(self).current_overlays@,
                self.combo_states@ == old(self)@.combos.update(cidx as int, false),
                self.axis_states@ == old(self)@.axes,
                self.stick_states@ == old(self)@.sticks,
                self.active_maps@ == old(self)@.active,
        {
            proof {
                assert(members.take(j as int + 1).drop_last() =~= members.take(j as int));
                assert(members.take(j as int + 1).last() == members[j as int]);
                lemma_clear_members_len(buttons0, members.take(j as int));
            }
            let mi = cfg.combos[cidx].members[j];
            self.button_states.set(
                mi,
                ButtonState { down: false, handled: true, in_combo: None, handle_at: None },
            );
        }
        assert(members.take(nm as int) =~= members);
        let ghost m1 = StateModel {
            combos: old(self)@.combos.update(cidx as int, false),
            buttons: spec_clear_members(old(self)@.buttons, members),
            ..old(self)@
        };
        assert(self@ =~= m1);
        match self.find_combo_handler_idx(cfg, cidx) {
            Some((oidx, h)) => {
                self.trigger_handler(cfg, h, false, oidx, out);
            },
            None => {
                assert(out@ =~= old(out)@ + Seq::<Action>::empty());
            },
        }
    }

    /// Whether every member button of chord `cidx` is currently down.
    fn all_members_down(&self, cfg: &CachedConfig, cidx: usize) -> (r: bool)
        requires
            cidx < cfg.combos@.len(),
            cfg.combos@[cidx as int].wf(),
            self@.buttons.len() == NUM_BUTTONS,
        ensures
            r == spec_all_down(self@.buttons, cfg.combos@[cidx as int].members@),
    {
        let members = &cfg.combos[cidx].members;
        let n = members.len();
        for j in 0..n
            invariant
                n == members@.len(),
                members@ == cfg.combos@[cidx as int].members@,
                cidx < cfg.combos@.len(),
                cfg.combos@[cidx as int].wf(),
                self@.buttons.len() == NUM_BUTTONS,
                forall|k: int|
                    0 <= k < j ==> #[trigger] members@[k] < self@.buttons.len()
                        && self@.buttons[members@[k] as int].down,
        {
            if !self.button_states[members[j]].down {
                return false;
            }
        }
        true
    }

    /// The first chord containing button ordinal `bi` (document order) whose
    /// members are all down and which is not already active.
    fn first_ready_combo(&self, cfg: &CachedConfig, bi: usize) -> (r: Option<usize>)
        requires
            cfg.wf(),
            self@.wf(*cfg),
            bi < NUM_BUTTONS,
        ensures
            r == spec_first_ready(
                *cfg,
                self@,
                cfg.button_combos@[bi as int].combos@,
            ),
    {
        let ghost list = cfg.button_combos@[bi as int].combos@;
        let n = cfg.button_combos[bi].combos.len();
        assert(list.skip(0) =~= list);
        for i in 0..n
            invariant
                cfg.wf(),
                self@.wf(*cfg),
                bi < NUM_BUTTONS,
                n == list.len(),
                list == cfg.button_combos@[bi as int].combos@,
                spec_first_ready(*cfg, self@, list) == spec_first_ready(
                    *cfg,
                    self@,
                    list.skip(i as int),
                ),
        {
            proof {
                assert(list.skip(i as int).drop_first() =~= list.skip(i as int + 1));
                assert(list.skip(i as int)[0] == list[i as int]);
            }
            let cidx = cfg.button_combos[bi].combos[i];
            assert(cidx < cfg.combos@.len());
            if self.all_members_down(cfg, cidx) && !self.combo_states[cidx] {
                assert(spec_ready(*cfg, self@, cidx));
                return Some(cidx);
            }
            assert(!spec_ready(*cfg, self@, cidx));
        }
        None
    }

    /// Attempts chord completion for button ordinal `bi`: claims the first
    /// ready chord containing it, if any, and fires that chord's activation.
    fn check_combos(&mut self, cfg: &CachedConfig, bi: usize, out: &mut Vec<Action>)
        requires
            cfg.wf(),
            old(self)@.wf(*cfg),
            bi < NUM_BUTTONS,
        ensures
            ({
                let step = spec_check_combos(*cfg, old(self)@, bi);
                final(self)@ == step.state && final(out)@ == old(out)@ + step.actions
            }),
    {
        let found = self.first_ready_combo(cfg, bi);
        match found {
            Some(cidx) => {
                proof {
                    lemma_first_ready_ready(*cfg, old(self)@, cfg.button_combos@[bi as int].combos@);
                }
                self.combo_states.set(cidx, true);
                let ghost members = cfg.combos@[cidx as int].members@;
                let ghost buttons0 = self.button_states@;
                let nm = cfg.combos[cidx].members.len();
                assert(members.take(0) =~= Seq::<usize>::empty());
                for j in 0..nm
                    invariant
                        nm == members.len(),
                        members == cfg.combos@[cidx as int].members@,
                        cidx < cfg.combos@.len(),
                        cfg.combos@[cidx as int].wf(),
                        buttons0.len() == NUM_BUTTONS,
                        self.button_states@ == spec_claim_members(
                            buttons0,
                            members.take(j as int),
                            cidx,
                        ),
                        self.current_overlays@ == old(self)@.overlays,
                        self.combo_states@ == old(self)@.combos.update(cidx as int, true),
                        self.axis_states@ == old(self)@.axes,
                        self.stick_states@ == old(self)@.sticks,
                        self.active_maps@ == old(self)@.active,
                    {
                    proof {
                        assert(members.take(j as int + 1).drop_last() =~= members.take(j as int));
                        assert(members.take(j as int + 1).last() == members[j as int]);
                        lemma_claim_members_len(buttons0, members.take(j as int), cidx);
                    }
                    let mi = cfg.combos[cidx].members[j];
                    let mb = self.button_states[mi];
                    self.button_states.set(
                        mi,
                        ButtonState {
                            down: mb.down,
                            handled: true,
                            in_combo: Some(cidx),
                            handle_at: None,
                        },
                    );
                }
                assert(members.take(nm as int) =~= members);
                let ghost m1 = StateModel {
                    combos: old(self)@.combos.update(cidx as int, true),
                    buttons: spec_claim_members(old(self)@.buttons, members, cidx),
                    ..old(self)@
                };
                assert(self@ =~= m1);
                match self.find_combo_handler_idx(cfg, cidx) {
                    Some((oidx, h)) => {
                        self.trigger_handler(cfg, h, true, oidx, out);
                    },
                    None => {
                        assert(out@ =~= old(out)@ + Seq::<Action>::empty());
                    },
                }
            },
            None => {
                assert(out@ =~= old(out)@ + Seq::<Action>::empty());
            },
        }
    }

    /// Looks up the handler for button ordinal `bi`, scanning the overlay
    /// stack from the top down.
    fn find_button_handler_idx<'a>(&self, config: &'a CachedConfig, bi: usize) -> (r: Option<
        (usize, &'a ButtonHandler),
    >)
        requires
            forall|i: int|
                0 <= i < self.current_overlays@.len() ==> #[trigger] self.current_overlays@[i]
                    < config.overlays@.len(),
        ensures
            match r {
                Some((oidx, h)) => spec_find_button_handler(*config, self@.overlays, bi) == Some(
                    (oidx, *h),
                ),
                None => spec_find_button_handler(*config, self@.overlays, bi) is None,
            },
    {
        let ghost stack = self.current_overlays@;
        let mut i = self.current_overlays.len();
        assert(stack.take(i as int) =~= stack);
        while i > 0
            invariant
                i <= stack.len(),
                stack == self.current_overlays@,
                forall|k: int| 0 <= k < stack.len() ==> #[trigger] stack[k] < config.overlays@.len(),
                spec_find_button_handler(*config, stack, bi) == spec_find_button_handler(
                    *config,
                    stack.take(i as int),
                    bi,
                ),
            decreases i,
        {
            i = i - 1;
            let oidx = self.current_overlays[i];
            proof {
                assert(stack.take(i as int + 1).drop_last() =~= stack.take(i as int));
                assert(stack.take(i as int + 1).last() == stack[i as int]);
            }
            match assoc_get(&config.overlays[oidx].buttons, bi) {
                Some(h) => {
                    return Some((oidx, h));
                },
                None => {},
            }
        }
        assert(stack.take(0) =~= Seq::<usize>::empty());
        None
    }

    /// Looks up the handler for chord index `ci`, scanning the overlay stack
    /// from the top down.
    fn find_combo_handler_idx<'a>(&self, config: &'a CachedConfig, ci: usize) -> (r: Option<
        (usize, &'a ButtonHandler),
    >)
        requires
            forall|i: int|
                0 <= i < self.current_overlays@.len() ==> #[trigger] self.current_overlays@[i]
                    < config.overlays@.len(),
        ensures
            match r {
                Some((oidx, h)) => spec_find_combo_handler(*config, self@.overlays, ci) == Some(
                    (oidx, *h),
                ),
                None => spec_find_combo_handler(*config, self@.overlays, ci) is None,
            },
    {
        let ghost stack = self.current_overlays@;
        let mut i = self.current_overlays.len();
        assert(stack.take(i as int) =~= stack);
        while i > 0
            invariant
                i <= stack.len(),
                stack == self.current_overlays@,
                forall|k: int| 0 <= k < stack.len() ==> #[trigger] stack[k] < config.overlays@.len(),
                spec_find_combo_handler(*config, stack, ci) == spec_find_combo_handler(
                    *config,
                    stack.take(i as int),
                    ci,
                ),
            decreases i,
        {
            i = i - 1;
            let oidx = self.current_overlays[i];
            proof {
                assert(stack.take(i as int + 1).drop_last() =~= stack.take(i as int));
                assert(stack.take(i as int + 1).last() == stack[i as int]);
            }
            match assoc_get(&config.overlays[oidx].combos, ci) {
                Some(h) => {
                    return Some((oidx, h));
                },
                None => {},
            }
        }
        assert(stack.take(0) =~= Seq::<usize>::empty());
        None
    }

    /// Looks up the handler for stick index `si`, scanning the overlay stack
    /// from the top down.
    fn find_stick_handler_idx<'a>(&self, config: &'a CachedConfig, si: usize) -> (r: Option<
        (usize, &'a StickHandler),
    >)
        requires
            forall|i: int|
                0 <= i < self.current_overlays@.len() ==> #[trigger] self.current_overlays@[i]
                    < config.overlays@.len(),
        ensures
            match r {
                Some((oidx, h)) => spec_find_stick_handler(*config, self@.overlays, si) == Some(
                    (oidx, *h),
                ),
                None => spec_find_stick_handler(*config, self@.overlays, si) is None,
            },
    {
        let ghost stack = self.current_overlays@;
        let mut i = self.current_overlays.len();
        assert(stack.take(i as int) =~= stack);
        while i > 0
            invariant
                i <= stack.len(),
                stack == self.current_overlays@,
                forall|k: int| 0 <= k < stack.len() ==> #[trigger] stack[k] < config.overlays@.len(),
                spec_find_stick_handler(*config, stack, si) == spec_find_stick_handler(
                    *config,
                    stack.take(i as int),
                    si,
                ),
            decreases i,
        {
            i = i - 1;
            let oidx = self.current_overlays[i];
            proof {
                assert(stack.take(i as int + 1).drop_last() =~= stack.take(i as int));
                assert(stack.take(i as int + 1).last() == stack[i as int]);
            }
            match assoc_get(&config.overlays[oidx].sticks, si) {
                Some(h) => {
                    return Some((oidx, h));
                },
                None => {},
            }
        }
        assert(stack.take(0) =~= Seq::<usize>::empty());
        None
    }

    /// Creates the engine state for a cache: base overlay on the stack, every
    /// button up and resolved, every chord inactive, axes centered, sticks at
    /// rest, no active mappings.
    pub fn new(cfg: &CachedConfig) -> (s: State)
        requires
            cfg.wf(),
        ensures
            s@.wf(*cfg),
            s@.overlays == seq![cfg.base_index],
            s@.buttons.len() == NUM_BUTTONS,
            forall|i: int|
                0 <= i < NUM_BUTTONS ==> #[trigger] s@.buttons[i] == (ButtonState {
                    down: false,
                    handled: true,
                    in_combo: None,
                    handle_at: None,
                }),
            s@.combos.len() == cfg.combos@.len(),
            forall|i: int| 0 <= i < s@.combos.len() ==> !(#[trigger] s@.combos[i]),
            s@.axes.len() == NUM_AXES,
            forall|i: int| 0 <= i < NUM_AXES ==> #[trigger] s@.axes[i] == 0i16,
            s@.sticks.len() == NUM_STICKS,
            forall|i: int|
                0 <= i < NUM_STICKS ==> #[trigger] s@.sticks[i] == (StickState {
                    angle_millideg: 0,
                    magnitude: 0,
                    sector: None,
                }),
            s@.active == Seq::<(usize, StateMapping)>::empty(),
    {
        let mut current_overlays: Vec<usize> = Vec::new();
        current_overlays.push(cfg.base_index);
        assert(current_overlays@ =~= seq![cfg.base_index]);
        let mut button_states: Vec<ButtonState> = Vec::new();
        for i in 0..NUM_BUTTONS
            invariant
                button_states@.len() == i,
                forall|k: int|
                    0 <= k < i ==> #[trigger] button_states@[k] == (ButtonState {
                        down: false,
                        handled: true,
                        in_combo: None,
                        handle_at: None,
                    }),
        {
            button_states.push(ButtonState::default());
        }
        let mut combo_states: Vec<bool> = Vec::new();
        let nc = cfg.combos.len();
        for i in 0..nc
            invariant
                combo_states@.len() == i,
                forall|k: int| 0 <= k < i ==> !(#[trigger] combo_states@[k]),
        {
            combo_states.push(false);
        }
        let mut axis_states: Vec<i16> = Vec::new();
        for i in 0..NUM_AXES
            invariant
                axis_states@.len() == i,
                forall|k: int| 0 <= k < i ==> #[trigger] axis_states@[k] == 0i16,
        {
            axis_states.push(0);
        }
        let mut stick_states: Vec<StickState> = Vec::new();
        for i in 0..NUM_STICKS
            invariant
                stick_states@.len() == i,
                forall|k: int|
                    0 <= k < i ==> #[trigger] stick_states@[k] == (StickState {
                        angle_millideg: 0,
                        magnitude: 0,
                        sector: None,
                    }),
        {
            stick_states.push(StickState::default());
        }
        let active_maps: Vec<(usize, StateMapping)> = Vec::new();
        State { current_overlays, button_states, combo_states, axis_states, stick_states, active_maps }
    }

    /// Processes one button edge at engine time `now` (milliseconds),
    /// appending every emitted key action to `out`.
    ///
    /// The deadline sum must fit the time type; callers keep `now` well below
    /// that bound.
    pub fn handle_button(
        &mut self,
        cfg: &CachedConfig,
        btn: Button,
        down: bool,
        now: u64,
        out: &mut Vec<Action>,
    )
        requires
            cfg.wf(),
            old(self)@.wf(*cfg),
            now + cfg.button_combos@[btn.spec_index() as int].max_timeout <= u64::MAX,
        ensures
            ({
                let step = spec_handle_button(*cfg, old(self)@, btn.spec_index(), down, now);
                final(self)@ == step.state && final(out)@ == old(out)@ + step.actions
            }),
            final(self)@.wf(*cfg),
    {
        proof {
            lemma_handle_button_wf(*cfg, old(self)@, btn.spec_index(), down, now);
        }
        let ghost step = spec_handle_button(*cfg, old(self)@, btn.spec_index(), down, now);
        let bi = btn.index();
        let b0 = self.button_states[bi];
        if b0.down == down {
            assert(out@ =~= old(out)@ + step.actions);
            return;
        }
        let ghost s1 = if !b0.handled {
            spec_do_handle_button(*cfg, old(self)@, bi, !down)
        } else {
            Step { state: old(self)@, actions: Seq::empty() }
        };
        if !b0.handled {
            self.do_handle_button(cfg, bi, !down, out);
            proof {
                lemma_do_handle_wf(*cfg, old(self)@, bi, !down);
            }
        }
        assert(self@ == s1.state && out@ =~= old(out)@ + s1.actions);
        assert(self@.wf(*cfg));
        let prev = self.button_states[bi];
        self.button_states.set(
            bi,
            ButtonState { down, handled: false, in_combo: prev.in_combo, handle_at: prev.handle_at },
        );
        let ghost m2 = StateModel {
            buttons: s1.state.buttons.update(
                bi as int,
                ButtonState { down, handled: false, in_combo: prev.in_combo, handle_at: prev.handle_at },
            ),
            ..s1.state
        };
        assert(self@ =~= m2);
        assert(m2.wf(*cfg));
        match prev.in_combo {
            Some(cidx) => {
                self.combo_up(cfg, cidx, out);
            },
            None => {
                if down && cfg.button_combos[bi].combos.len() > 0 {
                    self.check_combos(cfg, bi, out);
                    proof {
                        lemma_check_combos_wf(*cfg, m2, bi);
                    }
                    let deadline = now + cfg.button_combos[bi].max_timeout;
                    let mb = self.button_states[bi];
                    self.button_states.set(
                        bi,
                        ButtonState {
                            down: mb.down,
                            handled: mb.handled,
                            in_combo: mb.in_combo,
                            handle_at: Some(deadline),
                        },
                    );
                    assert(self@ =~= step.state);
                } else {
                    self.do_handle_button(cfg, bi, down, out);
                }
            },
        }
        assert(self@ =~= step.state);
        assert(out@ =~= old(out)@ + step.actions);
    }

    /// Runs the timeout sweep at engine time `now`: every unresolved button
    /// whose deadline is due resolves with its current direction, in button
    /// ordinal order, appending every emitted key action to `out`.
    pub fn handle_timeouts(&mut self, cfg: &CachedConfig, now: u64, out: &mut Vec<Action>)
        requires
            cfg.wf(),
            old(self)@.wf(*cfg),
        ensures
            ({
                let step = spec_handle_timeouts(*cfg, old(self)@, now);
                final(self)@ == step.state && final(out)@ == old(out)@ + step.actions
            }),
            final(self)@.wf(*cfg),
    {
        for bi in 0..NUM_BUTTONS
            invariant
                cfg.wf(),
                self@.wf(*cfg),
                spec_sweep_from(*cfg, old(self)@, now, 0).state == spec_sweep_from(
                    *cfg,
                    self@,
                    now,
                    bi as int,
                ).state,
                old(out)@ + spec_sweep_from(*cfg, old(self)@, now, 0).actions == out@
                    + spec_sweep_from(*cfg, self@, now, bi as int).actions,
        {
            let ghost pre = self@;
            let ghost preout = out@;
            let b = self.button_states[bi];
            let due = !b.handled && match b.handle_at {
                Some(t) => t <= now,
                None => false,
            };
            if due {
                self.do_handle_button(cfg, bi, b.down, out);
                proof {
                    lemma_do_handle_wf(*cfg, pre, bi, b.down);
                    let s1 = spec_do_handle_button(*cfg, pre, bi, b.down);
                    assert(preout + (s1.actions + spec_sweep_from(*cfg, self@, now, bi as int + 1).actions)
                        =~= (preout + s1.actions) + spec_sweep_from(*cfg, self@, now, bi as int + 1).actions);
                }
            } else {
                proof {
                    assert(preout + (Seq::<Action>::empty() + spec_sweep_from(*cfg, self@, now, bi as int + 1).actions)
                        =~= preout + spec_sweep_from(*cfg, self@, now, bi as int + 1).actions);
                }
            }
        }
        assert(out@ =~= old(out)@ + spec_handle_timeouts(*cfg, old(self)@, now).actions);
    }

    /// The earliest pending per-button deadline, if any: what the engine loop
    /// should wait for before its next timeout sweep.
    pub fn next_deadline(&self) -> (r: Option<u64>)
        ensures
            match r {
                Some(d) => (exists|i: int|
                    0 <= i < self@.buttons.len() && (#[trigger] self@.buttons[i]).handle_at == Some(
                        d,
                    )) && (forall|i: int|
                    0 <= i < self@.buttons.len() ==> ((#[trigger] self@.buttons[i]).handle_at
                        matches Some(t) ==> d <= t)),
                None => forall|i: int|
                    0 <= i < self@.buttons.len() ==> (#[trigger] self@.buttons[i]).handle_at is None,
            },
    {
        let mut best: Option<u64> = None;
        let n = self.button_states.len();
        for i in 0..n
            invariant
                n == self@.buttons.len(),
                match best {
                    Some(d) => (exists|k: int|
                        0 <= k < i && (#[trigger] self@.buttons[k]).handle_at == Some(d)) && (forall|
                        k: int,
                    |
                        0 <= k < i ==> ((#[trigger] self@.buttons[k]).handle_at matches Some(t)
                            ==> d <= t)),
                    None => forall|k: int|
                        0 <= k < i ==> (#[trigger] self@.buttons[k]).handle_at is None,
                },
        {
            match self.button_states[i].handle_at {
                Some(t) => {
                    let take = match best {
                        Some(d) => t < d,
                        None => true,
                    };
                    if take {
                        best = Some(t);
                    }
                },
                None => {},
            }
        }
        best
    }

    /// Records one raw axis sample and names the stick it feeds, if any,
    /// together with that stick's latest raw `(x, y)` pair.
    pub fn update_axis(&mut self, axis: Axis, value: i16) -> (r: Option<(usize, i16, i16)>)
        requires
            old(self)@.axes.len() == NUM_AXES,
        ensures
            final(self)@ == (StateModel {
                axes: old(self)@.axes.update(axis.spec_index() as int, value),
                ..old(self)@
            }),
            r == spec_stick_inputs(final(self)@.axes, axis),
    {
        let ai = axis.index();
        self.axis_states.set(ai, value);
        assert(self@ =~= (StateModel {
            axes: old(self)@.axes.update(axis.spec_index() as int, value),
            ..old(self)@
        }));
        match axis {
            Axis::LeftX | Axis::LeftY => Some((0, self.axis_states[0], self.axis_states[1])),
            Axis::RightX | Axis::RightY => Some((1, self.axis_states[2], self.axis_states[3])),
            _ => None,
        }
    }

    /// Looks up the handler bound to `btn`: the topmost overlay that binds it
    /// wins.
    pub fn find_button_handler<'a>(&self, config: &'a CachedConfig, btn: &Button) -> (r: Option<
        (usize, &'a ButtonHandler),
    >)
        requires
            forall|i: int|
                0 <= i < self.current_overlays@.len() ==> #[trigger] self.current_overlays@[i]
                    < config.overlays@.len(),
        ensures
            match r {
                Some((oidx, h)) => spec_find_button_handler(*config, self@.overlays, btn.spec_index())
                    == Some((oidx, *h)),
                None => spec_find_button_handler(*config, self@.overlays, btn.spec_index()) is None,
            },
    {
        self.find_button_handler_idx(config, btn.index())
    }

    /// Looks up the handler bound to chord index `idx`: the topmost overlay
    /// that binds it wins.
    pub fn find_combo_handler<'a>(&self, config: &'a CachedConfig, idx: usize) -> (r: Option<
        (usize, &'a ButtonHandler),
    >)
        requires
            forall|i: int|
                0 <= i < self.current_overlays@.len() ==> #[trigger] self.current_overlays@[i]
                    < config.overlays@.len(),
        ensures
            match r {
                Some((oidx, h)) => spec_find_combo_handler(*config, self@.overlays, idx) == Some(
                    (oidx, *h),
                ),
                None => spec_find_combo_handler(*config, self@.overlays, idx) is None,
            },
    {
        self.find_combo_handler_idx(config, idx)
    }

    /// Looks up the handler bound to stick index `idx`: the topmost overlay
    /// that binds it wins.
    pub fn find_stick_handler<'a>(&self, config: &'a CachedConfig, idx: usize) -> (r: Option<
        (usize, &'a StickHandler),
    >)
        requires
            forall|i: int|
                0 <= i < self.current_overlays@.len() ==> #[trigger] self.current_overlays@[i]
                    < config.overlays@.len(),
        ensures
            match r {
                Some((oidx, h)) => spec_find_stick_handler(*config, self@.overlays, idx) == Some(
                    (oidx, *h),
                ),
                None => spec_find_stick_handler(*config, self@.overlays, idx) is None,
            },
    {
        self.find_stick_handler_idx(config, idx)
    }
}

} // verus!
