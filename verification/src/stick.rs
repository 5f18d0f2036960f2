//! The stick classifier: discrete angular sectors with edge-triggered
//! enter/exit transitions.
//!
//! A stick pose is an angle in millidegrees and a magnitude in thousandths of
//! full deflection. A pose at or below the dead-zone threshold has no sector;
//! otherwise the pose falls in the last sector whose boundary is at or below
//! the angle, wrapping to the last sector when the angle lies below every
//! boundary. Only a sector change fires mappings: the old sector's exit first,
//! then the new sector's enter.

use vstd::prelude::*;

use crate::cache::CachedConfig;
use crate::config::{Action, CircleHandler, Sector};
use crate::engine::{
    lemma_trigger_mapping_wf, spec_find_stick_handler, spec_trigger_mapping, State, StateModel,
    StickState, Step,
};

verus! {

/// Last sector index at or below `i` whose boundary is at or below `angle`.
pub open spec fn rfind_sector_from(sectors: Seq<Sector>, angle: u64, i: int) -> Option<usize>
    decreases i + 1,
{
    if i < 0 || i >= sectors.len() {
        None
    } else if sectors[i].from_millideg <= angle {
        Some(i as usize)
    } else {
        rfind_sector_from(sectors, angle, i - 1)
    }
}

/// The sector a pose falls in: none within the (inclusive) dead zone or with
/// no sectors declared; otherwise the last sector whose boundary is at or
/// below the angle, wrapping to the last sector when the angle lies below
/// every boundary.
pub open spec fn spec_classify(ch: CircleHandler, angle: u64, magnitude: u64) -> Option<usize> {
    if magnitude <= ch.min_value {
        None
    } else if ch.sectors@.len() == 0 {
        None
    } else {
        match rfind_sector_from(ch.sectors@, angle, ch.sectors@.len() - 1) {
            Some(i) => Some(i),
            None => Some((ch.sectors@.len() - 1) as usize),
        }
    }
}

/// A classified sector index is in range of the sector list.
pub proof fn lemma_rfind_in_range(sectors: Seq<Sector>, angle: u64, i: int)
    requires
        i < sectors.len(),
        sectors.len() <= usize::MAX,
    ensures
        rfind_sector_from(sectors, angle, i) matches Some(r) ==> r <= i && r < sectors.len(),
    decreases i + 1,
{
    if i < 0 || i >= sectors.len() {
    } else if sectors[i].from_millideg <= angle {
    } else {
        lemma_rfind_in_range(sectors, angle, i - 1);
    }
}

/// A classified sector index is in range of the sector list.
pub proof fn lemma_classify_in_range(ch: CircleHandler, angle: u64, magnitude: u64)
    requires
        ch.sectors@.len() <= usize::MAX,
    ensures
        spec_classify(ch, angle, magnitude) matches Some(r) ==> r < ch.sectors@.len(),
{
    if magnitude <= ch.min_value {
    } else if ch.sectors@.len() == 0 {
    } else {
        lemma_rfind_in_range(ch.sectors@, angle, ch.sectors@.len() - 1);
    }
}

/// Classifies a pose against a sector layout.
pub fn classify_sector(ch: &CircleHandler, angle: u64, magnitude: u64) -> (r: Option<usize>)
    ensures
        r == spec_classify(*ch, angle, magnitude),
{
    if magnitude <= ch.min_value {
        return None;
    }
    let n = ch.sectors.len();
    if n == 0 {
        return None;
    }
    let mut i = n;
    while i > 0
        invariant
            i <= n,
            0 < n == ch.sectors@.len(),
            magnitude > ch.min_value,
            rfind_sector_from(ch.sectors@, angle, n as int - 1) == rfind_sector_from(
                ch.sectors@,
                angle,
                i as int - 1,
            ),
        decreases i,
    {
        i = i - 1;
        if ch.sectors[i].from_millideg <= angle {
            assert(rfind_sector_from(ch.sectors@, angle, i as int) == Some(i));
            return Some(i);
        }
        assert(rfind_sector_from(ch.sectors@, angle, i as int) == rfind_sector_from(
            ch.sectors@,
            angle,
            i as int - 1,
        ));
    }
    Some(n - 1)
}

/// One stick update: the pose is recorded from the latest axis pair; if a
/// stick handler with a sector layout is found, the pose is classified and a
/// sector change fires the old sector's exit mapping, then the new sector's
/// enter mapping. Without a handler or layout the stale sector is kept.
pub open spec fn spec_update_stick(
    cfg: CachedConfig,
    m: StateModel,
    si: usize,
    angle: u64,
    magnitude: u64,
) -> Step {
    let prev = m.sticks[si as int].sector;
    let m1 = StateModel {
        sticks: m.sticks.update(
            si as int,
            StickState { angle_millideg: angle, magnitude, sector: prev },
        ),
        ..m
    };
    match spec_find_stick_handler(cfg, m1.overlays, si) {
        None => Step { state: m1, actions: Seq::empty() },
        Some((oidx, h)) => match h.circle {
            None => Step { state: m1, actions: Seq::empty() },
            Some(ch) => {
                let ns = spec_classify(ch, angle, magnitude);
                let m2 = StateModel {
                    sticks: m1.sticks.update(
                        si as int,
                        StickState { angle_millideg: angle, magnitude, sector: ns },
                    ),
                    ..m1
                };
                if ns == prev {
                    Step { state: m2, actions: Seq::empty() }
                } else {
                    let s3 = match prev {
                        Some(pi) => if pi < ch.sectors@.len() {
                            match ch.sectors@[pi as int].mapping {
                                Some(mp) => spec_trigger_mapping(cfg, m2, mp, false, oidx),
                                None => Step { state: m2, actions: Seq::empty() },
                            }
                        } else {
                            Step { state: m2, actions: Seq::empty() }
                        },
                        None => Step { state: m2, actions: Seq::empty() },
                    };
                    let s4 = match ns {
                        Some(nsi) => if nsi < ch.sectors@.len() {
                            match ch.sectors@[nsi as int].mapping {
                                Some(mp) => spec_trigger_mapping(cfg, s3.state, mp, true, oidx),
                                None => Step { state: s3.state, actions: Seq::empty() },
                            }
                        } else {
                            Step { state: s3.state, actions: Seq::empty() }
                        },
                        None => Step { state: s3.state, actions: Seq::empty() },
                    };
                    Step { state: s4.state, actions: s3.actions + s4.actions }
                }
            },
        },
    }
}

/// A stick update keeps the state well-formed.
pub proof fn lemma_update_stick_wf(
    cfg: CachedConfig,
    m: StateModel,
    si: usize,
    angle: u64,
    magnitude: u64,
)
    requires
        cfg.wf(),
        m.wf(cfg),
        si < m.sticks.len(),
    ensures
        spec_update_stick(cfg, m, si, angle, magnitude).state.wf(cfg),
{
    let prev = m.sticks[si as int].sector;
    let m1 = StateModel {
        sticks: m.sticks.update(
            si as int,
            StickState { angle_millideg: angle, magnitude, sector: prev },
        ),
        ..m
    };
    assert(m1.wf(cfg));
    match spec_find_stick_handler(cfg, m1.overlays, si) {
        None => {},
        Some((oidx, h)) => match h.circle {
            None => {},
            Some(ch) => {
                let ns = spec_classify(ch, angle, magnitude);
                let m2 = StateModel {
                    sticks: m1.sticks.update(
                        si as int,
                        StickState { angle_millideg: angle, magnitude, sector: ns },
                    ),
                    ..m1
                };
                assert(m2.wf(cfg));
                if ns == prev {
                } else {
                    let s3 = match prev {
                        Some(pi) => if pi < ch.sectors@.len() {
                            match ch.sectors@[pi as int].mapping {
                                Some(mp) => {
                                    lemma_trigger_mapping_wf(cfg, m2, mp, false, oidx);
                                    spec_trigger_mapping(cfg, m2, mp, false, oidx)
                                },
                                None => Step { state: m2, actions: Seq::empty() },
                            }
                        } else {
                            Step { state: m2, actions: Seq::empty() }
                        },
                        None => Step { state: m2, actions: Seq::empty() },
                    };
                    assert(s3.state.wf(cfg));
                    match ns {
                        Some(nsi) => if nsi < ch.sectors@.len() {
                            match ch.sectors@[nsi as int].mapping {
                                Some(mp) => {
                                    lemma_trigger_mapping_wf(cfg, s3.state, mp, true, oidx);
                                },
                                None => {},
                            }
                        },
                        None => {},
                    }
                }
            },
        },
    }
}

impl State {
    /// Applies one stick pose (angle in millidegrees, magnitude in thousandths
    /// of full deflection) computed from the stick's latest axis pair,
    /// appending every emitted key action to `out`.
    pub fn update_stick(
        &mut self,
        cfg: &CachedConfig,
        si: usize,
        angle: u64,
        magnitude: u64,
        out: &mut Vec<Action>,
    )
        requires
            cfg.wf(),
            old(self)@.wf(*cfg),
            si < old(self)@.sticks.len(),
        ensures
            ({
                let step = spec_update_stick(*cfg, old(self)@, si, angle, magnitude);
                final(self)@ == step.state && final(out)@ == old(out)@ + step.actions
            }),
            final(self)@.wf(*cfg),
    {
        proof {
            lemma_update_stick_wf(*cfg, old(self)@, si, angle, magnitude);
        }
        let ghost step = spec_update_stick(*cfg, old(self)@, si, angle, magnitude);
        let prev = self.stick_states[si].sector;
        self.stick_states.set(
            si,
            StickState { angle_millideg: angle, magnitude, sector: prev },
        );
        let ghost m1 = StateModel {
            sticks: old(self)@.sticks.update(
                si as int,
                StickState { angle_millideg: angle, magnitude, sector: prev },
            ),
            ..old(self)@
        };
        assert(self@ =~= m1);
        match self.find_stick_handler(cfg, si) {
            None => {
                assert(out@ =~= old(out)@ + step.actions);
            },
            Some((oidx, h)) => {
                match &h.circle {
                    None => {
                        assert(out@ =~= old(out)@ + step.actions);
                    },
                    Some(ch) => {
                        let ns = classify_sector(ch, angle, magnitude);
                        self.stick_states.set(
                            si,
                            StickState { angle_millideg: angle, magnitude, sector: ns },
                        );
                        let ghost m2 = StateModel {
                            sticks: m1.sticks.update(
                                si as int,
                                StickState { angle_millideg: angle, magnitude, sector: ns },
                            ),
                            ..m1
                        };
                        assert(self@ =~= m2);
                        let same = match (ns, prev) {
                            (Some(a), Some(b)) => a == b,
                            (None, None) => true,
                            _ => false,
                        };
                        if !same {
                            let ghost mid_out = out@;
                            match prev {
                                Some(pi) => {
                                    if pi < ch.sectors.len() {
                                        match &ch.sectors[pi].mapping {
                                            Some(mp) => {
                                                self.trigger_mapping(cfg, mp, false, oidx, out);
                                            },
                                            None => {},
                                        }
                                    }
                                },
                                None => {},
                            }
                            let ghost s3 = match prev {
                                Some(pi) => if pi < ch.sectors@.len() {
                                    match ch.sectors@[pi as int].mapping {
                                        Some(mp) => spec_trigger_mapping(*cfg, m2, mp, false, oidx),
                                        None => Step { state: m2, actions: Seq::<Action>::empty() },
                                    }
                                } else {
                                    Step { state: m2, actions: Seq::<Action>::empty() }
                                },
                                None => Step { state: m2, actions: Seq::<Action>::empty() },
                            };
                            assert(self@ == s3.state && out@ =~= mid_out + s3.actions);
                            match ns {
                                Some(nsi) => {
                                    if nsi < ch.sectors.len() {
                                        match &ch.sectors[nsi].mapping {
                                            Some(mp) => {
                                                self.trigger_mapping(cfg, mp, true, oidx, out);
                                            },
                                            None => {},
                                        }
                                    }
                                },
                                None => {},
                            }
                            assert(self@ == step.state);
                            assert(out@ =~= old(out)@ + step.actions);
                        } else {
                            assert(ns == prev);
                            assert(out@ =~= old(out)@ + step.actions);
                        }
                    },
                }
            },
        }
    }
}

} // verus!
