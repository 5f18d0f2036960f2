//! Fast-lookup structures built once from a mapping document.
//!
//! The cache turns the declarative document into per-overlay handler tables
//! keyed by dense ordinals (button ordinal, chord index, stick index), a chord
//! table with member buttons resolved to ordinals, and a reverse table from
//! each button to the chords that include it together with the longest
//! applicable chord timeout. All tables are association lists in document
//! order; lookup is first match.

use vstd::prelude::*;

use crate::buttons::{Button, NUM_BUTTONS};
use crate::config::{
    Binding, ButtonCombo, ButtonHandler, CircleHandler, ConfigError, GamepadConfig, Overlay,
    Sector, StickHandler,
};

verus! {

/// One overlay's lookup tables: handlers keyed by button ordinal, chord index,
/// and stick index.
#[derive(Debug)]
pub struct CachedOverlay {
    pub name: String,
    pub buttons: Vec<(usize, ButtonHandler)>,
    pub combos: Vec<(usize, ButtonHandler)>,
    pub sticks: Vec<(usize, StickHandler)>,
}

/// A chord with its member buttons resolved to ordinals.
#[derive(Debug)]
pub struct CachedCombo {
    pub timeout: u64,
    pub members: Vec<usize>,
}

/// The chords a given button participates in (indices into the chord table,
/// in document order) and the longest timeout among them.
#[derive(Debug)]
pub struct ButtonComboList {
    pub max_timeout: u64,
    pub combos: Vec<usize>,
}

/// The full lookup cache: overlays in document order, resolved chords, the
/// reverse button-to-chords table, and the index of the base overlay.
#[derive(Debug)]
pub struct CachedConfig {
    pub overlays: Vec<CachedOverlay>,
    pub combos: Vec<CachedCombo>,
    pub button_combos: Vec<ButtonComboList>,
    pub base_index: usize,
}

/// First-match lookup in an association list.
pub open spec fn assoc<V>(pairs: Seq<(usize, V)>, key: usize) -> Option<V>
    decreases pairs.len(),
{
    if pairs.len() == 0 {
        None
    } else if pairs[0].0 == key {
        Some(pairs[0].1)
    } else {
        assoc(pairs.drop_first(), key)
    }
}

/// First index at or after `i` whose overlay is named `name`.
pub open spec fn overlay_index_from(s: Seq<CachedOverlay>, name: Seq<char>, i: nat) -> Option<usize>
    decreases s.len() - i,
{
    if i >= s.len() {
        None
    } else if s[i as int].name@ == name {
        Some(i as usize)
    } else {
        overlay_index_from(s, name, i + 1)
    }
}

/// First index at or after `i` of a document overlay named `name`.
pub open spec fn doc_overlay_index_from(s: Seq<(String, Overlay)>, name: Seq<char>, i: nat) -> Option<usize>
    decreases s.len() - i,
{
    if i >= s.len() {
        None
    } else if s[i as int].0@ == name {
        Some(i as usize)
    } else {
        doc_overlay_index_from(s, name, i + 1)
    }
}

/// First index at or after `i` of a document chord named `name`.
pub open spec fn combo_index_from(s: Seq<(String, ButtonCombo)>, name: Seq<char>, i: nat) -> Option<usize>
    decreases s.len() - i,
{
    if i >= s.len() {
        None
    } else if s[i as int].0@ == name {
        Some(i as usize)
    } else {
        combo_index_from(s, name, i + 1)
    }
}

/// The button table an overlay's bindings give rise to, in document order.
pub open spec fn spec_buttons_of(bindings: Seq<Binding>) -> Seq<(usize, ButtonHandler)>
    decreases bindings.len(),
{
    if bindings.len() == 0 {
        Seq::empty()
    } else {
        spec_buttons_of(bindings.drop_last()) + match bindings.last() {
            Binding::Button { button, handler } => seq![(button.spec_index(), handler)],
            _ => Seq::empty(),
        }
    }
}

/// The chord table an overlay's bindings give rise to: chord names resolved
/// against the document's chord list, unresolved references dropped.
pub open spec fn spec_combos_of(bindings: Seq<Binding>, combos: Seq<(String, ButtonCombo)>) -> Seq<(usize, ButtonHandler)>
    decreases bindings.len(),
{
    if bindings.len() == 0 {
        Seq::empty()
    } else {
        spec_combos_of(bindings.drop_last(), combos) + match bindings.last() {
            Binding::Combo { combo, handler } => match combo_index_from(combos, combo@, 0) {
                Some(idx) => seq![(idx, handler)],
                None => Seq::empty(),
            },
            _ => Seq::empty(),
        }
    }
}

/// The stick keys an overlay's bindings give rise to, in document order.
pub open spec fn spec_stick_keys(bindings: Seq<Binding>) -> Seq<usize>
    decreases bindings.len(),
{
    if bindings.len() == 0 {
        Seq::empty()
    } else {
        spec_stick_keys(bindings.drop_last()) + match bindings.last() {
            Binding::Stick { stick, handler } => seq![stick],
            _ => Seq::empty(),
        }
    }
}

/// The stick handlers an overlay's bindings give rise to, in document order
/// and before sector sorting.
pub open spec fn spec_stick_srcs(bindings: Seq<Binding>) -> Seq<StickHandler>
    decreases bindings.len(),
{
    if bindings.len() == 0 {
        Seq::empty()
    } else {
        spec_stick_srcs(bindings.drop_last()) + match bindings.last() {
            Binding::Stick { stick, handler } => seq![handler],
            _ => Seq::empty(),
        }
    }
}

/// The stick key and handler tables of one overlay run in lockstep.
pub proof fn lemma_stick_tables_len(bindings: Seq<Binding>)
    ensures
        spec_stick_keys(bindings).len() == spec_stick_srcs(bindings).len(),
    decreases bindings.len(),
{
    if bindings.len() == 0 {
    } else {
        lemma_stick_tables_len(bindings.drop_last());
    }
}

/// Stable insertion of a sector into a boundary-sorted sector list: the new
/// sector lands after any sector with the same boundary.
pub open spec fn insert_sector(s: Seq<Sector>, x: Sector) -> Seq<Sector>
    decreases s.len(),
{
    if s.len() == 0 {
        seq![x]
    } else if s.last().from_millideg <= x.from_millideg {
        s.push(x)
    } else {
        insert_sector(s.drop_last(), x).push(s.last())
    }
}

/// Stable sort of a sector list by ascending boundary.
pub open spec fn sort_sectors(s: Seq<Sector>) -> Seq<Sector>
    decreases s.len(),
{
    if s.len() == 0 {
        Seq::empty()
    } else {
        insert_sector(sort_sectors(s.drop_last()), s.last())
    }
}

/// A sector list is sorted by ascending boundary.
pub open spec fn sectors_sorted(s: Seq<Sector>) -> bool {
    forall|i: int, j: int|
        0 <= i <= j < s.len() ==> s[i].from_millideg <= s[j].from_millideg
}

/// An upper bound on sector boundaries survives insertion of a sector within
/// the bound.
proof fn lemma_insert_sector_bound(s: Seq<Sector>, x: Sector, b: u64)
    requires
        forall|i: int| 0 <= i < s.len() ==> (#[trigger] s[i]).from_millideg <= b,
        x.from_millideg <= b,
    ensures
        forall|i: int|
            0 <= i < insert_sector(s, x).len() ==> (#[trigger] insert_sector(s, x)[i]).from_millideg
                <= b,
    decreases s.len(),
{
    if s.len() == 0 {
    } else if s.last().from_millideg <= x.from_millideg {
    } else {
        lemma_insert_sector_bound(s.drop_last(), x, b);
        assert(s[s.len() - 1].from_millideg <= b);
    }
}

/// Inserting into a boundary-sorted list keeps it sorted and adds exactly the
/// new sector.
pub proof fn lemma_insert_sector_sorted(s: Seq<Sector>, x: Sector)
    requires
        sectors_sorted(s),
    ensures
        sectors_sorted(insert_sector(s, x)),
        insert_sector(s, x).len() == s.len() + 1,
        insert_sector(s, x).to_multiset() == s.to_multiset().insert(x),
    decreases s.len(),
{
    broadcast use vstd::seq_lib::group_to_multiset_ensures;

    if s.len() == 0 {
        assert(insert_sector(s, x) =~= Seq::<Sector>::empty().push(x));
        assert(s =~= Seq::<Sector>::empty());
        assert(insert_sector(s, x).to_multiset() =~= s.to_multiset().insert(x));
    } else if s.last().from_millideg <= x.from_millideg {
        assert(forall|i: int| 0 <= i < s.len() ==> (#[trigger] s[i]).from_millideg <= x.from_millideg);
    } else {
        let dl = s.drop_last();
        lemma_insert_sector_sorted(dl, x);
        lemma_insert_sector_bound(dl, x, s.last().from_millideg);
        assert(sectors_sorted(insert_sector(dl, x).push(s.last())));
        assert(s =~= dl.push(s.last()));
        assert(dl.to_multiset().insert(x).insert(s.last()) =~= dl.to_multiset().insert(
            s.last(),
        ).insert(x));
        assert(insert_sector(s, x).to_multiset() =~= s.to_multiset().insert(x));
    }
}

/// The cache's sector sort really sorts: it yields a boundary-sorted
/// permutation of the declared sectors.
pub proof fn lemma_sort_sectors_sorted(s: Seq<Sector>)
    ensures
        sectors_sorted(sort_sectors(s)),
        sort_sectors(s).len() == s.len(),
        sort_sectors(s).to_multiset() == s.to_multiset(),
    decreases s.len(),
{
    broadcast use vstd::seq_lib::group_to_multiset_ensures;

    if s.len() == 0 {
        assert(sort_sectors(s) =~= Seq::<Sector>::empty());
        assert(s =~= Seq::<Sector>::empty());
        assert(sort_sectors(s).to_multiset() =~= s.to_multiset());
    } else {
        let dl = s.drop_last();
        lemma_sort_sectors_sorted(dl);
        lemma_insert_sector_sorted(sort_sectors(dl), s.last());
        assert(s =~= dl.push(s.last()));
        assert(sort_sectors(s).to_multiset() =~= s.to_multiset());
    }
}

/// A cached stick handler is the source handler with its sector list sorted.
pub open spec fn stick_handler_sorted(out: StickHandler, src: StickHandler) -> bool {
    match (out.circle, src.circle) {
        (Some(o), Some(s)) => {
            &&& o.min_value == s.min_value
            &&& o.sectors@ == sort_sectors(s.sectors@)
        },
        (None, None) => true,
        _ => false,
    }
}

/// The chord indices (ascending) whose member list contains button ordinal `b`.
pub open spec fn spec_combos_containing(combos: Seq<CachedCombo>, b: usize) -> Seq<usize>
    decreases combos.len(),
{
    if combos.len() == 0 {
        Seq::empty()
    } else {
        spec_combos_containing(combos.drop_last(), b) + if combos.last().members@.contains(b) {
            seq![(combos.len() - 1) as usize]
        } else {
            Seq::empty()
        }
    }
}

/// The longest timeout among the chords listed in `list`.
pub open spec fn spec_max_timeout(combos: Seq<CachedCombo>, list: Seq<usize>) -> u64
    decreases list.len(),
{
    if list.len() == 0 {
        0
    } else {
        let rest = spec_max_timeout(combos, list.drop_last());
        let last = list.last();
        let t = if last < combos.len() { combos[last as int].timeout } else { 0 };
        if t > rest {
            t
        } else {
            rest
        }
    }
}

impl CachedCombo {
    /// Every member ordinal indexes into the per-button state array.
    pub open spec fn wf(self) -> bool {
        forall|j: int| 0 <= j < self.members@.len() ==> self.members@[j] < NUM_BUTTONS
    }
}

impl CachedConfig {
    /// The structural invariant every engine operation relies on: the base
    /// overlay exists, the reverse table covers every button, member ordinals
    /// are in range, and the reverse table only names existing chords.
    pub open spec fn wf(self) -> bool {
        &&& self.overlays@.len() <= usize::MAX
        &&& self.combos@.len() <= usize::MAX
        &&& self.base_index < self.overlays@.len()
        &&& self.button_combos@.len() == NUM_BUTTONS
        &&& forall|c: int| 0 <= c < self.combos@.len() ==> (#[trigger] self.combos@[c]).wf()
        &&& forall|b: int, j: int|
            0 <= b < self.button_combos@.len() && 0 <= j < self.button_combos@[b].combos@.len()
                ==> #[trigger] self.button_combos@[b].combos@[j] < self.combos@.len()
    }

    /// First overlay index (in document order) whose name is `name`.
    pub open spec fn spec_overlay_index(self, name: Seq<char>) -> Option<usize> {
        overlay_index_from(self.overlays@, name, 0)
    }

    /// Looks up an overlay by name: the first overlay with that name, if any.
    pub fn overlay_index(&self, name: &String) -> (r: Option<usize>)
        ensures
            r == self.spec_overlay_index(name@),
    {
        let n = self.overlays.len();
        for i in 0..n
            invariant
                n == self.overlays@.len(),
                overlay_index_from(self.overlays@, name@, 0) == overlay_index_from(
                    self.overlays@,
                    name@,
                    i as nat,
                ),
        {
            if self.overlays[i].name.eq(name) {
                return Some(i);
            }
        }
        None
    }
}

/// Looks up a chord by name in the document's chord list.
fn combo_index(combos: &Vec<(String, ButtonCombo)>, name: &String) -> (r: Option<usize>)
    ensures
        r == combo_index_from(combos@, name@, 0),
{
    let n = combos.len();
    for i in 0..n
        invariant
            n == combos@.len(),
            combo_index_from(combos@, name@, 0) == combo_index_from(combos@, name@, i as nat),
    {
        if combos[i].0.eq(name) {
            return Some(i);
        }
    }
    None
}

/// Looks up an overlay by name in the document's overlay list.
fn doc_overlay_index(overlays: &Vec<(String, Overlay)>, name: &String) -> (r: Option<usize>)
    ensures
        r == doc_overlay_index_from(overlays@, name@, 0),
{
    let n = overlays.len();
    for i in 0..n
        invariant
            n == overlays@.len(),
            doc_overlay_index_from(overlays@, name@, 0) == doc_overlay_index_from(
                overlays@,
                name@,
                i as nat,
            ),
    {
        if overlays[i].0.eq(name) {
            return Some(i);
        }
    }
    None
}

/// Where `insert_sector` lands: splicing at the first position from the right
/// whose predecessor boundary is no greater than the new sector's.
proof fn lemma_insert_sector_at(s: Seq<Sector>, x: Sector, i: int)
    requires
        0 <= i <= s.len(),
        forall|j: int| i <= j < s.len() ==> s[j].from_millideg > x.from_millideg,
        i > 0 ==> s[i - 1].from_millideg <= x.from_millideg,
    ensures
        insert_sector(s, x) == s.subrange(0, i) + seq![x] + s.subrange(i, s.len() as int),
    decreases s.len() - i,
{
    if i == s.len() {
        if s.len() == 0 {
            assert(insert_sector(s, x) =~= s.subrange(0, i) + seq![x] + s.subrange(i, s.len() as int));
        } else {
            assert(s.last().from_millideg <= x.from_millideg);
            assert(insert_sector(s, x) =~= s.subrange(0, i) + seq![x] + s.subrange(i, s.len() as int));
        }
    } else {
        assert(s.last().from_millideg > x.from_millideg);
        let dl = s.drop_last();
        lemma_insert_sector_at(dl, x, i);
        assert(insert_sector(s, x) == insert_sector(dl, x).push(s.last()));
        assert(insert_sector(dl, x).push(s.last()) =~= s.subrange(0, i) + seq![x] + s.subrange(
            i,
            s.len() as int,
        )) by {
            assert(dl.subrange(0, i) =~= s.subrange(0, i));
            assert(dl.subrange(i, dl.len() as int) =~= s.subrange(i, s.len() as int - 1));
        }
    }
}

/// Inserts a sector into a boundary-sorted list, after equal boundaries.
fn sorted_insert(v: &mut Vec<Sector>, x: Sector)
    ensures
        final(v)@ == insert_sector(old(v)@, x),
{
    let mut i = v.len();
    while i > 0 && v[i - 1].from_millideg > x.from_millideg
        invariant
            i <= v@.len(),
            v@ == old(v)@,
            forall|j: int| i <= j < v@.len() ==> v@[j].from_millideg > x.from_millideg,
        decreases i,
    {
        i = i - 1;
    }
    proof {
        lemma_insert_sector_at(v@, x, i as int);
    }
    let ghost before = v@;
    v.insert(i, x);
    proof {
        assert(v@ =~= before.subrange(0, i as int) + seq![x] + before.subrange(
            i as int,
            before.len() as int,
        ));
    }
}

/// Sorts a sector list by ascending boundary, keeping the document order of
/// sectors with equal boundaries.
fn sort_sectors_exec(src: &Vec<Sector>) -> (r: Vec<Sector>)
    ensures
        r@ == sort_sectors(src@),
{
    let mut out: Vec<Sector> = Vec::new();
    let n = src.len();
    assert(src@.take(0) =~= Seq::<Sector>::empty());
    for i in 0..n
        invariant
            n == src@.len(),
            out@ == sort_sectors(src@.take(i as int)),
    {
        proof {
            assert(src@.take(i as int + 1).drop_last() =~= src@.take(i as int));
            assert(src@.take(i as int + 1).last() == src@[i as int]);
        }
        sorted_insert(&mut out, src[i].duplicate());
    }
    assert(src@.take(n as int) =~= src@);
    out
}

/// A copy of a stick handler with its sector list sorted by boundary.
fn sort_stick_handler(h: &StickHandler) -> (r: StickHandler)
    ensures
        stick_handler_sorted(r, *h),
{
    match &h.circle {
        Some(ch) => StickHandler {
            circle: Some(CircleHandler { min_value: ch.min_value, sectors: sort_sectors_exec(&ch.sectors) }),
        },
        None => StickHandler { circle: None },
    }
}

/// Whether a member-ordinal list contains `x`.
pub(crate) fn contains_usize(v: &Vec<usize>, x: usize) -> (r: bool)
    ensures
        r == v@.contains(x),
{
    let n = v.len();
    for i in 0..n
        invariant
            n == v@.len(),
            forall|j: int| 0 <= j < i ==> v@[j] != x,
    {
        if v[i] == x {
            return true;
        }
    }
    false
}

/// Builds one overlay's lookup tables from its bindings.
fn build_overlay(name: &String, ov: &Overlay, combos: &Vec<(String, ButtonCombo)>) -> (r: CachedOverlay)
    ensures
        r.name@ == name@,
        r.buttons@ == spec_buttons_of(ov.bindings@),
        r.combos@ == spec_combos_of(ov.bindings@, combos@),
        r.sticks@.len() == spec_stick_keys(ov.bindings@).len(),
        forall|k: int|
            0 <= k < r.sticks@.len() ==> (#[trigger] r.sticks@[k]).0 == spec_stick_keys(
                ov.bindings@,
            )[k] && stick_handler_sorted(r.sticks@[k].1, spec_stick_srcs(ov.bindings@)[k]),
{
    let mut buttons: Vec<(usize, ButtonHandler)> = Vec::new();
    let mut combo_tbl: Vec<(usize, ButtonHandler)> = Vec::new();
    let mut sticks: Vec<(usize, StickHandler)> = Vec::new();
    let n = ov.bindings.len();
    assert(ov.bindings@.take(0) =~= Seq::<Binding>::empty());
    for i in 0..n
        invariant
            n == ov.bindings@.len(),
            buttons@ == spec_buttons_of(ov.bindings@.take(i as int)),
            combo_tbl@ == spec_combos_of(ov.bindings@.take(i as int), combos@),
            sticks@.len() == spec_stick_keys(ov.bindings@.take(i as int)).len(),
            forall|k: int|
                0 <= k < sticks@.len() ==> (#[trigger] sticks@[k]).0 == spec_stick_keys(
                    ov.bindings@.take(i as int),
                )[k] && stick_handler_sorted(
                    sticks@[k].1,
                    spec_stick_srcs(ov.bindings@.take(i as int))[k],
                ),
    {
        proof {
            assert(ov.bindings@.take(i as int + 1).drop_last() =~= ov.bindings@.take(i as int));
            assert(ov.bindings@.take(i as int + 1).last() == ov.bindings@[i as int]);
        }
        let ghost pre = ov.bindings@.take(i as int);
        let ghost post = ov.bindings@.take(i as int + 1);
        match &ov.bindings[i] {
            Binding::Button { button, handler } => {
                buttons.push((button.index(), handler.duplicate()));
                proof {
                    assert(buttons@ =~= spec_buttons_of(post));
                    assert(spec_combos_of(post, combos@) =~= spec_combos_of(pre, combos@));
                    assert(spec_stick_keys(post) =~= spec_stick_keys(pre));
                    assert(spec_stick_srcs(post) =~= spec_stick_srcs(pre));
                }
            },
            Binding::Combo { combo, handler } => {
                match combo_index(combos, combo) {
                    Some(idx) => {
                        combo_tbl.push((idx, handler.duplicate()));
                    },
                    None => {
                        // Unresolvable chord reference: drop the binding.
                    },
                }
                proof {
                    assert(combo_tbl@ =~= spec_combos_of(post, combos@));
                    assert(spec_buttons_of(post) =~= spec_buttons_of(pre));
                    assert(spec_stick_keys(post) =~= spec_stick_keys(pre));
                    assert(spec_stick_srcs(post) =~= spec_stick_srcs(pre));
                }
            },
            Binding::Stick { stick, handler } => {
                let ghost prev_sticks = sticks@;
                let skey = *stick;
                let shdl = sort_stick_handler(handler);
                sticks.push((skey, shdl));
                proof {
                    let s2 = ov.bindings@[i as int]->stick;
                    let h2 = ov.bindings@[i as int]->Stick_handler;
                    lemma_stick_tables_len(pre);
                    lemma_stick_tables_len(post);
                    assert(skey == s2);
                    assert(stick_handler_sorted(sticks@.last().1, h2));
                    assert(spec_stick_keys(post) =~= spec_stick_keys(pre).push(s2));
                    assert(spec_stick_srcs(post) =~= spec_stick_srcs(pre).push(h2));
                    assert(spec_buttons_of(post) =~= spec_buttons_of(pre));
                    assert(spec_combos_of(post, combos@) =~= spec_combos_of(pre, combos@));
                    assert forall|k: int| 0 <= k < sticks@.len() implies (#[trigger] sticks@[k]).0
                        == spec_stick_keys(post)[k] && stick_handler_sorted(
                        sticks@[k].1,
                        spec_stick_srcs(post)[k],
                    ) by {
                        if k < sticks@.len() - 1 {
                            assert(sticks@[k] == prev_sticks[k]);
                            assert(prev_sticks[k].0 == spec_stick_keys(pre)[k]);
                            assert(stick_handler_sorted(prev_sticks[k].1, spec_stick_srcs(pre)[k]));
                            assert(spec_stick_keys(post)[k] == spec_stick_keys(pre)[k]);
                            assert(spec_stick_srcs(post)[k] == spec_stick_srcs(pre)[k]);
                        } else {
                            assert(sticks@[k] == (skey, shdl));
                            assert(spec_stick_keys(post)[k] == s2);
                            assert(spec_stick_srcs(post)[k] == h2);
                        }
                    }
                }
            },
        }
    }
    assert(ov.bindings@.take(n as int) =~= ov.bindings@);
    CachedOverlay { name: name.clone(), buttons, combos: combo_tbl, sticks }
}

/// Resolves the document's chords to member-ordinal form, in document order.
fn build_combos(combos: &Vec<(String, ButtonCombo)>) -> (r: Vec<CachedCombo>)
    ensures
        r@.len() == combos@.len(),
        forall|c: int|
            0 <= c < r@.len() ==> (#[trigger] r@[c]).timeout == combos@[c].1.timeout
                && r@[c].members@ == combos@[c].1.buttons@.map_values(|b: Button| b.spec_index())
                && r@[c].wf(),
{
    let mut out: Vec<CachedCombo> = Vec::new();
    let n = combos.len();
    for c in 0..n
        invariant
            n == combos@.len(),
            out@.len() == c,
            forall|k: int|
                0 <= k < c ==> (#[trigger] out@[k]).timeout == combos@[k].1.timeout
                    && out@[k].members@ == combos@[k].1.buttons@.map_values(
                    |b: Button| b.spec_index(),
                ) && out@[k].wf(),
    {
        let bs = &combos[c].1.buttons;
        let m = bs.len();
        let mut members: Vec<usize> = Vec::new();
        for j in 0..m
            invariant
                m == bs@.len(),
                members@.len() == j,
                forall|k: int| 0 <= k < j ==> #[trigger] members@[k] == bs@[k].spec_index(),
                forall|k: int| 0 <= k < j ==> #[trigger] members@[k] < NUM_BUTTONS,
        {
            members.push(bs[j].index());
        }
        proof {
            assert(members@ =~= bs@.map_values(|b: Button| b.spec_index()));
        }
        out.push(CachedCombo { timeout: combos[c].1.timeout, members });
    }
    out
}

/// Builds the reverse table: for each button ordinal, the chords containing it
/// and the longest timeout among them.
fn build_button_combos(combos: &Vec<CachedCombo>) -> (r: Vec<ButtonComboList>)
    ensures
        r@.len() == NUM_BUTTONS,
        forall|b: int|
            0 <= b < NUM_BUTTONS ==> (#[trigger] r@[b]).combos@ == spec_combos_containing(
                combos@,
                b as usize,
            ) && r@[b].max_timeout == spec_max_timeout(combos@, r@[b].combos@) && (forall|j: int|
                0 <= j < r@[b].combos@.len() ==> #[trigger] r@[b].combos@[j] < combos@.len()),
{
    let mut out: Vec<ButtonComboList> = Vec::new();
    let ncombos = combos.len();
    for b in 0..NUM_BUTTONS
        invariant
            ncombos == combos@.len(),
            out@.len() == b,
            forall|k: int|
                0 <= k < b ==> (#[trigger] out@[k]).combos@ == spec_combos_containing(
                    combos@,
                    k as usize,
                ) && out@[k].max_timeout == spec_max_timeout(combos@, out@[k].combos@) && (forall|
                    j: int,
                |
                    0 <= j < out@[k].combos@.len() ==> #[trigger] out@[k].combos@[j]
                        < combos@.len()),
    {
        let mut list: Vec<usize> = Vec::new();
        assert(combos@.take(0) =~= Seq::<CachedCombo>::empty());
        for c in 0..ncombos
            invariant
                ncombos == combos@.len(),
                list@ == spec_combos_containing(combos@.take(c as int), b),
                forall|j: int| 0 <= j < list@.len() ==> #[trigger] list@[j] < c,
        {
            proof {
                assert(combos@.take(c as int + 1).drop_last() =~= combos@.take(c as int));
                assert(combos@.take(c as int + 1).last() == combos@[c as int]);
            }
            if contains_usize(&combos[c].members, b) {
                list.push(c);
                assert(list@ =~= spec_combos_containing(combos@.take(c as int + 1), b));
            }
        }
        assert(combos@.take(ncombos as int) =~= combos@);
        let nl = list.len();
        let mut max_timeout: u64 = 0;
        assert(list@.take(0) =~= Seq::<usize>::empty());
        for j in 0..nl
            invariant
                nl == list@.len(),
                ncombos == combos@.len(),
                forall|k: int| 0 <= k < list@.len() ==> #[trigger] list@[k] < ncombos,
                max_timeout == spec_max_timeout(combos@, list@.take(j as int)),
        {
            proof {
                assert(list@.take(j as int + 1).drop_last() =~= list@.take(j as int));
                assert(list@.take(j as int + 1).last() == list@[j as int]);
            }
            let c = list[j];
            if combos[c].timeout > max_timeout {
                max_timeout = combos[c].timeout;
            }
        }
        assert(list@.take(nl as int) =~= list@);
        out.push(ButtonComboList { max_timeout, combos: list });
    }
    out
}

impl CachedConfig {
    /// Builds the lookup cache from a mapping document.
    ///
    /// Fails exactly when the document's base overlay name matches none of its
    /// overlays. Bindings that reference an unknown chord are dropped; overlay
    /// references inside mappings are resolved at trigger time.
    pub fn build(config: &GamepadConfig) -> (r: Result<CachedConfig, ConfigError>)
        ensures
            match r {
                Ok(cc) => {
                    &&& cc.wf()
                    &&& Some(cc.base_index) == doc_overlay_index_from(
                        config.overlays@,
                        config.base_overlay@,
                        0,
                    )
                    &&& cc.overlays@.len() == config.overlays@.len()
                    &&& forall|i: int|
                        0 <= i < cc.overlays@.len() ==> (#[trigger] cc.overlays@[i]).name@
                            == config.overlays@[i].0@
                    &&& forall|i: int|
                        0 <= i < cc.overlays@.len() ==> (#[trigger] cc.overlays@[i]).buttons@
                            == spec_buttons_of(config.overlays@[i].1.bindings@)
                    &&& forall|i: int|
                        0 <= i < cc.overlays@.len() ==> (#[trigger] cc.overlays@[i]).combos@
                            == spec_combos_of(config.overlays@[i].1.bindings@, config.combos@)
                    &&& forall|i: int|
                        0 <= i < cc.overlays@.len() ==> (#[trigger] cc.overlays@[i]).sticks@.len()
                            == spec_stick_keys(config.overlays@[i].1.bindings@).len()
                    &&& forall|i: int, k: int|
                        0 <= i < cc.overlays@.len() && 0 <= k < cc.overlays@[i].sticks@.len()
                            ==> (#[trigger] cc.overlays@[i].sticks@[k]).0 == spec_stick_keys(
                            config.overlays@[i].1.bindings@,
                        )[k] && stick_handler_sorted(
                            cc.overlays@[i].sticks@[k].1,
                            spec_stick_srcs(config.overlays@[i].1.bindings@)[k],
                        )
                    &&& cc.combos@.len() == config.combos@.len()
                    &&& forall|c: int|
                        0 <= c < cc.combos@.len() ==> (#[trigger] cc.combos@[c]).timeout
                            == config.combos@[c].1.timeout && cc.combos@[c].members@
                            == config.combos@[c].1.buttons@.map_values(|b: Button| b.spec_index())
                    &&& forall|b: int|
                        0 <= b < NUM_BUTTONS ==> (#[trigger] cc.button_combos@[b]).combos@
                            == spec_combos_containing(cc.combos@, b as usize)
                            && cc.button_combos@[b].max_timeout == spec_max_timeout(
                            cc.combos@,
                            cc.button_combos@[b].combos@,
                        )
                },
                Err(e) => e == ConfigError::BaseOverlayNotFound && doc_overlay_index_from(
                    config.overlays@,
                    config.base_overlay@,
                    0,
                ) is None,
            },
    {
        let base_index = match doc_overlay_index(&config.overlays, &config.base_overlay) {
            Some(i) => i,
            None => {
                return Err(ConfigError::BaseOverlayNotFound);
            },
        };
        let combos = build_combos(&config.combos);
        let button_combos = build_button_combos(&combos);
        let mut overlays: Vec<CachedOverlay> = Vec::new();
        let n = config.overlays.len();
        for i in 0..n
            invariant
                n == config.overlays@.len(),
                overlays@.len() == i,
                forall|k: int|
                    0 <= k < i ==> (#[trigger] overlays@[k]).name@ == config.overlays@[k].0@,
                forall|k: int|
                    0 <= k < i ==> (#[trigger] overlays@[k]).buttons@ == spec_buttons_of(
                        config.overlays@[k].1.bindings@,
                    ),
                forall|k: int|
                    0 <= k < i ==> (#[trigger] overlays@[k]).combos@ == spec_combos_of(
                        config.overlays@[k].1.bindings@,
                        config.combos@,
                    ),
                forall|k: int|
                    0 <= k < i ==> (#[trigger] overlays@[k]).sticks@.len() == spec_stick_keys(
                        config.overlays@[k].1.bindings@,
                    ).len(),
                forall|k: int, s: int|
                    0 <= k < i && 0 <= s < overlays@[k].sticks@.len()
                        ==> (#[trigger] overlays@[k].sticks@[s]).0 == spec_stick_keys(
                        config.overlays@[k].1.bindings@,
                    )[s] && stick_handler_sorted(
                        overlays@[k].sticks@[s].1,
                        spec_stick_srcs(config.overlays@[k].1.bindings@)[s],
                    ),
        {
            let co = build_overlay(&config.overlays[i].0, &config.overlays[i].1, &config.combos);
            overlays.push(co);
        }
        proof {
            if doc_overlay_index_from(config.overlays@, config.base_overlay@, 0) matches Some(bi) {
                lemma_doc_overlay_index_in_range(config.overlays@, config.base_overlay@, 0);
            }
        }
        let _len_overlays: usize = overlays.len();
        let _len_combos: usize = combos.len();
        Ok(CachedConfig { overlays, combos, button_combos, base_index })
    }
}

/// A found overlay index is in range.
proof fn lemma_doc_overlay_index_in_range(s: Seq<(String, Overlay)>, name: Seq<char>, i: nat)
    requires
        s.len() <= usize::MAX,
    ensures
        doc_overlay_index_from(s, name, i) matches Some(r) ==> i <= r < s.len(),
    decreases s.len() - i,
{
    if i >= s.len() {
    } else if s[i as int].0@ == name {
    } else {
        lemma_doc_overlay_index_in_range(s, name, i + 1);
    }
}

/// Looks up a handler by key in an association list: first match wins.
pub fn assoc_get<'a, V>(pairs: &'a Vec<(usize, V)>, key: usize) -> (r: Option<&'a V>)
    ensures
        match r {
            Some(v) => assoc(pairs@, key) == Some(*v),
            None => assoc(pairs@, key) is None,
        },
{
    let n = pairs.len();
    assert(pairs@.skip(0) =~= pairs@);
    for i in 0..n
        invariant
            n == pairs@.len(),
            assoc(pairs@, key) == assoc(pairs@.skip(i as int), key),
    {
        assert(pairs@.skip(i as int).drop_first() =~= pairs@.skip(i as int + 1));
        if pairs[i].0 == key {
            return Some(&pairs[i].1);
        }
    }
    None
}

} // verus!
