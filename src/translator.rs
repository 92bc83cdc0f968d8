//! The per-device translation engine: a state machine from raw input events
//! (and the focused window) to actions on the virtual devices.

use crate::config::{bindings_view, lookup, Client, Config};
use crate::emit::{
    act_views, emit_event, emit_nonmapped_event, emit_spec, find_binding, push_action, unmapped_spec,
    Action, ActionView, RawEvent, Sink, EV_KEY, EV_REL,
};
use crate::dispatch::{dispatch, dispatch_spec, position_bound, Step, Tracking};
use crate::event::{is_canonical, Event};
use crate::profile::{first_with, lemma_first_with, ProfileSet};
use crate::settings::{Settings, StickFunction};
use crate::text::views;
use vstd::prelude::*;

verus! {

/// Which rule of binding resolution applies to an input.
#[derive(Debug, Clone, Copy, PartialEq, Eq, Structural)]
pub enum Resolution {
    /// A remap under exactly the current modifiers.
    Remap,
    /// A chain-only remap (`-INPUT`).
    Hold,
    /// A command under exactly the current modifiers.
    Command,
    /// A remap without modifiers.
    DefaultRemap,
    /// A command without modifiers.
    DefaultCommand,
    /// No binding: the input passes through.
    Unmapped,
}

/// The rule that applies to `input` under `mods` in profile `p`, trying
/// them in a fixed order.
pub open spec fn resolution_spec(p: Config, chain_only: bool, input: Event, mods: Seq<Event>) -> Resolution {
    let remap = bindings_view(p.bindings.remap@);
    let cmds = bindings_view(p.bindings.commands@);
    if lookup(remap, input, mods) is Some {
        Resolution::Remap
    } else if lookup(remap, input, seq![Event::Hold]) is Some && (mods.len() > 0 || !chain_only) {
        Resolution::Hold
    } else if lookup(cmds, input, mods) is Some {
        Resolution::Command
    } else if lookup(remap, input, Seq::empty()) is Some {
        Resolution::DefaultRemap
    } else if lookup(cmds, input, Seq::empty()) is Some {
        Resolution::DefaultCommand
    } else {
        Resolution::Unmapped
    }
}

/// What converting `input` with `value` does: emission of the bound keys,
/// a command spawn on press, or pass-through. A pulse (`send_zero`) is
/// followed by a release of the same keys. Only the modifier-free fallback
/// remap releases the keys owed under the held modifiers first.
pub open spec fn convert_spec(
    p: Config,
    chain_only: bool,
    input: Event,
    value: i32,
    send_zero: bool,
    raw: RawEvent,
    st: (Seq<ActionView>, Seq<Event>, bool),
) -> (Seq<ActionView>, Seq<Event>, bool) {
    let remap = bindings_view(p.bindings.remap@);
    let cmds = bindings_view(p.bindings.commands@);
    let m = st.1;
    match resolution_spec(p, chain_only, input, m) {
        Resolution::Remap => {
            let keys = lookup(remap, input, m).unwrap();
            let s1 = emit_spec(st, keys, value, p, false, false);
            if send_zero {
                emit_spec(s1, keys, 0, p, false, false)
            } else {
                s1
            }
        },
        Resolution::Hold => emit_spec(st, lookup(remap, input, seq![Event::Hold]).unwrap(), value, p, false, false),
        Resolution::Command => if value == 1 {
            (st.0.push(ActionView::Spawn(views(lookup(cmds, input, m).unwrap()))), st.1, true)
        } else {
            st
        },
        Resolution::DefaultRemap => {
            let keys = lookup(remap, input, Seq::empty()).unwrap();
            let s1 = emit_spec(st, keys, value, p, true, false);
            if send_zero {
                emit_spec(s1, keys, 0, p, true, false)
            } else {
                s1
            }
        },
        Resolution::DefaultCommand => if value == 1 {
            (st.0.push(ActionView::Spawn(views(lookup(cmds, input, Seq::empty()).unwrap()))), st.1, true)
        } else {
            st
        },
        Resolution::Unmapped => unmapped_spec(st, raw, input, value, p),
    }
}

/// Which binding rule applies to `input` under `mods`.
pub fn resolve(p: &Config, chain_only: bool, input: Event, mods: &Vec<Event>) -> (r: Resolution)
    ensures
        r == resolution_spec(*p, chain_only, input, mods@),
{
    let hold = vec![Event::Hold];
    let none: Vec<Event> = Vec::new();
    assert(hold@ =~= seq![Event::Hold]);
    assert(none@ =~= Seq::<Event>::empty());
    if find_binding(&p.bindings.remap, input, mods).is_some() {
        Resolution::Remap
    } else if find_binding(&p.bindings.remap, input, &hold).is_some() && (mods.len() > 0 || !chain_only) {
        Resolution::Hold
    } else if find_binding(&p.bindings.commands, input, mods).is_some() {
        Resolution::Command
    } else if find_binding(&p.bindings.remap, input, &none).is_some() {
        Resolution::DefaultRemap
    } else if find_binding(&p.bindings.commands, input, &none).is_some() {
        Resolution::DefaultCommand
    } else {
        Resolution::Unmapped
    }
}

/// A copy of a list of commands.
fn copy_strings(v: &Vec<String>) -> (r: Vec<String>)
    ensures
        views(r@) == views(v@),
{
    let mut r: Vec<String> = Vec::new();
    let mut i: usize = 0;
    while i < v.len()
        invariant
            0 <= i <= v.len(),
            views(r@) == views(v@).take(i as int),
        decreases v.len() - i,
    {
        let ghost before = r@;
        r.push(String::from_str(v[i].as_str()));
        assert(views(r@) =~= views(before).push(v@[i as int]@));
        i += 1;
        assert(views(r@) =~= views(v@).take(i as int));
    }
    assert(views(v@).take(v.len() as int) =~= views(v@));
    r
}

/// Converts `input` with `value` under profile `p` (see `convert_spec`).
pub fn convert_event(
    p: &Config,
    chain_only: bool,
    input: Event,
    value: i32,
    send_zero: bool,
    raw: RawEvent,
    mods: &mut Vec<Event>,
    latch: &mut bool,
    out: &mut Vec<Action>,
)
    requires
        is_canonical(old(mods)@),
    ensures
        (act_views(final(out)@), final(mods)@, *final(latch)) == convert_spec(
            *p,
            chain_only,
            input,
            value,
            send_zero,
            raw,
            (act_views(old(out)@), old(mods)@, *old(latch)),
        ),
        is_canonical(final(mods)@),
{
    let hold = vec![Event::Hold];
    let none: Vec<Event> = Vec::new();
    assert(hold@ =~= seq![Event::Hold]);
    assert(none@ =~= Seq::<Event>::empty());
    let remap = &p.bindings.remap;
    let cmds = &p.bindings.commands;
    match resolve(p, chain_only, input, mods) {
        Resolution::Remap => {
            let i = find_binding(remap, input, mods).unwrap();
            let keys = &remap[i].output;
            emit_event(keys, value, p, mods, latch, out, false, false);
            if send_zero {
                emit_event(keys, 0, p, mods, latch, out, false, false);
            }
        },
        Resolution::Hold => {
            let i = find_binding(remap, input, &hold).unwrap();
            emit_event(&remap[i].output, value, p, mods, latch, out, false, false);
        },
        Resolution::Command => {
            if value == 1 {
                let i = find_binding(cmds, input, mods).unwrap();
                push_action(out, Action::Spawn(copy_strings(&cmds[i].output)));
                *latch = true;
            }
        },
        Resolution::DefaultRemap => {
            let i = find_binding(remap, input, &none).unwrap();
            let keys = &remap[i].output;
            emit_event(keys, value, p, mods, latch, out, true, false);
            if send_zero {
                emit_event(keys, 0, p, mods, latch, out, true, false);
            }
        },
        Resolution::DefaultCommand => {
            if value == 1 {
                let i = find_binding(cmds, input, &none).unwrap();
                push_action(out, Action::Spawn(copy_strings(&cmds[i].output)));
                *latch = true;
            }
        },
        Resolution::Unmapped => {
            emit_nonmapped_event(raw, input, value, p, mods, latch, out);
        },
    }
}


/// `h` without any occurrence of `k`.
pub open spec fn drop_code(h: Seq<u16>, k: u16) -> Seq<u16>
    decreases h.len(),
{
    if h.len() == 0 {
        h
    } else if h.last() == k {
        drop_code(h.drop_last(), k)
    } else {
        drop_code(h.drop_last(), k).push(h.last())
    }
}

pub proof fn lemma_drop_code(h: Seq<u16>, k: u16, x: u16)
    ensures
        drop_code(h, k).contains(x) <==> (h.contains(x) && x != k),
    decreases h.len(),
{
    if h.len() > 0 {
        let d = h.drop_last();
        lemma_drop_code(d, k, x);
        if h.contains(x) && x != k {
            let i = choose|i: int| 0 <= i < h.len() && h[i] == x;
            if i < h.len() - 1 {
                assert(d[i] == x);
            }
        }
        if d.contains(x) {
            let i = choose|i: int| 0 <= i < d.len() && d[i] == x;
            assert(h[i] == x);
        }
        if drop_code(d, k).contains(x) || drop_code(h, k).contains(x) {
            if h.last() != k {
                let r = drop_code(d, k).push(h.last());
                if r.contains(x) {
                    let i = choose|i: int| 0 <= i < r.len() && r[i] == x;
                    if i < r.len() - 1 {
                        assert(drop_code(d, k)[i] == x);
                    } else {
                        assert(h[h.len() - 1] == x);
                    }
                }
            }
        }
        if h.last() != k && h.last() == x {
            assert(drop_code(d, k).push(h.last())[drop_code(d, k).len() as int] == x);
        }
        if h.last() != k && drop_code(d, k).contains(x) {
            let i = choose|i: int| 0 <= i < drop_code(d, k).len() && drop_code(d, k)[i] == x;
            assert(drop_code(d, k).push(h.last())[i] == x);
        }
    }
}

/// The key codes held down on the keys device after one action.
pub open spec fn held_step(h: Seq<u16>, a: ActionView) -> Seq<u16> {
    match a {
        ActionView::Emit(Sink::Keys, e) => if e.kind == EV_KEY && e.value == 1 {
            if h.contains(e.code) {
                h
            } else {
                h.push(e.code)
            }
        } else if e.kind == EV_KEY && e.value == 0 {
            drop_code(h, e.code)
        } else {
            h
        },
        _ => h,
    }
}

/// The key codes held down on the keys device after `acts`, in the order
/// they were pressed.
pub open spec fn held_after(h: Seq<u16>, acts: Seq<ActionView>) -> Seq<u16>
    decreases acts.len(),
{
    if acts.len() == 0 {
        h
    } else {
        held_step(held_after(h, acts.drop_last()), acts.last())
    }
}

pub proof fn lemma_held_after_concat(h: Seq<u16>, a: Seq<ActionView>, b: Seq<ActionView>)
    ensures
        held_after(h, a + b) == held_after(held_after(h, a), b),
    decreases b.len(),
{
    if b.len() == 0 {
        assert(a + b =~= a);
    } else {
        lemma_held_after_concat(h, a, b.drop_last());
        assert((a + b).drop_last() =~= a + b.drop_last());
        assert((a + b).last() == b.last());
    }
}

/// Releases of each of `h`, in order.
pub open spec fn releases(h: Seq<u16>) -> Seq<ActionView> {
    h.map_values(|k: u16| crate::emit::key_action(k, 0))
}

proof fn lemma_releases_clear(h: Seq<u16>, s: Seq<u16>, x: u16)
    ensures
        held_after(h, releases(s)).contains(x) <==> (h.contains(x) && !s.contains(x)),
    decreases s.len(),
{
    if s.len() > 0 {
        let d = s.drop_last();
        lemma_releases_clear(h, d, x);
        assert(releases(s).drop_last() =~= releases(d));
        lemma_drop_code(held_after(h, releases(d)), s.last(), x);
        if d.contains(x) {
            let i = choose|i: int| 0 <= i < d.len() && d[i] == x;
            assert(s[i] == x);
        }
        if s.contains(x) && x != s.last() {
            let i = choose|i: int| 0 <= i < s.len() && s[i] == x;
            assert(d[i] == x);
        }
        if x == s.last() {
            assert(s[s.len() - 1] == x);
        }
    }
}

/// Updates the held keys for a list of actions.
fn track(held: &mut Vec<u16>, acts: &Vec<Action>)
    ensures
        final(held)@ == held_after(old(held)@, act_views(acts@)),
{
    let ghost h0 = held@;
    let mut i: usize = 0;
    assert(act_views(acts@).take(0) =~= Seq::<ActionView>::empty());
    while i < acts.len()
        invariant
            0 <= i <= acts.len(),
            held@ == held_after(h0, act_views(acts@).take(i as int)),
        decreases acts.len() - i,
    {
        assert(act_views(acts@).take(i as int + 1).drop_last() =~= act_views(acts@).take(i as int));
        assert(act_views(acts@).take(i as int + 1).last() == acts@[i as int]@);
        match &acts[i] {
            Action::Emit(Sink::Keys, e) => {
                if e.kind == EV_KEY && e.value == 1 {
                    let mut found = false;
                    let mut j: usize = 0;
                    while j < held.len()
                        invariant
                            0 <= j <= held.len(),
                            !found ==> forall|q: int| 0 <= q < j ==> held@[q] != e.code,
                            found ==> held@.contains(e.code),
                        decreases held.len() - j,
                    {
                        if held[j] == e.code {
                            found = true;
                        }
                        j += 1;
                    }
                    if !found {
                        held.push(e.code);
                    }
                } else if e.kind == EV_KEY && e.value == 0 {
                    let mut r: Vec<u16> = Vec::new();
                    let mut j: usize = 0;
                    while j < held.len()
                        invariant
                            0 <= j <= held.len(),
                            r@ == drop_code(held@.take(j as int), e.code),
                        decreases held.len() - j,
                    {
                        assert(held@.take(j as int + 1).drop_last() =~= held@.take(j as int));
                        if held[j] != e.code {
                            r.push(held[j]);
                        }
                        j += 1;
                    }
                    assert(held@.take(held.len() as int) =~= held@);
                    *held = r;
                }
            },
            _ => {},
        }
        i += 1;
    }
    assert(act_views(acts@).take(acts.len() as int) =~= act_views(acts@));
}

/// The outcome of one raw event, as plain values.
pub struct Outcome {
    pub actions: Seq<ActionView>,
    pub modifiers: Seq<Event>,
    pub latch: bool,
    pub current: int,
    pub layout: u16,
    pub tracking: Tracking,
    pub lstick: (i32, i32),
    pub rstick: (i32, i32),
}

/// The translation state of one device.
pub struct Translator {
    pub profiles: ProfileSet,
    pub settings: Settings,
    /// Index of the profile in effect.
    pub current: usize,
    pub active_layout: u16,
    /// The mapped modifiers held now, in canonical order.
    pub modifiers: Vec<Event>,
    /// Whether something was sent since the last press of a custom modifier.
    pub modifier_was_activated: bool,
    pub lstick_position: (i32, i32),
    pub rstick_position: (i32, i32),
    pub tracking: Tracking,
    /// The largest absolute-axis maximum the device declares.
    pub max_abs_wheel: i32,
    pub device_connected: bool,
    /// Keys sent pressed to the keys device and not released since.
    pub held: Vec<u16>,
    /// Every action asked for so far.
    pub history: Ghost<Seq<ActionView>>,
}

/// The stick a periodic emitter of function `f` reads: left first.
pub open spec fn loop_stick(s: Settings, f: StickFunction) -> Option<bool> {
    if s.lstick.function == f {
        Some(true)
    } else if s.rstick.function == f {
        Some(false)
    } else {
        None
    }
}

impl Translator {
    pub open spec fn wf(&self) -> bool {
        &&& self.profiles.wf()
        &&& self.current < self.profiles.profiles.len()
        &&& self.active_layout <= 3
        &&& is_canonical(self.modifiers@)
        &&& -position_bound() <= self.lstick_position.0 <= position_bound()
        &&& -position_bound() <= self.lstick_position.1 <= position_bound()
        &&& -position_bound() <= self.rstick_position.0 <= position_bound()
        &&& -position_bound() <= self.rstick_position.1 <= position_bound()
        &&& self.held@ == held_after(Seq::empty(), self.history@)
        &&& (!self.device_connected ==> self.held@.len() == 0)
    }

    /// The profile in effect after a press: the one for the focused window
    /// and layout; failing that, the layout steps on until one matches.
    pub open spec fn refreshed(&self, w: Option<Seq<char>>) -> (int, u16, bool) {
        let kw = self.profiles.known_spec(w);
        match first_with(self.profiles.profiles@, (kw, self.active_layout)) {
            Some(i) => (i, self.active_layout, false),
            None => {
                let l = self.profiles.rotate_spec(kw, self.active_layout, 4);
                (self.profiles.select_spec(kw, l), l, self.settings.notify_layout_switch)
            },
        }
    }

    /// What handling raw event `ev` does, the focused window being `w`.
    pub open spec fn outcome(&self, ev: RawEvent, w: Option<Seq<char>>) -> Outcome {
        let (step, tr) = dispatch_spec(self.settings, self.tracking, self.max_abs_wheel, ev);
        let base = Outcome {
            actions: Seq::empty(),
            modifiers: self.modifiers@,
            latch: self.modifier_was_activated,
            current: self.current as int,
            layout: self.active_layout,
            tracking: tr,
            lstick: self.lstick_position,
            rstick: self.rstick_position,
        };
        match step {
            Step::Ignore => base,
            Step::Forward => Outcome {
                actions: if ev.kind == EV_KEY {
                    seq![ActionView::Emit(Sink::Keys, ev)]
                } else if ev.kind == EV_REL {
                    seq![ActionView::Emit(Sink::Axis, ev)]
                } else {
                    Seq::empty()
                },
                ..base
            },
            Step::Position(left, y, v) => if left {
                Outcome {
                    lstick: if y { (self.lstick_position.0, v) } else { (v, self.lstick_position.1) },
                    ..base
                }
            } else {
                Outcome {
                    rstick: if y { (self.rstick_position.0, v) } else { (v, self.rstick_position.1) },
                    ..base
                }
            },
            Step::SwitchLayout => {
                let kw = self.profiles.known_spec(w);
                let l = self.profiles.rotate_spec(kw, self.active_layout, 4);
                let notify = self.settings.notify_layout_switch;
                Outcome {
                    actions: if notify { seq![ActionView::NotifyLayout(l)] } else { Seq::empty() },
                    latch: notify || self.modifier_was_activated,
                    current: self.profiles.select_spec(kw, l),
                    layout: l,
                    ..base
                }
            },
            Step::Convert(input, value, send_zero) => {
                let (cur, lay, notified) = if value == 1 {
                    self.refreshed(w)
                } else {
                    (self.current as int, self.active_layout, false)
                };
                let pre = if notified { seq![ActionView::NotifyLayout(lay)] } else { Seq::empty() };
                let (acts, mods, latch) = convert_spec(
                    self.profiles.profiles@[cur],
                    self.settings.chain_only,
                    input,
                    value,
                    send_zero,
                    ev,
                    (pre, self.modifiers@, notified || self.modifier_was_activated),
                );
                Outcome { actions: acts, modifiers: mods, latch, current: cur, layout: lay, ..base }
            },
        }
    }

    /// Whether handling `ev` depends on the focused window: a layout switch,
    /// or a conversion of a press.
    pub open spec fn needs_window_spec(&self, ev: RawEvent) -> bool {
        match dispatch_spec(self.settings, self.tracking, self.max_abs_wheel, ev).0 {
            Step::SwitchLayout => true,
            Step::Convert(_, value, _) => value == 1,
            _ => false,
        }
    }

    /// What the periodic emitter of function `f` (cursor or scroll) sends
    /// on one tick.
    pub open spec fn tick_spec(&self, f: StickFunction) -> Seq<ActionView> {
        match loop_stick(self.settings, f) {
            None => Seq::empty(),
            Some(left) => {
                let stick = if left { self.settings.lstick } else { self.settings.rstick };
                let pos = if left { self.lstick_position } else { self.rstick_position };
                let invert = if f == StickFunction::Cursor {
                    self.settings.invert_cursor_axis
                } else {
                    self.settings.invert_scroll_axis
                };
                let (cx, cy) = if f == StickFunction::Cursor { (0u16, 1u16) } else { (11u16, 12u16) };
                if stick.sensitivity == 0 || (pos.0 == 0 && pos.1 == 0) || !(stick.activation_modifiers@.len()
                    == 0 || stick.activation_modifiers@ == self.modifiers@) {
                    Seq::empty()
                } else {
                    let x = if invert { -pos.0 } else { pos.0 as int };
                    let y = if invert { -pos.1 } else { pos.1 as int };
                    seq![
                        ActionView::Emit(Sink::Axis, RawEvent { kind: EV_REL, code: cx, value: x as i32 }),
                        ActionView::Emit(Sink::Axis, RawEvent { kind: EV_REL, code: cy, value: y as i32 }),
                    ]
                }
            },
        }
    }

    /// A translator for a device with these profiles, reading its options
    /// from the fallback profile; the name of the first invalid option
    /// otherwise.
    pub fn new(profiles: ProfileSet, max_abs_wheel: i32) -> (r: Result<Translator, String>)
        requires
            profiles.wf(),
        ensures
            match crate::settings::first_invalid(profiles.profiles@[profiles.default_index()].settings@) {
                Some(name) => r is Err && r->Err_0@ == name,
                None => r is Ok,
            },
            r matches Ok(t) ==> {
                &&& t.wf()
                &&& t.profiles == profiles
                &&& crate::settings::reads(t.settings, profiles.profiles@[profiles.default_index()].settings@)
                &&& t.current == profiles.default_index()
                &&& t.active_layout == 0
                &&& t.modifiers@.len() == 0
                &&& t.modifier_was_activated
                &&& t.lstick_position == (0i32, 0i32)
                &&& t.rstick_position == (0i32, 0i32)
                &&& t.tracking == Tracking::initial()
                &&& t.max_abs_wheel == max_abs_wheel
                &&& t.device_connected
                &&& t.held@.len() == 0
                &&& t.history@.len() == 0
            },
    {
        proof {
            lemma_first_with(profiles.profiles@, crate::config::default_associations());
        }
        let d = crate::config::Associations::default();
        let i = match profiles.find(&d) {
            Some(i) => i,
            None => 0,
        };
        let settings = match Settings::from_pairs(&profiles.profiles[i].settings) {
            Ok(s) => s,
            Err(name) => {
                return Err(name);
            },
        };
        Ok(
            Translator {
                profiles,
                settings,
                current: i,
                active_layout: 0,
                modifiers: Vec::new(),
                modifier_was_activated: true,
                lstick_position: (0, 0),
                rstick_position: (0, 0),
                tracking: Tracking::new(),
                max_abs_wheel,
                device_connected: true,
                held: Vec::new(),
                history: Ghost(Seq::empty()),
            },
        )
    }

    /// Whether handling `ev` needs the focused window.
    pub fn needs_active_window(&self, ev: RawEvent) -> (r: bool)
        ensures
            r == self.needs_window_spec(ev),
    {
        match dispatch(&self.settings, self.tracking, self.max_abs_wheel, ev).0 {
            Step::SwitchLayout => true,
            Step::Convert(_, value, _) => value == 1,
            _ => false,
        }
    }

    /// Records actions: the held keys follow them.
    fn record(&mut self, out: &Vec<Action>)
        requires
            old(self).wf(),
            old(self).device_connected,
        ensures
            final(self).wf(),
            final(self).history@ == old(self).history@ + act_views(out@),
            final(self).profiles == old(self).profiles,
            final(self).settings == old(self).settings,
            final(self).current == old(self).current,
            final(self).active_layout == old(self).active_layout,
            final(self).modifiers == old(self).modifiers,
            final(self).modifier_was_activated == old(self).modifier_was_activated,
            final(self).lstick_position == old(self).lstick_position,
            final(self).rstick_position == old(self).rstick_position,
            final(self).tracking == old(self).tracking,
            final(self).max_abs_wheel == old(self).max_abs_wheel,
            final(self).device_connected == old(self).device_connected,
            final(self).held@ == held_after(old(self).held@, act_views(out@)),
    {
        track(&mut self.held, out);
        proof {
            lemma_held_after_concat(Seq::empty(), self.history@, act_views(out@));
        }
        self.history = Ghost(self.history@ + act_views(out@));
    }

    /// Re-selects the profile for a press: the one for the focused window
    /// and layout, stepping the layout on when none matches.
    fn refresh(&mut self, window: &Client, out: &mut Vec<Action>)
        requires
            old(self).wf(),
        ensures
            ({
                let (cur, lay, notified) = old(self).refreshed(window@);
                &&& final(self).current as int == cur
                &&& final(self).active_layout == lay
                &&& act_views(final(out)@) == if notified {
                    act_views(old(out)@).push(ActionView::NotifyLayout(lay))
                } else {
                    act_views(old(out)@)
                }
                &&& final(self).modifier_was_activated == (notified || old(self).modifier_was_activated)
            }),
            final(self).wf(),
            final(self).profiles == old(self).profiles,
            final(self).settings == old(self).settings,
            final(self).modifiers == old(self).modifiers,
            final(self).lstick_position == old(self).lstick_position,
            final(self).rstick_position == old(self).rstick_position,
            final(self).tracking == old(self).tracking,
            final(self).max_abs_wheel == old(self).max_abs_wheel,
            final(self).device_connected == old(self).device_connected,
            final(self).held == old(self).held,
            final(self).history == old(self).history,
    {
        let kw = self.profiles.known_client(window);
        let a = crate::config::Associations { client: kw.duplicate(), layout: self.active_layout };
        proof {
            lemma_first_with(self.profiles.profiles@, a@);
        }
        match self.profiles.find(&a) {
            Some(i) => {
                self.current = i;
            },
            None => {
                let l = self.profiles.rotate(&kw, self.active_layout);
                self.active_layout = l;
                self.current = self.profiles.select(&kw, l);
                if self.settings.notify_layout_switch {
                    push_action(out, Action::NotifyLayout(l));
                    self.modifier_was_activated = true;
                }
            },
        }
    }

    /// Handles one raw event from the device; `window` is the focused
    /// window (consulted only where `needs_active_window` says so).
    pub fn handle_event(&mut self, ev: RawEvent, window: &Client) -> (r: Vec<Action>)
        requires
            old(self).wf(),
            old(self).device_connected,
        ensures
            final(self).wf(),
            final(self).device_connected,
            ({
                let o = old(self).outcome(ev, window@);
                &&& act_views(r@) == o.actions
                &&& final(self).modifiers@ == o.modifiers
                &&& final(self).modifier_was_activated == o.latch
                &&& final(self).current as int == o.current
                &&& final(self).active_layout == o.layout
                &&& final(self).tracking == o.tracking
                &&& final(self).lstick_position == o.lstick
                &&& final(self).rstick_position == o.rstick
            }),
            final(self).history@ == old(self).history@ + act_views(r@),
            final(self).profiles == old(self).profiles,
            final(self).settings == old(self).settings,
            final(self).max_abs_wheel == old(self).max_abs_wheel,
    {
        let (step, tr) = dispatch(&self.settings, self.tracking, self.max_abs_wheel, ev);
        self.tracking = tr;
        let mut out: Vec<Action> = Vec::new();
        assert(act_views(out@) =~= Seq::<ActionView>::empty());
        match step {
            Step::Ignore => {},
            Step::Forward => {
                if ev.kind == EV_KEY {
                    push_action(&mut out, Action::Emit(Sink::Keys, ev));
                } else if ev.kind == EV_REL {
                    push_action(&mut out, Action::Emit(Sink::Axis, ev));
                }
            },
            Step::Position(left, y, v) => {
                proof {
                    crate::dispatch::lemma_position_bounded(self.settings, self.tracking, self.max_abs_wheel, ev);
                }
                if left {
                    if y {
                        self.lstick_position.1 = v;
                    } else {
                        self.lstick_position.0 = v;
                    }
                } else {
                    if y {
                        self.rstick_position.1 = v;
                    } else {
                        self.rstick_position.0 = v;
                    }
                }
            },
            Step::SwitchLayout => {
                let kw = self.profiles.known_client(window);
                let l = self.profiles.rotate(&kw, self.active_layout);
                self.active_layout = l;
                self.current = self.profiles.select(&kw, l);
                if self.settings.notify_layout_switch {
                    push_action(&mut out, Action::NotifyLayout(l));
                    self.modifier_was_activated = true;
                }
            },
            Step::Convert(input, value, send_zero) => {
                if value == 1 {
                    self.refresh(window, &mut out);
                }
                let p = &self.profiles.profiles[self.current];
                convert_event(
                    p,
                    self.settings.chain_only,
                    input,
                    value,
                    send_zero,
                    ev,
                    &mut self.modifiers,
                    &mut self.modifier_was_activated,
                    &mut out,
                );
            },
        }
        self.record(&out);
        out
    }

    /// The device is gone: releases every key still held, then stops the
    /// periodic emitters.
    pub fn disconnect(&mut self) -> (r: Vec<Action>)
        requires
            old(self).wf(),
        ensures
            final(self).wf(),
            !final(self).device_connected,
            act_views(r@) == releases(old(self).held@),
            final(self).held@.len() == 0,
            final(self).history@ == old(self).history@ + act_views(r@),
    {
        let mut out: Vec<Action> = Vec::new();
        let mut i: usize = 0;
        while i < self.held.len()
            invariant
                0 <= i <= self.held.len(),
                act_views(out@) == releases(self.held@.take(i as int)),
            decreases self.held.len() - i,
        {
            let k = self.held[i];
            push_action(&mut out, Action::Emit(Sink::Keys, RawEvent { kind: EV_KEY, code: k, value: 0 }));
            i += 1;
            assert(act_views(out@) =~= releases(self.held@.take(i as int)));
        }
        assert(self.held@.take(self.held.len() as int) =~= self.held@);
        let ghost h0 = self.held@;
        if self.device_connected {
            self.record(&out);
        } else {
            assert(h0.len() == 0);
            assert(out@.len() == 0);
            assert(act_views(out@) =~= Seq::<ActionView>::empty());
            assert(self.history@ + act_views(out@) =~= self.history@);
        }
        proof {
            assert forall|x: u16| !self.held@.contains(x) by {
                lemma_releases_clear(h0, h0, x);
            }
            if self.held@.len() > 0 {
                assert(self.held@.contains(self.held@[0]));
            }
        }
        self.device_connected = false;
        out
    }

    /// One tick of the periodic emitter of function `f`.
    fn tick(&mut self, f: StickFunction) -> (r: Vec<Action>)
        requires
            old(self).wf(),
            old(self).device_connected,
        ensures
            final(self).wf(),
            act_views(r@) == old(self).tick_spec(f),
            final(self).history@ == old(self).history@ + act_views(r@),
            final(self).profiles == old(self).profiles,
            final(self).settings == old(self).settings,
            final(self).current == old(self).current,
            final(self).active_layout == old(self).active_layout,
            final(self).modifiers == old(self).modifiers,
            final(self).modifier_was_activated == old(self).modifier_was_activated,
            final(self).lstick_position == old(self).lstick_position,
            final(self).rstick_position == old(self).rstick_position,
            final(self).tracking == old(self).tracking,
            final(self).device_connected,
    {
        let mut out: Vec<Action> = Vec::new();
        assert(act_views(out@) =~= Seq::<ActionView>::empty());
        let side: Option<bool> = if self.settings.lstick.function == f {
            Some(true)
        } else if self.settings.rstick.function == f {
            Some(false)
        } else {
            None
        };
        match side {
            None => {},
            Some(left) => {
                let stick = if left { &self.settings.lstick } else { &self.settings.rstick };
                let pos = if left { self.lstick_position } else { self.rstick_position };
                let invert = if f == StickFunction::Cursor {
                    self.settings.invert_cursor_axis
                } else {
                    self.settings.invert_scroll_axis
                };
                let (cx, cy): (u16, u16) = if f == StickFunction::Cursor { (0, 1) } else { (11, 12) };
                let active = stick.activation_modifiers.len() == 0 || crate::event::events_equal(
                    &stick.activation_modifiers,
                    &self.modifiers,
                );
                if stick.sensitivity != 0 && (pos.0 != 0 || pos.1 != 0) && active {
                    let x: i32 = if invert { -pos.0 } else { pos.0 };
                    let y: i32 = if invert { -pos.1 } else { pos.1 };
                    push_action(&mut out, Action::Emit(Sink::Axis, RawEvent { kind: EV_REL, code: cx, value: x }));
                    push_action(&mut out, Action::Emit(Sink::Axis, RawEvent { kind: EV_REL, code: cy, value: y }));
                    assert(act_views(out@) =~= self.tick_spec(f));
                }
            },
        }
        self.record(&out);
        out
    }

    /// One tick of the cursor emitter: the cursor stick's position as a
    /// pointer motion, when it is off center and its activation modifiers
    /// (if any) are held.
    pub fn cursor_tick(&mut self) -> (r: Vec<Action>)
        requires
            old(self).wf(),
            old(self).device_connected,
        ensures
            final(self).wf(),
            act_views(r@) == old(self).tick_spec(StickFunction::Cursor),
            final(self).history@ == old(self).history@ + act_views(r@),
            final(self).modifiers == old(self).modifiers,
            final(self).lstick_position == old(self).lstick_position,
            final(self).rstick_position == old(self).rstick_position,
            final(self).settings == old(self).settings,
            final(self).device_connected,
    {
        self.tick(StickFunction::Cursor)
    }

    /// One tick of the scroll emitter: the scroll stick's position as
    /// horizontal and vertical wheel motion.
    pub fn scroll_tick(&mut self) -> (r: Vec<Action>)
        requires
            old(self).wf(),
            old(self).device_connected,
        ensures
            final(self).wf(),
            act_views(r@) == old(self).tick_spec(StickFunction::Scroll),
            final(self).history@ == old(self).history@ + act_views(r@),
            final(self).modifiers == old(self).modifiers,
            final(self).lstick_position == old(self).lstick_position,
            final(self).rstick_position == old(self).rstick_position,
            final(self).settings == old(self).settings,
            final(self).device_connected,
    {
        self.tick(StickFunction::Scroll)
    }

    /// The period, in milliseconds, of the emitter of function `f`; 0 when
    /// it does not run.
    pub fn loop_period(&self, f: StickFunction) -> (r: u64)
        ensures
            r == match loop_stick(self.settings, f) {
                Some(true) => self.settings.lstick.sensitivity,
                Some(false) => self.settings.rstick.sensitivity,
                None => 0,
            },
    {
        if self.settings.lstick.function == f {
            self.settings.lstick.sensitivity
        } else if self.settings.rstick.function == f {
            self.settings.rstick.sensitivity
        } else {
            0
        }
    }
}

} // verus!
