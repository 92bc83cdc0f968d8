//! Emission semantics: what a translator sends for a list of mapped keys,
//! for an input without a binding, and how the modifier set follows.

use crate::text::views;
use crate::config::{binding_view, bindings_view, is_live, lookup, Binding, Config};
use crate::event::{
    events_equal, contains_event, insert_modifier, insert_sorted, is_canonical, remove_modifier,
    without, Event,
};
use vstd::prelude::*;

verus! {

/// Event type of key events.
pub const EV_KEY: u16 = 1;

/// Event type of relative-axis events.
pub const EV_REL: u16 = 2;

/// Event type of absolute-axis events.
pub const EV_ABS: u16 = 3;

/// An input event as the kernel reports it: type, code and value.
#[derive(Debug, Clone, Copy, PartialEq, Eq, Structural)]
pub struct RawEvent {
    pub kind: u16,
    pub code: u16,
    pub value: i32,
}

/// The virtual device an event is sent to.
#[derive(Debug, Clone, Copy, PartialEq, Eq, Structural)]
pub enum Sink {
    Keys,
    Axis,
}

/// What the translator asks its surroundings to do.
#[derive(Debug, Clone, PartialEq, Eq)]
pub enum Action {
    /// Send an event to a virtual device.
    Emit(Sink, RawEvent),
    /// Run shell commands, detached.
    Spawn(Vec<String>),
    /// Tell the user that the layout is now the given one.
    NotifyLayout(u16),
}

/// An action as plain values: commands as their text.
pub enum ActionView {
    Emit(Sink, RawEvent),
    Spawn(Seq<Seq<char>>),
    NotifyLayout(u16),
}

impl View for Action {
    type V = ActionView;

    open spec fn view(&self) -> ActionView {
        match self {
            Action::Emit(s, e) => ActionView::Emit(*s, *e),
            Action::Spawn(c) => ActionView::Spawn(views(c@)),
            Action::NotifyLayout(l) => ActionView::NotifyLayout(*l),
        }
    }
}

/// Views of a list of actions.
pub open spec fn act_views(s: Seq<Action>) -> Seq<ActionView> {
    s.map_values(|a: Action| a@)
}

/// Appends an action.
pub fn push_action(out: &mut Vec<Action>, a: Action)
    ensures
        final(out)@ == old(out)@.push(a),
        act_views(final(out)@) == act_views(old(out)@).push(a@),
{
    let ghost before = out@;
    out.push(a);
    assert(act_views(out@) =~= act_views(before).push(a@));
}

/// A key event with `value` on the keys device.
pub open spec fn key_action(code: u16, value: i32) -> ActionView {
    ActionView::Emit(Sink::Keys, RawEvent { kind: EV_KEY, code, value })
}

/// The modifier list after `e` goes to `value`: added on press and removed
/// on release when `e` is a mapped modifier, unchanged otherwise.
pub open spec fn toggled(mods: Seq<Event>, e: Event, value: i32, all: Seq<Event>) -> Seq<Event> {
    if all.contains(e) {
        if value == 1 {
            insert_sorted(mods, e)
        } else if value == 0 {
            without(mods, e)
        } else {
            mods
        }
    } else {
        mods
    }
}

/// The keys owed a release under `mods`: the outputs, in order, of the
/// bindings among the first `n` that are bound under exactly `mods` and not
/// replaced by a later binding.
pub open spec fn released_upto(s: Seq<(Event, Seq<Event>, Seq<u16>)>, n: int, mods: Seq<Event>) -> Seq<u16>
    decreases n,
{
    if n <= 0 {
        Seq::empty()
    } else {
        let r = released_upto(s, n - 1, mods);
        if s[n - 1].1 == mods && is_live(s, n - 1) {
            r + s[n - 1].2
        } else {
            r
        }
    }
}

/// The keys owed a release under `mods` in profile `p`.
pub open spec fn released_of(p: Config, mods: Seq<Event>) -> Seq<u16> {
    let s = bindings_view(p.bindings.remap@);
    released_upto(s, s.len() as int, mods)
}

/// Releases each key of `keys` in turn, dropping it from the modifiers
/// wherever it is there.
pub open spec fn release_all(st: (Seq<ActionView>, Seq<Event>), keys: Seq<u16>) -> (Seq<ActionView>, Seq<Event>)
    decreases keys.len(),
{
    if keys.len() == 0 {
        st
    } else {
        let (o, m) = release_all(st, keys.drop_last());
        (o.push(key_action(keys.last(), 0)), without(m, Event::Key(keys.last())))
    }
}

/// Releases of the key modifiers in `mods`, in order.
pub open spec fn modifier_releases(mods: Seq<Event>) -> Seq<ActionView>
    decreases mods.len(),
{
    if mods.len() == 0 {
        Seq::empty()
    } else {
        let r = modifier_releases(mods.drop_last());
        match mods.last() {
            Event::Key(k) => r.push(key_action(k, 0)),
            _ => r,
        }
    }
}

/// Sends each key of `keys` with `value`. A custom modifier is sent only as
/// a tap on release, and only if nothing else was sent since its press.
pub open spec fn send_keys(
    st: (Seq<ActionView>, Seq<Event>, bool),
    keys: Seq<u16>,
    value: i32,
    release_keys: bool,
    p: Config,
) -> (Seq<ActionView>, Seq<Event>, bool)
    decreases keys.len(),
{
    if keys.len() == 0 {
        st
    } else {
        let (o, m, latch) = send_keys(st, keys.drop_last(), value, release_keys, p);
        let k = keys.last();
        let m2 = if release_keys { toggled(m, Event::Key(k), value, p.mapped_modifiers.all@) } else { m };
        if p.mapped_modifiers.custom@.contains(Event::Key(k)) {
            if value == 0 && !latch {
                (o.push(key_action(k, 1)).push(key_action(k, 0)), m2, true)
            } else if value == 1 {
                (o, m2, false)
            } else {
                (o, m2, latch)
            }
        } else {
            (o.push(key_action(k, value)), m2, true)
        }
    }
}

/// Emission of a bound key list: with `release_keys`, first the keys owed
/// a release under the current modifiers; else, with `ignore_modifiers`, a
/// release of every held key modifier; then the keys themselves.
pub open spec fn emit_spec(
    st: (Seq<ActionView>, Seq<Event>, bool),
    keys: Seq<u16>,
    value: i32,
    p: Config,
    release_keys: bool,
    ignore_modifiers: bool,
) -> (Seq<ActionView>, Seq<Event>, bool) {
    let (o, m, latch) = st;
    let (o1, m1) = if release_keys {
        release_all((o, m), released_of(p, m))
    } else if ignore_modifiers {
        (o + modifier_releases(m), m)
    } else {
        (o, m)
    };
    send_keys((o1, m1, latch), keys, value, release_keys, p)
}

/// Emission of an input without a binding: the keys owed a release, the
/// modifier update, then the event itself (to the device of its type), or
/// for a custom modifier the tap rule.
pub open spec fn unmapped_spec(
    st: (Seq<ActionView>, Seq<Event>, bool),
    raw: RawEvent,
    input: Event,
    value: i32,
    p: Config,
) -> (Seq<ActionView>, Seq<Event>, bool) {
    let (o, m, latch) = st;
    let (o1, m1) = release_all((o, m), released_of(p, m));
    let m2 = toggled(m1, input, value, p.mapped_modifiers.all@);
    if p.mapped_modifiers.custom@.contains(input) {
        if value == 0 && !latch {
            (
                o1.push(ActionView::Emit(Sink::Keys, RawEvent { kind: raw.kind, code: raw.code, value: 1 })).push(
                    ActionView::Emit(Sink::Keys, RawEvent { kind: raw.kind, code: raw.code, value: 0 }),
                ),
                m2,
                true,
            )
        } else if value == 1 {
            (o1, m2, false)
        } else {
            (o1, m2, latch)
        }
    } else if raw.kind == EV_KEY {
        (o1.push(ActionView::Emit(Sink::Keys, raw)), m2, true)
    } else if raw.kind == EV_REL {
        (o1.push(ActionView::Emit(Sink::Axis, raw)), m2, true)
    } else {
        (o1, m2, true)
    }
}

/// Updates the modifier list for `e` going to `value`.
pub fn toggle_modifiers(mods: &mut Vec<Event>, e: Event, value: i32, all: &Vec<Event>)
    requires
        is_canonical(old(mods)@),
    ensures
        final(mods)@ == toggled(old(mods)@, e, value, all@),
        is_canonical(final(mods)@),
{
    if contains_event(all, e) {
        if value == 1 {
            insert_modifier(mods, e);
        } else if value == 0 {
            proof {
                crate::event::lemma_without_canonical(mods@, e);
            }
            remove_modifier(mods, e);
        }
    }
}

/// Whether the binding at `i` is not replaced by a later one.
fn binding_is_live<T>(s: &Vec<Binding<T>>, i: usize) -> (r: bool)
    requires
        i < s.len(),
    ensures
        r == is_live(bindings_view(s@), i as int),
{
    let ghost v = bindings_view(s@);
    let mut j: usize = i + 1;
    while j < s.len()
        invariant
            i < j <= s.len(),
            v == bindings_view(s@),
            forall|k: int| i < k < j ==> !(v[k].0 == v[i as int].0 && v[k].1 == v[i as int].1),
        decreases s.len() - j,
    {
        assert(v[j as int] == binding_view(s@[j as int]));
        assert(v[i as int] == binding_view(s@[i as int]));
        if s[j].input == s[i].input && events_equal(&s[j].modifiers, &s[i].modifiers) {
            return false;
        }
        j += 1;
    }
    true
}

/// The keys owed a release under `mods` in profile `p`.
pub fn released_keys(p: &Config, mods: &Vec<Event>) -> (r: Vec<u16>)
    ensures
        r@ == released_of(*p, mods@),
{
    let s = &p.bindings.remap;
    let ghost v = bindings_view(s@);
    let mut r: Vec<u16> = Vec::new();
    let mut i: usize = 0;
    while i < s.len()
        invariant
            0 <= i <= s.len(),
            s == &p.bindings.remap,
            v == bindings_view(s@),
            r@ == released_upto(v, i as int, mods@),
        decreases s.len() - i,
    {
        if events_equal(&s[i].modifiers, mods) && binding_is_live(s, i) {
            let out = &s[i].output;
            let ghost before = r@;
            let mut k: usize = 0;
            while k < out.len()
                invariant
                    0 <= k <= out.len(),
                    r@ == before + out@.take(k as int),
                decreases out.len() - k,
            {
                r.push(out[k]);
                k += 1;
                assert(r@ =~= before + out@.take(k as int));
            }
            assert(out@.take(out.len() as int) =~= out@);
        }
        i += 1;
    }
    r
}

/// Releases each key of `keys`, dropping it from the modifiers.
fn release_each(keys: &Vec<u16>, mods: &mut Vec<Event>, out: &mut Vec<Action>)
    requires
        is_canonical(old(mods)@),
    ensures
        (act_views(final(out)@), final(mods)@) == release_all((act_views(old(out)@), old(mods)@), keys@),
        is_canonical(final(mods)@),
{
    let ghost st0 = (act_views(out@), mods@);
    let mut i: usize = 0;
    assert(keys@.take(0) =~= Seq::<u16>::empty());
    while i < keys.len()
        invariant
            0 <= i <= keys.len(),
            is_canonical(mods@),
            (act_views(out@), mods@) == release_all(st0, keys@.take(i as int)),
        decreases keys.len() - i,
    {
        assert(keys@.take(i as int + 1).drop_last() =~= keys@.take(i as int));
        let k = keys[i];
        proof {
            crate::event::lemma_without_canonical(mods@, Event::Key(k));
        }
        remove_modifier(mods, Event::Key(k));
        push_action(out, Action::Emit(Sink::Keys, RawEvent { kind: EV_KEY, code: k, value: 0 }));
        i += 1;
    }
    assert(keys@.take(keys.len() as int) =~= keys@);
}

/// Emits a bound key list with `value` (see `emit_spec`).
pub fn emit_event(
    keys: &Vec<u16>,
    value: i32,
    p: &Config,
    mods: &mut Vec<Event>,
    latch: &mut bool,
    out: &mut Vec<Action>,
    release_keys: bool,
    ignore_modifiers: bool,
)
    requires
        is_canonical(old(mods)@),
    ensures
        (act_views(final(out)@), final(mods)@, *final(latch)) == emit_spec(
            (act_views(old(out)@), old(mods)@, *old(latch)),
            keys@,
            value,
            *p,
            release_keys,
            ignore_modifiers,
        ),
        is_canonical(final(mods)@),
{
    let all = &p.mapped_modifiers.all;
    let custom = &p.mapped_modifiers.custom;
    if release_keys {
        let owed = released_keys(p, mods);
        release_each(&owed, mods, out);
    } else if ignore_modifiers {
        let ghost o0 = act_views(out@);
        let mut i: usize = 0;
        assert(mods@.take(0) =~= Seq::<Event>::empty());
        assert(o0 + modifier_releases(Seq::<Event>::empty()) =~= o0);
        while i < mods.len()
            invariant
                0 <= i <= mods.len(),
                act_views(out@) == o0 + modifier_releases(mods@.take(i as int)),
            decreases mods.len() - i,
        {
            assert(mods@.take(i as int + 1).drop_last() =~= mods@.take(i as int));
            match mods[i] {
                Event::Key(k) => {
                    push_action(out, Action::Emit(Sink::Keys, RawEvent { kind: EV_KEY, code: k, value: 0 }));
                    assert(act_views(out@) =~= o0 + modifier_releases(mods@.take(i as int + 1)));
                },
                _ => {},
            }
            i += 1;
        }
        assert(mods@.take(mods.len() as int) =~= mods@);
    }
    let ghost st1 = (act_views(out@), mods@, *latch);
    let mut i: usize = 0;
    assert(keys@.take(0) =~= Seq::<u16>::empty());
    while i < keys.len()
        invariant
            0 <= i <= keys.len(),
            all == &p.mapped_modifiers.all,
            custom == &p.mapped_modifiers.custom,
            is_canonical(mods@),
            (act_views(out@), mods@, *latch) == send_keys(st1, keys@.take(i as int), value, release_keys, *p),
        decreases keys.len() - i,
    {
        assert(keys@.take(i as int + 1).drop_last() =~= keys@.take(i as int));
        let k = keys[i];
        if release_keys {
            toggle_modifiers(mods, Event::Key(k), value, all);
        }
        if contains_event(custom, Event::Key(k)) {
            if value == 0 && !*latch {
                push_action(out, Action::Emit(Sink::Keys, RawEvent { kind: EV_KEY, code: k, value: 1 }));
                push_action(out, Action::Emit(Sink::Keys, RawEvent { kind: EV_KEY, code: k, value: 0 }));
                *latch = true;
            } else if value == 1 {
                *latch = false;
            }
        } else {
            push_action(out, Action::Emit(Sink::Keys, RawEvent { kind: EV_KEY, code: k, value }));
            *latch = true;
        }
        i += 1;
    }
    assert(keys@.take(keys.len() as int) =~= keys@);
}

/// Emits an input that no binding covers (see `unmapped_spec`).
pub fn emit_nonmapped_event(
    raw: RawEvent,
    input: Event,
    value: i32,
    p: &Config,
    mods: &mut Vec<Event>,
    latch: &mut bool,
    out: &mut Vec<Action>,
)
    requires
        is_canonical(old(mods)@),
    ensures
        (act_views(final(out)@), final(mods)@, *final(latch)) == unmapped_spec(
            (act_views(old(out)@), old(mods)@, *old(latch)),
            raw,
            input,
            value,
            *p,
        ),
        is_canonical(final(mods)@),
{
    let all = &p.mapped_modifiers.all;
    let owed = released_keys(p, mods);
    release_each(&owed, mods, out);
    toggle_modifiers(mods, input, value, all);
    if contains_event(&p.mapped_modifiers.custom, input) {
        if value == 0 && !*latch {
            push_action(out, Action::Emit(Sink::Keys, RawEvent { kind: raw.kind, code: raw.code, value: 1 }));
            push_action(out, Action::Emit(Sink::Keys, RawEvent { kind: raw.kind, code: raw.code, value: 0 }));
            *latch = true;
        } else if value == 1 {
            *latch = false;
        }
    } else {
        *latch = true;
        if raw.kind == EV_KEY {
            push_action(out, Action::Emit(Sink::Keys, raw));
        } else if raw.kind == EV_REL {
            push_action(out, Action::Emit(Sink::Axis, raw));
        }
    }
}

/// Index of the binding that gives the output of `input` under `mods`.
pub fn find_binding<T>(s: &Vec<Binding<T>>, input: Event, mods: &Vec<Event>) -> (r: Option<usize>)
    ensures
        match r {
            Some(i) => i < s.len() && lookup(bindings_view(s@), input, mods@) == Some(s@[i as int].output@),
            None => lookup(bindings_view(s@), input, mods@) is None,
        },
{
    let ghost v = bindings_view(s@);
    let mut i: usize = s.len();
    assert(v.take(i as int) =~= v);
    while i > 0
        invariant
            0 <= i <= s.len(),
            v == bindings_view(s@),
            lookup(v, input, mods@) == lookup(v.take(i as int), input, mods@),
        decreases i,
    {
        i -= 1;
        assert(v.take(i as int + 1).drop_last() =~= v.take(i as int));
        assert(v.take(i as int + 1).last() == binding_view(s@[i as int]));
        if s[i].input == input && events_equal(&s[i].modifiers, mods) {
            return Some(i);
        }
    }
    None
}

} // verus!
