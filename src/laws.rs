//! Properties of the engine that hold across calls and for all inputs.

use crate::config::{bindings_view, default_associations, lookup, Config};
use crate::dispatch::{hat_step, wheel_step, Step, BTN_TL2, BTN_TR2};
use crate::emit::{
    emit_spec, key_action, modifier_releases, released_of, release_all, send_keys, toggled,
    ActionView, RawEvent, Sink, EV_KEY,
};
use crate::event::{
    is_canonical, lemma_insert_sorted_canonical, lemma_without_canonical, without, Axis, Event,
};
use crate::profile::{first_with, lemma_first_with, ProfileSet};
use crate::translator::{
    convert_spec, held_after, held_step, lemma_drop_code, lemma_held_after_concat, resolution_spec,
    Resolution, Translator,
};
use vstd::prelude::*;

verus! {

/// The held modifiers of every translator state are sorted and free of
/// duplicates: `new` establishes it and every step keeps it.
pub proof fn modifiers_stay_canonical(t: &Translator)
    requires
        t.wf(),
    ensures
        is_canonical(t.modifiers@),
{
}

proof fn lemma_toggled_canonical(m: Seq<Event>, e: Event, value: i32, all: Seq<Event>)
    requires
        is_canonical(m),
    ensures
        is_canonical(toggled(m, e, value, all)),
{
    lemma_insert_sorted_canonical(m, e);
    lemma_without_canonical(m, e);
}

proof fn lemma_release_all_canonical(st: (Seq<ActionView>, Seq<Event>), keys: Seq<u16>)
    requires
        is_canonical(st.1),
    ensures
        is_canonical(release_all(st, keys).1),
    decreases keys.len(),
{
    if keys.len() > 0 {
        lemma_release_all_canonical(st, keys.drop_last());
        lemma_without_canonical(release_all(st, keys.drop_last()).1, Event::Key(keys.last()));
    }
}

proof fn lemma_send_keys_canonical(st: (Seq<ActionView>, Seq<Event>, bool), keys: Seq<u16>, value: i32, release_keys: bool, p: Config)
    requires
        is_canonical(st.1),
    ensures
        is_canonical(send_keys(st, keys, value, release_keys, p).1),
    decreases keys.len(),
{
    if keys.len() > 0 {
        lemma_send_keys_canonical(st, keys.drop_last(), value, release_keys, p);
        let m = send_keys(st, keys.drop_last(), value, release_keys, p).1;
        lemma_toggled_canonical(m, Event::Key(keys.last()), value, p.mapped_modifiers.all@);
    }
}

proof fn lemma_emit_canonical(st: (Seq<ActionView>, Seq<Event>, bool), keys: Seq<u16>, value: i32, p: Config, r: bool, i: bool)
    requires
        is_canonical(st.1),
    ensures
        is_canonical(emit_spec(st, keys, value, p, r, i).1),
{
    let (o, m, latch) = st;
    lemma_release_all_canonical((o, m), released_of(p, m));
    let (o1, m1) = if r {
        release_all((o, m), released_of(p, m))
    } else if i {
        (o + modifier_releases(m), m)
    } else {
        (o, m)
    };
    lemma_send_keys_canonical((o1, m1, latch), keys, value, r, p);
}

/// Handling any raw event keeps the held modifiers sorted and free of
/// duplicates, whatever the window and whether or not the device is still
/// connected.
pub proof fn event_keeps_modifiers_canonical(t: &Translator, ev: RawEvent, w: Option<Seq<char>>)
    requires
        t.wf(),
    ensures
        is_canonical(t.outcome(ev, w).modifiers),
{
    let (step, tr) = crate::dispatch::dispatch_spec(t.settings, t.tracking, t.max_abs_wheel, ev);
    match step {
        Step::Convert(input, value, send_zero) => {
            let (cur, lay, notified) = if value == 1 { t.refreshed(w) } else { (t.current as int, t.active_layout, false) };
            let p = t.profiles.profiles@[cur];
            let pre = if notified { seq![ActionView::NotifyLayout(lay)] } else { Seq::empty() };
            let st = (pre, t.modifiers@, notified || t.modifier_was_activated);
            let remap = crate::config::bindings_view(p.bindings.remap@);
            match resolution_spec(p, t.settings.chain_only, input, t.modifiers@) {
                Resolution::Remap => {
                    let keys = lookup(remap, input, t.modifiers@).unwrap();
                    lemma_emit_canonical(st, keys, value, p, false, false);
                    lemma_emit_canonical(emit_spec(st, keys, value, p, false, false), keys, 0, p, false, false);
                },
                Resolution::Hold => {
                    lemma_emit_canonical(st, lookup(remap, input, seq![Event::Hold]).unwrap(), value, p, false, false);
                },
                Resolution::DefaultRemap => {
                    let keys = lookup(remap, input, Seq::empty()).unwrap();
                    lemma_emit_canonical(st, keys, value, p, true, false);
                    lemma_emit_canonical(emit_spec(st, keys, value, p, true, false), keys, 0, p, true, false);
                },
                Resolution::Unmapped => {
                    lemma_release_all_canonical((pre, t.modifiers@), released_of(p, t.modifiers@));
                    let m1 = release_all((pre, t.modifiers@), released_of(p, t.modifiers@)).1;
                    lemma_toggled_canonical(m1, input, value, p.mapped_modifiers.all@);
                },
                _ => {},
            }
        },
        _ => {},
    }
}

proof fn lemma_key_stays_held(h: Seq<u16>, acts: Seq<ActionView>, k: u16)
    requires
        h.contains(k),
        forall|j: int| 0 <= j < acts.len() ==> acts[j] != key_action(k, 0),
    ensures
        held_after(h, acts).contains(k),
    decreases acts.len(),
{
    if acts.len() > 0 {
        let d = acts.drop_last();
        assert forall|j: int| 0 <= j < d.len() implies d[j] != key_action(k, 0) by {
            assert(d[j] == acts[j]);
        }
        lemma_key_stays_held(h, d, k);
        let prev = held_after(h, d);
        let a = acts.last();
        assert(a == acts[acts.len() - 1]);
        match a {
            ActionView::Emit(Sink::Keys, e) => {
                if e.kind == EV_KEY && e.value == 1 {
                    if !prev.contains(e.code) {
                        let i = choose|i: int| 0 <= i < prev.len() && prev[i] == k;
                        assert(prev.push(e.code)[i] == k);
                    }
                } else if e.kind == EV_KEY && e.value == 0 {
                    lemma_drop_code(prev, e.code, k);
                }
            },
            _ => {},
        }
    }
}

/// No stuck keys: once the device is disconnected, every key press the
/// translator ever sent to the keys device was followed by a release of the
/// same key.
pub proof fn no_stuck_keys(t: &Translator, i: int, k: u16)
    requires
        t.wf(),
        !t.device_connected,
        0 <= i < t.history@.len(),
        t.history@[i] == key_action(k, 1),
    ensures
        exists|j: int| i < j < t.history@.len() && t.history@[j] == key_action(k, 0),
{
    let h = t.history@;
    let a = h.take(i + 1);
    let b = h.skip(i + 1);
    assert(a + b =~= h);
    lemma_held_after_concat(Seq::empty(), a, b);
    let before = held_after(Seq::<u16>::empty(), a.drop_last());
    assert(a.drop_last() =~= h.take(i));
    assert(a.last() == key_action(k, 1));
    let after_press = held_after(Seq::<u16>::empty(), a);
    assert(after_press == held_step(before, key_action(k, 1)));
    if !before.contains(k) {
        assert(before.push(k)[before.len() as int] == k);
    }
    assert(after_press.contains(k));
    if !(exists|j: int| i < j < h.len() && h[j] == key_action(k, 0)) {
        assert forall|j: int| 0 <= j < b.len() implies b[j] != key_action(k, 0) by {
            assert(b[j] == h[i + 1 + j]);
        }
        lemma_key_stays_held(after_press, b, k);
        assert(t.held@.contains(k));
        assert(false);
    }
}

/// Every profile set that is well formed holds the fallback profile
/// (any window, layout 0) beside any other profile.
pub proof fn fallback_profile_exists(s: &ProfileSet, i: int)
    requires
        s.wf(),
        0 <= i < s.profiles@.len(),
        s.profiles@[i].associations@ != default_associations(),
    ensures
        exists|j: int| 0 <= j < s.profiles@.len() && s.profiles@[j].associations@ == default_associations(),
{
    lemma_first_with(s.profiles@, default_associations());
    let j = first_with(s.profiles@, default_associations()).unwrap();
    assert(s.profiles@[j].associations@ == default_associations());
}

/// Pressing a d-pad direction and centering it, twice, leaves the d-pad
/// axis centered.
pub proof fn dpad_round_trip(state: i32, neg: Axis, pos: Axis, dir: i32)
    requires
        dir == 1 || dir == -1,
    ensures
        ({
            let s1 = hat_step(state, dir, neg, pos).1;
            let s2 = hat_step(s1, 0, neg, pos).1;
            let s3 = hat_step(s2, dir, neg, pos).1;
            hat_step(s3, 0, neg, pos).1 == 0
        }),
{
}

/// An absolute wheel read first at `max - 1`, then at 1, wrapped forward:
/// the second reading is one clockwise pulse (for a range large enough that
/// the jump exceeds half of it).
pub proof fn wheel_wrap_is_clockwise(max: i32)
    requires
        max >= 5,
    ensures
        wheel_step(0, (max - 1) as i32, max).0 == Step::Ignore,
        wheel_step(wheel_step(0, (max - 1) as i32, max).1, 1, max).0 == Step::Convert(Event::Axis(Axis::ABS_WHEEL_CW), 1, true),
{
}

/// An unbound key that no profile of the set mentions.
pub open spec fn plain_in_all(s: ProfileSet, k: u16) -> bool {
    forall|i: int| 0 <= i < s.profiles@.len() ==> #[trigger] plain_in(s.profiles@[i], k)
}

/// `k` has no binding in `p`, is no modifier of it, and `p` owes no key a
/// release when no modifier is held.
pub open spec fn plain_in(p: Config, k: u16) -> bool {
    let remap = bindings_view(p.bindings.remap@);
    let cmds = bindings_view(p.bindings.commands@);
    &&& lookup(remap, Event::Key(k), Seq::empty()) is None
    &&& lookup(remap, Event::Key(k), seq![Event::Hold]) is None
    &&& lookup(cmds, Event::Key(k), Seq::empty()) is None
    &&& !p.mapped_modifiers.all@.contains(Event::Key(k))
    &&& !p.mapped_modifiers.custom@.contains(Event::Key(k))
    &&& released_of(p, Seq::empty()).len() == 0
}

/// A key that nothing binds, with no modifier held, passes through as it
/// is, alone, and leaves the modifiers empty: a press then a release of it
/// send exactly its press then its release.
pub proof fn plain_key_passes_through(t: &Translator, k: u16, value: i32, w: Option<Seq<char>>)
    requires
        t.wf(),
        t.modifiers@.len() == 0,
        value == 0 || value == 1,
        k != BTN_TL2,
        k != BTN_TR2,
        k != t.settings.layout_switcher,
        !t.settings.notify_layout_switch,
        plain_in_all(t.profiles, k),
    ensures
        t.outcome(RawEvent { kind: EV_KEY, code: k, value }, w).actions == seq![key_action(k, value)],
        t.outcome(RawEvent { kind: EV_KEY, code: k, value }, w).modifiers.len() == 0,
{
    let ev = RawEvent { kind: EV_KEY, code: k, value };
    let o = t.outcome(ev, w);
    let (cur, lay, notified) = if value == 1 { t.refreshed(w) } else { (t.current as int, t.active_layout, false) };
    let kw = t.profiles.known_spec(w);
    lemma_first_with(t.profiles.profiles@, (kw, t.active_layout));
    lemma_first_with(t.profiles.profiles@, default_associations());
    crate::profile::lemma_first_with(t.profiles.profiles@, (kw, t.profiles.rotate_spec(kw, t.active_layout, 4)));
    assert(0 <= cur < t.profiles.profiles@.len());
    let p = t.profiles.profiles@[cur];
    assert(plain_in(p, k));
    assert(t.modifiers@ =~= Seq::<Event>::empty());
    assert(resolution_spec(p, t.settings.chain_only, Event::Key(k), t.modifiers@) == Resolution::Unmapped);
    assert(release_all((Seq::<ActionView>::empty(), Seq::<Event>::empty()), Seq::<u16>::empty())
        == (Seq::<ActionView>::empty(), Seq::<Event>::empty()));
    assert(released_of(p, Seq::empty()) =~= Seq::<u16>::empty());
}

/// A wheel tick bound (without modifiers) to a key `k` that is no custom
/// modifier, with no modifier held: exactly the press and the release of
/// `k`, the modifiers staying empty. The same tick again sends the same.
pub proof fn wheel_tick_is_a_pulse(p: Config, chain_only: bool, k: u16, dir: Axis, raw: RawEvent, o: Seq<ActionView>, latch: bool)
    requires
        dir == Axis::SCROLL_WHEEL_UP || dir == Axis::SCROLL_WHEEL_DOWN,
        lookup(bindings_view(p.bindings.remap@), Event::Axis(dir), Seq::empty()) == Some(seq![k]),
        !p.mapped_modifiers.custom@.contains(Event::Key(k)),
    ensures
        convert_spec(p, chain_only, Event::Axis(dir), 1, true, raw, (o, Seq::empty(), latch))
            == (o + seq![key_action(k, 1), key_action(k, 0)], Seq::<Event>::empty(), true),
{
    assert(resolution_spec(p, chain_only, Event::Axis(dir), Seq::empty()) == Resolution::Remap);
    let keys = seq![k];
    assert(keys.drop_last() =~= Seq::<u16>::empty());
    assert(keys.last() == k);
    let st1 = (o, Seq::<Event>::empty(), latch);
    assert(send_keys(st1, keys.drop_last(), 1, false, p) == st1);
    let s1 = send_keys(st1, keys, 1, false, p);
    assert(s1 == (o.push(key_action(k, 1)), Seq::<Event>::empty(), true));
    let st2 = (o.push(key_action(k, 1)), Seq::<Event>::empty(), true);
    assert(send_keys(st2, keys.drop_last(), 0, false, p) == st2);
    let s2 = send_keys(st2, keys, 0, false, p);
    assert(s2 == (o.push(key_action(k, 1)).push(key_action(k, 0)), Seq::<Event>::empty(), true));
    assert(o.push(key_action(k, 1)).push(key_action(k, 0)) =~= o + seq![key_action(k, 1), key_action(k, 0)]);
}

} // verus!
