//! Input identifiers and the canonical (sorted, duplicate-free) modifier sequence.

use vstd::prelude::*;

verus! {

/// Discrete inputs synthesized from analog axes, wheels and d-pads.
#[allow(non_camel_case_types)]
#[derive(Debug, Clone, Copy, PartialEq, Eq, Structural, Hash, PartialOrd, Ord)]
pub enum Axis {
    BTN_DPAD_UP,
    BTN_DPAD_DOWN,
    BTN_DPAD_LEFT,
    BTN_DPAD_RIGHT,
    LSTICK_UP,
    LSTICK_DOWN,
    LSTICK_LEFT,
    LSTICK_RIGHT,
    RSTICK_UP,
    RSTICK_DOWN,
    RSTICK_LEFT,
    RSTICK_RIGHT,
    SCROLL_WHEEL_UP,
    SCROLL_WHEEL_DOWN,
    BTN_TL2,
    BTN_TR2,
    ABS_WHEEL_CW,
    ABS_WHEEL_CCW,
}

/// An input identifier: a synthesized axis input, a key code, or the
/// `Hold` pseudo-modifier of chain-only bindings.
#[derive(Debug, Clone, Copy, PartialEq, Eq, Structural, Hash, PartialOrd, Ord)]
pub enum Event {
    Axis(Axis),
    Key(u16),
    Hold,
}

/// Position of an axis input in declaration order.
pub open spec fn axis_index(a: Axis) -> int {
    match a {
        Axis::BTN_DPAD_UP => 0,
        Axis::BTN_DPAD_DOWN => 1,
        Axis::BTN_DPAD_LEFT => 2,
        Axis::BTN_DPAD_RIGHT => 3,
        Axis::LSTICK_UP => 4,
        Axis::LSTICK_DOWN => 5,
        Axis::LSTICK_LEFT => 6,
        Axis::LSTICK_RIGHT => 7,
        Axis::RSTICK_UP => 8,
        Axis::RSTICK_DOWN => 9,
        Axis::RSTICK_LEFT => 10,
        Axis::RSTICK_RIGHT => 11,
        Axis::SCROLL_WHEEL_UP => 12,
        Axis::SCROLL_WHEEL_DOWN => 13,
        Axis::BTN_TL2 => 14,
        Axis::BTN_TR2 => 15,
        Axis::ABS_WHEEL_CW => 16,
        Axis::ABS_WHEEL_CCW => 17,
    }
}

/// The ordering key of an event: axis inputs first (in declaration order),
/// then keys by code, then `Hold`.
pub open spec fn rank(e: Event) -> int {
    match e {
        Event::Axis(a) => axis_index(a),
        Event::Key(k) => 18 + k as int,
        Event::Hold => 65554int,
    }
}

pub proof fn lemma_rank_injective(a: Event, b: Event)
    ensures
        rank(a) == rank(b) ==> a == b,
{
}

/// Strictly ascending by rank, hence also free of duplicates.
pub open spec fn is_canonical(s: Seq<Event>) -> bool {
    forall|i: int, j: int| 0 <= i < j < s.len() ==> rank(s[i]) < rank(s[j])
}

/// Number of elements ranked below `e`.
pub open spec fn count_below(s: Seq<Event>, e: Event) -> nat
    decreases s.len(),
{
    if s.len() == 0 {
        0
    } else if rank(s.last()) < rank(e) {
        count_below(s.drop_last(), e) + 1
    } else {
        count_below(s.drop_last(), e)
    }
}

/// `s` with `e` added at its place in the order, unless it is already there
/// (a push followed by sort and dedup).
pub open spec fn insert_sorted(s: Seq<Event>, e: Event) -> Seq<Event> {
    if s.contains(e) {
        s
    } else {
        s.insert(count_below(s, e) as int, e)
    }
}

/// `s` without any occurrence of `e`.
pub open spec fn without(s: Seq<Event>, e: Event) -> Seq<Event>
    decreases s.len(),
{
    if s.len() == 0 {
        s
    } else if s.last() == e {
        without(s.drop_last(), e)
    } else {
        without(s.drop_last(), e).push(s.last())
    }
}

/// The canonical form of a list of events: pushed one by one into a sorted
/// duplicate-free sequence (sort followed by dedup).
pub open spec fn canonical(s: Seq<Event>) -> Seq<Event>
    decreases s.len(),
{
    if s.len() == 0 {
        s
    } else {
        insert_sorted(canonical(s.drop_last()), s.last())
    }
}

pub proof fn lemma_count_below_splits(s: Seq<Event>, e: Event)
    requires
        is_canonical(s),
    ensures
        count_below(s, e) <= s.len(),
        forall|j: int| 0 <= j < count_below(s, e) ==> rank(#[trigger] s[j]) < rank(e),
        forall|j: int| count_below(s, e) <= j < s.len() ==> rank(#[trigger] s[j]) >= rank(e),
    decreases s.len(),
{
    if s.len() > 0 {
        let d = s.drop_last();
        assert(is_canonical(d));
        lemma_count_below_splits(d, e);
        assert(forall|j: int| 0 <= j < d.len() ==> #[trigger] s[j] == d[j]);
        if rank(s.last()) < rank(e) {
            assert forall|j: int| 0 <= j < count_below(s, e) implies rank(#[trigger] s[j]) < rank(e) by {
                if j < s.len() - 1 {
                    assert(rank(s[j]) < rank(s[s.len() - 1]));
                }
            }
        } else {
            assert forall|j: int| count_below(s, e) <= j < s.len() implies rank(#[trigger] s[j]) >= rank(e) by {
                if j < s.len() - 1 {
                    assert(s[j] == d[j]);
                }
            }
        }
    }
}

pub proof fn lemma_insert_sorted_canonical(s: Seq<Event>, e: Event)
    requires
        is_canonical(s),
    ensures
        is_canonical(insert_sorted(s, e)),
        insert_sorted(s, e).to_set() == s.to_set().insert(e),
{
    if !s.contains(e) {
        lemma_count_below_splits(s, e);
        let p = count_below(s, e) as int;
        let r = s.insert(p, e);
        assert forall|j: int| 0 <= j < s.len() implies rank(#[trigger] s[j]) != rank(e) by {
            lemma_rank_injective(s[j], e);
        }
        assert forall|i: int, j: int| 0 <= i < j < r.len() implies rank(r[i]) < rank(r[j]) by {
            if j < p {
            } else if j == p {
            } else if i < p {
            } else if i == p {
                assert(rank(s[j - 1]) != rank(e));
            } else {
            }
        }
        assert(r.to_set() =~= s.to_set().insert(e)) by {
            assert forall|x: Event| r.to_set().contains(x) <==> s.to_set().insert(e).contains(x) by {
                if r.to_set().contains(x) {
                    let k = choose|k: int| 0 <= k < r.len() && r[k] == x;
                    if k < p {
                        assert(s[k] == x);
                    } else if k > p {
                        assert(s[k - 1] == x);
                    }
                }
                if s.to_set().insert(e).contains(x) && x != e {
                    let k = choose|k: int| 0 <= k < s.len() && s[k] == x;
                    if k < p {
                        assert(r[k] == x);
                    } else {
                        assert(r[k + 1] == x);
                    }
                }
                if x == e {
                    assert(r[p] == e);
                }
            }
        }
    } else {
        assert(s.to_set() =~= s.to_set().insert(e));
    }
}

pub proof fn lemma_without_canonical(s: Seq<Event>, e: Event)
    requires
        is_canonical(s),
    ensures
        is_canonical(without(s, e)),
        without(s, e).to_set() == s.to_set().remove(e),
        forall|x: Event| #[trigger] without(s, e).contains(x) ==> s.contains(x),
    decreases s.len(),
{
    if s.len() > 0 {
        let d = s.drop_last();
        assert(is_canonical(d));
        lemma_without_canonical(d, e);
        let w = without(d, e);
        if s.last() == e {
            assert(s.to_set().remove(e) =~= d.to_set().remove(e)) by {
                assert forall|x: Event| s.to_set().contains(x) && x != e implies d.to_set().contains(x) by {
                    let k = choose|k: int| 0 <= k < s.len() && s[k] == x;
                    assert(d[k] == x);
                }
                assert forall|x: Event| d.to_set().contains(x) implies s.to_set().contains(x) by {
                    let k = choose|k: int| 0 <= k < d.len() && d[k] == x;
                    assert(s[k] == x);
                }
            }
        } else {
            let r = w.push(s.last());
            assert forall|i: int, j: int| 0 <= i < j < r.len() implies rank(r[i]) < rank(r[j]) by {
                if j == r.len() - 1 {
                    assert(w.contains(w[i]));
                    let k = choose|k: int| 0 <= k < d.len() && d[k] == w[i];
                    assert(rank(s[k]) < rank(s[s.len() - 1]));
                }
            }
            assert(r.to_set() =~= s.to_set().remove(e)) by {
                assert forall|x: Event| r.to_set().contains(x) implies s.to_set().remove(e).contains(x) by {
                    let k = choose|k: int| 0 <= k < r.len() && r[k] == x;
                    if k < w.len() {
                        assert(w.contains(x));
                        assert(w.to_set().contains(x));
                        let k2 = choose|k2: int| 0 <= k2 < d.len() && d[k2] == x;
                        assert(s[k2] == x);
                    } else {
                        assert(s[s.len() - 1] == x);
                    }
                }
                assert forall|x: Event| s.to_set().remove(e).contains(x) implies r.to_set().contains(x) by {
                    let k = choose|k: int| 0 <= k < s.len() && s[k] == x;
                    if k == s.len() - 1 {
                        assert(r[r.len() - 1] == x);
                    } else {
                        assert(d[k] == x);
                        assert(d.to_set().contains(x));
                        assert(w.to_set().contains(x));
                        let k2 = choose|k2: int| 0 <= k2 < w.len() && w[k2] == x;
                        assert(r[k2] == x);
                    }
                }
            }
            assert forall|x: Event| #[trigger] r.contains(x) implies s.contains(x) by {
                let k = choose|k: int| 0 <= k < r.len() && r[k] == x;
                if k < w.len() {
                    assert(w.contains(x));
                    let k2 = choose|k2: int| 0 <= k2 < d.len() && d[k2] == x;
                    assert(s[k2] == x);
                } else {
                    assert(s[s.len() - 1] == x);
                }
            }
        }
    }
}

pub proof fn lemma_canonical_is_canonical(s: Seq<Event>)
    ensures
        is_canonical(canonical(s)),
        canonical(s).to_set() == s.to_set(),
    decreases s.len(),
{
    if s.len() > 0 {
        let d = s.drop_last();
        lemma_canonical_is_canonical(d);
        lemma_insert_sorted_canonical(canonical(d), s.last());
        assert(s.to_set() =~= d.to_set().insert(s.last())) by {
            assert forall|x: Event| s.to_set().contains(x) implies d.to_set().insert(s.last()).contains(x) by {
                let k = choose|k: int| 0 <= k < s.len() && s[k] == x;
                if k < d.len() {
                    assert(d[k] == x);
                }
            }
            assert forall|x: Event| d.to_set().contains(x) implies s.to_set().contains(x) by {
                let k = choose|k: int| 0 <= k < d.len() && d[k] == x;
                assert(s[k] == x);
            }
            assert(s[s.len() - 1] == s.last());
        }
    }
}

impl Event {
    /// The ordering key of the event.
    pub fn order_key(&self) -> (r: u32)
        ensures
            r as int == rank(*self),
    {
        match self {
            Event::Axis(a) => match a {
                Axis::BTN_DPAD_UP => 0,
                Axis::BTN_DPAD_DOWN => 1,
                Axis::BTN_DPAD_LEFT => 2,
                Axis::BTN_DPAD_RIGHT => 3,
                Axis::LSTICK_UP => 4,
                Axis::LSTICK_DOWN => 5,
                Axis::LSTICK_LEFT => 6,
                Axis::LSTICK_RIGHT => 7,
                Axis::RSTICK_UP => 8,
                Axis::RSTICK_DOWN => 9,
                Axis::RSTICK_LEFT => 10,
                Axis::RSTICK_RIGHT => 11,
                Axis::SCROLL_WHEEL_UP => 12,
                Axis::SCROLL_WHEEL_DOWN => 13,
                Axis::BTN_TL2 => 14,
                Axis::BTN_TR2 => 15,
                Axis::ABS_WHEEL_CW => 16,
                Axis::ABS_WHEEL_CCW => 17,
            },
            Event::Key(k) => 18 + *k as u32,
            Event::Hold => 65554,
        }
    }
}

/// Whether `e` occurs in `s`.
pub fn contains_event(s: &Vec<Event>, e: Event) -> (r: bool)
    ensures
        r == s@.contains(e),
{
    let mut i: usize = 0;
    while i < s.len()
        invariant
            0 <= i <= s.len(),
            forall|j: int| 0 <= j < i ==> s@[j] != e,
        decreases s.len() - i,
    {
        if s[i] == e {
            assert(s@[i as int] == e);
            return true;
        }
        i += 1;
    }
    false
}

/// Element-wise equality of two event lists.
pub fn events_equal(a: &Vec<Event>, b: &Vec<Event>) -> (r: bool)
    ensures
        r == (a@ == b@),
{
    if a.len() != b.len() {
        return false;
    }
    let mut i: usize = 0;
    while i < a.len()
        invariant
            a.len() == b.len(),
            0 <= i <= a.len(),
            forall|j: int| 0 <= j < i ==> a@[j] == b@[j],
        decreases a.len() - i,
    {
        if a[i] != b[i] {
            return false;
        }
        i += 1;
    }
    assert(a@ =~= b@);
    true
}

/// The number of leading elements of `s` ranked below `e`.
fn position_below(s: &Vec<Event>, e: Event) -> (p: usize)
    ensures
        p <= s.len(),
        forall|j: int| 0 <= j < p ==> rank(#[trigger] s@[j]) < rank(e),
        p < s.len() ==> rank(s@[p as int]) >= rank(e),
{
    let er = e.order_key();
    let mut p: usize = 0;
    while p < s.len()
        invariant
            er as int == rank(e),
            0 <= p <= s.len(),
            forall|j: int| 0 <= j < p ==> rank(#[trigger] s@[j]) < rank(e),
        decreases s.len() - p,
    {
        if s[p].order_key() >= er {
            return p;
        }
        p += 1;
    }
    p
}

/// Adds `e` to a canonical modifier list, keeping it canonical.
pub fn insert_modifier(s: &mut Vec<Event>, e: Event)
    requires
        is_canonical(old(s)@),
    ensures
        final(s)@ == insert_sorted(old(s)@, e),
        is_canonical(final(s)@),
{
    proof {
        lemma_insert_sorted_canonical(s@, e);
    }
    if contains_event(s, e) {
        return;
    }
    let p = position_below(s, e);
    proof {
        lemma_count_below_splits(s@, e);
        let c = count_below(s@, e) as int;
        if c < p {
            assert(rank(s@[c]) >= rank(e));
        }
        if p < c {
            assert(rank(s@[p as int]) < rank(e));
        }
    }
    s.insert(p, e);
}

/// Removes `e` from a modifier list.
pub fn remove_modifier(s: &mut Vec<Event>, e: Event)
    ensures
        final(s)@ == without(old(s)@, e),
{
    let mut r: Vec<Event> = Vec::new();
    let mut i: usize = 0;
    while i < s.len()
        invariant
            0 <= i <= s.len(),
            r@ == without(s@.take(i as int), e),
        decreases s.len() - i,
    {
        assert(s@.take(i as int + 1).drop_last() =~= s@.take(i as int));
        if s[i] != e {
            r.push(s[i]);
        }
        i += 1;
    }
    assert(s@.take(s.len() as int) =~= s@);
    *s = r;
}

/// The canonical form of `v`.
pub fn canonicalize(v: &Vec<Event>) -> (r: Vec<Event>)
    ensures
        r@ == canonical(v@),
        is_canonical(r@),
{
    let mut r: Vec<Event> = Vec::new();
    let mut i: usize = 0;
    while i < v.len()
        invariant
            0 <= i <= v.len(),
            r@ == canonical(v@.take(i as int)),
            is_canonical(r@),
        decreases v.len() - i,
    {
        assert(v@.take(i as int + 1).drop_last() =~= v@.take(i as int));
        insert_modifier(&mut r, v[i]);
        i += 1;
    }
    assert(v@.take(v.len() as int) =~= v@);
    r
}

} // verus!
