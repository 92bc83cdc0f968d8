//! The profiles of one device and the choice among them by window and layout.

use crate::config::{default_associations, Associations, Client, Config};
use crate::text::{chars_of, parse_unsigned, str_eq, unsigned_value, views};
use vstd::prelude::*;
use vstd::string::*;

verus! {

/// Index of the first profile whose associations are `a`.
pub open spec fn first_with(s: Seq<Config>, a: (Option<Seq<char>>, u16)) -> Option<int>
    decreases s.len(),
{
    if s.len() == 0 {
        None
    } else {
        match first_with(s.drop_last(), a) {
            Some(i) => Some(i),
            None => if s.last().associations@ == a {
                Some(s.len() - 1)
            } else {
                None
            },
        }
    }
}

pub proof fn lemma_first_with(s: Seq<Config>, a: (Option<Seq<char>>, u16))
    ensures
        match first_with(s, a) {
            Some(i) => 0 <= i < s.len() && s[i].associations@ == a && forall|j: int| 0 <= j < i ==> s[j].associations@ != a,
            None => forall|j: int| 0 <= j < s.len() ==> s[j].associations@ != a,
        },
    decreases s.len(),
{
    if s.len() > 0 {
        lemma_first_with(s.drop_last(), a);
        assert(forall|j: int| 0 <= j < s.len() - 1 ==> #[trigger] s[j] == s.drop_last()[j]);
    }
}

/// The layout after `l`, wrapping from 3 to 0.
pub open spec fn next_layout(l: u16) -> u16 {
    if l >= 3 {
        0
    } else {
        (l + 1) as u16
    }
}

/// The profiles of one physical device.
#[derive(Debug, Clone)]
pub struct ProfileSet {
    pub profiles: Vec<Config>,
}

impl ProfileSet {
    /// Holds a fallback profile for any window and layout 0.
    pub open spec fn wf(&self) -> bool {
        first_with(self.profiles@, default_associations()) is Some
    }

    pub open spec fn default_index(&self) -> int {
        first_with(self.profiles@, default_associations()).unwrap()
    }

    /// Whether some profile is associated with `a`.
    pub open spec fn has(&self, a: (Option<Seq<char>>, u16)) -> bool {
        first_with(self.profiles@, a) is Some
    }

    /// The profile for window `w` and layout `l`, or the fallback profile.
    pub open spec fn select_spec(&self, w: Option<Seq<char>>, l: u16) -> int {
        match first_with(self.profiles@, (w, l)) {
            Some(i) => i,
            None => self.default_index(),
        }
    }

    /// The window as the profiles know it: a class that no profile is
    /// associated with counts as any window.
    pub open spec fn known_spec(&self, w: Option<Seq<char>>) -> Option<Seq<char>> {
        if exists|i: int| 0 <= i < self.profiles@.len() && self.profiles@[i].associations.client@ == w {
            w
        } else {
            None
        }
    }

    /// The layout reached by stepping from `l` until a profile for `w`
    /// matches, trying at most `tries` layouts.
    pub open spec fn rotate_spec(&self, w: Option<Seq<char>>, l: u16, tries: nat) -> u16
        decreases tries,
    {
        let n = next_layout(l);
        if tries <= 1 || self.has((w, n)) {
            n
        } else {
            self.rotate_spec(w, n, (tries - 1) as nat)
        }
    }

    /// Index of the first profile whose associations are `a`.
    pub fn find(&self, a: &crate::config::Associations) -> (r: Option<usize>)
        ensures
            r matches Some(i) ==> first_with(self.profiles@, a@) == Some(i as int),
            r is None ==> first_with(self.profiles@, a@) is None,
    {
        proof {
            lemma_first_with(self.profiles@, a@);
        }
        let mut i: usize = 0;
        while i < self.profiles.len()
            invariant
                0 <= i <= self.profiles.len(),
                forall|j: int| 0 <= j < i ==> self.profiles@[j].associations@ != a@,
                match first_with(self.profiles@, a@) {
                    Some(k) => 0 <= k < self.profiles@.len() && self.profiles@[k].associations@ == a@ && forall|j: int| 0 <= j < k ==> self.profiles@[j].associations@ != a@,
                    None => forall|j: int| 0 <= j < self.profiles@.len() ==> self.profiles@[j].associations@ != a@,
                },
            decreases self.profiles.len() - i,
        {
            if self.profiles[i].associations.same(a) {
                return Some(i);
            }
            i += 1;
        }
        None
    }

    /// The profile for window `w` and layout `layout`, or the fallback profile.
    pub fn select(&self, w: &Client, layout: u16) -> (r: usize)
        requires
            self.wf(),
        ensures
            r as int == self.select_spec(w@, layout),
            r < self.profiles.len(),
    {
        proof {
            lemma_first_with(self.profiles@, default_associations());
            lemma_first_with(self.profiles@, (w@, layout));
        }
        let a = crate::config::Associations { client: w.duplicate(), layout };
        match self.find(&a) {
            Some(i) => i,
            None => {
                let d = crate::config::Associations::default();
                match self.find(&d) {
                    Some(i) => i,
                    None => 0,
                }
            },
        }
    }

    /// The window as the profiles know it: `Default` unless some profile is
    /// associated with its class.
    pub fn known_client(&self, w: &Client) -> (r: Client)
        ensures
            r@ == self.known_spec(w@),
    {
        let mut i: usize = 0;
        while i < self.profiles.len()
            invariant
                0 <= i <= self.profiles.len(),
                forall|j: int| 0 <= j < i ==> self.profiles@[j].associations.client@ != w@,
            decreases self.profiles.len() - i,
        {
            if self.profiles[i].associations.client.same(w) {
                return w.duplicate();
            }
            i += 1;
        }
        Client::Default
    }

    /// Steps the layout until a profile for `w` matches, trying each of the
    /// four layouts at most once.
    pub fn rotate(&self, w: &Client, layout: u16) -> (r: u16)
        ensures
            r == self.rotate_spec(w@, layout, 4),
            r <= 3,
    {
        let mut l = layout;
        let mut tries: u16 = 4;
        loop
            invariant
                1 <= tries <= 4,
                self.rotate_spec(w@, l, tries as nat) == self.rotate_spec(w@, layout, 4),
            decreases tries,
        {
            l = if l >= 3 { 0 } else { l + 1 };
            let a = crate::config::Associations { client: w.duplicate(), layout: l };
            if tries <= 1 || self.find(&a).is_some() {
                return l;
            }
            tries -= 1;
        }
    }
}

/// Fields of a profile name, separated by `::` (as `str::split` cuts them,
/// left to right).
pub open spec fn name_fields(s: Seq<char>) -> Seq<Seq<char>>
    decreases s.len(),
{
    if s.len() < 2 {
        seq![s]
    } else if s[0] == ':' && s[1] == ':' {
        seq![Seq::<char>::empty()] + name_fields(s.skip(2))
    } else {
        let rest = name_fields(s.skip(1));
        rest.update(0, seq![s[0]] + rest[0])
    }
}

pub proof fn lemma_name_fields_nonempty(s: Seq<char>)
    ensures
        name_fields(s).len() >= 1,
    decreases s.len(),
{
    if s.len() >= 2 {
        if s[0] == ':' && s[1] == ':' {
            lemma_name_fields_nonempty(s.skip(2));
        } else {
            lemma_name_fields_nonempty(s.skip(1));
        }
    }
}

/// `p` put in front of the first field.
pub open spec fn prefixed(p: Seq<char>, f: Seq<Seq<char>>) -> Seq<Seq<char>> {
    f.update(0, p + f[0])
}

/// Cuts a profile name at each `::`.
pub fn split_name(name: &str) -> (r: Vec<String>)
    ensures
        views(r@) == name_fields(name@),
        r@.len() >= 1,
{
    let cs = chars_of(name);
    let ghost s = name@;
    let n = cs.len();
    let mut r: Vec<String> = Vec::new();
    let mut start: usize = 0;
    let mut i: usize = 0;
    proof {
        lemma_name_fields_nonempty(s);
        assert(s.skip(0) =~= s);
        assert(prefixed(Seq::<char>::empty(), name_fields(s)) =~= name_fields(s));
        assert(views(r@) =~= Seq::<Seq<char>>::empty());
    }
    while n - i >= 2
        invariant
            s == name@,
            cs@ == s,
            n == s.len(),
            0 <= start <= i <= n,
            views(r@) + prefixed(s.subrange(start as int, i as int), name_fields(s.skip(i as int))) == name_fields(s),
        decreases n - i,
    {
        proof {
            lemma_name_fields_nonempty(s.skip(i as int));
        }
        let ghost tail = s.skip(i as int);
        assert(tail[0] == s[i as int] && tail[1] == s[i as int + 1]);
        if cs[i] == ':' && cs[i + 1] == ':' {
            let piece = name.substring_char(start, i);
            let ghost before = r@;
            r.push(String::from_str(piece));
            assert(tail.skip(2) =~= s.skip(i as int + 2));
            proof {
                lemma_name_fields_nonempty(s.skip(i as int + 2));
            }
            assert(views(r@) =~= views(before).push(piece@));
            assert(name_fields(tail) == seq![Seq::<char>::empty()] + name_fields(tail.skip(2)));
            assert(prefixed(s.subrange(start as int, i as int), name_fields(tail)) =~= seq![s.subrange(start as int, i as int)] + name_fields(s.skip(i as int + 2)));
            assert(views(r@) + name_fields(s.skip(i as int + 2)) =~= views(before) + (seq![s.subrange(start as int, i as int)] + name_fields(s.skip(i as int + 2))));
            assert(prefixed(s.subrange(i as int + 2, i as int + 2), name_fields(s.skip(i as int + 2))) =~= name_fields(s.skip(i as int + 2)));
            assert(views(r@) + prefixed(s.subrange(i as int + 2, i as int + 2), name_fields(s.skip(i as int + 2))) =~= views(before) + prefixed(s.subrange(start as int, i as int), name_fields(tail)));
            i += 2;
            start = i;
        } else {
            assert(tail.skip(1) =~= s.skip(i as int + 1));
            proof {
                lemma_name_fields_nonempty(s.skip(i as int + 1));
            }
            let ghost rest = name_fields(s.skip(i as int + 1));
            assert(name_fields(tail) == prefixed(seq![tail[0]], name_fields(tail.skip(1))));
            assert(s.subrange(start as int, i as int + 1) =~= s.subrange(start as int, i as int) + seq![s[i as int]]);
            assert((s.subrange(start as int, i as int) + seq![s[i as int]]) + rest[0] =~= s.subrange(start as int, i as int) + (seq![s[i as int]] + rest[0]));
            assert(prefixed(s.subrange(start as int, i as int + 1), rest) =~= prefixed(s.subrange(start as int, i as int), prefixed(seq![s[i as int]], rest)));
            i += 1;
        }
    }
    let piece = name.substring_char(start, n);
    let ghost before = r@;
    r.push(String::from_str(piece));
    proof {
        let tail = s.skip(i as int);
        assert(tail.len() < 2);
        assert(name_fields(tail) == seq![tail]);
        assert(s.subrange(start as int, i as int) + tail =~= s.subrange(start as int, n as int));
        assert(views(r@) =~= views(before).push(piece@));
        assert(prefixed(s.subrange(start as int, i as int), name_fields(tail)) =~= seq![piece@]);
        assert(views(r@) =~= views(before) + seq![piece@]);
    }
    r
}

/// The layout a name field gives, if it is a `u16` number.
pub open spec fn layout_field(f: Seq<char>) -> Option<u16> {
    match unsigned_value(f) {
        Some(v) => if v <= 65535 { Some(v as u16) } else { None },
        None => None,
    }
}

/// The associations a profile name gives: after the device name, a number
/// is a layout and anything else a window class; two extra fields need one
/// number between them; anything else is the fallback.
pub open spec fn associations_of(f: Seq<Seq<char>>) -> (Option<Seq<char>>, u16) {
    if f.len() == 2 {
        match layout_field(f[1]) {
            Some(l) => (None, l),
            None => (Some(f[1]), 0),
        }
    } else if f.len() == 3 {
        match layout_field(f[1]) {
            Some(l) => (Some(f[2]), l),
            None => match layout_field(f[2]) {
                Some(l) => (Some(f[1]), l),
                None => (None, 0),
            },
        }
    } else {
        (None, 0)
    }
}

/// The device name and associations that a profile name gives.
pub fn parse_profile_name(name: &str) -> (r: (String, Associations))
    ensures
        r.0@ == name_fields(name@)[0],
        r.1@ == associations_of(name_fields(name@)),
{
    let f = split_name(name);
    assert(views(f@)[0] == f@[0]@);
    let device = String::from_str(f[0].as_str());
    let a = if f.len() == 2 {
        assert(views(f@)[1] == f@[1]@);
        match parse_unsigned(f[1].as_str(), 65535) {
            Some(l) => Associations { client: Client::Default, layout: l as u16 },
            None => Associations { client: Client::Class(String::from_str(f[1].as_str())), layout: 0 },
        }
    } else if f.len() == 3 {
        assert(views(f@)[1] == f@[1]@);
        assert(views(f@)[2] == f@[2]@);
        match parse_unsigned(f[1].as_str(), 65535) {
            Some(l) => Associations { client: Client::Class(String::from_str(f[2].as_str())), layout: l as u16 },
            None => match parse_unsigned(f[2].as_str(), 65535) {
                Some(l) => Associations { client: Client::Class(String::from_str(f[1].as_str())), layout: l as u16 },
                None => Associations::default(),
            },
        }
    } else {
        Associations::default()
    };
    (device, a)
}

/// `s` without any `c`.
pub open spec fn without_char(s: Seq<char>, c: char) -> Seq<char>
    decreases s.len(),
{
    if s.len() == 0 {
        s
    } else if s.last() == c {
        without_char(s.drop_last(), c)
    } else {
        without_char(s.drop_last(), c).push(s.last())
    }
}

/// The device name with every `/` removed.
fn strip_slashes(s: &str) -> (r: String)
    ensures
        r@ == without_char(s@, '/'),
{
    let cs = chars_of(s);
    let mut r = String::new();
    let mut i: usize = 0;
    while i < cs.len()
        invariant
            cs@ == s@,
            0 <= i <= cs.len(),
            r@ == without_char(s@.take(i as int), '/'),
        decreases cs.len() - i,
    {
        assert(s@.take(i as int + 1).drop_last() =~= s@.take(i as int));
        assert(s@.take(i as int + 1).last() == s@[i as int]);
        if cs[i] != '/' {
            let piece = s.substring_char(i, i + 1);
            assert(piece@ =~= seq![s@[i as int]]);
            r.append(piece);
            assert(r@ =~= without_char(s@.take(i as int), '/').push(s@[i as int]));
        }
        i += 1;
    }
    assert(s@.take(cs.len() as int) =~= s@);
    r
}

/// The profiles whose name starts with device name `device`, in order.
pub open spec fn matching(configs: Seq<Config>, device: Seq<char>) -> Seq<Config>
    decreases configs.len(),
{
    if configs.len() == 0 {
        Seq::empty()
    } else {
        let r = matching(configs.drop_last(), device);
        if name_fields(configs.last().name@)[0] == device {
            r.push(configs.last())
        } else {
            r
        }
    }
}

/// `p` is `c` placed in a profile set: the same profile, with the
/// associations its name gives.
pub open spec fn placed(p: Config, c: Config) -> bool {
    &&& p.name == c.name
    &&& p.bindings == c.bindings
    &&& p.settings == c.settings
    &&& p.mapped_modifiers == c.mapped_modifiers
    &&& p.associations@ == associations_of(name_fields(c.name@))
}

impl ProfileSet {
    /// The profiles of the device named `device_name` (its `/` removed):
    /// those whose name starts with it, each with the associations its name
    /// gives, and an empty fallback profile when none of them is one. `None`
    /// when no profile names the device.
    pub fn for_device(device_name: &str, configs: Vec<Config>) -> (r: Option<ProfileSet>)
        ensures
            ({
                let m = matching(configs@, without_char(device_name@, '/'));
                &&& (r is None <==> m.len() == 0)
                &&& r matches Some(set) ==> {
                    let p = set.profiles@;
                    &&& set.wf()
                    &&& p.len() >= m.len()
                    &&& forall|j: int| 0 <= j < m.len() ==> placed(#[trigger] p[j], m[j])
                    &&& (p.len() == m.len() + 1 <==> first_with(p.take(m.len() as int), default_associations()) is None)
                    &&& (p.len() == m.len() + 1 ==> {
                        &&& p.last().name@ == without_char(device_name@, '/')
                        &&& p.last().bindings.remap@.len() == 0
                        &&& p.last().bindings.commands@.len() == 0
                        &&& p.last().settings@.len() == 0
                    })
                    &&& p.len() <= m.len() + 1
                }
            }),
    {
        let dev = strip_slashes(device_name);
        let ghost all = configs@;
        let total = configs.len();
        let mut rest = configs;
        let mut out: Vec<Config> = Vec::new();
        let mut i: usize = 0;
        assert(all.take(0) =~= Seq::<Config>::empty());
        assert(rest@ =~= all.skip(0));
        while rest.len() > 0
            invariant
                all.len() == total,
                total == i + rest.len(),
                rest@ == all.skip(i as int),
                out@.len() == matching(all.take(i as int), dev@).len(),
                forall|j: int| 0 <= j < out@.len() ==> placed(#[trigger] out@[j], matching(all.take(i as int), dev@)[j]),
            decreases rest.len(),
        {
            let mut c = rest.remove(0);
            assert(all.take(i as int + 1).drop_last() =~= all.take(i as int));
            assert(all.take(i as int + 1).last() == all[i as int]);
            let ghost c0 = c;
            let ghost before = out@;
            let ghost m0 = matching(all.take(i as int), dev@);
            let (device, a) = parse_profile_name(c.name.as_str());
            if str_eq(device.as_str(), dev.as_str()) {
                c.associations = a;
                out.push(c);
                assert forall|j: int| 0 <= j < out@.len() implies placed(#[trigger] out@[j], matching(all.take(i as int + 1), dev@)[j]) by {
                    if j < before.len() {
                        assert(out@[j] == before[j]);
                    }
                }
            }
            i += 1;
            assert(rest@ =~= all.skip(i as int));
        }
        assert(all.take(i as int) =~= all);
        let ghost m = matching(all, dev@);
        if out.len() == 0 {
            return None;
        }
        let d = Associations::default();
        let ghost taken = out@;
        proof {
            lemma_first_with(out@, default_associations());
            assert(out@.take(out@.len() as int) =~= out@);
        }
        if ProfileSet::has_default(&out, &d) {
            let set = ProfileSet { profiles: out };
            proof {
                assert(set.profiles@.take(m.len() as int) =~= set.profiles@);
            }
            Some(set)
        } else {
            out.push(Config::new_empty(dev));
            let set = ProfileSet { profiles: out };
            proof {
                let p = set.profiles@;
                assert(p.take(m.len() as int) =~= taken);
                assert(p.drop_last() =~= taken);
                assert forall|j: int| 0 <= j < m.len() implies placed(#[trigger] p[j], m[j]) by {
                    assert(p[j] == taken[j]);
                }
            }
            Some(set)
        }
    }

    /// Whether some profile of `v` has associations `d`.
    fn has_default(v: &Vec<Config>, d: &Associations) -> (r: bool)
        ensures
            r == (first_with(v@, d@) is Some),
    {
        let mut i: usize = 0;
        proof {
            lemma_first_with(v@, d@);
        }
        while i < v.len()
            invariant
                0 <= i <= v.len(),
                forall|j: int| 0 <= j < i ==> v@[j].associations@ != d@,
                first_with(v@, d@) is None <==> forall|j: int| 0 <= j < v@.len() ==> v@[j].associations@ != d@,
            decreases v.len() - i,
        {
            if v[i].associations.same(d) {
                return true;
            }
            i += 1;
        }
        false
    }
}

} // verus!
