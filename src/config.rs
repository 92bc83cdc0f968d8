//! Profile data model: bindings, mapped modifiers and settings, and the
//! parser that turns a raw profile document into them.

use crate::event::{
    canonical, canonicalize, contains_event, is_canonical, lemma_canonical_is_canonical, Axis,
    Event,
};
use crate::keycode::{key_code_of, key_from_name};
use crate::text::{lemma_split_on_nonempty, split_on, split_text, str_eq, views};
use vstd::prelude::*;
use vstd::string::*;

verus! {

/// The axis input spelled by `s`, if any.
pub open spec fn axis_named(s: Seq<char>) -> Option<Axis> {
    if s == "BTN_DPAD_UP"@ {
        Some(Axis::BTN_DPAD_UP)
    } else if s == "BTN_DPAD_DOWN"@ {
        Some(Axis::BTN_DPAD_DOWN)
    } else if s == "BTN_DPAD_LEFT"@ {
        Some(Axis::BTN_DPAD_LEFT)
    } else if s == "BTN_DPAD_RIGHT"@ {
        Some(Axis::BTN_DPAD_RIGHT)
    } else if s == "LSTICK_UP"@ {
        Some(Axis::LSTICK_UP)
    } else if s == "LSTICK_DOWN"@ {
        Some(Axis::LSTICK_DOWN)
    } else if s == "LSTICK_LEFT"@ {
        Some(Axis::LSTICK_LEFT)
    } else if s == "LSTICK_RIGHT"@ {
        Some(Axis::LSTICK_RIGHT)
    } else if s == "RSTICK_UP"@ {
        Some(Axis::RSTICK_UP)
    } else if s == "RSTICK_DOWN"@ {
        Some(Axis::RSTICK_DOWN)
    } else if s == "RSTICK_LEFT"@ {
        Some(Axis::RSTICK_LEFT)
    } else if s == "RSTICK_RIGHT"@ {
        Some(Axis::RSTICK_RIGHT)
    } else if s == "SCROLL_WHEEL_UP"@ {
        Some(Axis::SCROLL_WHEEL_UP)
    } else if s == "SCROLL_WHEEL_DOWN"@ {
        Some(Axis::SCROLL_WHEEL_DOWN)
    } else if s == "BTN_TL2"@ {
        Some(Axis::BTN_TL2)
    } else if s == "BTN_TR2"@ {
        Some(Axis::BTN_TR2)
    } else if s == "ABS_WHEEL_CW"@ {
        Some(Axis::ABS_WHEEL_CW)
    } else if s == "ABS_WHEEL_CCW"@ {
        Some(Axis::ABS_WHEEL_CCW)
    } else {
        None
    }
}

impl Axis {
    /// The axis input named `s`; the name itself is the error otherwise.
    pub fn from_str(s: &str) -> (r: Result<Axis, String>)
        ensures
            match axis_named(s@) {
                Some(a) => r == Ok::<Axis, String>(a),
                None => r is Err && r->Err_0@ == s@,
            },
    {
        if str_eq(s, "BTN_DPAD_UP") {
            Ok(Axis::BTN_DPAD_UP)
        } else if str_eq(s, "BTN_DPAD_DOWN") {
            Ok(Axis::BTN_DPAD_DOWN)
        } else if str_eq(s, "BTN_DPAD_LEFT") {
            Ok(Axis::BTN_DPAD_LEFT)
        } else if str_eq(s, "BTN_DPAD_RIGHT") {
            Ok(Axis::BTN_DPAD_RIGHT)
        } else if str_eq(s, "LSTICK_UP") {
            Ok(Axis::LSTICK_UP)
        } else if str_eq(s, "LSTICK_DOWN") {
            Ok(Axis::LSTICK_DOWN)
        } else if str_eq(s, "LSTICK_LEFT") {
            Ok(Axis::LSTICK_LEFT)
        } else if str_eq(s, "LSTICK_RIGHT") {
            Ok(Axis::LSTICK_RIGHT)
        } else if str_eq(s, "RSTICK_UP") {
            Ok(Axis::RSTICK_UP)
        } else if str_eq(s, "RSTICK_DOWN") {
            Ok(Axis::RSTICK_DOWN)
        } else if str_eq(s, "RSTICK_LEFT") {
            Ok(Axis::RSTICK_LEFT)
        } else if str_eq(s, "RSTICK_RIGHT") {
            Ok(Axis::RSTICK_RIGHT)
        } else if str_eq(s, "SCROLL_WHEEL_UP") {
            Ok(Axis::SCROLL_WHEEL_UP)
        } else if str_eq(s, "SCROLL_WHEEL_DOWN") {
            Ok(Axis::SCROLL_WHEEL_DOWN)
        } else if str_eq(s, "BTN_TL2") {
            Ok(Axis::BTN_TL2)
        } else if str_eq(s, "BTN_TR2") {
            Ok(Axis::BTN_TR2)
        } else if str_eq(s, "ABS_WHEEL_CW") {
            Ok(Axis::ABS_WHEEL_CW)
        } else if str_eq(s, "ABS_WHEEL_CCW") {
            Ok(Axis::ABS_WHEEL_CCW)
        } else {
            Err(String::from_str(s))
        }
    }
}

/// The window an association or a query refers to.
#[derive(Debug, Clone)]
pub enum Client {
    Default,
    Class(String),
}

impl View for Client {
    type V = Option<Seq<char>>;

    open spec fn view(&self) -> Option<Seq<char>> {
        match self {
            Client::Default => None,
            Client::Class(c) => Some(c@),
        }
    }
}

impl Client {
    /// Whether both name the same window class (or both are `Default`).
    pub fn same(&self, other: &Client) -> (r: bool)
        ensures
            r == (self@ == other@),
    {
        match (self, other) {
            (Client::Default, Client::Default) => true,
            (Client::Class(a), Client::Class(b)) => str_eq(a.as_str(), b.as_str()),
            _ => false,
        }
    }

    /// A copy holding the same class name.
    pub fn duplicate(&self) -> (r: Client)
        ensures
            r@ == self@,
    {
        match self {
            Client::Default => Client::Default,
            Client::Class(c) => Client::Class(String::from_str(c.as_str())),
        }
    }
}

impl PartialEq for Client {
    fn eq(&self, other: &Client) -> (r: bool) {
        self.same(other)
    }
}

impl vstd::std_specs::cmp::PartialEqSpecImpl for Client {
    open spec fn obeys_eq_spec() -> bool {
        true
    }

    open spec fn eq_spec(&self, other: &Client) -> bool {
        self@ == other@
    }
}

impl Default for Client {
    fn default() -> (r: Client)
        ensures
            r@ == None::<Seq<char>>,
    {
        Client::Default
    }
}

/// The window class and layout a profile applies to.
#[derive(Debug, Clone)]
pub struct Associations {
    pub client: Client,
    pub layout: u16,
}

impl View for Associations {
    type V = (Option<Seq<char>>, u16);

    open spec fn view(&self) -> (Option<Seq<char>>, u16) {
        (self.client@, self.layout)
    }
}

/// The associations of the fallback profile: any window, layout 0.
pub open spec fn default_associations() -> (Option<Seq<char>>, u16) {
    (None, 0)
}

impl Associations {
    pub fn same(&self, other: &Associations) -> (r: bool)
        ensures
            r == (self@ == other@),
    {
        self.layout == other.layout && self.client.same(&other.client)
    }

    pub fn is_default(&self) -> (r: bool)
        ensures
            r == (self@ == default_associations()),
    {
        self.layout == 0 && match self.client {
            Client::Default => true,
            Client::Class(_) => false,
        }
    }
}

impl PartialEq for Associations {
    fn eq(&self, other: &Associations) -> (r: bool) {
        self.same(other)
    }
}

impl vstd::std_specs::cmp::PartialEqSpecImpl for Associations {
    open spec fn obeys_eq_spec() -> bool {
        true
    }

    open spec fn eq_spec(&self, other: &Associations) -> bool {
        self@ == other@
    }
}

impl Default for Associations {
    fn default() -> (r: Associations)
        ensures
            r@ == default_associations(),
    {
        Associations { client: Client::Default, layout: 0 }
    }
}

/// One binding: an input under a modifier combination, and what it maps to
/// (key codes for a remap, shell commands for a command binding).
#[derive(Debug, Clone)]
pub struct Binding<T> {
    pub input: Event,
    pub modifiers: Vec<Event>,
    pub output: Vec<T>,
}

/// What a binding says, as plain values.
pub open spec fn binding_view<T>(b: Binding<T>) -> (Event, Seq<Event>, Seq<T>) {
    (b.input, b.modifiers@, b.output@)
}

pub open spec fn bindings_view<T>(s: Seq<Binding<T>>) -> Seq<(Event, Seq<Event>, Seq<T>)> {
    s.map_values(|b: Binding<T>| binding_view(b))
}

/// The output bound to `input` under `mods`: a later binding for the same
/// pair replaces an earlier one.
pub open spec fn lookup<T>(s: Seq<(Event, Seq<Event>, Seq<T>)>, input: Event, mods: Seq<Event>) -> Option<Seq<T>>
    decreases s.len(),
{
    if s.len() == 0 {
        None
    } else if s.last().0 == input && s.last().1 == mods {
        Some(s.last().2)
    } else {
        lookup(s.drop_last(), input, mods)
    }
}

/// Whether the binding at `i` is not replaced by a later one.
pub open spec fn is_live<T>(s: Seq<(Event, Seq<Event>, Seq<T>)>, i: int) -> bool {
    forall|j: int| i < j < s.len() ==> !(s[j].0 == s[i].0 && s[j].1 == s[i].1)
}

/// The bindings of a profile.
#[derive(Debug, Clone)]
pub struct Bindings {
    pub remap: Vec<Binding<u16>>,
    pub commands: Vec<Binding<String>>,
}

/// Which keys act as modifiers: the standard ones, the custom ones, and both.
#[derive(Debug, Clone)]
pub struct MappedModifiers {
    pub default: Vec<Event>,
    pub custom: Vec<Event>,
    pub all: Vec<Event>,
}

/// A profile document as read: remaps from an input (or chord) to key codes,
/// commands from an input (or chord) to shell commands, and settings.
#[derive(Debug, Clone)]
pub struct RawConfig {
    pub remap: Vec<(String, Vec<u16>)>,
    pub commands: Vec<(String, Vec<String>)>,
    pub settings: Vec<(String, String)>,
}

/// A profile: a device name (with optional window class and layout), its
/// associations, bindings, settings and mapped modifiers.
#[derive(Debug, Clone)]
pub struct Config {
    pub name: String,
    pub associations: Associations,
    pub bindings: Bindings,
    pub settings: Vec<(String, String)>,
    pub mapped_modifiers: MappedModifiers,
}

/// The value of setting `name`; a later entry replaces an earlier one.
pub open spec fn setting_of(pairs: Seq<(String, String)>, name: Seq<char>) -> Option<Seq<char>>
    decreases pairs.len(),
{
    if pairs.len() == 0 {
        None
    } else if pairs.last().0@ == name {
        Some(pairs.last().1@)
    } else {
        setting_of(pairs.drop_last(), name)
    }
}

/// Looks up setting `name`.
pub fn setting<'a>(pairs: &'a Vec<(String, String)>, name: &str) -> (r: Option<&'a String>)
    ensures
        match r {
            Some(v) => setting_of(pairs@, name@) == Some(v@),
            None => setting_of(pairs@, name@) is None,
        },
{
    let mut i: usize = pairs.len();
    assert(pairs@.take(i as int) =~= pairs@);
    while i > 0
        invariant
            0 <= i <= pairs.len(),
            setting_of(pairs@, name@) == setting_of(pairs@.take(i as int), name@),
        decreases i,
    {
        i -= 1;
        assert(pairs@.take(i as int + 1).drop_last() =~= pairs@.take(i as int));
        assert(pairs@.take(i as int + 1).last() == pairs@[i as int]);
        if str_eq(pairs[i].0.as_str(), name) {
            return Some(&pairs[i].1);
        }
    }
    None
}

/// A token read as an axis input first, else as a key name.
pub open spec fn token_axis_first(t: Seq<char>) -> Option<Event> {
    match axis_named(t) {
        Some(a) => Some(Event::Axis(a)),
        None => match key_code_of(t) {
            Some(k) => Some(Event::Key(k)),
            None => None,
        },
    }
}

/// A token read as a key name first, else as an axis input.
pub open spec fn token_key_first(t: Seq<char>) -> Option<Event> {
    match key_code_of(t) {
        Some(k) => Some(Event::Key(k)),
        None => match axis_named(t) {
            Some(a) => Some(Event::Axis(a)),
            None => None,
        },
    }
}

/// The events named by `ts`, in order, skipping names that mean nothing.
pub open spec fn parse_tokens(ts: Seq<Seq<char>>, key_first: bool) -> Seq<Event>
    decreases ts.len(),
{
    if ts.len() == 0 {
        Seq::empty()
    } else {
        let r = parse_tokens(ts.drop_last(), key_first);
        match if key_first { token_key_first(ts.last()) } else { token_axis_first(ts.last()) } {
            Some(e) => r.push(e),
            None => r,
        }
    }
}

fn parse_token(t: &str, key_first: bool) -> (r: Option<Event>)
    ensures
        r == if key_first { token_key_first(t@) } else { token_axis_first(t@) },
{
    if key_first {
        match key_from_name(t) {
            Some(k) => Some(Event::Key(k)),
            None => match Axis::from_str(t) {
                Ok(a) => Some(Event::Axis(a)),
                Err(_) => None,
            },
        }
    } else {
        match Axis::from_str(t) {
            Ok(a) => Some(Event::Axis(a)),
            Err(_) => match key_from_name(t) {
                Some(k) => Some(Event::Key(k)),
                None => None,
            },
        }
    }
}

/// The events named by the first `count` tokens.
fn parse_token_list(ts: &Vec<String>, count: usize, key_first: bool) -> (r: Vec<Event>)
    requires
        count <= ts.len(),
    ensures
        r@ == parse_tokens(views(ts@).take(count as int), key_first),
{
    let mut r: Vec<Event> = Vec::new();
    let mut i: usize = 0;
    assert(views(ts@).take(0) =~= Seq::<Seq<char>>::empty());
    while i < count
        invariant
            count <= ts.len(),
            0 <= i <= count,
            r@ == parse_tokens(views(ts@).take(i as int), key_first),
        decreases count - i,
    {
        assert(views(ts@).take(i as int + 1).drop_last() =~= views(ts@).take(i as int));
        assert(views(ts@).take(i as int + 1).last() == ts@[i as int]@);
        match parse_token(ts[i].as_str(), key_first) {
            Some(e) => r.push(e),
            None => {},
        }
        i += 1;
    }
    r
}

/// The events listed, dash-separated, in setting `parameter` (key names
/// first); names that mean nothing are skipped.
pub fn parse_modifiers(settings: &Vec<(String, String)>, parameter: &str) -> (r: Vec<Event>)
    ensures
        r@ == match setting_of(settings@, parameter@) {
            Some(v) => parse_tokens(split_on(v, '-'), true),
            None => Seq::empty(),
        },
{
    match setting(settings, parameter) {
        Some(v) => {
            let parts = split_text(v.as_str(), '-');
            let r = parse_token_list(&parts, parts.len(), true);
            assert(views(parts@).take(parts.len() as int) =~= views(parts@));
            r
        },
        None => Vec::new(),
    }
}

/// The standard modifiers: left shift, left ctrl, left alt, right shift,
/// right ctrl, right alt and left meta.
pub open spec fn standard_modifiers() -> Seq<Event> {
    seq![
        Event::Key(42),
        Event::Key(29),
        Event::Key(56),
        Event::Key(54),
        Event::Key(97),
        Event::Key(100),
        Event::Key(125),
    ]
}

pub fn default_modifiers() -> (r: Vec<Event>)
    ensures
        r@ == standard_modifiers(),
{
    let r = vec![
        Event::Key(42),
        Event::Key(29),
        Event::Key(56),
        Event::Key(54),
        Event::Key(97),
        Event::Key(100),
        Event::Key(125),
    ];
    assert(r@ =~= standard_modifiers());
    r
}

/// The modifiers of a chord written `MOD-...-MOD-INPUT`, in canonical order;
/// empty when the text holds no dash.
pub open spec fn chord_modifiers(text: Seq<char>) -> Seq<Event> {
    let parts = split_on(text, '-');
    if parts.len() > 1 {
        canonical(parse_tokens(parts.drop_last(), false))
    } else {
        Seq::empty()
    }
}

/// The input and modifier list a binding text stands for. A chord whose
/// first field is empty (`-INPUT`) is a chain-only binding: with `hold`,
/// its modifiers end with `Hold`.
pub open spec fn binding_key(text: Seq<char>, hold: bool) -> Option<(Event, Seq<Event>)> {
    let parts = split_on(text, '-');
    match token_axis_first(parts.last()) {
        None => None,
        Some(e) => {
            let mods = chord_modifiers(text);
            if hold && parts.len() > 1 && parts[0].len() == 0 {
                Some((e, mods.push(Event::Hold)))
            } else {
                Some((e, mods))
            }
        },
    }
}

/// The elements of `s` that are not standard modifiers.
pub open spec fn non_standard(s: Seq<Event>) -> Seq<Event>
    decreases s.len(),
{
    if s.len() == 0 {
        s
    } else if standard_modifiers().contains(s.last()) {
        non_standard(s.drop_last())
    } else {
        non_standard(s.drop_last()).push(s.last())
    }
}

/// The bindings that a list of entries gives, in order.
pub open spec fn parsed_bindings<T>(entries: Seq<(String, Vec<T>)>, hold: bool) -> Seq<(Event, Seq<Event>, Seq<T>)>
    decreases entries.len(),
{
    if entries.len() == 0 {
        Seq::empty()
    } else {
        let r = parsed_bindings(entries.drop_last(), hold);
        match binding_key(entries.last().0@, hold) {
            Some((e, m)) => r.push((e, m, entries.last().1@)),
            None => r,
        }
    }
}

/// The non-standard chord modifiers of all entries, in order.
pub open spec fn chord_customs<T>(entries: Seq<(String, Vec<T>)>) -> Seq<Event>
    decreases entries.len(),
{
    if entries.len() == 0 {
        Seq::empty()
    } else {
        chord_customs(entries.drop_last()) + non_standard(chord_modifiers(entries.last().0@))
    }
}

fn push_non_standard(acc: &mut Vec<Event>, mods: &Vec<Event>, standard: &Vec<Event>)
    requires
        standard@ == standard_modifiers(),
    ensures
        final(acc)@ == old(acc)@ + non_standard(mods@),
{
    let ghost start = acc@;
    let mut i: usize = 0;
    assert(mods@.take(0) =~= Seq::<Event>::empty());
    assert(start + non_standard(Seq::<Event>::empty()) =~= start);
    while i < mods.len()
        invariant
            standard@ == standard_modifiers(),
            0 <= i <= mods.len(),
            acc@ == start + non_standard(mods@.take(i as int)),
        decreases mods.len() - i,
    {
        assert(mods@.take(i as int + 1).drop_last() =~= mods@.take(i as int));
        if !contains_event(standard, mods[i]) {
            acc.push(mods[i]);
            assert(acc@ =~= start + non_standard(mods@.take(i as int + 1)));
        }
        i += 1;
    }
    assert(mods@.take(mods.len() as int) =~= mods@);
}

/// Reads one binding entry: the binding it gives, if its input is known,
/// and appends its non-standard chord modifiers to `customs`.
fn parse_binding<T>(text: &str, output: Vec<T>, hold: bool, customs: &mut Vec<Event>, standard: &Vec<Event>) -> (r: Option<Binding<T>>)
    requires
        standard@ == standard_modifiers(),
    ensures
        match binding_key(text@, hold) {
            Some((e, m)) => r is Some && binding_view(r->Some_0) == (e, m, output@),
            None => r is None,
        },
        final(customs)@ == old(customs)@ + non_standard(chord_modifiers(text@)),
{
    let parts = split_text(text, '-');
    proof {
        lemma_split_on_nonempty(text@, '-');
    }
    let n = parts.len();
    let mut mods: Vec<Event> = Vec::new();
    if n > 1 {
        let listed = parse_token_list(&parts, n - 1, false);
        assert(views(parts@).take(n - 1) =~= views(parts@).drop_last());
        mods = canonicalize(&listed);
    }
    push_non_standard(customs, &mods, standard);
    let last = &parts[n - 1];
    assert(views(parts@).last() == last@);
    match parse_token(last.as_str(), false) {
        None => None,
        Some(e) => {
            if hold && n > 1 && parts[0].as_str().unicode_len() == 0 {
                assert(views(parts@)[0] == parts@[0]@);
                mods.push(Event::Hold);
            }
            Some(Binding { input: e, modifiers: mods, output })
        },
    }
}

/// Reads all entries of one section, consuming them.
fn parse_section<T>(entries: Vec<(String, Vec<T>)>, hold: bool, customs: &mut Vec<Event>, standard: &Vec<Event>) -> (r: Vec<Binding<T>>)
    requires
        standard@ == standard_modifiers(),
    ensures
        bindings_view(r@) == parsed_bindings(entries@, hold),
        final(customs)@ == old(customs)@ + chord_customs(entries@),
{
    let ghost all = entries@;
    let total = entries.len();
    let ghost start = customs@;
    let mut rest = entries;
    let mut r: Vec<Binding<T>> = Vec::new();
    let mut i: usize = 0;
    assert(all.take(0) =~= Seq::<(String, Vec<T>)>::empty());
    assert(bindings_view(r@) =~= Seq::<(Event, Seq<Event>, Seq<T>)>::empty());
    assert(start + chord_customs(all.take(0)) =~= start);
    assert(rest@ =~= all.skip(0));
    while rest.len() > 0
        invariant
            standard@ == standard_modifiers(),
            all.len() == total,
            total == i + rest.len(),
            rest@ == all.skip(i as int),
            bindings_view(r@) == parsed_bindings(all.take(i as int), hold),
            customs@ == start + chord_customs(all.take(i as int)),
        decreases rest.len(),
    {
        let (text, output) = rest.remove(0);
        assert(all.take(i as int + 1).drop_last() =~= all.take(i as int));
        assert(all.take(i as int + 1).last() == all[i as int]);
        assert(all[i as int] == (text, output));
        let ghost before = bindings_view(r@);
        let ghost customs_before = customs@;
        match parse_binding(text.as_str(), output, hold, customs, standard) {
            Some(b) => {
                r.push(b);
                assert(bindings_view(r@) =~= before.push(binding_view(b)));
            },
            None => {},
        }
        assert(customs@ =~= start + chord_customs(all.take(i as int + 1)));
        i += 1;
        assert(rest@ =~= all.skip(i as int));
    }
    assert(all.take(i as int) =~= all);
    r
}

/// The custom modifiers of a profile: those listed in the settings
/// `CUSTOM_MODIFIERS`, `LSTICK_ACTIVATION_MODIFIERS` and
/// `RSTICK_ACTIVATION_MODIFIERS`, then the non-standard chord modifiers of
/// all remaps and commands, in canonical order.
pub open spec fn custom_modifiers_of(raw: RawConfig) -> Seq<Event> {
    let listed = |name: Seq<char>| match setting_of(raw.settings@, name) {
        Some(v) => parse_tokens(split_on(v, '-'), true),
        None => Seq::empty(),
    };
    canonical(
        listed("CUSTOM_MODIFIERS"@) + listed("LSTICK_ACTIVATION_MODIFIERS"@) + listed(
            "RSTICK_ACTIVATION_MODIFIERS"@,
        ) + chord_customs(raw.remap@) + chord_customs(raw.commands@),
    )
}

/// Turns a raw profile document into bindings, settings and mapped
/// modifiers.
pub fn parse_raw_config(raw: RawConfig) -> (r: (Bindings, Vec<(String, String)>, MappedModifiers))
    ensures
        bindings_view(r.0.remap@) == parsed_bindings(raw.remap@, true),
        bindings_view(r.0.commands@) == parsed_bindings(raw.commands@, false),
        r.1@ == raw.settings@,
        r.2.default@ == standard_modifiers(),
        r.2.custom@ == custom_modifiers_of(raw),
        r.2.all@ == canonical(standard_modifiers() + custom_modifiers_of(raw)),
        is_canonical(r.2.custom@),
        is_canonical(r.2.all@),
{
    let ghost raw0 = raw;
    let standard = default_modifiers();
    let mut pushed = parse_modifiers(&raw.settings, "CUSTOM_MODIFIERS");
    let l = parse_modifiers(&raw.settings, "LSTICK_ACTIVATION_MODIFIERS");
    let rr = parse_modifiers(&raw.settings, "RSTICK_ACTIVATION_MODIFIERS");
    let mut k: usize = 0;
    let ghost listed_custom = pushed@;
    while k < l.len()
        invariant
            0 <= k <= l.len(),
            pushed@ == listed_custom + l@.take(k as int),
        decreases l.len() - k,
    {
        pushed.push(l[k]);
        k += 1;
        assert(pushed@ =~= listed_custom + l@.take(k as int));
    }
    let ghost listed_left = pushed@;
    k = 0;
    while k < rr.len()
        invariant
            0 <= k <= rr.len(),
            pushed@ == listed_left + rr@.take(k as int),
        decreases rr.len() - k,
    {
        pushed.push(rr[k]);
        k += 1;
        assert(pushed@ =~= listed_left + rr@.take(k as int));
    }
    assert(l@.take(l.len() as int) =~= l@);
    assert(rr@.take(rr.len() as int) =~= rr@);
    let RawConfig { remap, commands, settings } = raw;
    let remap_bindings = parse_section(remap, true, &mut pushed, &standard);
    let command_bindings = parse_section(commands, false, &mut pushed, &standard);
    let custom = canonicalize(&pushed);
    let mut together: Vec<Event> = default_modifiers();
    k = 0;
    let ghost t0 = together@;
    while k < custom.len()
        invariant
            0 <= k <= custom.len(),
            together@ == t0 + custom@.take(k as int),
        decreases custom.len() - k,
    {
        together.push(custom[k]);
        k += 1;
        assert(together@ =~= t0 + custom@.take(k as int));
    }
    assert(custom@.take(custom.len() as int) =~= custom@);
    let all = canonicalize(&together);
    proof {
        lemma_canonical_is_canonical(pushed@);
        lemma_canonical_is_canonical(together@);
    }
    (
        Bindings { remap: remap_bindings, commands: command_bindings },
        settings,
        MappedModifiers { default: standard, custom, all },
    )
}

impl Config {
    /// A profile built from a parsed document, with default associations.
    pub fn new_from_raw(raw: RawConfig, file_name: String) -> (r: Config)
        ensures
            r.name@ == file_name@,
            r.associations@ == default_associations(),
            bindings_view(r.bindings.remap@) == parsed_bindings(raw.remap@, true),
            bindings_view(r.bindings.commands@) == parsed_bindings(raw.commands@, false),
            r.settings@ == raw.settings@,
            r.mapped_modifiers.default@ == standard_modifiers(),
            r.mapped_modifiers.custom@ == custom_modifiers_of(raw),
            r.mapped_modifiers.all@ == canonical(standard_modifiers() + custom_modifiers_of(raw)),
    {
        let (bindings, settings, mapped_modifiers) = parse_raw_config(raw);
        Config {
            name: file_name,
            associations: Associations::default(),
            bindings,
            settings,
            mapped_modifiers,
        }
    }

    /// A profile with no bindings, no settings and no mapped modifiers.
    pub fn new_empty(file_name: String) -> (r: Config)
        ensures
            r.name@ == file_name@,
            r.associations@ == default_associations(),
            r.bindings.remap@.len() == 0,
            r.bindings.commands@.len() == 0,
            r.settings@.len() == 0,
            r.mapped_modifiers.default@.len() == 0,
            r.mapped_modifiers.custom@.len() == 0,
            r.mapped_modifiers.all@.len() == 0,
    {
        Config {
            name: file_name,
            associations: Associations::default(),
            bindings: Bindings { remap: Vec::new(), commands: Vec::new() },
            settings: Vec::new(),
            mapped_modifiers: MappedModifiers { default: Vec::new(), custom: Vec::new(), all: Vec::new() },
        }
    }
}

} // verus!
