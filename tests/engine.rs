use evdev::Key;
use makima::config::parse_raw_config;
use makima::dispatch::get_axis_value;
use makima::emit::{emit_nonmapped_event, released_keys, EV_ABS, EV_KEY, EV_REL};
use makima::profile::parse_profile_name;
use makima::translator::resolve;
use makima::{
    parse_modifiers, Action, Associations, Binding, Axis, Client, Config, Event, ProfileSet, RawConfig,
    RawEvent, Resolution, Sink, StickFunction, Translator,
};

fn s(x: &str) -> String {
    x.to_string()
}

fn raw(
    remap: Vec<(&str, Vec<Key>)>,
    commands: Vec<(&str, Vec<&str>)>,
    settings: Vec<(&str, &str)>,
) -> RawConfig {
    RawConfig {
        remap: remap
            .into_iter()
            .map(|(k, v)| (s(k), v.into_iter().map(|x| x.code()).collect()))
            .collect(),
        commands: commands
            .into_iter()
            .map(|(k, v)| (s(k), v.into_iter().map(s).collect()))
            .collect(),
        settings: settings.into_iter().map(|(k, v)| (s(k), s(v))).collect(),
    }
}

fn translator(configs: Vec<Config>, max_wheel: i32) -> Translator {
    let set = ProfileSet::for_device("Pad", configs).expect("profiles for the device");
    Translator::new(set, max_wheel).expect("valid settings")
}

fn one(r: RawConfig) -> Translator {
    translator(vec![Config::new_from_raw(r, s("Pad"))], 0)
}

fn key(code: Key, value: i32) -> Action {
    Action::Emit(Sink::Keys, RawEvent { kind: EV_KEY, code: code.code(), value })
}

fn press(t: &mut Translator, k: Key, value: i32) -> Vec<Action> {
    t.handle_event(RawEvent { kind: EV_KEY, code: k.code(), value }, &Client::Default)
}

#[test]
fn tap_modifier_alone() {
    let mut t = one(raw(vec![], vec![], vec![("CUSTOM_MODIFIERS", "KEY_A")]));
    let mut out = press(&mut t, Key::KEY_A, 1);
    out.extend(press(&mut t, Key::KEY_A, 0));
    assert_eq!(out, vec![key(Key::KEY_A, 1), key(Key::KEY_A, 0)]);
    assert!(t.modifiers.is_empty());
}

#[test]
fn chord_emission() {
    let mut t = one(raw(vec![("KEY_LEFTCTRL-KEY_C", vec![Key::KEY_C])], vec![], vec![]));
    assert_eq!(press(&mut t, Key::KEY_LEFTCTRL, 1), vec![key(Key::KEY_LEFTCTRL, 1)]);
    assert_eq!(t.modifiers, vec![Event::Key(Key::KEY_LEFTCTRL.code())]);
    assert_eq!(press(&mut t, Key::KEY_C, 1), vec![key(Key::KEY_C, 1)]);
    assert_eq!(press(&mut t, Key::KEY_C, 0), vec![key(Key::KEY_C, 0)]);
    // Releasing the modifier of an unbound key releases the keys owed under it.
    assert_eq!(press(&mut t, Key::KEY_LEFTCTRL, 0), vec![key(Key::KEY_C, 0), key(Key::KEY_LEFTCTRL, 0)]);
    assert!(t.modifiers.is_empty());
}

#[test]
fn command_binding() {
    let mut t = one(raw(vec![], vec![("BTN_START", vec!["notify-send hello"])], vec![]));
    assert_eq!(press(&mut t, Key::BTN_START, 1), vec![Action::Spawn(vec![s("notify-send hello")])]);
    assert_eq!(press(&mut t, Key::BTN_START, 0), vec![]);
}

#[test]
fn layout_rotation() {
    let a = Config::new_from_raw(raw(vec![], vec![], vec![]), s("Pad"));
    let b = Config::new_from_raw(raw(vec![], vec![], vec![]), s("Pad::2"));
    let mut t = translator(vec![a, b], 0);
    assert_eq!(t.active_layout, 0);
    assert_eq!(press(&mut t, Key::BTN_0, 1), vec![]);
    assert_eq!(t.active_layout, 2);
    assert_eq!(t.profiles.profiles[t.current].name, "Pad::2");
    assert_eq!(t.profiles.profiles[t.current].associations.layout, 2);
}

#[test]
fn layout_switch_notifies() {
    let a = Config::new_from_raw(raw(vec![], vec![], vec![("NOTIFY_LAYOUT_SWITCH", "true")]), s("Pad"));
    let b = Config::new_from_raw(raw(vec![], vec![], vec![]), s("Pad::1"));
    let mut t = translator(vec![a, b], 0);
    assert_eq!(press(&mut t, Key::BTN_0, 1), vec![Action::NotifyLayout(1)]);
    assert_eq!(press(&mut t, Key::BTN_0, 1), vec![Action::NotifyLayout(0)]);
    assert_eq!(t.profiles.profiles[t.current].name, "Pad");
}

#[test]
fn stick_cursor_emission() {
    let mut t = one(raw(
        vec![],
        vec![],
        vec![("LSTICK", "cursor"), ("LSTICK_SENSITIVITY", "10"), ("LSTICK_DEADZONE", "5"), ("AXIS_16_BIT", "false")],
    ));
    let out = t.handle_event(RawEvent { kind: EV_ABS, code: 0, value: 200 }, &Client::Default);
    assert!(out.is_empty());
    assert_eq!(t.lstick_position, (8, 0));
    assert_eq!(t.loop_period(StickFunction::Cursor), 10);
    assert_eq!(
        t.cursor_tick(),
        vec![
            Action::Emit(Sink::Axis, RawEvent { kind: EV_REL, code: 0, value: 8 }),
            Action::Emit(Sink::Axis, RawEvent { kind: EV_REL, code: 1, value: 0 }),
        ]
    );
}

#[test]
fn stick_scroll_inverted() {
    let mut t = one(raw(
        vec![],
        vec![],
        vec![("RSTICK", "scroll"), ("RSTICK_SENSITIVITY", "20"), ("INVERT_SCROLL_AXIS", "true")],
    ));
    t.handle_event(RawEvent { kind: EV_ABS, code: 4, value: 0 }, &Client::Default);
    assert_eq!(t.rstick_position, (0, -11));
    assert_eq!(
        t.scroll_tick(),
        vec![
            Action::Emit(Sink::Axis, RawEvent { kind: EV_REL, code: 11, value: 0 }),
            Action::Emit(Sink::Axis, RawEvent { kind: EV_REL, code: 12, value: 11 }),
        ]
    );
    assert_eq!(t.cursor_tick(), vec![]);
}

#[test]
fn stick_waits_for_activation_modifiers() {
    let mut t = one(raw(
        vec![],
        vec![],
        vec![("LSTICK_SENSITIVITY", "5"), ("LSTICK_ACTIVATION_MODIFIERS", "KEY_LEFTALT")],
    ));
    t.handle_event(RawEvent { kind: EV_ABS, code: 1, value: 255 }, &Client::Default);
    assert_eq!(t.cursor_tick(), vec![]);
    press(&mut t, Key::KEY_LEFTALT, 1);
    assert_eq!(t.cursor_tick().len(), 2);
}

#[test]
fn disconnect_cleanup() {
    let mut t = one(raw(vec![], vec![], vec![]));
    assert_eq!(press(&mut t, Key::KEY_A, 1), vec![key(Key::KEY_A, 1)]);
    assert_eq!(t.held, vec![Key::KEY_A.code()]);
    assert_eq!(t.disconnect(), vec![key(Key::KEY_A, 0)]);
    assert!(t.held.is_empty());
    assert!(!t.device_connected);
}

#[test]
fn plain_key_press_release() {
    let mut t = one(raw(vec![], vec![], vec![]));
    assert_eq!(press(&mut t, Key::KEY_B, 1), vec![key(Key::KEY_B, 1)]);
    assert_eq!(press(&mut t, Key::KEY_B, 0), vec![key(Key::KEY_B, 0)]);
    assert!(t.modifiers.is_empty());
    assert!(t.held.is_empty());
}

#[test]
fn scroll_wheel_tick_repeats_identically() {
    let mut t = one(raw(vec![("SCROLL_WHEEL_UP", vec![Key::KEY_VOLUMEUP])], vec![], vec![]));
    let tick = RawEvent { kind: EV_REL, code: 8, value: 1 };
    let expected = vec![key(Key::KEY_VOLUMEUP, 1), key(Key::KEY_VOLUMEUP, 0)];
    for _ in 0..3 {
        assert_eq!(t.handle_event(tick, &Client::Default), expected);
    }
    assert!(t.held.is_empty());
}

#[test]
fn unmapped_wheel_passes_through() {
    let mut t = one(raw(vec![], vec![], vec![]));
    let tick = RawEvent { kind: EV_REL, code: 11, value: -1 };
    assert_eq!(t.handle_event(tick, &Client::Default), vec![Action::Emit(Sink::Axis, tick)]);
}

#[test]
fn dpad_round_trip_centers() {
    let mut t = one(raw(vec![("BTN_DPAD_RIGHT", vec![Key::KEY_RIGHT])], vec![], vec![]));
    for _ in 0..2 {
        t.handle_event(RawEvent { kind: EV_ABS, code: 16, value: 1 }, &Client::Default);
        assert_eq!(t.tracking.dpad_x, 1);
        t.handle_event(RawEvent { kind: EV_ABS, code: 16, value: 0 }, &Client::Default);
    }
    assert_eq!(t.tracking.dpad_x, 0);
    assert!(t.held.is_empty());
}

#[test]
fn axis_16_bit_center_is_zero() {
    assert_eq!(get_axis_value(0, 5, true), 0);
}

#[test]
fn axis_8_bit_center_is_zero() {
    assert_eq!(get_axis_value(128, 0, false), 0);
}

#[test]
fn axis_values() {
    assert_eq!(get_axis_value(200, 5, false), 8);
    assert_eq!(get_axis_value(0, 5, false), -11);
    assert_eq!(get_axis_value(133, 5, false), 0);
    assert_eq!(get_axis_value(134, 5, false), 1);
    assert_eq!(get_axis_value(30000, 5, true), 15);
    assert_eq!(get_axis_value(-30000, 5, true), -14);
}

#[test]
fn abs_wheel_wrap_is_clockwise() {
    let mut t = translator(
        vec![Config::new_from_raw(
            raw(vec![("ABS_WHEEL_CW", vec![Key::KEY_F1]), ("ABS_WHEEL_CCW", vec![Key::KEY_F2])], vec![], vec![]),
            s("Pad"),
        )],
        100,
    );
    let first = t.handle_event(RawEvent { kind: EV_ABS, code: 8, value: 99 }, &Client::Default);
    assert!(first.is_empty());
    let second = t.handle_event(RawEvent { kind: EV_ABS, code: 8, value: 1 }, &Client::Default);
    assert!(second.contains(&key(Key::KEY_F1, 1)));
    assert!(!second.contains(&key(Key::KEY_F2, 1)));
    assert_eq!(t.tracking.abs_wheel, 1);
    t.handle_event(RawEvent { kind: EV_ABS, code: 40, value: 0 }, &Client::Default);
    assert_eq!(t.tracking.abs_wheel, 0);
}

#[test]
fn triggers_press_once() {
    let mut t = one(raw(vec![("BTN_TL2", vec![Key::KEY_SPACE])], vec![], vec![]));
    let a = t.handle_event(RawEvent { kind: EV_ABS, code: 2, value: 40 }, &Client::Default);
    assert!(a.contains(&key(Key::KEY_SPACE, 1)));
    let b = t.handle_event(RawEvent { kind: EV_ABS, code: 2, value: 90 }, &Client::Default);
    assert!(b.is_empty());
    let c = t.handle_event(RawEvent { kind: EV_ABS, code: 2, value: 0 }, &Client::Default);
    assert!(c.contains(&key(Key::KEY_SPACE, 0)));
    assert_eq!(press(&mut t, Key::BTN_TL2, 1), vec![]);
}

#[test]
fn stick_bind_mode() {
    let mut t = one(raw(vec![("LSTICK_UP", vec![Key::KEY_W])], vec![], vec![("LSTICK", "bind")]));
    let up = t.handle_event(RawEvent { kind: EV_ABS, code: 1, value: 0 }, &Client::Default);
    assert!(up.contains(&key(Key::KEY_W, 1)));
    assert_eq!(t.tracking.lstick_y, -1);
    let again = t.handle_event(RawEvent { kind: EV_ABS, code: 1, value: 10 }, &Client::Default);
    assert!(again.is_empty());
    let center = t.handle_event(RawEvent { kind: EV_ABS, code: 1, value: 128 }, &Client::Default);
    assert!(center.contains(&key(Key::KEY_W, 0)));
    assert_eq!(t.tracking.lstick_y, 0);
}

#[test]
fn resolution_branches() {
    let p = Config::new_from_raw(
        raw(
            vec![
                ("KEY_LEFTCTRL-KEY_A", vec![Key::KEY_1]),
                ("-KEY_B", vec![Key::KEY_2]),
                ("KEY_D", vec![Key::KEY_3]),
            ],
            vec![("KEY_LEFTCTRL-KEY_C", vec!["a"]), ("KEY_E", vec!["b"])],
            vec![],
        ),
        s("Pad"),
    );
    let ctrl = vec![Event::Key(Key::KEY_LEFTCTRL.code())];
    let none: Vec<Event> = vec![];
    let k = |x: Key| Event::Key(x.code());
    assert_eq!(resolve(&p, true, k(Key::KEY_A), &ctrl), Resolution::Remap);
    assert_eq!(resolve(&p, true, k(Key::KEY_B), &ctrl), Resolution::Hold);
    assert_eq!(resolve(&p, true, k(Key::KEY_B), &none), Resolution::Unmapped);
    assert_eq!(resolve(&p, false, k(Key::KEY_B), &none), Resolution::Hold);
    assert_eq!(resolve(&p, true, k(Key::KEY_C), &ctrl), Resolution::Command);
    assert_eq!(resolve(&p, true, k(Key::KEY_D), &ctrl), Resolution::DefaultRemap);
    assert_eq!(resolve(&p, true, k(Key::KEY_E), &ctrl), Resolution::DefaultCommand);
    assert_eq!(resolve(&p, true, k(Key::KEY_F), &ctrl), Resolution::Unmapped);
}

#[test]
fn hold_binding_fires_under_any_modifier() {
    let mut t = one(raw(vec![("-KEY_B", vec![Key::KEY_2])], vec![], vec![]));
    assert_eq!(press(&mut t, Key::KEY_B, 1), vec![key(Key::KEY_B, 1)]);
    press(&mut t, Key::KEY_LEFTSHIFT, 1);
    assert_eq!(press(&mut t, Key::KEY_B, 1), vec![key(Key::KEY_2, 1)]);
}

#[test]
fn raw_config_parsing() {
    let r = raw(
        vec![
            ("KEY_RIGHTCTRL-KEY_A-KEY_LEFTCTRL-KEY_X", vec![Key::KEY_Y]),
            ("BTN_TL2-KEY_A", vec![Key::KEY_Z]),
            ("-KEY_Q", vec![Key::KEY_W]),
            ("NOT_A_KEY", vec![Key::KEY_W]),
        ],
        vec![("BTN_SOUTH", vec!["x"])],
        vec![("CUSTOM_MODIFIERS", "KEY_F-BOGUS")],
    );
    let (b, settings, mm) = parse_raw_config(r);
    assert_eq!(settings.len(), 1);
    assert_eq!(b.remap.len(), 3);
    assert_eq!(b.remap[0].input, Event::Key(Key::KEY_X.code()));
    assert_eq!(
        b.remap[0].modifiers,
        vec![
            Event::Key(Key::KEY_LEFTCTRL.code()),
            Event::Key(Key::KEY_A.code()),
            Event::Key(Key::KEY_RIGHTCTRL.code()),
        ]
    );
    assert_eq!(b.remap[0].output, vec![Key::KEY_Y.code()]);
    assert_eq!(b.remap[1].modifiers, vec![Event::Axis(Axis::BTN_TL2)]);
    assert_eq!(b.remap[2].modifiers, vec![Event::Hold]);
    assert_eq!(b.commands.len(), 1);
    assert_eq!(b.commands[0].input, Event::Key(Key::BTN_SOUTH.code()));
    assert_eq!(mm.default.len(), 7);
    assert_eq!(
        mm.custom,
        vec![Event::Axis(Axis::BTN_TL2), Event::Key(Key::KEY_A.code()), Event::Key(Key::KEY_F.code())]
    );
    assert_eq!(mm.all.len(), 10);
}

#[test]
fn modifiers_setting_reads_key_names_first() {
    let pairs = vec![(s("CUSTOM_MODIFIERS"), s("BTN_TL2-LSTICK_UP-nothing"))];
    assert_eq!(
        parse_modifiers(&pairs, "CUSTOM_MODIFIERS"),
        vec![Event::Key(Key::BTN_TL2.code()), Event::Axis(Axis::LSTICK_UP)]
    );
    assert_eq!(parse_modifiers(&pairs, "OTHER"), vec![]);
}

#[test]
fn axis_names() {
    assert_eq!(Axis::from_str("SCROLL_WHEEL_DOWN"), Ok(Axis::SCROLL_WHEEL_DOWN));
    assert_eq!(Axis::from_str("ABS_WHEEL_CCW"), Ok(Axis::ABS_WHEEL_CCW));
    assert_eq!(Axis::from_str("KEY_A"), Err(s("KEY_A")));
}

#[test]
fn invalid_settings_are_rejected() {
    let set = ProfileSet::for_device(
        "Pad",
        vec![Config::new_from_raw(raw(vec![], vec![], vec![("LSTICK_DEADZONE", "wide")]), s("Pad"))],
    )
    .unwrap();
    assert_eq!(Translator::new(set, 0).err(), Some(s("LSTICK_DEADZONE")));
    let set = ProfileSet::for_device(
        "Pad",
        vec![Config::new_from_raw(raw(vec![], vec![], vec![("LAYOUT_SWITCHER", "NOPE")]), s("Pad"))],
    )
    .unwrap();
    assert_eq!(Translator::new(set, 0).err(), Some(s("LAYOUT_SWITCHER")));
    let set = ProfileSet::for_device(
        "Pad",
        vec![Config::new_from_raw(raw(vec![], vec![], vec![("CHAIN_ONLY", "yes")]), s("Pad"))],
    )
    .unwrap();
    assert_eq!(Translator::new(set, 0).err(), Some(s("CHAIN_ONLY")));
    for (name, value) in [("LSTICK", "mouse"), ("RSTICK_DEADZONE", "129"), ("LSTICK_DEADZONE", "-1"), ("GRAB_DEVICE", "yes")] {
        let set = ProfileSet::for_device(
            "Pad",
            vec![Config::new_from_raw(raw(vec![], vec![], vec![(name, value)]), s("Pad"))],
        )
        .unwrap();
        assert_eq!(Translator::new(set, 0).err(), Some(s(name)));
    }
}

#[test]
fn settings_defaults() {
    let t = one(raw(
        vec![],
        vec![],
        vec![("LSTICK_SENSITIVITY", "+7"), ("RSTICK_DEADZONE", "128"), ("GRAB_DEVICE", "false"), ("LSTICK", "disabled")],
    ));
    assert_eq!(t.settings.lstick.function, StickFunction::Disabled);
    assert_eq!(t.settings.rstick.function, StickFunction::Scroll);
    assert_eq!(t.settings.lstick.sensitivity, 7);
    assert_eq!(t.settings.lstick.deadzone, 5);
    assert_eq!(t.settings.rstick.deadzone, 128);
    assert!(t.settings.chain_only);
    assert!(!t.settings.grab_device);
    assert_eq!(t.settings.layout_switcher, Key::BTN_0.code());
}

#[test]
fn profile_names() {
    let (d, a) = parse_profile_name("Xbox Controller::firefox::1");
    assert_eq!(d, "Xbox Controller");
    assert_eq!(a, Associations { client: Client::Class(s("firefox")), layout: 1 });
    let (_, a) = parse_profile_name("Pad::2::kitty");
    assert_eq!(a, Associations { client: Client::Class(s("kitty")), layout: 2 });
    let (_, a) = parse_profile_name("Pad::3");
    assert_eq!(a, Associations { client: Client::Default, layout: 3 });
    let (_, a) = parse_profile_name("Pad::a::b");
    assert_eq!(a, Associations::default());
    let (_, a) = parse_profile_name("Pad::a::b::c");
    assert_eq!(a, Associations::default());
    let (d, a) = parse_profile_name("A:B");
    assert_eq!(d, "A:B");
    assert_eq!(a, Associations::default());
}

#[test]
fn profile_sets() {
    let c = |n: &str| Config::new_from_raw(raw(vec![], vec![], vec![]), s(n));
    assert!(ProfileSet::for_device("Pad", vec![c("Other")]).is_none());
    let set = ProfileSet::for_device("Pad", vec![c("Pad::firefox"), c("Other")]).unwrap();
    assert_eq!(set.profiles.len(), 2);
    assert_eq!(set.profiles[1].name, "Pad");
    assert_eq!(set.profiles[1].associations, Associations::default());
    let set = ProfileSet::for_device("Pa/d", vec![c("Pad")]).unwrap();
    assert_eq!(set.profiles.len(), 1);
    assert_eq!(set.select(&Client::Class(s("firefox")), 0), 0);
    assert_eq!(set.known_client(&Client::Class(s("firefox"))), Client::Default);
}

#[test]
fn window_specific_profile() {
    let a = Config::new_from_raw(raw(vec![], vec![], vec![]), s("Pad"));
    let b = Config::new_from_raw(raw(vec![("KEY_A", vec![Key::KEY_B])], vec![], vec![]), s("Pad::firefox"));
    let mut t = translator(vec![a, b], 0);
    let firefox = Client::Class(s("firefox"));
    let out = t.handle_event(RawEvent { kind: EV_KEY, code: Key::KEY_A.code(), value: 1 }, &firefox);
    assert_eq!(out, vec![key(Key::KEY_B, 1)]);
    assert_eq!(t.profiles.profiles[t.current].name, "Pad::firefox");
    let other = Client::Class(s("kitty"));
    let out = t.handle_event(RawEvent { kind: EV_KEY, code: Key::KEY_A.code(), value: 1 }, &other);
    assert_eq!(out, vec![key(Key::KEY_A, 1)]);
    assert!(t.needs_active_window(RawEvent { kind: EV_KEY, code: 30, value: 1 }));
    assert!(!t.needs_active_window(RawEvent { kind: EV_KEY, code: 30, value: 0 }));
}

#[test]
fn owed_key_leaves_modifiers_on_release() {
    // A profile whose mapped-modifier lists do not hold the owed key.
    let x = Key::KEY_X.code();
    let mut p = Config::new_empty(s("Pad"));
    p.bindings.remap.push(Binding { input: Event::Key(Key::KEY_Y.code()), modifiers: vec![Event::Key(x)], output: vec![x] });
    let mut mods = vec![Event::Key(x)];
    let mut latch = true;
    let mut out: Vec<Action> = vec![];
    let z = RawEvent { kind: EV_KEY, code: Key::KEY_Z.code(), value: 1 };
    emit_nonmapped_event(z, Event::Key(z.code), 1, &p, &mut mods, &mut latch, &mut out);
    assert_eq!(out, vec![key(Key::KEY_X, 0), Action::Emit(Sink::Keys, z)]);
    assert!(mods.is_empty());
}

#[test]
fn released_keys_follow_modifiers() {
    let p = Config::new_from_raw(
        raw(vec![("KEY_A", vec![Key::KEY_B, Key::KEY_C]), ("KEY_LEFTALT-KEY_D", vec![Key::KEY_E])], vec![], vec![]),
        s("Pad"),
    );
    assert_eq!(released_keys(&p, &vec![]), vec![Key::KEY_B.code(), Key::KEY_C.code()]);
    assert_eq!(released_keys(&p, &vec![Event::Key(Key::KEY_LEFTALT.code())]), vec![Key::KEY_E.code()]);
}

#[test]
fn forwarded_events() {
    let mut t = one(raw(vec![], vec![], vec![]));
    let motion = RawEvent { kind: EV_REL, code: 0, value: 5 };
    assert_eq!(t.handle_event(motion, &Client::Default), vec![Action::Emit(Sink::Axis, motion)]);
    let sync = RawEvent { kind: 0, code: 0, value: 0 };
    assert_eq!(t.handle_event(sync, &Client::Default), vec![]);
}
