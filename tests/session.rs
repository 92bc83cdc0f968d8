use makima::session::{detect_server, launch_plan, mentions_device, wm_class_name};
use makima::{Config, Environment, Server};

fn s(x: &str) -> String {
    x.to_string()
}

fn env(user: Option<&str>, sudo: Option<&str>) -> Environment {
    Environment { user: user.map(s), sudo_user: sudo.map(s), server: Server::Unsupported }
}

fn connected(r: Option<Server>) -> Option<String> {
    match r {
        Some(Server::Connected(x)) => Some(x),
        _ => None,
    }
}

#[test]
fn servers() {
    assert_eq!(connected(detect_server(&Some(s("wayland")), false, &Some(s("sway")), false)), Some(s("sway")));
    assert_eq!(connected(detect_server(&None, true, &Some(s("Hyprland")), false)), Some(s("Hyprland")));
    assert!(matches!(detect_server(&Some(s("wayland")), true, &Some(s("KDE")), false), Some(Server::Unsupported)));
    assert_eq!(connected(detect_server(&Some(s("wayland")), true, &Some(s("KDE")), true)), Some(s("KDE")));
    assert!(matches!(detect_server(&Some(s("wayland")), true, &Some(s("GNOME")), true), Some(Server::Unsupported)));
    assert!(matches!(detect_server(&Some(s("wayland")), true, &None, true), Some(Server::Unsupported)));
    assert_eq!(connected(detect_server(&Some(s("x11")), false, &None, false)), Some(s("x11")));
    assert!(matches!(detect_server(&Some(s("tty")), false, &None, false), Some(Server::Failed)));
    assert!(detect_server(&None, false, &Some(s("sway")), true).is_none());
}

#[test]
fn launches() {
    let root = launch_plan(&env(Some("root"), Some("alice")), "notify-send hi").unwrap();
    assert!(root.as_root);
    assert_eq!(root.program, "runuser");
    assert_eq!(root.args, vec![s("alice"), s("-c"), s("notify-send hi")]);
    let user = launch_plan(&env(Some("bob"), Some("")), "firefox").unwrap();
    assert!(!user.as_root);
    assert_eq!(user.program, "sh");
    assert_eq!(user.args, vec![s("-c"), s("systemd-run --user --scope -M bob@ firefox")]);
    assert!(launch_plan(&env(None, None), "x").is_none());
}

#[test]
fn wm_class() {
    assert_eq!(wm_class_name(&b"navigator\0firefox\0".to_vec()), Some(b"firefox".to_vec()));
    assert_eq!(wm_class_name(&b"a\0b".to_vec()), Some(b"b".to_vec()));
    assert_eq!(wm_class_name(&b"a\0".to_vec()), Some(vec![]));
    assert_eq!(wm_class_name(&b"abc".to_vec()), None);
}

#[test]
fn device_mentions() {
    let c = Config::new_empty(s("Xbox Controller::firefox"));
    assert!(mentions_device(&vec![c.clone()], "Xbox Controller"));
    assert!(!mentions_device(&vec![c], "Keyboard"));
}
