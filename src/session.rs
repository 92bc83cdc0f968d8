//! The desktop session around the daemon: which window-query backend to use,
//! how to launch commands as the logged-in user, and which devices matter.

use crate::config::Config;
use crate::text::{chars_of, str_eq, views};
use vstd::prelude::*;
use vstd::string::*;

verus! {

/// How the focused window can be queried.
#[derive(Debug, Clone)]
pub enum Server {
    /// A supported session: `Hyprland`, `sway`, `KDE` or `x11`.
    Connected(String),
    Unsupported,
    Failed,
}

pub enum ServerView {
    Connected(Seq<char>),
    Unsupported,
    Failed,
}

impl View for Server {
    type V = ServerView;

    open spec fn view(&self) -> ServerView {
        match self {
            Server::Connected(s) => ServerView::Connected(s@),
            Server::Unsupported => ServerView::Unsupported,
            Server::Failed => ServerView::Failed,
        }
    }
}

/// The session as probed once at startup.
#[derive(Debug, Clone)]
pub struct Environment {
    pub user: Option<String>,
    pub sudo_user: Option<String>,
    pub server: Server,
}

/// The window-query backend for a session type (`XDG_SESSION_TYPE`, taken
/// as `wayland` when unset and `WAYLAND_DISPLAY` is set) and desktop
/// (`XDG_CURRENT_DESKTOP`); `None` when the session type is unknown. On KDE
/// the query needs `kdotool`.
pub open spec fn server_spec(
    session: Option<Seq<char>>,
    wayland_display: bool,
    desktop: Option<Seq<char>>,
    kdotool: bool,
) -> Option<ServerView> {
    let s = match session {
        Some(x) => Some(x),
        None => if wayland_display { Some("wayland"@) } else { None },
    };
    match s {
        None => None,
        Some(s) => Some(
            if s == "wayland"@ {
                match desktop {
                    Some(d) => if d == "Hyprland"@ || d == "sway"@ || d == "KDE"@ {
                        if d == "KDE"@ && !kdotool {
                            ServerView::Unsupported
                        } else {
                            ServerView::Connected(d)
                        }
                    } else {
                        ServerView::Unsupported
                    },
                    None => ServerView::Unsupported,
                }
            } else if s == "x11"@ {
                ServerView::Connected(s)
            } else {
                ServerView::Failed
            },
        ),
    }
}

/// The text of an optional string.
pub open spec fn opt_view(o: Option<String>) -> Option<Seq<char>> {
    match o {
        Some(s) => Some(s@),
        None => None,
    }
}

fn copy_text(s: &String) -> (r: String)
    ensures
        r@ == s@,
{
    String::from_str(s.as_str())
}

/// Chooses the window-query backend (see `server_spec`).
pub fn detect_server(
    session: &Option<String>,
    wayland_display: bool,
    desktop: &Option<String>,
    kdotool: bool,
) -> (r: Option<Server>)
    ensures
        r matches Some(v) ==> server_spec(opt_view(*session), wayland_display, opt_view(*desktop), kdotool) == Some(v@),
        r is None ==> server_spec(opt_view(*session), wayland_display, opt_view(*desktop), kdotool) is None,
{
    let s: String = match session {
        Some(x) => copy_text(x),
        None => if wayland_display {
            String::from_str("wayland")
        } else {
            return None;
        },
    };
    if str_eq(s.as_str(), "wayland") {
        match desktop {
            Some(d) => if str_eq(d.as_str(), "Hyprland") || str_eq(d.as_str(), "sway") || str_eq(d.as_str(), "KDE") {
                if str_eq(d.as_str(), "KDE") && !kdotool {
                    Some(Server::Unsupported)
                } else {
                    Some(Server::Connected(copy_text(d)))
                }
            } else {
                Some(Server::Unsupported)
            },
            None => Some(Server::Unsupported),
        }
    } else if str_eq(s.as_str(), "x11") {
        Some(Server::Connected(s))
    } else {
        Some(Server::Failed)
    }
}

/// A program to start, with its arguments.
#[derive(Debug, Clone)]
pub struct Launch {
    pub program: String,
    pub args: Vec<String>,
    /// Whether the program runs as root and must be detached by a double fork.
    pub as_root: bool,
}

/// The user commands run as: `SUDO_USER` when set and not empty (the daemon
/// then runs as root), else `USER`.
pub open spec fn launch_user(env: Environment) -> Option<(Seq<char>, bool)> {
    match env.sudo_user {
        Some(s) if s@.len() > 0 => Some((s@, true)),
        _ => match env.user {
            Some(u) => Some((u@, false)),
            None => None,
        },
    }
}

/// How to run `command` as the session's user: through `runuser` when
/// running as root, else in the user's systemd scope.
pub fn launch_plan(env: &Environment, command: &str) -> (r: Option<Launch>)
    ensures
        match launch_user(*env) {
            None => r is None,
            Some((u, true)) => r is Some && r->Some_0.as_root && r->Some_0.program@ == "runuser"@
                && views(r->Some_0.args@) == seq![u, "-c"@, command@],
            Some((u, false)) => r is Some && !r->Some_0.as_root && r->Some_0.program@ == "sh"@
                && views(r->Some_0.args@) == seq![
                "-c"@,
                "systemd-run --user --scope -M "@ + u + "@ "@ + command@,
            ],
        },
{
    let root_user: Option<&String> = match &env.sudo_user {
        Some(s) => if s.as_str().unicode_len() > 0 { Some(s) } else { None },
        None => None,
    };
    match root_user {
        Some(u) => {
            let args = vec![copy_text(u), String::from_str("-c"), String::from_str(command)];
            assert(views(args@) =~= seq![u@, "-c"@, command@]);
            Some(Launch { program: String::from_str("runuser"), args, as_root: true })
        },
        None => match &env.user {
            Some(u) => {
                let mut line = String::from_str("systemd-run --user --scope -M ");
                line.append(u.as_str());
                line.append("@ ");
                line.append(command);
                let args = vec![String::from_str("-c"), line];
                assert(views(args@) =~= seq![
                    "-c"@,
                    "systemd-run --user --scope -M "@ + u@ + "@ "@ + command@,
                ]);
                Some(Launch { program: String::from_str("sh"), args, as_root: false })
            },
            None => None,
        },
    }
}

/// The part of an X11 `WM_CLASS` value after its first NUL byte, without a
/// trailing NUL; `None` when it holds no NUL.
pub open spec fn wm_class_spec(b: Seq<u8>) -> Option<Seq<u8>> {
    if exists|i: int| 0 <= i < b.len() && b[i] == 0 {
        let p = choose|i: int| 0 <= i < b.len() && b[i] == 0 && forall|j: int| 0 <= j < i ==> b[j] != 0;
        let rest = b.skip(p + 1);
        Some(if rest.len() > 0 && rest.last() == 0 { rest.drop_last() } else { rest })
    } else {
        None
    }
}

/// Index of the first NUL byte, or the length when there is none.
fn first_nul(b: &Vec<u8>) -> (p: usize)
    ensures
        p <= b.len(),
        forall|j: int| 0 <= j < p ==> b@[j] != 0,
        p < b.len() ==> b@[p as int] == 0,
{
    let mut p: usize = 0;
    while p < b.len()
        invariant
            0 <= p <= b.len(),
            forall|j: int| 0 <= j < p ==> b@[j] != 0,
        decreases b.len() - p,
    {
        if b[p] == 0 {
            return p;
        }
        p += 1;
    }
    p
}

/// The window class named by an X11 `WM_CLASS` property value.
pub fn wm_class_name(b: &Vec<u8>) -> (r: Option<Vec<u8>>)
    ensures
        match r {
            Some(v) => wm_class_spec(b@) == Some(v@),
            None => wm_class_spec(b@) is None,
        },
{
    let p = first_nul(b);
    if p == b.len() {
        return None;
    }
    proof {
        assert(b@[p as int] == 0);
        let q = choose|i: int| 0 <= i < b@.len() && b@[i] == 0 && forall|j: int| 0 <= j < i ==> b@[j] != 0;
        if q < p {
        } else if q > p {
        }
        assert(q == p);
    }
    let mut end = b.len();
    if end > p + 1 && b[end - 1] == 0 {
        end = end - 1;
    }
    let mut r: Vec<u8> = Vec::new();
    let mut k: usize = p + 1;
    while k < end
        invariant
            p + 1 <= k <= end,
            end <= b.len(),
            end == b.len() || end == b.len() - 1,
            r@ == b@.subrange(p + 1, k as int),
        decreases end - k,
    {
        r.push(b[k]);
        k += 1;
        assert(r@ =~= b@.subrange(p + 1, k as int));
    }
    proof {
        let rest = b@.skip(p + 1);
        assert(k == end);
        if end < b.len() {
            assert(r@ =~= rest.drop_last());
        } else {
            assert(r@ =~= rest);
        }
    }
    Some(r)
}

/// Whether `needle` occurs in `hay`.
pub open spec fn occurs_in(needle: Seq<char>, hay: Seq<char>) -> bool {
    exists|k: int| 0 <= k && k + needle.len() <= hay.len() && #[trigger] hay.subrange(k, k + needle.len()) == needle
}

fn matches_at(needle: &Vec<char>, hay: &Vec<char>, k: usize) -> (r: bool)
    requires
        k + needle.len() <= hay.len(),
    ensures
        r == (hay@.subrange(k as int, k + needle.len()) == needle@),
{
    let mut j: usize = 0;
    while j < needle.len()
        invariant
            k + needle.len() <= hay.len(),
            0 <= j <= needle.len(),
            forall|q: int| 0 <= q < j ==> hay@[k + q] == needle@[q],
        decreases needle.len() - j,
    {
        if hay[k + j] != needle[j] {
            assert(hay@.subrange(k as int, k + needle.len())[j as int] != needle@[j as int]);
            return false;
        }
        j += 1;
    }
    assert(hay@.subrange(k as int, k + needle.len()) =~= needle@);
    true
}

fn text_occurs(needle: &Vec<char>, hay: &Vec<char>) -> (r: bool)
    ensures
        r == occurs_in(needle@, hay@),
{
    if needle.len() > hay.len() {
        return false;
    }
    let last = hay.len() - needle.len();
    let mut k: usize = 0;
    while k <= last
        invariant
            last == hay.len() - needle.len(),
            k <= last + 1,
            forall|q: int| 0 <= q < k ==> #[trigger] hay@.subrange(q, q + needle.len()) != needle@,
        decreases last + 1 - k,
    {
        if matches_at(needle, hay, k) {
            return true;
        }
        if k == last {
            return false;
        }
        k += 1;
    }
    false
}

/// Whether the name of some profile mentions the device name.
pub fn mentions_device(configs: &Vec<Config>, device: &str) -> (r: bool)
    ensures
        r == exists|i: int| 0 <= i < configs@.len() && occurs_in(device@, configs@[i].name@),
{
    let d = chars_of(device);
    let mut i: usize = 0;
    while i < configs.len()
        invariant
            d@ == device@,
            0 <= i <= configs.len(),
            forall|j: int| 0 <= j < i ==> !occurs_in(device@, configs@[j].name@),
        decreases configs.len() - i,
    {
        let n = chars_of(configs[i].name.as_str());
        if text_occurs(&d, &n) {
            return true;
        }
        i += 1;
    }
    false
}

} // verus!
