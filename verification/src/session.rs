use vstd::prelude::*;
use crate::desktop_file::field;
use crate::digits::{decimal, push_decimal};
use crate::text::{chars_eq_str, chars_of, push_char};

verus! {

/// Environment variables as name/value pairs; a later pair for a name
/// overrides an earlier one, as inserting them into a map in order would.
pub open spec fn env_view(v: Seq<(String, String)>) -> Seq<(Seq<char>, Seq<char>)> {
    Seq::new(v.len(), |i: int| (v[i].0@, v[i].1@))
}

/// The value of `name` among environment pairs.
pub open spec fn env_get(v: Seq<(String, String)>, name: Seq<char>) -> Option<Seq<char>> {
    field(env_view(v), name)
}

pub proof fn lemma_field_append(a: Seq<(Seq<char>, Seq<char>)>, b: Seq<(Seq<char>, Seq<char>)>, k: Seq<char>)
    ensures
        field(a + b, k) == (match field(b, k) {
            Some(v) => Some(v),
            None => field(a, k),
        }),
    decreases b.len(),
{
    if b.len() == 0 {
        assert(a + b =~= a);
    } else {
        assert((a + b).drop_last() =~= a + b.drop_last());
        lemma_field_append(a, b.drop_last(), k);
    }
}

/// The variables passed on from the compositor's own environment.
pub open spec fn forwarded_name(k: Seq<char>) -> bool {
    ||| k == "PATH"@
    ||| k == "HOME"@
    ||| k == "USER"@
    ||| k == "SHELL"@
    ||| k == "DBUS_SESSION_BUS_ADDRESS"@
    ||| k == "XDG_RUNTIME_DIR"@
    ||| k == "EDITOR"@
    ||| k == "TERMINAL"@
    ||| k == "BROWSER"@
}

/// The environment of a child process, variable by variable: the session's
/// extra variables win; then the X display, desktop name, session type and
/// Wayland display; the XDG base directories below `HOME`, and the system
/// XDG search paths; else what is forwarded from the parent `parent`.
pub open spec fn child_env_value(
    parent: Seq<(String, String)>,
    wayland: Option<Seq<char>>,
    xwayland: Option<Seq<char>>,
    extra: Seq<(String, String)>,
    k: Seq<char>,
) -> Option<Seq<char>> {
    match env_get(extra, k) {
        Some(v) => Some(v),
        None => session_value(parent, wayland, xwayland, k),
    }
}

/// The part of a child's environment that the session sets itself, before
/// the theme's variables override it.
pub open spec fn session_value(
    parent: Seq<(String, String)>,
    wayland: Option<Seq<char>>,
    xwayland: Option<Seq<char>>,
    k: Seq<char>,
) -> Option<Seq<char>> {
    let home = env_get(parent, "HOME"@);
    if k == "DISPLAY"@ && xwayland is Some {
        xwayland
    } else if k == "XDG_CURRENT_DESKTOP"@ {
        Some("Vitrum"@)
    } else if k == "XDG_SESSION_TYPE"@ {
        Some("wayland"@)
    } else if k == "WAYLAND_DISPLAY"@ && wayland is Some {
        wayland
    } else if k == "XDG_STATE_HOME"@ && home is Some {
        Some(home.unwrap() + "/.local/state"@)
    } else if k == "XDG_CACHE_HOME"@ && home is Some {
        Some(home.unwrap() + "/.cache"@)
    } else if k == "XDG_CONFIG_HOME"@ && home is Some {
        Some(home.unwrap() + "/.config"@)
    } else if k == "XDG_DATA_HOME"@ && home is Some {
        Some(home.unwrap() + "/.local/share"@)
    } else if k == "XDG_CONFIG_DIRS"@ {
        Some("/etc/xdg"@)
    } else if k == "XDG_DATA_DIRS"@ {
        Some("/usr/local/share:/usr/share"@)
    } else if forwarded_name(k) {
        env_get(parent, k)
    } else {
        None
    }
}

proof fn lemma_forwarded_names_distinct()
    ensures
        "PATH"@ != "HOME"@,
        "PATH"@ != "USER"@,
        "HOME"@ != "USER"@,
        "SHELL"@.len() == 5 && "PATH"@.len() == 4 && "HOME"@.len() == 4 && "USER"@.len() == 4,
        "DBUS_SESSION_BUS_ADDRESS"@.len() == 24,
        "XDG_RUNTIME_DIR"@.len() == 15,
        "EDITOR"@.len() == 6,
        "TERMINAL"@.len() == 8,
        "BROWSER"@.len() == 7,
{
    reveal_strlit("PATH");
    reveal_strlit("HOME");
    reveal_strlit("USER");
    reveal_strlit("SHELL");
    reveal_strlit("DBUS_SESSION_BUS_ADDRESS");
    reveal_strlit("XDG_RUNTIME_DIR");
    reveal_strlit("EDITOR");
    reveal_strlit("TERMINAL");
    reveal_strlit("BROWSER");
    assert("PATH"@[0] == 'P' && "HOME"@[0] == 'H' && "USER"@[0] == 'U');
}

/// The values derived below `HOME` and the system search paths are never
/// forwarded names, so forwarding never sets them.
proof fn lemma_derived_names_not_forwarded()
    ensures
        !forwarded_name("XDG_DATA_DIRS"@),
        !forwarded_name("XDG_CONFIG_DIRS"@),
        !forwarded_name("XDG_DATA_HOME"@),
        !forwarded_name("XDG_CONFIG_HOME"@),
        !forwarded_name("XDG_CACHE_HOME"@),
        !forwarded_name("XDG_STATE_HOME"@),
{
    lemma_forwarded_names_distinct();
    reveal_strlit("XDG_RUNTIME_DIR");
    reveal_strlit("XDG_DATA_DIRS");
    reveal_strlit("XDG_CONFIG_DIRS");
    reveal_strlit("XDG_DATA_HOME");
    reveal_strlit("XDG_CONFIG_HOME");
    reveal_strlit("XDG_CACHE_HOME");
    reveal_strlit("XDG_STATE_HOME");
    assert("XDG_DATA_DIRS"@.len() == 13 && "XDG_DATA_HOME"@.len() == 13);
    assert("XDG_CACHE_HOME"@.len() == 14 && "XDG_STATE_HOME"@.len() == 14);
    assert("XDG_CONFIG_DIRS"@.len() == 15 && "XDG_CONFIG_HOME"@.len() == 15);
    assert("XDG_CONFIG_DIRS"@[4] == 'C' && "XDG_CONFIG_HOME"@[4] == 'C' && "XDG_RUNTIME_DIR"@[4] == 'R');
}

fn env_get_exec<'a>(v: &'a Vec<(String, String)>, name: &str) -> (r: Option<&'a String>)
    ensures
        match r {
            Some(s) => env_get(v@, name@) == Some(s@),
            None => env_get(v@, name@) is None,
        },
{
    let ghost all = env_view(v@);
    let mut i: usize = v.len();
    assert(all.subrange(0, i as int) =~= all);
    while i > 0
        invariant
            i <= v@.len(),
            all == env_view(v@),
            field(all, name@) == field(all.subrange(0, i as int), name@),
        decreases i,
    {
        let ghost sub = all.subrange(0, i as int);
        assert(sub.drop_last() =~= all.subrange(0, i - 1));
        let key = chars_of(v[i - 1].0.as_str());
        if chars_eq_str(key.as_slice(), name) {
            return Some(&v[i - 1].1);
        }
        i -= 1;
    }
    None
}

fn concat(a: &str, b: &str) -> (r: String)
    ensures
        r@ == a@ + b@,
{
    let mut r = String::new();
    let ca = chars_of(a);
    let cb = chars_of(b);
    let mut i: usize = 0;
    while i < ca.len()
        invariant
            i <= ca@.len(),
            r@ == ca@.subrange(0, i as int),
        decreases ca.len() - i,
    {
        push_char(&mut r, ca[i]);
        i += 1;
        assert(r@ =~= ca@.subrange(0, i as int));
    }
    let mut j: usize = 0;
    while j < cb.len()
        invariant
            j <= cb@.len(),
            r@ == ca@ + cb@.subrange(0, j as int),
            ca@ == a@,
        decreases cb.len() - j,
    {
        push_char(&mut r, cb[j]);
        j += 1;
        assert(r@ =~= ca@ + cb@.subrange(0, j as int));
    }
    assert(cb@.subrange(0, cb@.len() as int) =~= cb@);
    r
}

/// Appends `(name, value)`.
fn push_var(out: &mut Vec<(String, String)>, name: &str, value: String)
    ensures
        forall|k: Seq<char>| #[trigger] env_get(final(out)@, k) == (if k == name@ {
            Some(value@)
        } else {
            env_get(old(out)@, k)
        }),
{
    let ghost v = value@;
    out.push((name.to_owned(), value));
    assert(env_view(out@) =~= env_view(old(out)@).push((name@, v)));
    assert(env_view(out@).drop_last() =~= env_view(old(out)@));
}

/// Forwards `name` from `parent` when it is set there.
fn forward_var(out: &mut Vec<(String, String)>, parent: &Vec<(String, String)>, name: &str)
    ensures
        forall|k: Seq<char>| #[trigger] env_get(final(out)@, k) == (if k == name@ && env_get(parent@, name@) is Some {
            env_get(parent@, name@)
        } else {
            env_get(old(out)@, k)
        }),
{
    match env_get_exec(parent, name) {
        Some(v) => push_var(out, name, v.clone()),
        None => {},
    }
}

/// Appends every pair of `src`, in order.
fn append_vars(out: &mut Vec<(String, String)>, src: &Vec<(String, String)>)
    ensures
        env_view(final(out)@) == env_view(old(out)@) + env_view(src@),
{
    let ghost base = env_view(out@);
    let mut i: usize = 0;
    assert(env_view(out@) =~= base + env_view(src@).subrange(0, 0));
    while i < src.len()
        invariant
            i <= src@.len(),
            base == env_view(old(out)@),
            env_view(out@) == base + env_view(src@).subrange(0, i as int),
        decreases src.len() - i,
    {
        let a = src[i].0.clone();
        let b = src[i].1.clone();
        let ghost prev = out@;
        out.push((a, b));
        assert(out@ == prev.push((a, b)));
        assert(env_view(out@) =~= env_view(prev).push((src@[i as int].0@, src@[i as int].1@)));
        i += 1;
        assert(env_view(out@) =~= base + env_view(src@).subrange(0, i as int));
    }
    assert(env_view(src@).subrange(0, src@.len() as int) =~= env_view(src@));
}

/// What a session's child processes see besides their parent's
/// environment: the Wayland and X displays, and the variables derived from
/// the theme.
#[derive(Debug)]
pub struct SessionEnvironment {
    wayland_display: Option<String>,
    xwayland_display: Option<String>,
    extra_env: Vec<(String, String)>,
}

impl SessionEnvironment {
    pub closed spec fn spec_wayland(&self) -> Option<Seq<char>> {
        match self.wayland_display {
            Some(s) => Some(s@),
            None => None,
        }
    }

    pub closed spec fn spec_xwayland(&self) -> Option<Seq<char>> {
        match self.xwayland_display {
            Some(s) => Some(s@),
            None => None,
        }
    }

    pub closed spec fn spec_extra(&self) -> Seq<(String, String)> {
        self.extra_env@
    }

    /// A session environment holding the theme's variables `theme_env`.
    pub fn new(theme_env: Vec<(String, String)>) -> (s: SessionEnvironment)
        ensures
            s.spec_wayland() is None,
            s.spec_xwayland() is None,
            s.spec_extra() == theme_env@,
    {
        SessionEnvironment { wayland_display: None, xwayland_display: None, extra_env: theme_env }
    }

    pub fn set_wayland_socket(&mut self, socket_name: &str)
        ensures
            final(self).spec_wayland() == Some(socket_name@),
            final(self).spec_xwayland() == old(self).spec_xwayland(),
            final(self).spec_extra() == old(self).spec_extra(),
    {
        self.wayland_display = Some(socket_name.to_owned());
    }

    /// Records the X display `:n` and returns its name.
    pub fn set_xwayland_display(&mut self, display_number: u32) -> (name: String)
        ensures
            name@ == seq![':'] + decimal(display_number as nat),
            final(self).spec_xwayland() == Some(name@),
            final(self).spec_wayland() == old(self).spec_wayland(),
            final(self).spec_extra() == old(self).spec_extra(),
    {
        let mut x_display = String::new();
        push_char(&mut x_display, ':');
        push_decimal(&mut x_display, display_number as u64);
        assert(x_display@ =~= seq![':'] + decimal(display_number as nat));
        self.xwayland_display = Some(x_display.clone());
        x_display
    }

    /// Takes in the theme's variables; each one overrides an earlier value.
    pub fn update_config(&mut self, theme_env: Vec<(String, String)>)
        ensures
            forall|k: Seq<char>| #[trigger] env_get(final(self).spec_extra(), k) == (match env_get(theme_env@, k) {
                Some(v) => Some(v),
                None => env_get(old(self).spec_extra(), k),
            }),
            final(self).spec_wayland() == old(self).spec_wayland(),
            final(self).spec_xwayland() == old(self).spec_xwayland(),
    {
        let ghost before = self.extra_env@;
        append_vars(&mut self.extra_env, &theme_env);
        proof {
            assert forall|k: Seq<char>| #[trigger] env_get(self.extra_env@, k) == (match env_get(theme_env@, k) {
                Some(v) => Some(v),
                None => env_get(before, k),
            }) by {
                lemma_field_append(env_view(before), env_view(theme_env@), k);
            }
        }
    }

    /// The environment for a child process, given the compositor's own
    /// environment `parent`, as pairs in which a later pair for a name
    /// overrides an earlier one.
    pub fn child_env(&self, parent: &Vec<(String, String)>) -> (r: Vec<(String, String)>)
        ensures
            forall|k: Seq<char>| #[trigger] env_get(r@, k) == child_env_value(
                parent@,
                self.spec_wayland(),
                self.spec_xwayland(),
                self.spec_extra(),
                k,
            ),
    {
        let mut out: Vec<(String, String)> = Vec::new();
        forward_var(&mut out, parent, "PATH");
        forward_var(&mut out, parent, "HOME");
        forward_var(&mut out, parent, "USER");
        forward_var(&mut out, parent, "SHELL");
        forward_var(&mut out, parent, "DBUS_SESSION_BUS_ADDRESS");
        forward_var(&mut out, parent, "XDG_RUNTIME_DIR");
        forward_var(&mut out, parent, "EDITOR");
        forward_var(&mut out, parent, "TERMINAL");
        forward_var(&mut out, parent, "BROWSER");
        let ghost fwd = out@;
        proof {
            lemma_forwarded_names_distinct();
            assert forall|k: Seq<char>| #[trigger] env_get(fwd, k) == (if forwarded_name(k) {
                env_get(parent@, k)
            } else {
                None
            }) by {
                reveal_strlit("SHELL");
            }
            lemma_derived_names_not_forwarded();
        }
        push_var(&mut out, "XDG_DATA_DIRS", "/usr/local/share:/usr/share".to_owned());
        push_var(&mut out, "XDG_CONFIG_DIRS", "/etc/xdg".to_owned());
        match env_get_exec(parent, "HOME") {
            Some(home) => {
                push_var(&mut out, "XDG_DATA_HOME", concat(home.as_str(), "/.local/share"));
                push_var(&mut out, "XDG_CONFIG_HOME", concat(home.as_str(), "/.config"));
                push_var(&mut out, "XDG_CACHE_HOME", concat(home.as_str(), "/.cache"));
                push_var(&mut out, "XDG_STATE_HOME", concat(home.as_str(), "/.local/state"));
            },
            None => {},
        }
        if let Some(wd) = &self.wayland_display {
            push_var(&mut out, "WAYLAND_DISPLAY", wd.clone());
        }
        push_var(&mut out, "XDG_SESSION_TYPE", "wayland".to_owned());
        push_var(&mut out, "XDG_CURRENT_DESKTOP", "Vitrum".to_owned());
        if let Some(xd) = &self.xwayland_display {
            push_var(&mut out, "DISPLAY", xd.clone());
        }
        let ghost base = out@;
        assert(forall|k: Seq<char>| #[trigger] env_get(base, k) == session_value(
            parent@,
            self.spec_wayland(),
            self.spec_xwayland(),
            k,
        ));
        append_vars(&mut out, &self.extra_env);
        proof {
            assert forall|k: Seq<char>| #[trigger] env_get(out@, k) == child_env_value(
                parent@,
                self.spec_wayland(),
                self.spec_xwayland(),
                self.spec_extra(),
                k,
            ) by {
                lemma_field_append(env_view(base), env_view(self.extra_env@), k);
                assert(env_get(base, k) == session_value(parent@, self.spec_wayland(), self.spec_xwayland(), k));
            }
        }
        out
    }
}

} // verus!
