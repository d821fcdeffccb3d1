use vstd::prelude::*;
use crate::desktop_file::{
    desktop_pairs, field, field_flag, field_string, field_value, flag, scan_desktop_pairs, split_list,
    split_on, views,
};
use crate::text::{chars_eq_ignore_ascii_case, chars_eq_str, chars_of, eq_ignore_ascii_case, string_of};
use crate::wallpaper::{extension, join_path, join_path_exec, path_extension};
use crate::ctl::{join_command, joined};
use crate::text::{push_char, push_str};

verus! {

/// Where an autostart entry came from.
#[derive(Debug)]
pub enum AutostartSource {
    DesktopFile(String),
    Config,
}

/// One program to start with the session.
#[derive(Debug)]
pub struct AutostartEntry {
    pub name: String,
    pub exec_cmd: String,
    pub try_exec: Option<String>,
    pub _icon: Option<String>,
    pub _comment: Option<String>,
    pub path: Option<String>,
    pub _terminal: bool,
    pub hidden: bool,
    pub only_show_in: Vec<String>,
    pub not_show_in: Vec<String>,
    pub _source: AutostartSource,
}

/// Some desktop name in `list` equals `env`, ignoring ASCII case.
pub open spec fn mentions(list: Seq<String>, env: Seq<char>) -> bool {
    exists|i: int| 0 <= i < list.len() && eq_ignore_ascii_case(#[trigger] list[i]@, env)
}

/// Whether an entry is meant for the desktop `env`: a hidden entry never is;
/// a non-empty `OnlyShowIn` list must name it; otherwise a non-empty
/// `NotShowIn` list must not name it.
pub open spec fn shows_in(e: AutostartEntry, env: Seq<char>) -> bool {
    if e.hidden {
        false
    } else if e.only_show_in@.len() > 0 {
        mentions(e.only_show_in@, env)
    } else if e.not_show_in@.len() > 0 {
        !mentions(e.not_show_in@, env)
    } else {
        true
    }
}

fn list_mentions(list: &Vec<String>, env: &[char]) -> (r: bool)
    ensures
        r == mentions(list@, env@),
{
    let mut i: usize = 0;
    while i < list.len()
        invariant
            i <= list@.len(),
            forall|j: int| 0 <= j < i ==> !eq_ignore_ascii_case(#[trigger] list@[j]@, env@),
        decreases list.len() - i,
    {
        let name = chars_of(list[i].as_str());
        if chars_eq_ignore_ascii_case(name.as_slice(), env) {
            assert(eq_ignore_ascii_case(list@[i as int]@, env@));
            return true;
        }
        i += 1;
    }
    false
}

/// Calls `which::which`: whether `name` resolves to an executable. The answer
/// depends on `PATH` and on the file system, so nothing is claimed of it.
#[verifier::external_body]
fn executable_on_path(name: &str) -> (found: bool) {
    which::which(name).is_ok()
}

impl AutostartEntry {
    pub fn should_show(&self, desktop_env: &str) -> (b: bool)
        ensures
            b == shows_in(*self, desktop_env@),
    {
        if self.hidden {
            return false;
        }
        let env = chars_of(desktop_env);
        if self.only_show_in.len() > 0 {
            return list_mentions(&self.only_show_in, env.as_slice());
        }
        if self.not_show_in.len() > 0 {
            return !list_mentions(&self.not_show_in, env.as_slice());
        }
        true
    }

    /// Whether the entry's `TryExec` program can be found; an entry without
    /// one always passes.
    pub fn try_exec_ok(&self) -> (b: bool)
        ensures
            self.try_exec is None ==> b,
    {
        match &self.try_exec {
            Some(t) => executable_on_path(t.as_str()),
            None => true,
        }
    }
}

/// The characters of an optional string.
pub open spec fn opt_view(o: Option<String>) -> Option<Seq<char>> {
    match o {
        Some(s) => Some(s@),
        None => None,
    }
}

/// The desktop names a list key holds: its value split at `;`, or none when
/// the key is absent.
pub open spec fn list_field(v: Option<Seq<char>>) -> Seq<Seq<char>> {
    match v {
        Some(s) => split_on(s, ';'),
        None => Seq::empty(),
    }
}

/// A desktop file describes an autostart entry when its type is
/// `Application`, it is not marked `NoDisplay`, and it has an `Exec` line.
pub open spec fn describes_entry(p: Seq<(Seq<char>, Seq<char>)>) -> bool {
    &&& field(p, "Type"@) == Some("Application"@)
    &&& !flag(field(p, "NoDisplay"@))
    &&& field(p, "Exec"@) is Some
}

/// The entry read from a desktop file with key/value pairs `p` found at
/// `path`, field by field.
pub open spec fn entry_from_pairs(e: AutostartEntry, p: Seq<(Seq<char>, Seq<char>)>, path: Seq<char>) -> bool {
    &&& e.name@ == (match field(p, "Name"@) {
        Some(n) => n,
        None => "Unknown"@,
    })
    &&& field(p, "Exec"@) == Some(e.exec_cmd@)
    &&& opt_view(e.try_exec) == field(p, "TryExec"@)
    &&& opt_view(e._icon) == field(p, "Icon"@)
    &&& opt_view(e._comment) == field(p, "Comment"@)
    &&& opt_view(e.path) == field(p, "Path"@)
    &&& e._terminal == flag(field(p, "Terminal"@))
    &&& e.hidden == flag(field(p, "Hidden"@))
    &&& views(e.only_show_in@) == list_field(field(p, "OnlyShowIn"@))
    &&& views(e.not_show_in@) == list_field(field(p, "NotShowIn"@))
    &&& (e._source matches AutostartSource::DesktopFile(s) && s@ == path)
}

fn list_value(pairs: &Vec<(Vec<char>, Vec<char>)>, key: &str) -> (r: Vec<String>)
    ensures
        views(r@) == list_field(field(crate::desktop_file::pairs_view(pairs@), key@)),
{
    match field_value(pairs, key) {
        Some(v) => split_list(v.as_slice()),
        None => {
            let r: Vec<String> = Vec::new();
            assert(views(r@) =~= Seq::<Seq<char>>::empty());
            r
        },
    }
}

/// The entries to start, in order: those meant for `env` whose `TryExec`
/// check passed (`found[i]` for entry `i`), among the first `n`.
pub open spec fn launch_order(
    entries: Seq<AutostartEntry>,
    env: Seq<char>,
    found: Seq<bool>,
    n: int,
) -> Seq<usize>
    decreases n,
{
    if n <= 0 {
        Seq::empty()
    } else {
        let before = launch_order(entries, env, found, n - 1);
        let e = entries[n - 1];
        if shows_in(e, env) && (e.try_exec is None || found[n - 1]) {
            before.push((n - 1) as usize)
        } else {
            before
        }
    }
}

/// The session's autostart list, the desktop it runs in, and whether
/// autostart is switched off.
pub struct AutostartManager {
    entries: Vec<AutostartEntry>,
    desktop_env: String,
    disabled: bool,
}

impl AutostartManager {
    pub closed spec fn spec_entries(&self) -> Seq<AutostartEntry> {
        self.entries@
    }

    pub closed spec fn spec_desktop_env(&self) -> Seq<char> {
        self.desktop_env@
    }

    pub closed spec fn spec_disabled(&self) -> bool {
        self.disabled
    }

    /// The desktop name the manager uses when `XDG_CURRENT_DESKTOP` is unset.
    pub open spec fn default_desktop() -> Seq<char> {
        seq!['v', 'i', 't', 'r', 'u', 'm']
    }

    /// An empty, enabled manager for the desktop named by `current_desktop`
    /// (the value of `XDG_CURRENT_DESKTOP`), or `vitrum` when there is none.
    pub fn new(current_desktop: Option<String>) -> (m: AutostartManager)
        ensures
            m.spec_entries().len() == 0,
            !m.spec_disabled(),
            m.spec_desktop_env() == (match current_desktop {
                Some(d) => d@,
                None => Self::default_desktop(),
            }),
    {
        let desktop_env = match current_desktop {
            Some(d) => d,
            None => {
                let s = "vitrum".to_owned();
                proof {
                    reveal_strlit("vitrum");
                }
                assert(s@ =~= Self::default_desktop());
                s
            },
        };
        AutostartManager { entries: Vec::new(), desktop_env, disabled: false }
    }

    /// A manager that starts with `entries`.
    pub fn with_config_entries(entries: Vec<AutostartEntry>, current_desktop: Option<String>) -> (m: AutostartManager)
        ensures
            m.spec_entries() == entries@,
            !m.spec_disabled(),
            m.spec_desktop_env() == (match current_desktop {
                Some(d) => d@,
                None => Self::default_desktop(),
            }),
    {
        let mut manager = Self::new(current_desktop);
        manager.entries = entries;
        manager
    }

    pub fn set_disabled(&mut self, disabled: bool)
        ensures
            final(self).spec_disabled() == disabled,
            final(self).spec_entries() == old(self).spec_entries(),
            final(self).spec_desktop_env() == old(self).spec_desktop_env(),
    {
        self.disabled = disabled;
    }

    pub fn add_config_entry(&mut self, entry: AutostartEntry)
        ensures
            final(self).spec_entries() == old(self).spec_entries().push(entry),
            final(self).spec_disabled() == old(self).spec_disabled(),
            final(self).spec_desktop_env() == old(self).spec_desktop_env(),
    {
        self.entries.push(entry);
    }

    /// The indices of the entries to start, given for each entry whether its
    /// `TryExec` program was found: none when autostart is off, else the
    /// entries meant for this desktop whose check passed, in order.
    pub fn select_launches(&self, try_exec_found: &[bool]) -> (r: Vec<usize>)
        requires
            try_exec_found@.len() == self.spec_entries().len(),
        ensures
            r@ == (if self.spec_disabled() {
                Seq::<usize>::empty()
            } else {
                launch_order(
                    self.spec_entries(),
                    self.spec_desktop_env(),
                    try_exec_found@,
                    self.spec_entries().len() as int,
                )
            }),
    {
        let mut r: Vec<usize> = Vec::new();
        if self.disabled {
            return r;
        }
        let mut i: usize = 0;
        while i < self.entries.len()
            invariant
                i <= self.entries@.len(),
                try_exec_found@.len() == self.entries@.len(),
                r@ == launch_order(self.entries@, self.desktop_env@, try_exec_found@, i as int),
            decreases self.entries.len() - i,
        {
            let e = &self.entries[i];
            if e.should_show(self.desktop_env.as_str()) && (e.try_exec.is_none() || try_exec_found[i]) {
                r.push(i);
            }
            i += 1;
        }
        r
    }

    /// The indices of the entries to start now: `select_launches` applied to
    /// the `TryExec` checks made here.
    pub fn execute(&self) -> (r: Vec<usize>)
        ensures
            self.spec_disabled() ==> r@.len() == 0,
            !self.spec_disabled() ==> exists|found: Seq<bool>|
                found.len() == self.spec_entries().len() && r@ == launch_order(
                    self.spec_entries(),
                    self.spec_desktop_env(),
                    found,
                    self.spec_entries().len() as int,
                ),
    {
        let mut found: Vec<bool> = Vec::new();
        let mut i: usize = 0;
        while i < self.entries.len()
            invariant
                i <= self.entries@.len(),
                found@.len() == i,
            decreases self.entries.len() - i,
        {
            let e = &self.entries[i];
            let ok = if e.should_show(self.desktop_env.as_str()) {
                e.try_exec_ok()
            } else {
                false
            };
            found.push(ok);
            i += 1;
        }
        self.select_launches(found.as_slice())
    }

    /// Reads the `[Desktop Entry]` group of a desktop file's text `content`
    /// (found at `path`): the entry it describes, or `None` when it is no
    /// application, is marked `NoDisplay` or has no `Exec` line.
    pub fn parse_desktop_entry(content: &str, path: &str) -> (r: Option<AutostartEntry>)
        ensures
            r is Some <==> describes_entry(desktop_pairs(content@)),
            r matches Some(e) ==> entry_from_pairs(e, desktop_pairs(content@), path@),
    {
        let pairs = scan_desktop_pairs(content);
        let is_app = match field_value(&pairs, "Type") {
            Some(t) => chars_eq_str(t.as_slice(), "Application"),
            None => false,
        };
        if !is_app {
            return None;
        }
        if field_flag(&pairs, "NoDisplay") {
            return None;
        }
        let exec_cmd = match field_string(&pairs, "Exec") {
            Some(e) => e,
            None => {
                return None;
            },
        };
        let name = match field_string(&pairs, "Name") {
            Some(n) => n,
            None => "Unknown".to_owned(),
        };
        let only_show_in = list_value(&pairs, "OnlyShowIn");
        let not_show_in = list_value(&pairs, "NotShowIn");
        let hidden = field_flag(&pairs, "Hidden");
        let terminal = field_flag(&pairs, "Terminal");
        Some(
            AutostartEntry {
                name,
                exec_cmd,
                try_exec: field_string(&pairs, "TryExec"),
                _icon: field_string(&pairs, "Icon"),
                _comment: field_string(&pairs, "Comment"),
                path: field_string(&pairs, "Path"),
                _terminal: terminal,
                hidden,
                only_show_in,
                not_show_in,
                _source: AutostartSource::DesktopFile(path.to_owned()),
            },
        )
    }

    pub fn entries(&self) -> (r: &[AutostartEntry])
        ensures
            r@ == self.spec_entries(),
    {
        self.entries.as_slice()
    }

    pub fn clear(&mut self)
        ensures
            final(self).spec_entries().len() == 0,
            final(self).spec_disabled() == old(self).spec_disabled(),
            final(self).spec_desktop_env() == old(self).spec_desktop_env(),
    {
        self.entries.clear();
    }
}

/// An entry from the configuration file: shown everywhere, no `TryExec`.
pub fn create_config_entry(name: String, cmd: String) -> (e: AutostartEntry)
    ensures
        e.name@ == name@,
        e.exec_cmd@ == cmd@,
        e.try_exec is None,
        e._icon is None,
        e._comment is None,
        e.path is None,
        !e._terminal,
        !e.hidden,
        e.only_show_in@.len() == 0,
        e.not_show_in@.len() == 0,
        e._source is Config,
{
    AutostartEntry {
        name,
        exec_cmd: cmd,
        try_exec: None,
        _icon: None,
        _comment: None,
        path: None,
        _terminal: false,
        hidden: false,
        only_show_in: Vec::new(),
        not_show_in: Vec::new(),
        _source: AutostartSource::Config,
    }
}

/// Whether `path` names a desktop file: its extension is `desktop`.
pub fn is_desktop_file(path: &str) -> (b: bool)
    ensures
        b == (extension(path@) == Some("desktop"@)),
{
    match path_extension(path) {
        Some(e) => {
            let c = chars_of(e.as_str());
            chars_eq_str(c.as_slice(), "desktop")
        },
        None => false,
    }
}

/// The directories scanned for autostart entries: the system one, then the
/// user's, under `XDG_CONFIG_HOME` when it is set (`config_home`), else
/// under `HOME`.
pub fn autostart_dirs(config_home: Option<String>, home: Option<String>) -> (r: Vec<String>)
    ensures
        views(r@) == seq!["/etc/xdg/autostart"@] + match config_home {
            Some(c) => seq![join_path(c@, "autostart"@)],
            None => match home {
                Some(h) => seq![join_path(h@, ".config/autostart"@)],
                None => Seq::<Seq<char>>::empty(),
            },
        },
{
    let mut dirs: Vec<String> = Vec::new();
    dirs.push("/etc/xdg/autostart".to_owned());
    match config_home {
        Some(c) => dirs.push(join_path_exec(c.as_str(), "autostart")),
        None => match home {
            Some(h) => dirs.push(join_path_exec(h.as_str(), ".config/autostart")),
            None => {},
        },
    }
    assert(views(dirs@) =~= seq!["/etc/xdg/autostart"@] + match config_home {
        Some(c) => seq![join_path(c@, "autostart"@)],
        None => match home {
            Some(h) => seq![join_path(h@, ".config/autostart"@)],
            None => Seq::<Seq<char>>::empty(),
        },
    });
    dirs
}

/// The entry for a program the configuration starts: named after the
/// program, running it with its arguments joined by spaces.
pub fn config_autostart_entry(cmd: String, args: &Vec<String>) -> (e: AutostartEntry)
    ensures
        e.name@ == cmd@,
        e.exec_cmd@ == cmd@ + seq![' '] + joined(args@.map_values(|a: String| a@)),
        e.try_exec is None,
        !e.hidden,
        e.only_show_in@.len() == 0,
        e.not_show_in@.len() == 0,
        e._source is Config,
{
    let mut line = cmd.clone();
    push_char(&mut line, ' ');
    let rest = join_command(args);
    push_str(&mut line, rest.as_str());
    create_config_entry(cmd, line)
}

} // verus!
