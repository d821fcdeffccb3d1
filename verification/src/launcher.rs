use vstd::prelude::*;
use crate::desktop_file::{split_by, split_on, views};
use crate::text::{char_is_whitespace, chars_of, contains_char, is_white_space, string_of, trim, trim_chars, trim_start};
use crate::wallpaper::{join_path, join_path_exec};

verus! {

/// Characters that make a command a shell expression rather than a plain
/// program invocation.
pub open spec fn shell_syntax(c: char) -> bool {
    c == '|' || c == '&' || c == ';' || c == '>' || c == '<' || c == '$' || c == '`' || c == '(' || c == ')'
        || c == '"' || c == '\''
}

/// The length of the word at the start of `s`: the characters before the
/// first white space.
pub open spec fn word_len(s: Seq<char>) -> nat
    decreases s.len(),
{
    if s.len() == 0 || is_white_space(s[0]) {
        0
    } else {
        1 + word_len(s.drop_first())
    }
}

/// The first white-space separated word of `t`, as
/// `split_whitespace().next()` gives it.
pub open spec fn first_word(t: Seq<char>) -> Option<Seq<char>> {
    let s = trim_start(t);
    if s.len() == 0 {
        None
    } else {
        Some(s.subrange(0, word_len(s) as int))
    }
}

/// The program a command runs, when the command is a plain invocation: no
/// shell syntax in the trimmed command, and its first word names the
/// program.
pub open spec fn simple_executable(cmd: Seq<char>) -> Option<Seq<char>> {
    let t = trim(cmd);
    if exists|i: int| 0 <= i < t.len() && shell_syntax(#[trigger] t[i]) {
        None
    } else {
        first_word(t)
    }
}

proof fn lemma_word_len_bound(s: Seq<char>)
    ensures
        word_len(s) <= s.len(),
    decreases s.len(),
{
    if s.len() > 0 && !is_white_space(s[0]) {
        lemma_word_len_bound(s.drop_first());
    }
}

/// The program a command runs, or `None` for a shell expression or a blank
/// command.
pub fn simple_executable_name(command: &str) -> (r: Option<String>)
    ensures
        match r {
            Some(e) => simple_executable(command@) == Some(e@),
            None => simple_executable(command@) is None,
        },
{
    let cs = chars_of(command);
    let t = trim_chars(cs.as_slice());
    let mut i: usize = 0;
    while i < t.len()
        invariant
            i <= t@.len(),
            t@ == trim(command@),
            forall|j: int| 0 <= j < i ==> !shell_syntax(#[trigger] t@[j]),
        decreases t.len() - i,
    {
        let c = t[i];
        if c == '|' || c == '&' || c == ';' || c == '>' || c == '<' || c == '$' || c == '`' || c == '(' || c == ')'
            || c == '"' || c == '\'' {
            assert(shell_syntax(t@[i as int]));
            return None;
        }
        i += 1;
    }
    let n = t.len();
    let mut a: usize = 0;
    assert(t@.subrange(0, n as int) =~= t@);
    while a < n && char_is_whitespace(t[a])
        invariant
            a <= n == t@.len(),
            trim_start(t@) == trim_start(t@.subrange(a as int, n as int)),
        decreases n - a,
    {
        assert(t@.subrange(a as int, n as int).drop_first() =~= t@.subrange(a + 1, n as int));
        a += 1;
    }
    let ghost s = t@.subrange(a as int, n as int);
    assert(trim_start(s) == s);
    if a == n {
        return None;
    }
    let mut b: usize = a;
    proof {
        lemma_word_len_bound(s);
        assert(s.subrange(0, 0) =~= Seq::<char>::empty());
        assert(t@.subrange(b as int, n as int) =~= s);
    }
    while b < n && !char_is_whitespace(t[b])
        invariant
            a <= b <= n == t@.len(),
            s == t@.subrange(a as int, n as int),
            word_len(s) == (b - a) + word_len(t@.subrange(b as int, n as int)),
        decreases n - b,
    {
        assert(t@.subrange(b as int, n as int).drop_first() =~= t@.subrange(b + 1, n as int));
        b += 1;
    }
    assert(word_len(t@.subrange(b as int, n as int)) == 0);
    assert(s.subrange(0, (b - a) as int) =~= t@.subrange(a as int, b as int));
    let word = string_of(slice_of(t.as_slice(), a, b).as_slice());
    Some(word)
}

fn slice_of(t: &[char], from: usize, to: usize) -> (r: Vec<char>)
    requires
        from <= to <= t@.len(),
    ensures
        r@ == t@.subrange(from as int, to as int),
{
    let mut r: Vec<char> = Vec::new();
    let mut k: usize = from;
    while k < to
        invariant
            from <= k <= to <= t@.len(),
            r@ == t@.subrange(from as int, k as int),
        decreases to - k,
    {
        r.push(t[k]);
        k += 1;
        assert(r@ =~= t@.subrange(from as int, k as int));
    }
    r
}

/// What to do before spawning a command.
#[derive(Debug)]
pub enum SpawnPreflight {
    /// The command is blank: refuse it.
    Empty,
    /// A plain invocation of this program: check that it can be found first.
    Executable(String),
    /// A shell expression: hand it to the shell unchecked.
    ShellExpression,
}

/// How `command` is to be spawned.
pub fn spawn_preflight(command: &str) -> (r: SpawnPreflight)
    ensures
        trim(command@).len() == 0 <==> r is Empty,
        trim(command@).len() != 0 ==> match r {
            SpawnPreflight::Executable(e) => simple_executable(command@) == Some(e@),
            SpawnPreflight::ShellExpression => simple_executable(command@) is None,
            SpawnPreflight::Empty => false,
        },
{
    let cs = chars_of(command);
    let t = trim_chars(cs.as_slice());
    if t.len() == 0 {
        return SpawnPreflight::Empty;
    }
    match simple_executable_name(command) {
        Some(e) => SpawnPreflight::Executable(e),
        None => SpawnPreflight::ShellExpression,
    }
}

/// The settings every spawned command inherits: the Wayland socket, set
/// once, and the session's environment.
pub struct LaunchEnvironment {
    wayland_display_socket: Option<String>,
    session_env: Option<Vec<(String, String)>>,
}

impl LaunchEnvironment {
    pub closed spec fn spec_socket(&self) -> Option<Seq<char>> {
        match self.wayland_display_socket {
            Some(s) => Some(s@),
            None => None,
        }
    }

    pub closed spec fn spec_session_env(&self) -> Option<Seq<(String, String)>> {
        match self.session_env {
            Some(v) => Some(v@),
            None => None,
        }
    }

    pub fn new() -> (e: LaunchEnvironment)
        ensures
            e.spec_socket() is None,
            e.spec_session_env() is None,
    {
        LaunchEnvironment { wayland_display_socket: None, session_env: None }
    }
}

/// Records the Wayland socket name; only the first one recorded counts.
pub fn set_wayland_display_socket(env: &mut LaunchEnvironment, socket: String)
    ensures
        final(env).spec_socket() == (match old(env).spec_socket() {
            Some(s) => Some(s),
            None => Some(socket@),
        }),
        final(env).spec_session_env() == old(env).spec_session_env(),
{
    if env.wayland_display_socket.is_none() {
        env.wayland_display_socket = Some(socket);
    }
}

/// Replaces the session environment handed to spawned commands.
pub fn set_session_env(env: &mut LaunchEnvironment, env_map: Vec<(String, String)>)
    ensures
        final(env).spec_session_env() == Some(env_map@),
        final(env).spec_socket() == old(env).spec_socket(),
{
    env.session_env = Some(env_map);
}

pub fn wayland_display_socket(env: &LaunchEnvironment) -> (r: Option<&String>)
    ensures
        match r {
            Some(s) => env.spec_socket() == Some(s@),
            None => env.spec_socket() is None,
        },
{
    match &env.wayland_display_socket {
        Some(s) => Some(s),
        None => None,
    }
}

pub fn session_env(env: &LaunchEnvironment) -> (r: Option<&Vec<(String, String)>>)
    ensures
        match r {
            Some(v) => env.spec_session_env() == Some(v@),
            None => env.spec_session_env() is None,
        },
{
    match &env.session_env {
        Some(v) => Some(v),
        None => None,
    }
}

/// The variables a spawned command gets on top of the compositor's own: the
/// session environment when one is set, else the Wayland socket and session
/// type when the socket is known, else none.
pub fn spawn_env(env: &LaunchEnvironment) -> (r: Vec<(String, String)>)
    ensures
        match env.spec_session_env() {
            Some(v) => r@.len() == v.len() && forall|i: int| 0 <= i < v.len() ==> #[trigger] r@[i].0@ == v[i].0@
                && r@[i].1@ == v[i].1@,
            None => match env.spec_socket() {
                Some(s) => r@.len() == 2 && r@[0].0@ == "WAYLAND_DISPLAY"@ && r@[0].1@ == s && r@[1].0@
                    == "XDG_SESSION_TYPE"@ && r@[1].1@ == "wayland"@,
                None => r@.len() == 0,
            },
        },
{
    match &env.session_env {
        Some(v) => {
            let mut r: Vec<(String, String)> = Vec::new();
            let mut i: usize = 0;
            while i < v.len()
                invariant
                    i <= v@.len(),
                    r@.len() == i,
                    forall|j: int| 0 <= j < i ==> #[trigger] r@[j].0@ == v@[j].0@ && r@[j].1@ == v@[j].1@,
                decreases v.len() - i,
            {
                r.push((v[i].0.clone(), v[i].1.clone()));
                i += 1;
            }
            r
        },
        None => match &env.wayland_display_socket {
            Some(s) => {
                let mut r: Vec<(String, String)> = Vec::new();
                r.push(("WAYLAND_DISPLAY".to_owned(), s.clone()));
                r.push(("XDG_SESSION_TYPE".to_owned(), "wayland".to_owned()));
                r
            },
            None => Vec::new(),
        },
    }
}

/// Where to look for `executable`: the path itself when it names a
/// directory, else the executable joined to each entry of the `PATH` value
/// `path_var`, in order.
pub open spec fn executable_paths(executable: Seq<char>, path_var: Seq<char>) -> Seq<Seq<char>> {
    if executable.contains('/') {
        seq![executable]
    } else {
        split_on(path_var, ':').map_values(|dir: Seq<char>| join_path(dir, executable))
    }
}

/// The files to try, in order, when looking for `executable` with the
/// `PATH` value `path_var`.
pub fn executable_candidates(executable: &str, path_var: &str) -> (r: Vec<String>)
    ensures
        views(r@) == executable_paths(executable@, path_var@),
{
    let e = chars_of(executable);
    if contains_char(e.as_slice(), '/') {
        let mut r: Vec<String> = Vec::new();
        r.push(executable.to_owned());
        assert(views(r@) =~= seq![executable@]);
        return r;
    }
    let p = chars_of(path_var);
    let dirs = split_by(p.as_slice(), ':');
    let ghost dv = views(dirs@);
    let mut r: Vec<String> = Vec::new();
    let mut i: usize = 0;
    while i < dirs.len()
        invariant
            i <= dirs@.len(),
            dv == views(dirs@),
            dv == split_on(path_var@, ':'),
            views(r@) == dv.subrange(0, i as int).map_values(|dir: Seq<char>| join_path(dir, executable@)),
        decreases dirs.len() - i,
    {
        let c = join_path_exec(dirs[i].as_str(), executable);
        let ghost before = views(r@);
        assert(dv[i as int] == dirs@[i as int]@);
        r.push(c);
        assert(views(r@) =~= before.push(c@));
        i += 1;
        assert(views(r@) =~= dv.subrange(0, i as int).map_values(|dir: Seq<char>| join_path(dir, executable@)));
    }
    assert(dv.subrange(0, dv.len() as int) =~= dv);
    r
}

} // verus!
