use vstd::prelude::*;
use crate::ipc::{WindowInfo, WorkspaceInfo};
use crate::ipc_handler::{IpcCommand, OsdIcon};
use crate::text::{chars_eq_str, chars_of, push_char, push_str};
use crate::wallpaper::FitMode;
use crate::window::WindowId;

verus! {

/// What `vitrumctl query` can ask about.
#[derive(Debug, Clone, Copy, PartialEq, Eq, Structural)]
pub enum QueryTarget {
    Windows,
    Workspaces,
    Outputs,
    Layouts,
    State,
    Focused,
    Theme,
    Active,
}

/// The query target a name stands for.
pub open spec fn query_target_named(s: Seq<char>) -> Option<QueryTarget> {
    if s == "windows"@ {
        Some(QueryTarget::Windows)
    } else if s == "workspaces"@ {
        Some(QueryTarget::Workspaces)
    } else if s == "outputs"@ {
        Some(QueryTarget::Outputs)
    } else if s == "layouts"@ {
        Some(QueryTarget::Layouts)
    } else if s == "state"@ {
        Some(QueryTarget::State)
    } else if s == "focused"@ {
        Some(QueryTarget::Focused)
    } else if s == "theme"@ {
        Some(QueryTarget::Theme)
    } else if s == "active"@ {
        Some(QueryTarget::Active)
    } else {
        None
    }
}

/// The query target named `s`, if any.
pub fn parse_query_target(s: &str) -> (r: Option<QueryTarget>)
    ensures
        r == query_target_named(s@),
{
    let c = chars_of(s);
    let c = c.as_slice();
    if chars_eq_str(c, "windows") {
        Some(QueryTarget::Windows)
    } else if chars_eq_str(c, "workspaces") {
        Some(QueryTarget::Workspaces)
    } else if chars_eq_str(c, "outputs") {
        Some(QueryTarget::Outputs)
    } else if chars_eq_str(c, "layouts") {
        Some(QueryTarget::Layouts)
    } else if chars_eq_str(c, "state") {
        Some(QueryTarget::State)
    } else if chars_eq_str(c, "focused") {
        Some(QueryTarget::Focused)
    } else if chars_eq_str(c, "theme") {
        Some(QueryTarget::Theme)
    } else if chars_eq_str(c, "active") {
        Some(QueryTarget::Active)
    } else {
        None
    }
}

/// The icon an `osd` command names; an unknown name is a custom icon.
pub open spec fn osd_icon_named(s: Seq<char>) -> OsdIcon {
    if s == "volume"@ {
        OsdIcon::Volume
    } else if s == "brightness"@ {
        OsdIcon::Brightness
    } else if s == "mute"@ {
        OsdIcon::Mute
    } else if s == "mic-mute"@ {
        OsdIcon::MicMute
    } else if s == "capslock"@ {
        OsdIcon::CapsLock
    } else {
        OsdIcon::Custom
    }
}

/// The icon named `s`.
pub fn parse_osd_icon(s: &str) -> (r: OsdIcon)
    ensures
        r == osd_icon_named(s@),
{
    let c = chars_of(s);
    let c = c.as_slice();
    if chars_eq_str(c, "volume") {
        OsdIcon::Volume
    } else if chars_eq_str(c, "brightness") {
        OsdIcon::Brightness
    } else if chars_eq_str(c, "mute") {
        OsdIcon::Mute
    } else if chars_eq_str(c, "mic-mute") {
        OsdIcon::MicMute
    } else if chars_eq_str(c, "capslock") {
        OsdIcon::CapsLock
    } else {
        OsdIcon::Custom
    }
}

/// The fit a `wallpaper --fit` argument names exactly; anything else fills.
pub open spec fn fit_arg_named(s: Seq<char>) -> FitMode {
    if s == "fit"@ {
        FitMode::Fit
    } else if s == "center"@ {
        FitMode::Center
    } else if s == "tile"@ {
        FitMode::Tile
    } else {
        FitMode::Fill
    }
}

/// The fit named by a `wallpaper --fit` argument.
pub fn parse_fit_arg(s: &str) -> (r: FitMode)
    ensures
        r == fit_arg_named(s@),
{
    let c = chars_of(s);
    let c = c.as_slice();
    if chars_eq_str(c, "fit") {
        FitMode::Fit
    } else if chars_eq_str(c, "center") {
        FitMode::Center
    } else if chars_eq_str(c, "tile") {
        FitMode::Tile
    } else {
        FitMode::Fill
    }
}

/// A `wallpaper` command that names no path, colour or directory.
#[derive(Debug, Clone, Copy, PartialEq, Eq, Structural)]
pub enum WallpaperArgError {
    NothingToShow,
}

/// The request a `wallpaper` command makes: a colour wins over a slideshow
/// directory, which wins over an image path.
pub fn wallpaper_request(
    path: Option<String>,
    fit: &str,
    color: Option<String>,
    slideshow_dir: Option<String>,
    interval: u32,
) -> (r: Result<IpcCommand, WallpaperArgError>)
    ensures
        match color {
            Some(c) => r == Ok::<IpcCommand, WallpaperArgError>(IpcCommand::WallpaperColor { color: c }),
            None => match slideshow_dir {
                Some(d) => r == Ok::<IpcCommand, WallpaperArgError>(IpcCommand::WallpaperSlideshow { dir: d, interval_secs: interval }),
                None => match path {
                    Some(p) => r == Ok::<IpcCommand, WallpaperArgError>(IpcCommand::WallpaperSet { path: p, fit: fit_arg_named(fit@) }),
                    None => r == Err::<IpcCommand, WallpaperArgError>(WallpaperArgError::NothingToShow),
                },
            },
        },
{
    match color {
        Some(color) => Ok(IpcCommand::WallpaperColor { color }),
        None => match slideshow_dir {
            Some(dir) => Ok(IpcCommand::WallpaperSlideshow { dir, interval_secs: interval }),
            None => match path {
                Some(path) => Ok(IpcCommand::WallpaperSet { path, fit: parse_fit_arg(fit) }),
                None => Err(WallpaperArgError::NothingToShow),
            },
        },
    }
}

/// The request a hidden `dispatch` command makes: `lock` and
/// `reload-config` are requests of their own; anything else is spawned.
pub fn dispatch_request(cmd: &str) -> (r: IpcCommand)
    ensures
        if cmd@ == "lock"@ {
            r == IpcCommand::Lock
        } else if cmd@ == "reload-config"@ {
            r == IpcCommand::ReloadConfig
        } else {
            r matches IpcCommand::Spawn { cmd: c } && c@ == cmd@
        },
{
    let c = chars_of(cmd);
    if chars_eq_str(c.as_slice(), "lock") {
        IpcCommand::Lock
    } else if chars_eq_str(c.as_slice(), "reload-config") {
        IpcCommand::ReloadConfig
    } else {
        IpcCommand::Spawn { cmd: cmd.to_owned() }
    }
}

/// The words of a command line joined by single spaces.
pub open spec fn joined(words: Seq<Seq<char>>) -> Seq<char>
    decreases words.len(),
{
    if words.len() == 0 {
        Seq::empty()
    } else if words.len() == 1 {
        words[0]
    } else {
        joined(words.drop_last()) + seq![' '] + words.last()
    }
}

/// The command line a `spawn` command sends: its words joined by spaces.
pub fn join_command(words: &Vec<String>) -> (r: String)
    ensures
        r@ == joined(words@.map_values(|w: String| w@)),
{
    let ghost views = words@.map_values(|w: String| w@);
    let mut r = String::new();
    let mut i: usize = 0;
    while i < words.len()
        invariant
            i <= words@.len(),
            views == words@.map_values(|w: String| w@),
            r@ == joined(views.subrange(0, i as int)),
        decreases words.len() - i,
    {
        let ghost next = views.subrange(0, i + 1);
        assert(next.drop_last() =~= views.subrange(0, i as int));
        if i > 0 {
            push_char(&mut r, ' ');
        }
        push_str(&mut r, words[i].as_str());
        i += 1;
        proof {
            if i == 1 {
                assert(next.len() == 1);
                assert(r@ =~= next[0]);
            } else {
                assert(r@ =~= joined(next.drop_last()) + seq![' '] + next.last());
            }
        }
    }
    assert(views.subrange(0, views.len() as int) =~= views);
    r
}

/// The app name a `notify` command sends: the one given, else `vitrumctl`.
pub fn notify_app_name(app_name: Option<String>) -> (r: String)
    ensures
        match app_name {
            Some(a) => r == a,
            None => r@ == "vitrumctl"@,
        },
{
    match app_name {
        Some(a) => a,
        None => "vitrumctl".to_owned(),
    }
}

/// The first active workspace of `ws`, if any.
pub open spec fn active_workspace_in(ws: Seq<WorkspaceInfo>, n: int) -> Option<u32>
    decreases n,
{
    if n <= 0 {
        None
    } else {
        match active_workspace_in(ws, n - 1) {
            Some(id) => Some(id),
            None => if ws[n - 1].active {
                Some(ws[n - 1].id)
            } else {
                None
            },
        }
    }
}

/// The active workspace a workspace list reports: the first one marked active.
pub fn active_workspace_id(workspaces: &[WorkspaceInfo]) -> (r: Option<u32>)
    ensures
        r == active_workspace_in(workspaces@, workspaces@.len() as int),
{
    let mut i: usize = 0;
    while i < workspaces.len()
        invariant
            i <= workspaces@.len(),
            active_workspace_in(workspaces@, i as int) is None,
        decreases workspaces.len() - i,
    {
        if workspaces[i].active {
            proof {
                lemma_active_stays(workspaces@, i + 1, workspaces@.len() as int);
            }
            return Some(workspaces[i].id);
        }
        i += 1;
    }
    None
}

proof fn lemma_active_stays(ws: Seq<WorkspaceInfo>, n: int, m: int)
    requires
        n <= m,
        active_workspace_in(ws, n) is Some,
    ensures
        active_workspace_in(ws, m) == active_workspace_in(ws, n),
    decreases m - n,
{
    if n < m {
        lemma_active_stays(ws, n, m - 1);
    }
}

/// The window of `ws` with the greatest id among those on workspace
/// `active`; of equal ids the last one.
pub open spec fn newest_on(ws: Seq<WindowInfo>, active: u32, n: int) -> Option<WindowId>
    decreases n,
{
    if n <= 0 {
        None
    } else {
        let best = newest_on(ws, active, n - 1);
        let w = ws[n - 1];
        if w.workspace == active && (best matches Some(b) ==> b.0 <= w.id.0) {
            Some(w.id)
        } else {
            best
        }
    }
}

/// The window a command without `--id` acts on: the one with the greatest
/// id on the active workspace.
pub fn active_workspace_window(windows: &[WindowInfo], active: u32) -> (r: Option<WindowId>)
    ensures
        r == newest_on(windows@, active, windows@.len() as int),
{
    let mut best: Option<WindowId> = None;
    let mut i: usize = 0;
    while i < windows.len()
        invariant
            i <= windows@.len(),
            best == newest_on(windows@, active, i as int),
        decreases windows.len() - i,
    {
        let w = &windows[i];
        if w.workspace == active {
            let take = match best {
                Some(b) => b.0 <= w.id.0,
                None => true,
            };
            if take {
                best = Some(w.id);
            }
        }
        i += 1;
    }
    best
}

/// The first window of `ws` with id `id`, by place.
pub open spec fn window_with_id(ws: Seq<WindowInfo>, id: u64, n: int) -> Option<int>
    decreases n,
{
    if n <= 0 {
        None
    } else {
        match window_with_id(ws, id, n - 1) {
            Some(i) => Some(i),
            None => if ws[n - 1].id.0 == id {
                Some(n - 1)
            } else {
                None
            },
        }
    }
}

/// Where the first window with id `id` stands in `windows`.
pub fn find_window(windows: &[WindowInfo], id: u64) -> (r: Option<usize>)
    ensures
        match r {
            Some(i) => window_with_id(windows@, id, windows@.len() as int) == Some(i as int),
            None => window_with_id(windows@, id, windows@.len() as int) is None,
        },
{
    let mut i: usize = 0;
    while i < windows.len()
        invariant
            i <= windows@.len(),
            window_with_id(windows@, id, i as int) is None,
        decreases windows.len() - i,
    {
        if windows[i].id.0 == id {
            proof {
                lemma_found_stays(windows@, id, i + 1, windows@.len() as int);
            }
            return Some(i);
        }
        i += 1;
    }
    None
}

proof fn lemma_found_stays(ws: Seq<WindowInfo>, id: u64, n: int, m: int)
    requires
        n <= m,
        window_with_id(ws, id, n) is Some,
    ensures
        window_with_id(ws, id, m) == window_with_id(ws, id, n),
    decreases m - n,
{
    if n < m {
        lemma_found_stays(ws, id, n, m - 1);
    }
}

/// A place as an integer.
pub open spec fn place_of(r: Option<usize>) -> Option<int> {
    match r {
        Some(i) => Some(i as int),
        None => None,
    }
}

/// The place of the window a command acts on: the one with `id` when given,
/// else the newest window of the active workspace (`active_window`).
pub fn resolve_target_window(windows: &[WindowInfo], id: Option<u64>, active_window: Option<WindowId>) -> (r: Option<usize>)
    ensures
        match id {
            Some(x) => place_of(r) == window_with_id(windows@, x, windows@.len() as int),
            None => match active_window {
                Some(a) => place_of(r) == window_with_id(windows@, a.0, windows@.len() as int),
                None => r is None,
            },
        },
{
    match id {
        Some(x) => find_window(windows, x),
        None => match active_window {
            Some(a) => find_window(windows, a.0),
            None => None,
        },
    }
}

/// The windows of `ws` on workspace `active`, in order.
pub open spec fn on_workspace(ws: Seq<WindowInfo>, active: u32) -> Seq<WindowInfo>
    decreases ws.len(),
{
    if ws.len() == 0 {
        ws
    } else if ws.last().workspace == active {
        on_workspace(ws.drop_last(), active).push(ws.last())
    } else {
        on_workspace(ws.drop_last(), active)
    }
}

/// The places of the windows on workspace `active`, in order.
pub fn windows_on_workspace(windows: &[WindowInfo], active: u32) -> (r: Vec<usize>)
    ensures
        r@.map_values(|i: usize| windows@[i as int]) == on_workspace(windows@, active),
        forall|k: int| 0 <= k < r@.len() ==> r@[k] < windows@.len(),
{
    let mut r: Vec<usize> = Vec::new();
    let mut i: usize = 0;
    while i < windows.len()
        invariant
            i <= windows@.len(),
            r@.map_values(|k: usize| windows@[k as int]) == on_workspace(windows@.subrange(0, i as int), active),
            forall|k: int| 0 <= k < r@.len() ==> r@[k] < i,
        decreases windows.len() - i,
    {
        let ghost next = windows@.subrange(0, i + 1);
        assert(next.drop_last() =~= windows@.subrange(0, i as int));
        if windows[i].workspace == active {
            r.push(i);
        }
        assert(r@.map_values(|k: usize| windows@[k as int]) =~= on_workspace(next, active));
        i += 1;
    }
    assert(windows@.subrange(0, windows@.len() as int) =~= windows@);
    r
}

} // verus!
