use vstd::prelude::*;
use crate::ipc::IpcEvent;
use crate::ipc_handler::{announced, opacity_set, SpawnOrigin};
use crate::keybind::{binds, Action, KeyModifiers, KeyState, Keybind, KeybindManager, Keysym};
use crate::layout::LayoutMode;
use crate::state::{
    data_of, entry_relaid, focus_direction_post, focused_window, has_key, kill_window_post, laid_out_state,
    layout_configured, layout_set, resized_by, swap_windows_post, switch_workspace_post, toggle_floating_post,
    toggle_fullscreen_post, toggle_pinned_post, workspace_move_done, Direction, State,
};
use crate::text::{all_ascii, ascii_lowered, chars_eq_str, chars_of, lowercase, to_lowercase};
use crate::window::{WindowData, WindowId};
use crate::workspace::{next_id, prev_id, WORKSPACE_COUNT};

verus! {

/// What the configuration file watcher reports.
#[derive(Debug)]
pub enum ConfigEvent {
    Reloaded,
    Error(String),
}

/// A window rule: windows whose app id or title contains the given text
/// (ignoring case) go to a workspace, float, or are pinned.
#[derive(Debug)]
pub struct WindowRule {
    pub match_class: Option<String>,
    pub match_title: Option<String>,
    pub workspace: Option<u32>,
    pub floating: Option<bool>,
    pub pin: Option<bool>,
}

/// The layout settings of the configuration.
#[derive(Debug)]
pub struct LayoutConfig {
    pub gaps_inner: u32,
    pub gaps_outer: u32,
    pub default_mode: String,
}

/// `needle` occurs in `hay` as a contiguous run (the empty text occurs
/// everywhere).
pub open spec fn occurs_in(hay: Seq<char>, needle: Seq<char>) -> bool {
    exists|i: int| 0 <= i && i + needle.len() <= hay.len() && #[trigger] hay.subrange(i, i + needle.len()) == needle
}

/// Whether `needle` occurs in `hay` as a contiguous run.
pub fn occurs_in_exec(hay: &[char], needle: &[char]) -> (r: bool)
    ensures
        r == occurs_in(hay@, needle@),
{
    let n = hay.len();
    let m = needle.len();
    if m == 0 {
        assert(hay@.subrange(0int, 0int + needle@.len()) =~= needle@);
        return true;
    }
    if m > n {
        return false;
    }
    let last = n - m;
    let mut i: usize = 0;
    while i <= last
        invariant
            n == hay@.len(),
            m == needle@.len(),
            m >= 1,
            last == hay@.len() - needle@.len(),
            i <= last + 1,
            forall|k: int| 0 <= k < i ==> #[trigger] hay@.subrange(k, k + needle@.len()) != needle@,
        decreases last + 1 - i,
    {
        let mut j: usize = 0;
        let mut same = true;
        while same && j < m
            invariant
                n == hay@.len(),
                m == needle@.len(),
                i <= last,
                last == hay@.len() - needle@.len(),
                i + needle@.len() <= hay@.len(),
                j <= needle@.len(),
                forall|t: int| 0 <= t < j ==> hay@[i + t] == needle@[t],
                !same ==> j < needle@.len() && hay@[i + j] != needle@[j as int],
            decreases m - j + (if same { 1int } else { 0int }),
        {
            if hay[i + j] == needle[j] {
                j += 1;
            } else {
                same = false;
            }
        }
        if same {
            assert(hay@.subrange(i as int, i + needle@.len()) =~= needle@);
            return true;
        }
        assert(hay@.subrange(i as int, i + needle@.len())[j as int] != needle@[j as int]);
        i += 1;
    }
    proof {
        assert forall|k: int| 0 <= k && k + needle@.len() <= hay@.len() implies #[trigger] hay@.subrange(k, k + needle@.len()) != needle@ by {
            assert(k < i);
        }
    }
    false
}

/// `text`, lowercased, contains `pattern`, lowercased.
pub open spec fn contains_ignoring_case(text: Seq<char>, pattern: Seq<char>) -> bool {
    occurs_in(lowercase(text), lowercase(pattern))
}

/// A rule applies to a window when its class pattern occurs in the app id or
/// its title pattern occurs in the title, ignoring case.
pub open spec fn rule_applies(r: WindowRule, app_id: Seq<char>, title: Seq<char>) -> bool {
    ||| (r.match_class matches Some(c) && contains_ignoring_case(app_id, c@))
    ||| (r.match_title matches Some(t) && contains_ignoring_case(title, t@))
}

fn contains_ignoring_case_exec(text: &str, pattern: &str) -> (r: bool)
    ensures
        r == contains_ignoring_case(text@, pattern@),
{
    let t = to_lowercase(text);
    let p = to_lowercase(pattern);
    let tc = chars_of(t.as_str());
    let pc = chars_of(p.as_str());
    occurs_in_exec(tc.as_slice(), pc.as_slice())
}

/// The workspace, floating and pinning settings of a rule.
pub type RuleSettings = (Option<u32>, Option<bool>, Option<bool>);

/// The settings of the first rule among the first `n` that applies to a
/// window with this app id and title.
pub open spec fn first_rule(rules: Seq<WindowRule>, app_id: Seq<char>, title: Seq<char>, n: int) -> Option<RuleSettings>
    decreases n,
{
    if n <= 0 {
        None
    } else {
        match first_rule(rules, app_id, title, n - 1) {
            Some(m) => Some(m),
            None => if rule_applies(rules[n - 1], app_id, title) {
                Some((rules[n - 1].workspace, rules[n - 1].floating, rules[n - 1].pin))
            } else {
                None
            },
        }
    }
}

proof fn lemma_first_rule_stable(rules: Seq<WindowRule>, app_id: Seq<char>, title: Seq<char>, i: int, n: int)
    requires
        0 <= i <= n,
        first_rule(rules, app_id, title, i) is Some,
    ensures
        first_rule(rules, app_id, title, n) == first_rule(rules, app_id, title, i),
    decreases n - i,
{
    if n > i {
        lemma_first_rule_stable(rules, app_id, title, i, n - 1);
    }
}

/// The class pattern of rule `r` occurs in `app_id`, ignoring case.
pub open spec fn class_matches(r: WindowRule, app_id: Seq<char>) -> bool {
    r.match_class matches Some(c) && occurs_in(lowercase(app_id), lowercase(c@))
}

/// The title pattern of rule `r` occurs in `title`, ignoring case.
pub open spec fn title_matches(r: WindowRule, title: Seq<char>) -> bool {
    r.match_title matches Some(t) && occurs_in(lowercase(title), lowercase(t@))
}

proof fn lemma_no_rule_before(rules: Seq<WindowRule>, app_id: Seq<char>, title: Seq<char>, n: int)
    requires
        0 <= n <= rules.len(),
        forall|j: int| 0 <= j < n ==> !class_matches(#[trigger] rules[j], app_id) && !title_matches(rules[j], title),
    ensures
        first_rule(rules, app_id, title, n) is None,
    decreases n,
{
    if n > 0 {
        lemma_no_rule_before(rules, app_id, title, n - 1);
        assert(!class_matches(rules[n - 1], app_id) && !title_matches(rules[n - 1], title));
    }
}

/// Law of window rules: the first rule whose class pattern occurs in the app
/// id, or whose title pattern occurs in the title (either one suffices,
/// ignoring case), gives the settings; when no rule matches either way,
/// there are none.
pub proof fn lemma_first_matching_rule(rules: Seq<WindowRule>, app_id: Seq<char>, title: Seq<char>, k: int)
    requires
        0 <= k <= rules.len(),
        forall|j: int| 0 <= j < k ==> !class_matches(#[trigger] rules[j], app_id) && !title_matches(rules[j], title),
    ensures
        k < rules.len() && (class_matches(rules[k], app_id) || title_matches(rules[k], title)) ==> first_rule(
            rules,
            app_id,
            title,
            rules.len() as int,
        ) == Some((rules[k].workspace, rules[k].floating, rules[k].pin)),
        k == rules.len() ==> first_rule(rules, app_id, title, rules.len() as int) is None,
{
    lemma_no_rule_before(rules, app_id, title, k);
    if k < rules.len() && (class_matches(rules[k], app_id) || title_matches(rules[k], title)) {
        assert(first_rule(rules, app_id, title, k + 1) == Some((rules[k].workspace, rules[k].floating, rules[k].pin)));
        lemma_first_rule_stable(rules, app_id, title, k + 1, rules.len() as int);
    }
}

/// The workspace, floating and pinning settings of the first rule that
/// applies to a window with this app id and title.
pub fn match_window_rules(rules: &[WindowRule], app_id: &str, title: &str) -> (r: Option<RuleSettings>)
    ensures
        r == first_rule(rules@, app_id@, title@, rules@.len() as int),
{
    let mut i: usize = 0;
    while i < rules.len()
        invariant
            i <= rules@.len(),
            first_rule(rules@, app_id@, title@, i as int) is None,
        decreases rules.len() - i,
    {
        let rule = &rules[i];
        let class_ok = match &rule.match_class {
            Some(c) => contains_ignoring_case_exec(app_id, c.as_str()),
            None => false,
        };
        let title_ok = match &rule.match_title {
            Some(t) => contains_ignoring_case_exec(title, t.as_str()),
            None => false,
        };
        if class_ok || title_ok {
            assert(rule_applies(rules@[i as int], app_id@, title@));
            proof {
                lemma_first_rule_stable(rules@, app_id@, title@, i + 1, rules@.len() as int);
            }
            return Some((rule.workspace, rule.floating, rule.pin));
        }
        i += 1;
    }
    None
}

/// The layout mode a configuration name stands for: `dwindle`, `master`
/// (also `master-stack` and `master_stack`), or `floating`.
pub open spec fn layout_mode_named(s: Seq<char>) -> Option<LayoutMode> {
    if s == "dwindle"@ {
        Some(LayoutMode::Dwindle)
    } else if s == "master"@ || s == "master-stack"@ || s == "master_stack"@ {
        Some(LayoutMode::MasterStack)
    } else if s == "floating"@ {
        Some(LayoutMode::Floating)
    } else {
        None
    }
}

pub fn parse_layout_mode(s: &str) -> (r: Option<LayoutMode>)
    ensures
        r == layout_mode_named(s@),
{
    let c = chars_of(s);
    if chars_eq_str(c.as_slice(), "dwindle") {
        Some(LayoutMode::Dwindle)
    } else if chars_eq_str(c.as_slice(), "master") || chars_eq_str(c.as_slice(), "master-stack") || chars_eq_str(
        c.as_slice(),
        "master_stack",
    ) {
        Some(LayoutMode::MasterStack)
    } else if chars_eq_str(c.as_slice(), "floating") {
        Some(LayoutMode::Floating)
    } else {
        None
    }
}

} // verus!

verus! {

/// The direction a configuration names, in lower case: `left`, `right`,
/// `up` or `down`.
pub open spec fn direction_named(s: Seq<char>) -> Option<Direction> {
    if s == "left"@ {
        Some(Direction::Left)
    } else if s == "right"@ {
        Some(Direction::Right)
    } else if s == "up"@ {
        Some(Direction::Up)
    } else if s == "down"@ {
        Some(Direction::Down)
    } else {
        None
    }
}

/// The direction `s` names, ignoring case.
pub fn parse_direction(s: &str) -> (r: Option<Direction>)
    ensures
        r == direction_named(lowercase(s@)),
        all_ascii(s@) ==> r == direction_named(ascii_lowered(s@)),
{
    let l = to_lowercase(s);
    direction_from_lowered(l.as_str())
}

/// The direction the lowercased name `l` gives.
pub fn direction_from_lowered(l: &str) -> (r: Option<Direction>)
    ensures
        r == direction_named(l@),
{
    let c = chars_of(l);
    if chars_eq_str(c.as_slice(), "left") {
        Some(Direction::Left)
    } else if chars_eq_str(c.as_slice(), "right") {
        Some(Direction::Right)
    } else if chars_eq_str(c.as_slice(), "up") {
        Some(Direction::Up)
    } else if chars_eq_str(c.as_slice(), "down") {
        Some(Direction::Down)
    } else {
        None
    }
}

/// The bits of `f32::from_bits(b).clamp(0.0, 1.0)`. IEEE-754 orders the
/// values of one sign as their magnitude bits: a NaN stays as it is, a
/// negative value but -0.0 becomes 0.0, and a value above 1.0 becomes 1.0.
pub open spec fn clamped_unit_bits(b: u32) -> u32 {
    let magnitude = b % 0x8000_0000;
    if magnitude > 0x7f80_0000 {
        b
    } else if b >= 0x8000_0000 {
        if magnitude == 0 {
            b
        } else {
            0
        }
    } else if b > 0x3f80_0000 {
        0x3f80_0000
    } else {
        b
    }
}

/// Clamps an opacity, given as the bits of an `f32`, to the range 0 to 1.
pub fn clamp_unit_bits(b: u32) -> (r: u32)
    ensures
        r == clamped_unit_bits(b),
{
    let magnitude = b % 0x8000_0000;
    if magnitude > 0x7f80_0000 {
        b
    } else if b >= 0x8000_0000 {
        if magnitude == 0 {
            b
        } else {
            0
        }
    } else if b > 0x3f80_0000 {
        0x3f80_0000
    } else {
        b
    }
}

/// A count of the configuration as an `i32`, `i32::MAX` when it does not fit.
pub fn saturating_i32(v: u32) -> (r: i32)
    ensures
        r == (if v <= i32::MAX {
            v as int
        } else {
            i32::MAX as int
        }),
{
    if v <= 0x7fff_ffff {
        v as i32
    } else {
        i32::MAX
    }
}

/// The first window of `order` among its first `n`, other than `f`, that is
/// known and on workspace `w`.
pub open spec fn swap_partner(order: Seq<WindowId>, ws: Seq<(WindowId, WindowData)>, f: WindowId, w: u32, n: int) -> Option<WindowId>
    decreases n,
{
    if n <= 0 {
        None
    } else {
        match swap_partner(order, ws, f, w, n - 1) {
            Some(x) => Some(x),
            None => {
                let id = order[n - 1];
                if id != f && has_key(ws, id) && data_of(ws, id).workspace == w {
                    Some(id)
                } else {
                    None
                }
            },
        }
    }
}

/// The window that swaps places with the focused window `f`: the first one
/// in stacking order on the same workspace.
pub open spec fn swap_partner_of(s: State, f: WindowId) -> Option<WindowId> {
    if has_key(s.spec_windows(), f) {
        swap_partner(s.spec_order(), s.spec_windows(), f, data_of(s.spec_windows(), f).workspace, s.spec_order().len() as int)
    } else {
        None
    }
}

/// What is left to do outside the window manager after a key binding's action.
#[derive(Debug)]
pub enum ActionOutcome {
    Done,
    /// Spawn `command` on behalf of `origin`; a failure is only reported.
    Spawn { command: String, origin: SpawnOrigin },
    /// Spawn the configured lock command; a failure is only reported.
    SpawnLockClient { origin: SpawnOrigin },
    /// Reload the configuration and apply it.
    ReloadConfig,
    /// End the compositor.
    Quit,
}

/// `step` holds of the focused window, or nothing changes when none has the focus.
pub open spec fn on_focused(a: State, b: State, step: spec_fn(WindowId) -> bool) -> bool {
    match focused_window(a) {
        Some(id) => step(id),
        None => b == a,
    }
}

/// What running action `act` in state `a` leaves: the state `b` and what is
/// left to do outside, `r`.
pub open spec fn action_done(a: State, act: Action, b: State, r: ActionOutcome) -> bool {
    match act {
        Action::Spawn { cmd } => b == a && r == ActionOutcome::Spawn { command: cmd, origin: SpawnOrigin::Config },
        Action::KillFocused => r == ActionOutcome::Done && on_focused(a, b, |id: WindowId| kill_window_post(a, b, id)),
        Action::FocusDirection { dir } => r == ActionOutcome::Done && match direction_named(lowercase(dir@)) {
            Some(d) => focus_direction_post(a, b, d),
            None => b == a,
        },
        Action::MoveToWorkspace { workspace } => r == ActionOutcome::Done && on_focused(
            a,
            b,
            |id: WindowId| workspace_move_done(a, b, id, workspace),
        ),
        Action::SwitchWorkspace { workspace } => r == ActionOutcome::Done && switch_workspace_post(a, b, workspace),
        Action::NextWorkspace => r == ActionOutcome::Done && switch_workspace_post(a, b, next_id(a.active_ws())),
        Action::PrevWorkspace => r == ActionOutcome::Done && switch_workspace_post(a, b, prev_id(a.active_ws())),
        Action::ToggleFloat => r == ActionOutcome::Done && on_focused(a, b, |id: WindowId| toggle_floating_post(a, b, id)),
        Action::ToggleFullscreen => r == ActionOutcome::Done && on_focused(a, b, |id: WindowId| toggle_fullscreen_post(a, b, id)),
        Action::TogglePin => r == ActionOutcome::Done && on_focused(a, b, |id: WindowId| toggle_pinned_post(a, b, id)),
        Action::SetLayout { mode } => r == ActionOutcome::Done && match layout_mode_named(mode@) {
            Some(m) => layout_set(a, b, a.active_ws(), m),
            None => b == a,
        },
        Action::ReloadConfig => b == a && r == ActionOutcome::ReloadConfig,
        Action::Quit => b == a && r == ActionOutcome::Quit,
        Action::SwapWindow => r == ActionOutcome::Done && on_focused(
            a,
            b,
            |id: WindowId| match swap_partner_of(a, id) {
                Some(n) => swap_windows_post(a, b, id, n),
                None => b == a,
            },
        ),
        Action::SetOpacity { value_bits } => r == ActionOutcome::Done && on_focused(
            a,
            b,
            |id: WindowId| opacity_set(a, b, id, clamped_unit_bits(value_bits)),
        ),
        Action::ResizeDelta { dw, dh } => r == ActionOutcome::Done && on_focused(
            a,
            b,
            |id: WindowId| entry_relaid(a, b, id, resized_by(data_of(a.spec_windows(), id), dw, dh)),
        ),
        Action::Lock => b == a && r == ActionOutcome::SpawnLockClient { origin: SpawnOrigin::KeybindLock },
        Action::Dispatch { cmd } => b == a && if cmd@ == "lock"@ {
            r == ActionOutcome::SpawnLockClient { origin: SpawnOrigin::KeybindDispatch }
        } else if cmd@ == "reload-config"@ {
            r == ActionOutcome::ReloadConfig
        } else {
            r == ActionOutcome::Spawn { command: cmd, origin: SpawnOrigin::KeybindDispatch }
        },
    }
}

/// Runs the action of a key binding on the window-manager state.
pub fn execute_action(action: &Action, state: &mut State) -> (r: ActionOutcome)
    requires
        old(state).wf(),
    ensures
        final(state).wf(),
        action_done(*old(state), *action, *final(state), r),
{
    let focused = state.focused_window_id();
    match action {
        Action::Spawn { cmd } => ActionOutcome::Spawn { command: cmd.clone(), origin: SpawnOrigin::Config },
        Action::KillFocused => {
            if let Some(id) = focused {
                state.kill_window(id);
            }
            ActionOutcome::Done
        },
        Action::FocusDirection { dir } => {
            if let Some(d) = parse_direction(dir.as_str()) {
                state.focus_direction(d);
            }
            ActionOutcome::Done
        },
        Action::MoveToWorkspace { workspace } => {
            if let Some(id) = focused {
                state.move_window_to_workspace(id, *workspace);
            }
            ActionOutcome::Done
        },
        Action::SwitchWorkspace { workspace } => {
            state.switch_workspace(*workspace);
            ActionOutcome::Done
        },
        Action::NextWorkspace => {
            let active = state.active_workspace_id();
            let next = if active >= WORKSPACE_COUNT {
                1
            } else {
                active + 1
            };
            state.switch_workspace(next);
            ActionOutcome::Done
        },
        Action::PrevWorkspace => {
            let active = state.active_workspace_id();
            let prev = if active <= 1 {
                WORKSPACE_COUNT
            } else {
                active - 1
            };
            state.switch_workspace(prev);
            ActionOutcome::Done
        },
        Action::ToggleFloat => {
            if let Some(id) = focused {
                state.toggle_floating(id);
            }
            ActionOutcome::Done
        },
        Action::ToggleFullscreen => {
            if let Some(id) = focused {
                state.toggle_fullscreen(id);
            }
            ActionOutcome::Done
        },
        Action::TogglePin => {
            if let Some(id) = focused {
                state.toggle_pinned(id);
            }
            ActionOutcome::Done
        },
        Action::SetLayout { mode } => {
            if let Some(m) = parse_layout_mode(mode.as_str()) {
                let active = state.active_workspace_id();
                state.set_workspace_layout(active, m);
            }
            ActionOutcome::Done
        },
        Action::ReloadConfig => ActionOutcome::ReloadConfig,
        Action::Quit => ActionOutcome::Quit,
        Action::SwapWindow => {
            if let Some(id) = focused {
                if let Some(n) = find_swap_partner(state, id) {
                    state.swap_windows(id, n);
                }
            }
            ActionOutcome::Done
        },
        Action::SetOpacity { value_bits } => {
            if let Some(id) = focused {
                state.set_window_opacity(id, clamp_unit_bits(*value_bits));
            }
            ActionOutcome::Done
        },
        Action::ResizeDelta { dw, dh } => {
            if let Some(id) = focused {
                state.add_resize_delta(id, *dw, *dh);
            }
            ActionOutcome::Done
        },
        Action::Lock => ActionOutcome::SpawnLockClient { origin: SpawnOrigin::KeybindLock },
        Action::Dispatch { cmd } => {
            let c = chars_of(cmd.as_str());
            if chars_eq_str(c.as_slice(), "lock") {
                ActionOutcome::SpawnLockClient { origin: SpawnOrigin::KeybindDispatch }
            } else if chars_eq_str(c.as_slice(), "reload-config") {
                ActionOutcome::ReloadConfig
            } else {
                ActionOutcome::Spawn { command: cmd.clone(), origin: SpawnOrigin::KeybindDispatch }
            }
        },
    }
}

/// The window that swaps places with the focused window `f`.
fn find_swap_partner(state: &State, f: WindowId) -> (r: Option<WindowId>)
    requires
        state.wf(),
    ensures
        r == swap_partner_of(*state, f),
{
    let w = match state.window_workspace(f) {
        Some(w) => w,
        None => {
            return None;
        },
    };
    let order = state.stacking_order();
    let mut i: usize = 0;
    while i < order.len()
        invariant
            state.wf(),
            order@ == state.spec_order(),
            has_key(state.spec_windows(), f),
            w == data_of(state.spec_windows(), f).workspace,
            i <= order@.len(),
            swap_partner(order@, state.spec_windows(), f, w, i as int) is None,
        decreases order.len() - i,
    {
        let id = order[i];
        if id != f {
            if let Some(iw) = state.window_workspace(id) {
                if iw == w {
                    assert(swap_partner(order@, state.spec_windows(), f, w, i + 1) == Some(id));
                    proof {
                        lemma_partner_stays(order@, state.spec_windows(), f, w, i + 1, order@.len() as int);
                    }
                    return Some(id);
                }
            }
        }
        i += 1;
    }
    None
}

/// Once found among the first `n`, the partner stays the same for any larger prefix.
proof fn lemma_partner_stays(order: Seq<WindowId>, ws: Seq<(WindowId, WindowData)>, f: WindowId, w: u32, n: int, m: int)
    requires
        n <= m,
        swap_partner(order, ws, f, w, n) is Some,
    ensures
        swap_partner(order, ws, f, w, m) == swap_partner(order, ws, f, w, n),
    decreases m - n,
{
    if n < m {
        lemma_partner_stays(order, ws, f, w, n, m - 1);
    }
}

/// `b` is `a` after applying layout settings: the gaps set, every
/// workspace given the default mode (`Dwindle` for an unknown name), the
/// wallpaper change announced, and the layout redone.
pub open spec fn config_applied(a: State, config: LayoutConfig, b: State) -> bool {
    exists|m1: State, m2: State| #![trigger announced(m1, m2, IpcEvent::WallpaperChanged)]
        m1.wf() && m2.wf() && layout_configured(
            a,
            m1,
            config.gaps_inner as i32,
            config.gaps_outer as i32,
            default_mode(config.default_mode@),
        ) && announced(m1, m2, IpcEvent::WallpaperChanged) && laid_out_state(m2, b)
}

/// The mode a configuration's default-mode name gives: `Dwindle` for an
/// unknown name.
pub open spec fn default_mode(name: Seq<char>) -> LayoutMode {
    match layout_mode_named(name) {
        Some(m) => m,
        None => LayoutMode::Dwindle,
    }
}

/// Applies the layout settings of the configuration to the window-manager
/// state and announces the wallpaper change.
pub fn apply_config(config: &LayoutConfig, state: &mut State)
    requires
        old(state).wf(),
    ensures
        final(state).wf(),
        config_applied(*old(state), *config, *final(state)),
{
    let ghost a = *state;
    let mode = match parse_layout_mode(config.default_mode.as_str()) {
        Some(m) => m,
        None => LayoutMode::Dwindle,
    };
    state.configure_layout(config.gaps_inner as i32, config.gaps_outer as i32, mode);
    let ghost m1 = *state;
    state.emit_ipc_event(IpcEvent::WallpaperChanged);
    let ghost m2 = *state;
    state.apply_layout();
    assert(announced(m1, m2, IpcEvent::WallpaperChanged));
}

/// `i` is the first binding of `bs` that fires for the key and modifiers.
pub open spec fn first_binding(bs: Seq<Keybind>, keysym: Keysym, modifiers: KeyModifiers, i: int) -> bool {
    &&& 0 <= i < bs.len()
    &&& binds(bs[i], keysym, modifiers)
    &&& forall|j: int| 0 <= j < i ==> !binds(#[trigger] bs[j], keysym, modifiers)
}

/// Takes a key event: a press that a binding catches runs the binding's
/// action and is kept from the focused client (`Some`, with what is left to
/// do outside); any other event goes on to the client (`None`) and changes
/// nothing.
pub fn handle_key(
    state: &mut State,
    keybinds: &KeybindManager,
    keysym: Keysym,
    modifiers: KeyModifiers,
    key_state: KeyState,
) -> (r: Option<ActionOutcome>)
    requires
        old(state).wf(),
    ensures
        final(state).wf(),
        match r {
            None => *final(state) == *old(state) && (key_state == KeyState::Pressed ==> forall|i: int|
                0 <= i < keybinds.spec_keybinds().len() ==> !binds(#[trigger] keybinds.spec_keybinds()[i], keysym, modifiers)),
            Some(o) => key_state == KeyState::Pressed && exists|i: int| #[trigger]
                first_binding(keybinds.spec_keybinds(), keysym, modifiers, i) && action_done(
                    *old(state),
                    keybinds.spec_keybinds()[i].action,
                    *final(state),
                    o,
                ),
        },
{
    match keybinds.match_keybind(keysym, modifiers, key_state) {
        Some(action) => {
            let ghost bs = keybinds.spec_keybinds();
            let ghost i = choose|i: int|
                {
                    &&& 0 <= i < bs.len()
                    &&& binds(#[trigger] bs[i], keysym, modifiers)
                    &&& forall|j: int| 0 <= j < i ==> !binds(#[trigger] bs[j], keysym, modifiers)
                    &&& action == bs[i].action
                };
            let outcome = execute_action(&action, state);
            assert(first_binding(bs, keysym, modifiers, i));
            Some(outcome)
        },
        None => None,
    }
}

} // verus!
