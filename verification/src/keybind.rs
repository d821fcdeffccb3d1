use vstd::prelude::*;
use crate::desktop_file::views;
use crate::text::{all_ascii, ascii_lower, ascii_lowered, chars_eq_str, chars_of, lowercase, to_lowercase};

verus! {

/// The modifier keys held down.
#[derive(Debug, Clone, Copy, PartialEq, Eq, Structural)]
pub struct KeyModifiers {
    pub ctrl: bool,
    pub shift: bool,
    pub alt: bool,
    pub super_: bool,
}

/// Some name in `names` is `a` or `b`.
pub open spec fn named_in(names: Seq<Seq<char>>, a: Seq<char>, b: Seq<char>) -> bool {
    exists|i: int| 0 <= i < names.len() && (#[trigger] names[i] == a || names[i] == b)
}

/// Some name in `names` is a name of the super key.
pub open spec fn super_named(names: Seq<Seq<char>>) -> bool {
    exists|i: int|
        0 <= i < names.len() && {
            let m = #[trigger] names[i];
            m == "super"@ || m == "logo"@ || m == "mod"@ || m == "mod4"@
        }
}

/// The modifiers that the (already lowercased) modifier names `names` ask
/// for; unknown names are ignored.
pub open spec fn modifiers_named(names: Seq<Seq<char>>) -> KeyModifiers {
    KeyModifiers {
        ctrl: named_in(names, "ctrl"@, "control"@),
        shift: named_in(names, "shift"@, "shift"@),
        alt: named_in(names, "alt"@, "alt"@),
        super_: super_named(names),
    }
}

/// The modifier names of `mods`, lowercased.
pub open spec fn lowered_names(mods: Seq<String>) -> Seq<Seq<char>> {
    mods.map_values(|m: String| lowercase(m@))
}

/// The modifiers a binding with modifier names `mods` asks for: the names
/// are lowercased; unknown names are ignored.
pub open spec fn expected_modifiers(mods: Seq<String>) -> KeyModifiers {
    modifiers_named(lowered_names(mods))
}

proof fn lemma_modifier_names_distinct()
    ensures
        "ctrl"@ != "shift"@,
        "control"@ != "shift"@,
        "ctrl"@ != "alt"@,
        "control"@ != "alt"@,
        "shift"@ != "alt"@,
        "ctrl"@ != "super"@ && "ctrl"@ != "logo"@ && "ctrl"@ != "mod"@ && "ctrl"@ != "mod4"@,
        "control"@ != "super"@ && "control"@ != "logo"@ && "control"@ != "mod"@ && "control"@ != "mod4"@,
        "shift"@ != "super"@ && "shift"@ != "logo"@ && "shift"@ != "mod"@ && "shift"@ != "mod4"@,
        "alt"@ != "super"@ && "alt"@ != "logo"@ && "alt"@ != "mod"@ && "alt"@ != "mod4"@,
{
    reveal_strlit("ctrl");
    reveal_strlit("control");
    reveal_strlit("shift");
    reveal_strlit("alt");
    reveal_strlit("super");
    reveal_strlit("logo");
    reveal_strlit("mod");
    reveal_strlit("mod4");
    assert("ctrl"@.len() == 4 && "control"@.len() == 7 && "shift"@.len() == 5 && "alt"@.len() == 3);
    assert("super"@.len() == 5 && "logo"@.len() == 4 && "mod"@.len() == 3 && "mod4"@.len() == 4);
    assert("ctrl"@[0] == 'c' && "logo"@[0] == 'l' && "mod4"@[0] == 'm');
    assert("shift"@[1] == 'h' && "super"@[1] == 'u');
    assert("alt"@[0] == 'a' && "mod"@[0] == 'm');
}

/// The modifiers that modifier names ask for, the names already lowercased:
/// `ctrl` or `control`, `shift`, `alt`, and `super`, `logo`, `mod` or `mod4`;
/// other names ask for nothing.
pub fn modifiers_from_lowered(names: &[String]) -> (m: KeyModifiers)
    ensures
        m == modifiers_named(views(names@)),
{
    let ghost all = views(names@);
    let mut expect_ctrl = false;
    let mut expect_shift = false;
    let mut expect_alt = false;
    let mut expect_super = false;
    let mut i: usize = 0;
    while i < names.len()
        invariant
            i <= names@.len(),
            all == views(names@),
            expect_ctrl == named_in(all.subrange(0, i as int), "ctrl"@, "control"@),
            expect_shift == named_in(all.subrange(0, i as int), "shift"@, "shift"@),
            expect_alt == named_in(all.subrange(0, i as int), "alt"@, "alt"@),
            expect_super == super_named(all.subrange(0, i as int)),
        decreases names.len() - i,
    {
        let ghost before = all.subrange(0, i as int);
        let ghost after = all.subrange(0, i + 1);
        let m = chars_of(names[i].as_str());
        assert(after[i as int] == names@[i as int]@);
        assert forall|j: int| 0 <= j < i implies #[trigger] after[j] == before[j] by {}
        if chars_eq_str(m.as_slice(), "ctrl") || chars_eq_str(m.as_slice(), "control") {
            expect_ctrl = true;
        } else if chars_eq_str(m.as_slice(), "shift") {
            expect_shift = true;
        } else if chars_eq_str(m.as_slice(), "alt") {
            expect_alt = true;
        } else if chars_eq_str(m.as_slice(), "super") || chars_eq_str(m.as_slice(), "logo")
            || chars_eq_str(m.as_slice(), "mod") || chars_eq_str(m.as_slice(), "mod4") {
            expect_super = true;
        }
        proof {
            lemma_modifier_names_distinct();
            let m2 = after[i as int];
            assert(named_in(after, "ctrl"@, "control"@) == (named_in(before, "ctrl"@, "control"@) || m2 == "ctrl"@
                || m2 == "control"@));
            assert(named_in(after, "shift"@, "shift"@) == (named_in(before, "shift"@, "shift"@) || m2 == "shift"@));
            assert(named_in(after, "alt"@, "alt"@) == (named_in(before, "alt"@, "alt"@) || m2 == "alt"@));
            assert(super_named(after) == (super_named(before) || m2 == "super"@ || m2 == "logo"@ || m2 == "mod"@
                || m2 == "mod4"@));
        }
        i += 1;
    }
    assert(all.subrange(0, all.len() as int) =~= all);
    KeyModifiers { ctrl: expect_ctrl, shift: expect_shift, alt: expect_alt, super_: expect_super }
}

impl KeyModifiers {
    /// Whether exactly the modifiers that `mods` names are held; the names
    /// are compared lowercased.
    pub fn matches(&self, mods: &[String]) -> (b: bool)
        ensures
            b == (*self == expected_modifiers(mods@)),
    {
        let mut lowered: Vec<String> = Vec::new();
        let mut i: usize = 0;
        while i < mods.len()
            invariant
                i <= mods@.len(),
                views(lowered@) == lowered_names(mods@.subrange(0, i as int)),
            decreases mods.len() - i,
        {
            let ghost prev = lowered@;
            let l = to_lowercase(mods[i].as_str());
            lowered.push(l);
            proof {
                let now = mods@.subrange(0, i + 1);
                let was = mods@.subrange(0, i as int);
                assert(views(prev).len() == lowered_names(was).len());
                assert(prev.len() == i);
                assert(lowered@ == prev.push(l));
                assert(lowered_names(now).len() == i + 1);
                assert(views(lowered@).len() == i + 1);
                assert forall|j: int| 0 <= j < i + 1 implies views(lowered@)[j]
                    == #[trigger] lowered_names(now)[j] by {
                    if j < i {
                        assert(views(prev)[j] == lowered_names(was)[j]);
                        assert(now[j] == was[j]);
                        assert(views(lowered@)[j] == lowered@[j]@);
                        assert(lowered@[j] == prev[j]);
                    } else {
                        assert(views(lowered@)[j] == l@);
                        assert(now[j] == mods@[i as int]);
                    }
                }
                assert(views(lowered@) =~= lowered_names(now));
            }
            i += 1;
        }
        assert(mods@.subrange(0, mods@.len() as int) =~= mods@);
        let m = modifiers_from_lowered(lowered.as_slice());
        self.ctrl == m.ctrl && self.shift == m.shift && self.alt == m.alt && self.super_ == m.super_
    }
}

impl Default for KeyModifiers {
    fn default() -> (m: KeyModifiers)
        ensures
            !m.ctrl && !m.shift && !m.alt && !m.super_,
    {
        KeyModifiers { ctrl: false, shift: false, alt: false, super_: false }
    }
}


/// An X keysym value.
#[derive(Debug, Clone, Copy, PartialEq, Eq, Hash, Structural)]
pub struct Keysym(pub u32);

/// A single lowercase letter or digit: its keysym is its character code.
pub open spec fn plain_key(n: Seq<char>) -> Option<u32> {
    if n.len() == 1 && (('a' <= n[0] && n[0] <= 'z') || ('0' <= n[0] && n[0] <= '9')) {
        Some(n[0] as u32)
    } else {
        None
    }
}

/// The names ` KP_0` to ` KP_9` give the keysyms of the digits.
pub open spec fn keypad_digit_key(n: Seq<char>) -> Option<u32> {
    if n.len() == 5 && n[0] == ' ' && n[1] == 'K' && n[2] == 'P' && n[3] == '_' && '0' <= n[4] && n[4] <= '9' {
        Some(n[4] as u32)
    } else {
        None
    }
}

/// `f1` to `f12`: the function keys, whose keysyms run from 0xffbe.
pub open spec fn function_key(n: Seq<char>) -> Option<u32> {
    if n.len() == 2 && n[0] == 'f' && '1' <= n[1] && n[1] <= '9' {
        Some((0xffbe + (n[1] as u32 - '1' as u32)) as u32)
    } else if n.len() == 3 && n[0] == 'f' && n[1] == '1' && '0' <= n[2] && n[2] <= '2' {
        Some((0xffc7 + (n[2] as u32 - '0' as u32)) as u32)
    } else {
        None
    }
}

/// Editing and navigation keys.
pub open spec fn special_key(n: Seq<char>) -> Option<u32> {
    if n == "return"@ || n == "enter"@ {
        Some(0xff0d)
    } else if n == "escape"@ || n == "esc"@ {
        Some(0xff1b)
    } else if n == "backspace"@ {
        Some(0xff08)
    } else if n == "tab"@ {
        Some(0xff09)
    } else if n == "space"@ {
        Some(0x20)
    } else if n == "delete"@ || n == "del"@ {
        Some(0xffff)
    } else if n == "insert"@ || n == "ins"@ {
        Some(0xff63)
    } else if n == "home"@ {
        Some(0xff50)
    } else if n == "end"@ {
        Some(0xff57)
    } else if n == "pageup"@ || n == "page_up"@ {
        Some(0xff55)
    } else if n == "pagedown"@ || n == "page_down"@ {
        Some(0xff56)
    } else if n == "left"@ {
        Some(0xff51)
    } else if n == "right"@ {
        Some(0xff53)
    } else if n == "up"@ {
        Some(0xff52)
    } else if n == "down"@ {
        Some(0xff54)
    } else {
        None
    }
}

/// Keypad operator keys.
pub open spec fn keypad_key(n: Seq<char>) -> Option<u32> {
    if n == "kp_enter"@ || n == "kp_return"@ {
        Some(0xff8d)
    } else if n == "kp_add"@ {
        Some(0xffab)
    } else if n == "kp_subtract"@ {
        Some(0xffad)
    } else if n == "kp_multiply"@ {
        Some(0xffaa)
    } else if n == "kp_divide"@ {
        Some(0xffaf)
    } else if n == "kp_decimal"@ {
        Some(0xffae)
    } else if n == "kp_equal"@ {
        Some(0xffbd)
    } else {
        None
    }
}

/// Media keys.
pub open spec fn media_key(n: Seq<char>) -> Option<u32> {
    if n == "volumemute"@ || n == "volume_mute"@ {
        Some(0x1008ff12)
    } else if n == "volumedown"@ || n == "volume_down"@ {
        Some(0x1008ff11)
    } else if n == "volumeup"@ || n == "volume_up"@ {
        Some(0x1008ff13)
    } else if n == "play"@ || n == "playpause"@ {
        Some(0x1008ff14)
    } else if n == "stop"@ {
        Some(0x1008ff15)
    } else if n == "prev"@ || n == "previous"@ {
        Some(0x1008ff16)
    } else if n == "next"@ {
        Some(0x1008ff17)
    } else {
        None
    }
}

/// The keysym a lowercased key name stands for, trying the groups in order.
pub open spec fn named_key(n: Seq<char>) -> Option<u32> {
    if plain_key(n) is Some {
        plain_key(n)
    } else if keypad_digit_key(n) is Some {
        keypad_digit_key(n)
    } else if function_key(n) is Some {
        function_key(n)
    } else if special_key(n) is Some {
        special_key(n)
    } else if keypad_key(n) is Some {
        keypad_key(n)
    } else {
        media_key(n)
    }
}

/// A one-character name that is an ASCII letter or digit stands for the
/// keysym with its character code.
pub open spec fn single_char_key(key: Seq<char>) -> Option<u32> {
    if key.len() == 1 && (('a' <= key[0] && key[0] <= 'z') || ('A' <= key[0] && key[0] <= 'Z') || (
    '0' <= key[0] && key[0] <= '9')) {
        Some(key[0] as u32)
    } else {
        None
    }
}

/// The keysym for a key name from the configuration: the name is lowercased
/// and looked up; failing that, a lone ASCII letter or digit stands for itself.
pub open spec fn key_for_name(key: Seq<char>) -> Option<Keysym> {
    key_for_lowered(key, lowercase(key))
}

/// The keysym for key name `key` whose lowercase form is `lower`: `lower`
/// looked up among the key names; failing that, a lone ASCII letter or digit
/// `key` stands for itself.
pub open spec fn key_for_lowered(key: Seq<char>, lower: Seq<char>) -> Option<Keysym> {
    match named_key(lower) {
        Some(v) => Some(Keysym(v)),
        None => match single_char_key(key) {
            Some(v) => Some(Keysym(v)),
            None => None,
        },
    }
}

fn plain_key_exec(n: &[char]) -> (r: Option<u32>)
    ensures
        r == plain_key(n@),
{
    if n.len() == 1 && (('a' <= n[0] && n[0] <= 'z') || ('0' <= n[0] && n[0] <= '9')) {
        Some(n[0] as u32)
    } else {
        None
    }
}

fn keypad_digit_key_exec(n: &[char]) -> (r: Option<u32>)
    ensures
        r == keypad_digit_key(n@),
{
    if n.len() == 5 && n[0] == ' ' && n[1] == 'K' && n[2] == 'P' && n[3] == '_' && '0' <= n[4] && n[4] <= '9' {
        Some(n[4] as u32)
    } else {
        None
    }
}

fn function_key_exec(n: &[char]) -> (r: Option<u32>)
    ensures
        r == function_key(n@),
{
    if n.len() == 2 && n[0] == 'f' && '1' <= n[1] && n[1] <= '9' {
        Some(0xffbe + (n[1] as u32 - '1' as u32))
    } else if n.len() == 3 && n[0] == 'f' && n[1] == '1' && '0' <= n[2] && n[2] <= '2' {
        Some(0xffc7 + (n[2] as u32 - '0' as u32))
    } else {
        None
    }
}

fn special_key_exec(n: &[char]) -> (r: Option<u32>)
    ensures
        r == special_key(n@),
{
    if chars_eq_str(n, "return") || chars_eq_str(n, "enter") {
        Some(0xff0d)
    } else if chars_eq_str(n, "escape") || chars_eq_str(n, "esc") {
        Some(0xff1b)
    } else if chars_eq_str(n, "backspace") {
        Some(0xff08)
    } else if chars_eq_str(n, "tab") {
        Some(0xff09)
    } else if chars_eq_str(n, "space") {
        Some(0x20)
    } else if chars_eq_str(n, "delete") || chars_eq_str(n, "del") {
        Some(0xffff)
    } else if chars_eq_str(n, "insert") || chars_eq_str(n, "ins") {
        Some(0xff63)
    } else if chars_eq_str(n, "home") {
        Some(0xff50)
    } else if chars_eq_str(n, "end") {
        Some(0xff57)
    } else if chars_eq_str(n, "pageup") || chars_eq_str(n, "page_up") {
        Some(0xff55)
    } else if chars_eq_str(n, "pagedown") || chars_eq_str(n, "page_down") {
        Some(0xff56)
    } else if chars_eq_str(n, "left") {
        Some(0xff51)
    } else if chars_eq_str(n, "right") {
        Some(0xff53)
    } else if chars_eq_str(n, "up") {
        Some(0xff52)
    } else if chars_eq_str(n, "down") {
        Some(0xff54)
    } else {
        None
    }
}

fn keypad_key_exec(n: &[char]) -> (r: Option<u32>)
    ensures
        r == keypad_key(n@),
{
    if chars_eq_str(n, "kp_enter") || chars_eq_str(n, "kp_return") {
        Some(0xff8d)
    } else if chars_eq_str(n, "kp_add") {
        Some(0xffab)
    } else if chars_eq_str(n, "kp_subtract") {
        Some(0xffad)
    } else if chars_eq_str(n, "kp_multiply") {
        Some(0xffaa)
    } else if chars_eq_str(n, "kp_divide") {
        Some(0xffaf)
    } else if chars_eq_str(n, "kp_decimal") {
        Some(0xffae)
    } else if chars_eq_str(n, "kp_equal") {
        Some(0xffbd)
    } else {
        None
    }
}

fn media_key_exec(n: &[char]) -> (r: Option<u32>)
    ensures
        r == media_key(n@),
{
    if chars_eq_str(n, "volumemute") || chars_eq_str(n, "volume_mute") {
        Some(0x1008ff12)
    } else if chars_eq_str(n, "volumedown") || chars_eq_str(n, "volume_down") {
        Some(0x1008ff11)
    } else if chars_eq_str(n, "volumeup") || chars_eq_str(n, "volume_up") {
        Some(0x1008ff13)
    } else if chars_eq_str(n, "play") || chars_eq_str(n, "playpause") {
        Some(0x1008ff14)
    } else if chars_eq_str(n, "stop") {
        Some(0x1008ff15)
    } else if chars_eq_str(n, "prev") || chars_eq_str(n, "previous") {
        Some(0x1008ff16)
    } else if chars_eq_str(n, "next") {
        Some(0x1008ff17)
    } else {
        None
    }
}

/// ASCII uppercase of one character; every other character is unchanged.
pub open spec fn ascii_upper(c: char) -> char {
    if 'a' <= c && c <= 'z' {
        ((c as u32) - 32) as char
    } else {
        c
    }
}

/// `s` with its ASCII letters uppercased, as `str::to_ascii_uppercase` does.
pub open spec fn ascii_uppered(s: Seq<char>) -> Seq<char> {
    s.map_values(|c: char| ascii_upper(c))
}

/// Law: ASCII key names are read without regard to case. Uppercasing the
/// ASCII letters of an ASCII name keeps it ASCII and gives the same keysym
/// (`parse_key` reads an ASCII name through its ASCII lowercase form).
pub proof fn lemma_key_case_ignored(key: Seq<char>)
    requires
        all_ascii(key),
    ensures
        all_ascii(ascii_uppered(key)),
        key_for_lowered(ascii_uppered(key), ascii_lowered(ascii_uppered(key))) == key_for_lowered(key, ascii_lowered(key)),
{
    let up = ascii_uppered(key);
    assert forall|i: int| 0 <= i < up.len() implies (#[trigger] up[i] as u32) < 128 by {
        assert(up[i] == ascii_upper(key[i]));
        assert((key[i] as u32) < 128);
    }
    assert forall|i: int| 0 <= i < key.len() implies #[trigger] ascii_lowered(up)[i] == ascii_lowered(key)[i] by {
        let c = key[i];
        assert(up[i] == ascii_upper(c));
        if 'a' <= c && c <= 'z' {
            assert(ascii_upper(c) as u32 == (c as u32) - 32);
        }
    }
    assert(ascii_lowered(up) =~= ascii_lowered(key));
    let lower = ascii_lowered(key);
    if named_key(lower) is None && key.len() == 1 {
        let c = key[0];
        assert(lower[0] == ascii_lower(c));
        if 'A' <= c && c <= 'Z' {
            assert(ascii_lower(c) as u32 == (c as u32) + 32);
        }
        assert(plain_key(lower) is None);
        assert(single_char_key(key) is None);
        assert(up[0] == ascii_upper(c));
        if 'a' <= c && c <= 'z' {
            assert(ascii_upper(c) as u32 == (c as u32) - 32);
        }
        assert(single_char_key(up) is None);
    }
}

/// The keysym that a key name from the configuration stands for, or `None`
/// for an unknown name.
pub fn parse_key(key: &str) -> (r: Option<Keysym>)
    ensures
        r == key_for_name(key@),
        all_ascii(key@) ==> r == key_for_lowered(key@, ascii_lowered(key@)),
{
    let lower = to_lowercase(key);
    parse_key_lowered(key, lower.as_str())
}

/// The keysym that key name `key`, whose lowercase form is `lower`, stands
/// for, or `None` for an unknown name.
pub fn parse_key_lowered(key: &str, lower: &str) -> (r: Option<Keysym>)
    ensures
        r == key_for_lowered(key@, lower@),
{
    let n = chars_of(lower);
    let found = match plain_key_exec(n.as_slice()) {
        Some(v) => Some(v),
        None => match keypad_digit_key_exec(n.as_slice()) {
            Some(v) => Some(v),
            None => match function_key_exec(n.as_slice()) {
                Some(v) => Some(v),
                None => match special_key_exec(n.as_slice()) {
                    Some(v) => Some(v),
                    None => match keypad_key_exec(n.as_slice()) {
                        Some(v) => Some(v),
                        None => media_key_exec(n.as_slice()),
                    },
                },
            },
        },
    };
    match found {
        Some(v) => Some(Keysym(v)),
        None => {
            let k = chars_of(key);
            if k.len() == 1 && (('a' <= k[0] && k[0] <= 'z') || ('A' <= k[0] && k[0] <= 'Z') || ('0' <= k[0] && k[0]
                <= '9')) {
                Some(Keysym(k[0] as u32))
            } else {
                None
            }
        },
    }
}

/// Whether a key went down or came up.
#[derive(Debug, Clone, Copy, PartialEq, Eq, Structural)]
pub enum KeyState {
    Released,
    Pressed,
}

/// What a key binding does.
#[derive(Debug)]
pub enum Action {
    Spawn { cmd: String },
    KillFocused,
    FocusDirection { dir: String },
    MoveToWorkspace { workspace: u32 },
    SwitchWorkspace { workspace: u32 },
    NextWorkspace,
    PrevWorkspace,
    ToggleFloat,
    ToggleFullscreen,
    TogglePin,
    SetLayout { mode: String },
    ReloadConfig,
    Quit,
    SwapWindow,
    /// The requested opacity, as the bits of an `f32`.
    SetOpacity { value_bits: u32 },
    ResizeDelta { dw: i32, dh: i32 },
    Lock,
    Dispatch { cmd: String },
}

impl Clone for Action {
    fn clone(&self) -> (r: Action)
        ensures
            r == *self,
    {
        match self {
            Action::Spawn { cmd } => Action::Spawn { cmd: cmd.clone() },
            Action::KillFocused => Action::KillFocused,
            Action::FocusDirection { dir } => Action::FocusDirection { dir: dir.clone() },
            Action::MoveToWorkspace { workspace } => Action::MoveToWorkspace { workspace: *workspace },
            Action::SwitchWorkspace { workspace } => Action::SwitchWorkspace { workspace: *workspace },
            Action::NextWorkspace => Action::NextWorkspace,
            Action::PrevWorkspace => Action::PrevWorkspace,
            Action::ToggleFloat => Action::ToggleFloat,
            Action::ToggleFullscreen => Action::ToggleFullscreen,
            Action::TogglePin => Action::TogglePin,
            Action::SetLayout { mode } => Action::SetLayout { mode: mode.clone() },
            Action::ReloadConfig => Action::ReloadConfig,
            Action::Quit => Action::Quit,
            Action::SwapWindow => Action::SwapWindow,
            Action::SetOpacity { value_bits } => Action::SetOpacity { value_bits: *value_bits },
            Action::ResizeDelta { dw, dh } => Action::ResizeDelta { dw: *dw, dh: *dh },
            Action::Lock => Action::Lock,
            Action::Dispatch { cmd } => Action::Dispatch { cmd: cmd.clone() },
        }
    }
}

/// A key binding: a key name, the modifier names held with it, and the
/// action it triggers.
#[derive(Debug)]
pub struct Keybind {
    pub key: String,
    pub mods: Vec<String>,
    pub action: Action,
}

/// A binding fires for a keysym and held modifiers when its key name stands
/// for that keysym and its modifier names ask for exactly those modifiers.
pub open spec fn binds(b: Keybind, keysym: Keysym, modifiers: KeyModifiers) -> bool {
    key_for_name(b.key@) == Some(keysym) && modifiers == expected_modifiers(b.mods@)
}

/// The key bindings in force, in the order the configuration lists them.
pub struct KeybindManager {
    keybinds: Vec<Keybind>,
}

impl KeybindManager {
    pub closed spec fn spec_keybinds(&self) -> Seq<Keybind> {
        self.keybinds@
    }

    pub fn new(keybinds: Vec<Keybind>) -> (m: KeybindManager)
        ensures
            m.spec_keybinds() == keybinds@,
    {
        KeybindManager { keybinds }
    }

    pub fn update_keybinds(&mut self, keybinds: Vec<Keybind>)
        ensures
            final(self).spec_keybinds() == keybinds@,
    {
        self.keybinds = keybinds;
    }

    /// The action of the first binding that fires for a key press; key
    /// releases trigger nothing.
    pub fn match_keybind(&self, keysym: Keysym, modifiers: KeyModifiers, key_state: KeyState) -> (r: Option<Action>)
        ensures
            key_state != KeyState::Pressed ==> r is None,
            key_state == KeyState::Pressed ==> match r {
                None => forall|i: int| 0 <= i < self.spec_keybinds().len()
                    ==> !binds(#[trigger] self.spec_keybinds()[i], keysym, modifiers),
                Some(a) => exists|i: int| {
                    &&& 0 <= i < self.spec_keybinds().len()
                    &&& binds(#[trigger] self.spec_keybinds()[i], keysym, modifiers)
                    &&& forall|j: int| 0 <= j < i ==> !binds(#[trigger] self.spec_keybinds()[j], keysym, modifiers)
                    &&& a == self.spec_keybinds()[i].action
                },
            },
    {
        if key_state != KeyState::Pressed {
            return None;
        }
        let mut i: usize = 0;
        while i < self.keybinds.len()
            invariant
                i <= self.keybinds@.len(),
                key_state == KeyState::Pressed,
                forall|j: int| 0 <= j < i ==> !binds(#[trigger] self.keybinds@[j], keysym, modifiers),
            decreases self.keybinds.len() - i,
        {
            let bind = &self.keybinds[i];
            match parse_key(bind.key.as_str()) {
                Some(k) => {
                    if k == keysym && modifiers.matches(bind.mods.as_slice()) {
                        let a = bind.action.clone();
                        assert(binds(self.spec_keybinds()[i as int], keysym, modifiers));
                        assert(forall|j: int| 0 <= j < i ==> !binds(#[trigger] self.spec_keybinds()[j], keysym, modifiers));
                        assert(a == self.spec_keybinds()[i as int].action);
                        return Some(a);
                    }
                },
                None => {},
            }
            i += 1;
        }
        None
    }
}

impl Default for KeybindManager {
    fn default() -> (m: KeybindManager)
        ensures
            m.spec_keybinds().len() == 0,
    {
        KeybindManager::new(Vec::new())
    }
}

} // verus!
