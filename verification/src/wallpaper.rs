use vstd::prelude::*;
use crate::text::{all_ascii, ascii_lowered, chars_eq_str, chars_of, lowercase, to_lowercase};
use vstd::utf8::encode_utf8;
use crate::sorting::{lex_sorted, sort_strings, string_views};

verus! {

/// How a wallpaper image is fitted to the output.
#[derive(Debug, Clone, Copy, PartialEq, Eq, Structural)]
pub enum FitMode {
    Fill,
    Fit,
    Center,
    Tile,
}

/// The fit mode a configuration string names, ignoring case; anything else
/// means `Fill`.
pub open spec fn fit_mode_named(s: Seq<char>) -> FitMode {
    fit_mode_lowered(lowercase(s))
}

/// The fit mode a lowercased name `l` gives: `fill`, `fit`, `center` or
/// `tile`; anything else means `Fill`.
pub open spec fn fit_mode_lowered(l: Seq<char>) -> FitMode {
    if l == "fill"@ {
        FitMode::Fill
    } else if l == "fit"@ {
        FitMode::Fit
    } else if l == "center"@ {
        FitMode::Center
    } else if l == "tile"@ {
        FitMode::Tile
    } else {
        FitMode::Fill
    }
}

impl FitMode {
    pub fn from_str(s: &str) -> (m: FitMode)
        ensures
            m == fit_mode_named(s@),
            all_ascii(s@) ==> m == fit_mode_lowered(ascii_lowered(s@)),
    {
        let lower = to_lowercase(s);
        Self::from_lowered(lower.as_str())
    }

    /// The fit mode the lowercased name `lower` gives.
    pub fn from_lowered(lower: &str) -> (m: FitMode)
        ensures
            m == fit_mode_lowered(lower@),
    {
        let l = chars_of(lower);
        if chars_eq_str(l.as_slice(), "fill") {
            FitMode::Fill
        } else if chars_eq_str(l.as_slice(), "fit") {
            FitMode::Fit
        } else if chars_eq_str(l.as_slice(), "center") {
            FitMode::Center
        } else if chars_eq_str(l.as_slice(), "tile") {
            FitMode::Tile
        } else {
            FitMode::Fill
        }
    }
}

/// The path's components that name something: the pieces between `/`
/// separators other than empty ones and `.`.
pub open spec fn named_components(p: Seq<char>) -> Seq<Seq<char>> {
    crate::desktop_file::split_on(p, '/').filter(names_something())
}

/// A piece between separators names something unless it is empty or `.`.
pub open spec fn names_something() -> spec_fn(Seq<char>) -> bool {
    |c: Seq<char>| c.len() > 0 && c != seq!['.']
}

/// The final component of a path, as `Path::file_name` gives it: none when
/// the path has no component that names something or ends in `..`.
pub open spec fn file_name(p: Seq<char>) -> Option<Seq<char>> {
    let cs = named_components(p);
    if cs.len() == 0 || cs.last() == seq!['.', '.'] {
        None
    } else {
        Some(cs.last())
    }
}

/// `i` is the position of the last `.` in `name`.
pub open spec fn last_dot_at(name: Seq<char>, i: int) -> bool {
    &&& 0 <= i < name.len()
    &&& name[i] == '.'
    &&& forall|j: int| i < j < name.len() ==> name[j] != '.'
}

/// The extension of a path, as `Path::extension` gives it: what follows the
/// last `.` of the file name, unless that dot starts the name.
pub open spec fn extension(p: Seq<char>) -> Option<Seq<char>> {
    match file_name(p) {
        None => None,
        Some(name) => name_extension(name),
    }
}

/// What follows the last `.` of a file name, unless that dot starts it.
pub open spec fn name_extension(name: Seq<char>) -> Option<Seq<char>> {
    if exists|i: int| last_dot_at(name, i) && i > 0 {
        let i = choose|i: int| last_dot_at(name, i) && i > 0;
        Some(name.subrange(i + 1, name.len() as int))
    } else {
        None
    }
}

/// Whether a path names an image the wallpaper can show, by its extension
/// ignoring case.
pub open spec fn image_path(p: Seq<char>) -> bool {
    match extension(p) {
        Some(e) => image_extension(lowercase(e)),
        None => false,
    }
}

/// A lowercased extension that marks an image file.
pub open spec fn image_extension(l: Seq<char>) -> bool {
    l == "png"@ || l == "jpg"@ || l == "jpeg"@ || l == "webp"@ || l == "gif"@ || l == "bmp"@
}

proof fn lemma_filter_push(s: Seq<Seq<char>>, p: spec_fn(Seq<char>) -> bool, x: Seq<char>)
    ensures
        s.push(x).filter(p) == (if p(x) {
            s.filter(p).push(x)
        } else {
            s.filter(p)
        }),
{
    reveal(Seq::filter);
    assert(s.push(x).drop_last() =~= s);
}

fn last_named_component(p: &[char]) -> (r: Option<Vec<char>>)
    ensures
        match r {
            Some(c) => named_components(p@).len() > 0 && c@ == named_components(p@).last(),
            None => named_components(p@).len() == 0,
        },
{
    let ghost pred = names_something();
    let mut best: Option<Vec<char>> = None;
    let mut cur: Vec<char> = Vec::new();
    let ghost mut done: Seq<Seq<char>> = Seq::empty();
    let mut i: usize = 0;
    assert(p@.subrange(0, 0) =~= Seq::<char>::empty());
    while i < p.len()
        invariant
            i <= p@.len(),
            pred == names_something(),
            crate::desktop_file::split_on(p@.subrange(0, i as int), '/') == done.push(cur@),
            match best {
                Some(c) => done.filter(pred).len() > 0 && c@ == done.filter(pred).last(),
                None => done.filter(pred).len() == 0,
            },
        decreases p.len() - i,
    {
        let c = p[i];
        let ghost prefix = p@.subrange(0, i as int);
        assert(p@.subrange(0, i + 1).drop_last() =~= prefix);
        if c == '/' {
            let ghost piece = cur@;
            let named = cur.len() > 0 && !(cur.len() == 1 && cur[0] == '.');
            assert(named == pred(piece)) by {
                if cur.len() == 1 && cur[0] == '.' {
                    assert(piece =~= seq!['.']);
                }
            }
            proof {
                lemma_filter_push(done, pred, piece);
                done = done.push(piece);
            }
            if named {
                best = Some(cur);
            }
            cur = Vec::new();
            assert(crate::desktop_file::split_on(p@.subrange(0, i + 1), '/') =~= done.push(cur@));
        } else {
            let ghost before = cur@;
            cur.push(c);
            assert(crate::desktop_file::split_on(p@.subrange(0, i + 1), '/') =~= done.push(cur@)) by {
                let q = crate::desktop_file::split_on(prefix, '/');
                assert(q.update(q.len() - 1, q.last().push(c)) =~= done.push(cur@));
            }
        }
        i += 1;
    }
    assert(p@.subrange(0, p@.len() as int) =~= p@);
    let ghost piece = cur@;
    let named = cur.len() > 0 && !(cur.len() == 1 && cur[0] == '.');
    assert(named == pred(piece)) by {
        if cur.len() == 1 && cur[0] == '.' {
            assert(piece =~= seq!['.']);
        }
    }
    proof {
        lemma_filter_push(done, pred, piece);
        assert(named_components(p@) == done.push(piece).filter(pred));
    }
    if named {
        Some(cur)
    } else {
        best
    }
}

/// The extension of the file `path` names, as `Path::extension` gives it.
pub fn path_extension(path: &str) -> (r: Option<String>)
    ensures
        match r {
            Some(e) => extension(path@) == Some(e@),
            None => extension(path@) is None,
        },
{
    let p = chars_of(path);
    let name = match last_named_component(p.as_slice()) {
        Some(n) => n,
        None => {
            return None;
        },
    };
    if name.len() == 2 && name[0] == '.' && name[1] == '.' {
        assert(name@ =~= seq!['.', '.']);
        return None;
    }
    assert(name@ != seq!['.', '.']) by {
        if name@ == seq!['.', '.'] {
            assert(name@.len() == 2 && name@[0] == '.' && name@[1] == '.');
        }
    }
    let n = name.len();
    let mut k: usize = n;
    while k > 0 && name[k - 1] != '.'
        invariant
            k <= n == name@.len(),
            forall|j: int| k <= j < n ==> name@[j] != '.',
        decreases k,
    {
        k -= 1;
    }
    if k <= 1 {
        proof {
            assert forall|i: int| last_dot_at(name@, i) implies i <= 0 by {
                if i > 0 && k == 1 {
                    assert(name@[0] == '.');
                }
            }
        }
        return None;
    }
    let dot = k - 1;
    assert(last_dot_at(name@, dot as int));
    assert(last_dot_at(name@, dot as int) && dot > 0);
    assert(exists|i: int| last_dot_at(name@, i) && i > 0);
    proof {
        let c = choose|i: int| last_dot_at(name@, i) && i > 0;
        assert(c == dot as int) by {
            if c < dot as int {
                assert(name@[dot as int] == '.');
            }
            if c > dot as int {
                assert(name@[c] == '.');
            }
        }
    }
    let mut ext = String::new();
    let mut j: usize = k;
    while j < n
        invariant
            k <= j <= n == name@.len(),
            ext@ == name@.subrange(k as int, j as int),
        decreases n - j,
    {
        crate::text::push_char(&mut ext, name[j]);
        j += 1;
        assert(ext@ =~= name@.subrange(k as int, j as int));
    }
    assert(file_name(path@) == Some(name@));
    assert(name_extension(name@) == Some(ext@));
    Some(ext)
}

/// Whether `path` names an image file: its extension, lowercased, is one of
/// png, jpg, jpeg, webp, gif or bmp.
pub fn is_image_file(path: &str) -> (b: bool)
    ensures
        b == image_path(path@),
        (extension(path@) matches Some(e) && all_ascii(e)) ==> b == image_extension(ascii_lowered(extension(path@)->0)),
{
    let ext = match path_extension(path) {
        Some(e) => e,
        None => {
            return false;
        },
    };
    let lower = to_lowercase(ext.as_str());
    is_image_extension(lower.as_str())
}

/// Whether the lowercased extension `lower` is png, jpg, jpeg, webp, gif or
/// bmp.
pub fn is_image_extension(lower: &str) -> (b: bool)
    ensures
        b == image_extension(lower@),
{
    let l = chars_of(lower);
    chars_eq_str(l.as_slice(), "png") || chars_eq_str(l.as_slice(), "jpg") || chars_eq_str(l.as_slice(), "jpeg")
        || chars_eq_str(l.as_slice(), "webp") || chars_eq_str(l.as_slice(), "gif") || chars_eq_str(
        l.as_slice(),
        "bmp",
    )
}

/// The bytes of `b` after its leading `#` bytes.
pub open spec fn strip_hashes(b: Seq<u8>) -> Seq<u8>
    decreases b.len(),
{
    if b.len() > 0 && b[0] == 0x23 {
        strip_hashes(b.drop_first())
    } else {
        b
    }
}

/// The value of a hexadecimal digit.
pub open spec fn hex_digit(c: u8) -> Option<u8> {
    if 0x30 <= c && c <= 0x39 {
        Some((c - 0x30) as u8)
    } else if 0x61 <= c && c <= 0x66 {
        Some((c - 0x61 + 10) as u8)
    } else if 0x41 <= c && c <= 0x46 {
        Some((c - 0x41 + 10) as u8)
    } else {
        None
    }
}

/// A two-byte hexadecimal number, as `u8::from_str_radix(_, 16)` reads it:
/// two digits, or a `+` sign and one digit.
pub open spec fn hex_byte(a: u8, b: u8) -> Option<u8> {
    if a == 0x2b {
        hex_digit(b)
    } else {
        match (hex_digit(a), hex_digit(b)) {
            (Some(x), Some(y)) => Some((16 * x + y) as u8),
            _ => None,
        }
    }
}

/// A colour as red, green, blue and alpha bytes.
pub type Rgba = (u8, u8, u8, u8);

/// The colour a hex string `#rrggbb` or `#rrggbbaa` (any number of leading
/// `#`) describes, with an opaque alpha for six digits; `None` for any other
/// string.
pub open spec fn hex_color(bytes: Seq<u8>) -> Option<Rgba> {
    let h = strip_hashes(bytes);
    if h.len() == 6 {
        match (hex_byte(h[0], h[1]), hex_byte(h[2], h[3]), hex_byte(h[4], h[5])) {
            (Some(r), Some(g), Some(b)) => Some((r, g, b, 255u8)),
            _ => None,
        }
    } else if h.len() == 8 {
        match (hex_byte(h[0], h[1]), hex_byte(h[2], h[3]), hex_byte(h[4], h[5]), hex_byte(h[6], h[7])) {
            (Some(r), Some(g), Some(b), Some(a)) => Some((r, g, b, a)),
            _ => None,
        }
    } else {
        None
    }
}

/// A byte that does not continue a UTF-8 sequence starts a character.
pub open spec fn starts_char(c: u8) -> bool {
    !(0x80 <= c && c < 0xc0)
}

/// Cutting the digits into byte pairs only cuts between characters, which
/// slicing the string requires.
pub open spec fn hex_color_sliceable(bytes: Seq<u8>) -> bool {
    let h = strip_hashes(bytes);
    &&& h.len() == 6 ==> starts_char(h[2]) && starts_char(h[4])
    &&& h.len() == 8 ==> starts_char(h[2]) && starts_char(h[4]) && starts_char(h[6])
}

fn hex_digit_exec(c: u8) -> (r: Option<u8>)
    ensures
        r == hex_digit(c),
{
    if 0x30 <= c && c <= 0x39 {
        Some(c - 0x30)
    } else if 0x61 <= c && c <= 0x66 {
        Some(c - 0x61 + 10)
    } else if 0x41 <= c && c <= 0x46 {
        Some(c - 0x41 + 10)
    } else {
        None
    }
}

fn hex_byte_exec(a: u8, b: u8) -> (r: Option<u8>)
    ensures
        r == hex_byte(a, b),
{
    if a == 0x2b {
        hex_digit_exec(b)
    } else {
        match (hex_digit_exec(a), hex_digit_exec(b)) {
            (Some(x), Some(y)) => Some(16 * x + y),
            _ => None,
        }
    }
}

/// The colour a hex string describes (see `hex_color`); callers fall back
/// to the default colour on `None`.
pub fn parse_hex_color(hex: &str) -> (r: Option<Rgba>)
    requires
        hex_color_sliceable(encode_utf8(hex@)),
    ensures
        r == hex_color(encode_utf8(hex@)),
{
    let b = hex.as_bytes();
    let mut i: usize = 0;
    assert(b@.subrange(0, b@.len() as int) =~= b@);
    while i < b.len() && b[i] == 0x23
        invariant
            i <= b@.len(),
            strip_hashes(b@) == strip_hashes(b@.subrange(i as int, b@.len() as int)),
        decreases b.len() - i,
    {
        assert(b@.subrange(i as int, b@.len() as int).drop_first() =~= b@.subrange(i + 1, b@.len() as int));
        i += 1;
    }
    let ghost h = b@.subrange(i as int, b@.len() as int);
    assert(strip_hashes(h) == h);
    let n = b.len() - i;
    if n == 6 {
        match (hex_byte_exec(b[i], b[i + 1]), hex_byte_exec(b[i + 2], b[i + 3]), hex_byte_exec(b[i + 4], b[i + 5])) {
            (Some(r), Some(g), Some(bl)) => Some((r, g, bl, 255u8)),
            _ => None,
        }
    } else if n == 8 {
        match (
            hex_byte_exec(b[i], b[i + 1]),
            hex_byte_exec(b[i + 2], b[i + 3]),
            hex_byte_exec(b[i + 4], b[i + 5]),
            hex_byte_exec(b[i + 6], b[i + 7]),
        ) {
            (Some(r), Some(g), Some(bl), Some(a)) => Some((r, g, bl, a)),
            _ => None,
        }
    } else {
        None
    }
}

/// `name` appended to the path `dir`, as `Path::join` does: with a `/`
/// between them unless `dir` is empty or already ends in one; an absolute
/// name replaces `dir`.
pub open spec fn join_path(dir: Seq<char>, name: Seq<char>) -> Seq<char> {
    if name.len() > 0 && name[0] == '/' {
        name
    } else if dir.len() == 0 || dir.last() == '/' {
        dir + name
    } else {
        dir + seq!['/'] + name
    }
}

pub fn join_path_exec(dir: &str, name: &str) -> (r: String)
    ensures
        r@ == join_path(dir@, name@),
{
    let d = chars_of(dir);
    let n = chars_of(name);
    let mut out: Vec<char> = Vec::new();
    if !(n.len() > 0 && n[0] == '/') {
        let mut i: usize = 0;
        while i < d.len()
            invariant
                i <= d@.len(),
                out@ == d@.subrange(0, i as int),
            decreases d.len() - i,
        {
            out.push(d[i]);
            i += 1;
            assert(out@ =~= d@.subrange(0, i as int));
        }
        assert(out@ =~= d@);
        if !(d.len() == 0 || d[d.len() - 1] == '/') {
            out.push('/');
        }
    }
    let ghost base = out@;
    let mut j: usize = 0;
    while j < n.len()
        invariant
            j <= n@.len(),
            out@ == base + n@.subrange(0, j as int),
        decreases n.len() - j,
    {
        out.push(n[j]);
        j += 1;
        assert(out@ =~= base + n@.subrange(0, j as int));
    }
    assert(n@.subrange(0, n@.len() as int) =~= n@);
    assert(out@ =~= join_path(dir@, name@));
    crate::text::string_of(out.as_slice())
}

/// The wallpaper settings of the configuration.
#[derive(Debug)]
pub struct WallpaperConfig {
    pub mode: String,
    pub color: String,
    pub path: Option<String>,
    pub fit: String,
    pub dir: Option<String>,
    pub interval: Option<u32>,
}

/// What the wallpaper shows: a solid colour (`None` for the default colour),
/// one image, or the images of a directory in turn.
#[derive(Debug)]
pub enum WallpaperMode {
    Solid { color: Option<Rgba> },
    Image { path: String, fit: FitMode },
    Slideshow { dir: String, fit: FitMode, interval_secs: u64 },
}

/// The slideshow interval used when the configuration gives none.
pub const DEFAULT_SLIDESHOW_SECS: u64 = 300;

/// The colour setting of a configuration can be read without a panic.
pub open spec fn config_color_ok(config: WallpaperConfig) -> bool {
    hex_color_sliceable(encode_utf8(config.color@))
}

/// The mode a configuration asks for: `solid`, `image` with a path,
/// `slideshow` with a directory; anything else, or a missing path or
/// directory, gives a solid colour.
pub open spec fn mode_of(config: WallpaperConfig, m: WallpaperMode) -> bool {
    let solid = m matches WallpaperMode::Solid { color } && color == hex_color(encode_utf8(config.color@));
    if config.mode@ == "image"@ && config.path is Some {
        m matches WallpaperMode::Image { path, fit } && path@ == config.path.unwrap()@ && fit == fit_mode_named(
            config.fit@,
        )
    } else if config.mode@ == "slideshow"@ && config.dir is Some {
        m matches WallpaperMode::Slideshow { dir, fit, interval_secs } && dir@ == config.dir.unwrap()@ && fit
            == fit_mode_named(config.fit@) && interval_secs == (match config.interval {
            Some(s) => s as u64,
            None => DEFAULT_SLIDESHOW_SECS,
        })
    } else {
        solid
    }
}

/// Whether two modes are of the same kind.
pub open spec fn same_kind(a: WallpaperMode, b: WallpaperMode) -> bool {
    ||| (a is Solid && b is Solid)
    ||| (a is Image && b is Image)
    ||| (a is Slideshow && b is Slideshow)
}

/// Whether two modes are of the same kind, so that a change between them
/// keeps what was loaded.
fn mode_compatible(a: &WallpaperMode, b: &WallpaperMode) -> (r: bool)
    ensures
        r == same_kind(*a, *b),
{
    match (a, b) {
        (WallpaperMode::Solid { .. }, WallpaperMode::Solid { .. }) => true,
        (WallpaperMode::Image { .. }, WallpaperMode::Image { .. }) => true,
        (WallpaperMode::Slideshow { .. }, WallpaperMode::Slideshow { .. }) => true,
        _ => false,
    }
}

/// The wallpaper being shown and the slideshow's progress. Times are in
/// milliseconds on a clock the caller keeps.
pub struct WallpaperState {
    mode: WallpaperMode,
    background_color: Option<Rgba>,
    current_image: Option<String>,
    slideshow_images: Vec<String>,
    slideshow_index: usize,
    last_slideshow_change_ms: u64,
    output_size: (i32, i32),
}

impl WallpaperState {
    pub closed spec fn spec_mode(&self) -> WallpaperMode {
        self.mode
    }

    pub closed spec fn spec_background_color(&self) -> Option<Rgba> {
        self.background_color
    }

    pub closed spec fn spec_images(&self) -> Seq<Seq<char>> {
        string_views(self.slideshow_images@)
    }

    pub closed spec fn spec_index(&self) -> int {
        self.slideshow_index as int
    }

    pub closed spec fn spec_last_change(&self) -> u64 {
        self.last_slideshow_change_ms
    }

    pub closed spec fn spec_output_size(&self) -> (i32, i32) {
        self.output_size
    }

    /// The slideshow position is inside the list whenever the list is not
    /// empty.
    pub closed spec fn wf(&self) -> bool {
        self.slideshow_images@.len() > 0 ==> self.slideshow_index < self.slideshow_images@.len()
    }

    fn parse_mode(config: &WallpaperConfig) -> (m: WallpaperMode)
        requires
            config_color_ok(*config),
        ensures
            mode_of(*config, m),
    {
        let mode = chars_of(config.mode.as_str());
        if crate::text::chars_eq_str(mode.as_slice(), "image") {
            if let Some(path) = &config.path {
                return WallpaperMode::Image { path: path.clone(), fit: FitMode::from_str(config.fit.as_str()) };
            }
        } else if crate::text::chars_eq_str(mode.as_slice(), "slideshow") {
            if let Some(dir) = &config.dir {
                let interval_secs = match config.interval {
                    Some(s) => s as u64,
                    None => DEFAULT_SLIDESHOW_SECS,
                };
                return WallpaperMode::Slideshow {
                    dir: dir.clone(),
                    fit: FitMode::from_str(config.fit.as_str()),
                    interval_secs,
                };
            }
        }
        proof {
            reveal_strlit("image");
            reveal_strlit("slideshow");
            assert("image"@.len() == 5 && "slideshow"@.len() == 9);
        }
        WallpaperMode::Solid { color: parse_hex_color(config.color.as_str()) }
    }

    /// The state for a configuration, with the slideshow clock started at
    /// `now_ms` and the default output size.
    pub fn new(config: &WallpaperConfig, now_ms: u64) -> (w: WallpaperState)
        requires
            config_color_ok(*config),
        ensures
            w.wf(),
            mode_of(*config, w.spec_mode()),
            w.spec_background_color() == hex_color(encode_utf8(config.color@)),
            w.spec_images().len() == 0,
            w.spec_index() == 0,
            w.spec_last_change() == now_ms,
            w.spec_output_size() == (1920i32, 1080i32),
    {
        WallpaperState {
            mode: Self::parse_mode(config),
            background_color: parse_hex_color(config.color.as_str()),
            current_image: None,
            slideshow_images: Vec::new(),
            slideshow_index: 0,
            last_slideshow_change_ms: now_ms,
            output_size: (1920, 1080),
        }
    }

    pub fn set_output_size(&mut self, width: i32, height: i32)
        ensures
            final(self).spec_output_size() == (width, height),
            final(self).spec_mode() == old(self).spec_mode(),
            final(self).spec_images() == old(self).spec_images(),
            final(self).spec_index() == old(self).spec_index(),
            final(self).wf() == old(self).wf(),
    {
        self.output_size = (width, height);
    }

    /// Switches to a new configuration. When the kind of wallpaper changes,
    /// the slideshow list is dropped and `true` is returned: the caller's
    /// loaded images no longer apply.
    pub fn update_config(&mut self, config: &WallpaperConfig) -> (invalidated: bool)
        requires
            old(self).wf(),
            config_color_ok(*config),
        ensures
            final(self).wf(),
            invalidated == !same_kind(old(self).spec_mode(), final(self).spec_mode()),
            mode_of(*config, final(self).spec_mode()),
            final(self).spec_background_color() == hex_color(encode_utf8(config.color@)),
            final(self).spec_images() == (if invalidated {
                Seq::empty()
            } else {
                old(self).spec_images()
            }),
            final(self).spec_index() == old(self).spec_index(),
            final(self).spec_last_change() == old(self).spec_last_change(),
            final(self).spec_output_size() == old(self).spec_output_size(),
    {
        let new_mode = Self::parse_mode(config);
        let compatible = mode_compatible(&self.mode, &new_mode);
        if !compatible {
            self.current_image = None;
            self.slideshow_images.clear();
            assert(string_views(self.slideshow_images@) =~= Seq::<Seq<char>>::empty());
        }
        self.mode = new_mode;
        self.background_color = parse_hex_color(config.color.as_str());
        !compatible
    }

    /// The directory of the slideshow, in slideshow mode.
    pub fn slideshow_dir(&self) -> (r: Option<&String>)
        ensures
            match self.spec_mode() {
                WallpaperMode::Slideshow { dir, .. } => r == Some(&dir),
                _ => r is None,
            },
    {
        match &self.mode {
            WallpaperMode::Slideshow { dir, .. } => Some(dir),
            _ => None,
        }
    }

    /// Takes the entries of the slideshow directory (their file names): in
    /// slideshow mode, the images among them, joined to the directory and in
    /// path order, become the slideshow, which starts again at its first
    /// image. In another mode nothing changes.
    pub fn set_slideshow_entries(&mut self, names: Vec<String>)
        requires
            old(self).wf(),
        ensures
            final(self).wf(),
            final(self).spec_mode() == old(self).spec_mode(),
            old(self).spec_mode() is Slideshow ==> {
                &&& final(self).spec_index() == 0
                &&& lex_sorted(final(self).spec_images())
                &&& final(self).spec_images().to_multiset() == slideshow_paths(
                    old(self).spec_mode()->dir@,
                    string_views(names@),
                ).to_multiset()
            },
            !(old(self).spec_mode() is Slideshow) ==> final(self).spec_images() == old(self).spec_images()
                && final(self).spec_index() == old(self).spec_index(),
            final(self).spec_last_change() == old(self).spec_last_change(),
            final(self).spec_output_size() == old(self).spec_output_size(),
    {
        let dir = match &self.mode {
            WallpaperMode::Slideshow { dir, .. } => dir,
            _ => {
                return;
            },
        };
        let mut images: Vec<String> = Vec::new();
        let mut i: usize = 0;
        while i < names.len()
            invariant
                i <= names@.len(),
                string_views(images@) == slideshow_paths(dir@, string_views(names@).subrange(0, i as int)),
            decreases names.len() - i,
        {
            let ghost before = string_views(names@).subrange(0, i as int);
            let p = join_path_exec(dir.as_str(), names[i].as_str());
            let ghost after = string_views(names@).subrange(0, i + 1);
            assert(after.drop_last() =~= before);
            if is_image_file(p.as_str()) {
                images.push(p);
                assert(string_views(images@) =~= slideshow_paths(dir@, after));
            } else {
                assert(string_views(images@) =~= slideshow_paths(dir@, after));
            }
            i += 1;
        }
        assert(string_views(names@).subrange(0, names@.len() as int) =~= string_views(names@));
        let sorted = sort_strings(images);
        self.slideshow_images = sorted;
        self.slideshow_index = 0;
    }

    /// Advances the slideshow when its interval has passed since the last
    /// change (at `now_ms`, never before it); returns whether it moved on.
    pub fn update_slideshow(&mut self, now_ms: u64) -> (changed: bool)
        requires
            old(self).wf(),
            now_ms >= old(self).spec_last_change(),
        ensures
            final(self).wf(),
            changed == (old(self).spec_mode() matches WallpaperMode::Slideshow { interval_secs, .. } && now_ms
                - old(self).spec_last_change() >= interval_secs * 1000),
            changed ==> final(self).spec_last_change() == now_ms && final(self).spec_index() == (if old(
                self,
            ).spec_images().len() == 0 {
                old(self).spec_index()
            } else {
                (old(self).spec_index() + 1) % (old(self).spec_images().len() as int)
            }),
            !changed ==> final(self).spec_last_change() == old(self).spec_last_change() && final(self).spec_index()
                == old(self).spec_index(),
            final(self).spec_mode() == old(self).spec_mode(),
            final(self).spec_images() == old(self).spec_images(),
            final(self).spec_output_size() == old(self).spec_output_size(),
    {
        let interval = match &self.mode {
            WallpaperMode::Slideshow { interval_secs, .. } => *interval_secs,
            _ => {
                return false;
            },
        };
        let elapsed = now_ms - self.last_slideshow_change_ms;
        if (elapsed as u128) >= (interval as u128) * 1000 {
            self.last_slideshow_change_ms = now_ms;
            self.advance_slideshow();
            return true;
        }
        false
    }

    fn advance_slideshow(&mut self)
        requires
            old(self).wf(),
        ensures
            final(self).wf(),
            final(self).spec_index() == (if old(self).spec_images().len() == 0 {
                old(self).spec_index()
            } else {
                (old(self).spec_index() + 1) % (old(self).spec_images().len() as int)
            }),
            final(self).spec_mode() == old(self).spec_mode(),
            final(self).spec_images() == old(self).spec_images(),
            final(self).spec_last_change() == old(self).spec_last_change(),
            final(self).spec_output_size() == old(self).spec_output_size(),
    {
        if self.slideshow_images.len() == 0 {
            return;
        }
        self.slideshow_index = (self.slideshow_index + 1) % self.slideshow_images.len();
    }

    /// The image being shown: the configured one, the slideshow's current
    /// one, or none for a solid colour or an empty slideshow.
    pub fn current_image_path(&self) -> (r: Option<&String>)
        requires
            self.wf(),
        ensures
            match self.spec_mode() {
                WallpaperMode::Image { path, .. } => r == Some(&path),
                WallpaperMode::Slideshow { .. } => if self.spec_images().len() > 0 {
                    r is Some && r.unwrap()@ == self.spec_images()[self.spec_index()]
                } else {
                    r is None
                },
                WallpaperMode::Solid { .. } => r is None,
            },
    {
        match &self.mode {
            WallpaperMode::Image { path, .. } => Some(path),
            WallpaperMode::Slideshow { .. } => {
                if self.slideshow_index < self.slideshow_images.len() {
                    Some(&self.slideshow_images[self.slideshow_index])
                } else {
                    None
                }
            },
            WallpaperMode::Solid { .. } => None,
        }
    }

    pub fn current_fit_mode(&self) -> (r: Option<FitMode>)
        ensures
            r == (match self.spec_mode() {
                WallpaperMode::Image { fit, .. } => Some(fit),
                WallpaperMode::Slideshow { fit, .. } => Some(fit),
                WallpaperMode::Solid { .. } => None,
            }),
    {
        match &self.mode {
            WallpaperMode::Image { fit, .. } => Some(*fit),
            WallpaperMode::Slideshow { fit, .. } => Some(*fit),
            WallpaperMode::Solid { .. } => None,
        }
    }

    /// The configured colour, `None` standing for the default colour.
    pub fn background_color(&self) -> (r: Option<Rgba>)
        ensures
            r == self.spec_background_color(),
    {
        self.background_color
    }

    pub fn is_solid(&self) -> (b: bool)
        ensures
            b == self.spec_mode() is Solid,
    {
        match &self.mode {
            WallpaperMode::Solid { .. } => true,
            _ => false,
        }
    }

    pub fn output_size(&self) -> (r: (i32, i32))
        ensures
            r == self.spec_output_size(),
    {
        self.output_size
    }
}

/// The images among directory entries `names` of `dir`, as paths, in entry
/// order.
pub open spec fn slideshow_paths(dir: Seq<char>, names: Seq<Seq<char>>) -> Seq<Seq<char>>
    decreases names.len(),
{
    if names.len() == 0 {
        Seq::empty()
    } else {
        let before = slideshow_paths(dir, names.drop_last());
        let p = join_path(dir, names.last());
        if image_path(p) {
            before.push(p)
        } else {
            before
        }
    }
}

} // verus!
