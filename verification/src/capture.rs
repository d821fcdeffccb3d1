use vstd::prelude::*;
use vstd::arithmetic::div_mod::{lemma_fundamental_div_mod, lemma_fundamental_div_mod_converse, lemma_multiply_divide_lt};
use vstd::arithmetic::mul::{lemma_mul_inequality, lemma_mul_upper_bound};

verus! {

/// The fourcc code of the 32-bit ARGB format (`AR24`).
pub const ARGB8888_FOURCC: u32 = 0x3432_5241;

/// The `wl_shm` code of the ARGB8888 format.
pub const SHM_ARGB8888: u32 = 0;

/// The `wl_shm` code of the XRGB8888 format.
pub const SHM_XRGB8888: u32 = 1;

/// A frame the renderer captured: its size, its fourcc format, whether its
/// rows run bottom to top, and its pixels, four bytes each, row after row.
#[derive(Debug)]
pub struct CapturedFrame {
    pub width: u32,
    pub height: u32,
    pub format: u32,
    pub flipped: bool,
    pub data: Vec<u8>,
}

/// Where a client's shared-memory buffer keeps its pixels in its pool: its
/// `wl_shm` format, the offset of the first row, its size in pixels and
/// the bytes from one row to the next.
#[derive(Debug, Clone, Copy, PartialEq, Eq, Structural)]
pub struct ShmLayout {
    pub format: u32,
    pub offset: i32,
    pub width: i32,
    pub height: i32,
    pub stride: i32,
}

/// Why a capture could not be copied to a client's buffer.
#[derive(Debug, Clone, Copy, PartialEq, Eq, Structural)]
pub enum CaptureFailure {
    BufferConstraints,
    Unknown,
}

/// The buffer has a 32-bit format, sane numbers, rows wide enough for its
/// pixels, and all of them fit in a pool of `pool_len` bytes.
pub open spec fn layout_fits(l: ShmLayout, pool_len: int) -> bool {
    &&& l.format == SHM_ARGB8888 || l.format == SHM_XRGB8888
    &&& l.offset >= 0 && l.width >= 0 && l.height >= 0 && l.stride >= 0
    &&& l.stride >= l.width * 4
    &&& l.offset + l.stride * l.height <= pool_len
}

/// What goes wrong when a capture of format `format` and size `sw` by `sh`
/// with `data_len` bytes is copied to a buffer laid out as `l` in a pool of
/// `pool_len` bytes; `None` when nothing does.
pub open spec fn capture_error(format: u32, sw: u32, sh: u32, data_len: int, l: ShmLayout, pool_len: int) -> Option<
    CaptureFailure,
> {
    if format != ARGB8888_FOURCC || !layout_fits(l, pool_len) {
        Some(CaptureFailure::BufferConstraints)
    } else if sw == 0 || sh == 0 {
        Some(CaptureFailure::Unknown)
    } else if data_len < sw * 4 * sh {
        Some(CaptureFailure::BufferConstraints)
    } else {
        None
    }
}

/// What fills a buffer: a captured frame, or a checkerboard.
pub enum PixelSource<'a> {
    Capture(&'a CapturedFrame),
    Checker,
}

/// The capture row that buffer row `y` of `h` shows, scaled from `sh` rows.
pub open spec fn source_row(y: int, h: int, sh: int, flipped: bool) -> int {
    let s = (y * sh) / h;
    if flipped {
        sh - 1 - s
    } else {
        s
    }
}

/// The capture column that buffer column `x` of `w` shows, scaled from `sw`.
pub open spec fn source_col(x: int, w: int, sw: int) -> int {
    (x * sw) / w
}

/// Byte `k` (blue, green, red, alpha) of buffer pixel `(x, y)` filled from `src`.
pub open spec fn pixel_byte(src: PixelSource, l: ShmLayout, y: int, x: int, k: int) -> u8 {
    match src {
        PixelSource::Capture(c) => if k == 3 && l.format == SHM_XRGB8888 {
            0xff
        } else {
            c.data@[source_row(y, l.height as int, c.height as int, c.flipped) * (c.width * 4) + source_col(
                x,
                l.width as int,
                c.width as int,
            ) * 4 + k]
        },
        PixelSource::Checker => if k == 3 {
            0xff
        } else if (x / 32 + y / 32) % 2 == 0 {
            0x22
        } else {
            0x44
        },
    }
}

/// The buffer row of pool byte `i`.
pub open spec fn row_of(l: ShmLayout, i: int) -> int {
    (i - l.offset) / (l.stride as int)
}

/// The byte of pool byte `i` within its buffer row.
pub open spec fn col_of(l: ShmLayout, i: int) -> int {
    (i - l.offset) % (l.stride as int)
}

/// Pool byte `i` belongs to a pixel of the buffer.
pub open spec fn in_image(l: ShmLayout, i: int) -> bool {
    &&& l.width > 0
    &&& i >= l.offset
    &&& row_of(l, i) < l.height
    &&& col_of(l, i) < l.width * 4
}

/// Pool byte `i` is one of the buffer's, in a row before `y` or in row `y`
/// before byte `c`.
pub open spec fn written(l: ShmLayout, i: int, y: int, c: int) -> bool {
    in_image(l, i) && (row_of(l, i) < y || (row_of(l, i) == y && col_of(l, i) < c))
}

/// The pool `old` with the buffer's bytes, up to row `y` and byte `c`, filled from `src`.
pub open spec fn filled_upto(src: PixelSource, l: ShmLayout, old: Seq<u8>, y: int, c: int) -> Seq<u8> {
    Seq::new(
        old.len(),
        |i: int|
            if written(l, i, y, c) {
                pixel_byte(src, l, row_of(l, i), col_of(l, i) / 4, col_of(l, i) % 4)
            } else {
                old[i]
            },
    )
}

/// The pool `old` with every byte of the buffer filled from `src`.
pub open spec fn filled(src: PixelSource, l: ShmLayout, old: Seq<u8>) -> Seq<u8> {
    filled_upto(src, l, old, l.height as int, 0)
}

/// Byte `c` of row `y` sits at `offset + y * stride + c` and nowhere else.
proof fn lemma_cell(l: ShmLayout, y: int, c: int)
    requires
        l.stride > 0,
        l.offset >= 0,
        y >= 0,
        0 <= c < l.stride,
    ensures
        row_of(l, l.offset + y * l.stride + c) == y,
        col_of(l, l.offset + y * l.stride + c) == c,
{
    lemma_fundamental_div_mod_converse(y * l.stride + c, l.stride as int, y, c);
}

/// Every pool byte past the offset sits at its row and column.
proof fn lemma_position(l: ShmLayout, i: int)
    requires
        l.stride > 0,
        i >= l.offset,
    ensures
        i == l.offset + row_of(l, i) * l.stride + col_of(l, i),
        0 <= col_of(l, i) < l.stride,
        row_of(l, i) >= 0,
{
    lemma_fundamental_div_mod(i - l.offset, l.stride as int);
    assert(row_of(l, i) * l.stride == l.stride * row_of(l, i)) by (nonlinear_arith);
    assert(row_of(l, i) >= 0) by (nonlinear_arith)
        requires
            i - l.offset >= 0,
            l.stride > 0,
            row_of(l, i) == (i - l.offset) / (l.stride as int),
    ;
}

/// Filling the byte at row `y`, column `c` moves the frontier by one.
proof fn lemma_fill_step(src: PixelSource, l: ShmLayout, old: Seq<u8>, y: int, c: int, cur: Seq<u8>)
    requires
        l.width > 0,
        l.stride >= l.width * 4,
        l.offset >= 0,
        0 <= y < l.height,
        0 <= c < l.width * 4,
        l.offset + l.stride * l.height <= old.len(),
        cur == filled_upto(src, l, old, y, c),
    ensures
        0 <= l.offset + y * l.stride + c < old.len(),
        cur.update(l.offset + y * l.stride + c, pixel_byte(src, l, y, c / 4, c % 4)) == filled_upto(src, l, old, y, c + 1),
{
    let idx = l.offset + y * l.stride + c;
    lemma_cell(l, y, c);
    assert(y * l.stride + l.stride <= l.height * l.stride) by (nonlinear_arith)
        requires
            y < l.height,
            l.stride > 0,
    ;
    assert(l.height * l.stride == l.stride * l.height) by (nonlinear_arith);
    assert(y * l.stride >= 0) by (nonlinear_arith)
        requires
            y >= 0,
            l.stride > 0,
    ;
    let next = filled_upto(src, l, old, y, c + 1);
    assert forall|i: int| 0 <= i < old.len() implies #[trigger] cur.update(idx, pixel_byte(src, l, y, c / 4, c % 4))[i]
        == next[i] by {
        if i != idx {
            if i >= l.offset {
                lemma_position(l, i);
            }
            assert(written(l, i, y, c) == written(l, i, y, c + 1));
        } else {
            assert(written(l, i, y, c + 1));
        }
    }
    assert(cur.update(idx, pixel_byte(src, l, y, c / 4, c % 4)) =~= next);
}

/// The end of one row is the start of the next.
proof fn lemma_next_row(src: PixelSource, l: ShmLayout, old: Seq<u8>, y: int)
    requires
        l.width > 0,
        l.stride >= l.width * 4,
    ensures
        filled_upto(src, l, old, y, l.width * 4) == filled_upto(src, l, old, y + 1, 0),
{
    assert forall|i: int| 0 <= i < old.len() implies #[trigger] written(l, i, y, l.width * 4) == written(l, i, y + 1, 0) by {
        if in_image(l, i) {
            lemma_position(l, i);
        }
    }
    assert(filled_upto(src, l, old, y, l.width * 4) =~= filled_upto(src, l, old, y + 1, 0));
}

/// Before any row nothing is written.
proof fn lemma_nothing_written(src: PixelSource, l: ShmLayout, old: Seq<u8>)
    requires
        l.stride > 0,
    ensures
        filled_upto(src, l, old, 0, 0) == old,
{
    assert forall|i: int| 0 <= i < old.len() implies !#[trigger] written(l, i, 0, 0) by {
        if i >= l.offset {
            lemma_position(l, i);
        }
    }
    assert(filled_upto(src, l, old, 0, 0) =~= old);
}

/// A buffer without columns is filled by writing nothing.
proof fn lemma_empty_width(src: PixelSource, l: ShmLayout, old: Seq<u8>)
    requires
        l.width <= 0,
    ensures
        filled(src, l, old) == old,
{
    assert(filled(src, l, old) =~= old);
}

/// Checks the buffer's layout against a pool of `pool_len` bytes.
fn check_layout(l: ShmLayout, pool_len: usize) -> (ok: bool)
    ensures
        ok == layout_fits(l, pool_len as int),
{
    if !(l.format == SHM_ARGB8888 || l.format == SHM_XRGB8888) {
        return false;
    }
    if l.offset < 0 || l.width < 0 || l.height < 0 || l.stride < 0 {
        return false;
    }
    if (l.stride as i64) < (l.width as i64) * 4 {
        return false;
    }
    let stride = l.stride as u64;
    let height = l.height as u64;
    assert(stride * height <= 0x7fff_ffff * 0x7fff_ffff) by (nonlinear_arith)
        requires
            stride <= 0x7fff_ffff,
            height <= 0x7fff_ffff,
    ;
    let required = l.offset as u64 + stride * height;
    required <= pool_len as u64
}

/// The byte to write at row `y`, column `x`, channel `k`.
fn pixel_value(src: &PixelSource, l: ShmLayout, y: u64, x: u64, k: u64) -> (b: u8)
    requires
        0 <= y < l.height,
        0 <= x < l.width,
        k < 4,
        src matches PixelSource::Capture(c) ==> c.width > 0 && c.height > 0 && c.data@.len() >= c.width * 4 * c.height,
    ensures
        b == pixel_byte(*src, l, y as int, x as int, k as int),
{
    match src {
        PixelSource::Capture(c) => {
            if k == 3 && l.format == SHM_XRGB8888 {
                return 0xff;
            }
            let h = l.height as u64;
            let w = l.width as u64;
            let sh = c.height as u64;
            let sw = c.width as u64;
            assert(c.width > 0 && c.height > 0 && c.data@.len() >= c.width * 4 * c.height);
            assert(y * sh < h * sh) by (nonlinear_arith)
                requires
                    y < h,
                    sh > 0,
            ;
            assert(y * sh <= 0x7fff_ffff * 0xffff_ffffu64) by (nonlinear_arith)
                requires
                    y <= 0x7fff_ffff,
                    sh <= 0xffff_ffffu64,
            ;
            assert(x * sw <= 0x7fff_ffff * 0xffff_ffffu64) by (nonlinear_arith)
                requires
                    x <= 0x7fff_ffff,
                    sw <= 0xffff_ffffu64,
            ;
            let s = y * sh / h;
            proof {
                lemma_multiply_divide_lt((y * sh) as int, h as int, sh as int);
                assert(h * sh == sh * h) by (nonlinear_arith);
            }
            let sy = if c.flipped {
                sh - 1 - s
            } else {
                s
            };
            assert(x * sw < w * sw) by (nonlinear_arith)
                requires
                    x < w,
                    sw > 0,
            ;
            let sx = x * sw / w;
            proof {
                lemma_multiply_divide_lt((x * sw) as int, w as int, sw as int);
                assert(w * sw == sw * w) by (nonlinear_arith);
            }
            let row_len = sw * 4;
            let n = c.data.len();
            assert(n >= sw * 4 * sh);
            assert(sy * row_len + row_len <= sh * row_len) by (nonlinear_arith)
                requires
                    sy < sh,
                    row_len > 0,
            ;
            assert(sh * row_len == sw * 4 * sh) by (nonlinear_arith)
                requires
                    row_len == sw * 4,
            ;
            assert(sy * row_len + sx * 4 + k < n);
            let idx = sy * row_len + sx * 4 + k;
            c.data[idx as usize]
        },
        PixelSource::Checker => {
            if k == 3 {
                0xff
            } else if (x / 32 + y / 32) % 2 == 0 {
                0x22
            } else {
                0x44
            }
        },
    }
}

/// Fills every pixel of the buffer laid out as `l` in `pool` from `src`.
fn fill_pixels(src: &PixelSource, l: ShmLayout, pool: &mut [u8])
    requires
        layout_fits(l, old(pool)@.len() as int),
        src matches PixelSource::Capture(c) ==> c.width > 0 && c.height > 0 && c.data@.len() >= c.width * 4 * c.height,
    ensures
        final(pool)@ == filled(*src, l, old(pool)@),
{
    let ghost start = pool@;
    if l.width == 0 {
        proof {
            lemma_empty_width(*src, l, start);
        }
        return;
    }
    let stride = l.stride as u64;
    let offset = l.offset as u64;
    let height = l.height as u64;
    let width = l.width as u64;
    let plen = pool.len();
    proof {
        lemma_nothing_written(*src, l, start);
    }
    let mut y: u64 = 0;
    while y < height
        invariant
            0 <= y <= height,
            height == l.height,
            width == l.width,
            width > 0,
            stride == l.stride,
            offset == l.offset,
            layout_fits(l, start.len() as int),
            pool@.len() == start.len(),
            plen == start.len(),
            pool@ == filled_upto(*src, l, start, y as int, 0),
            src matches PixelSource::Capture(c) ==> c.width > 0 && c.height > 0 && c.data@.len() >= c.width * 4 * c.height,
        decreases height - y,
    {
        assert(y * stride <= 0x7fff_ffff * 0x7fff_ffff) by (nonlinear_arith)
            requires
                y <= 0x7fff_ffff,
                stride <= 0x7fff_ffff,
        ;
        let row_start = offset + y * stride;
        let mut c: u64 = 0;
        while c < width * 4
            invariant
                0 <= y < height,
                height == l.height,
                width == l.width,
                width > 0,
                stride == l.stride,
                offset == l.offset,
                row_start == offset + y * stride,
                layout_fits(l, start.len() as int),
                0 <= c <= width * 4,
                pool@.len() == start.len(),
                plen == start.len(),
                pool@ == filled_upto(*src, l, start, y as int, c as int),
                src matches PixelSource::Capture(cf) ==> cf.width > 0 && cf.height > 0 && cf.data@.len() >= cf.width * 4 * cf.height,
            decreases width * 4 - c,
        {
            proof {
                lemma_fill_step(*src, l, start, y as int, c as int, pool@);
            }
            assert(row_start + c < plen);
            let b = pixel_value(src, l, y, c / 4, c % 4);
            let idx = row_start + c;
            pool[idx as usize] = b;
            c += 1;
        }
        proof {
            lemma_next_row(*src, l, start, y as int);
        }
        y += 1;
    }
}

/// Copies a captured frame into a client's buffer laid out as `l` in
/// `pool`, scaling it to the buffer's size (nearest pixel) and turning it
/// upside down when its rows run bottom to top; an XRGB buffer gets opaque
/// alpha. On an error nothing is written.
pub fn write_capture_to_shm_buffer(capture: &CapturedFrame, l: ShmLayout, pool: &mut [u8]) -> (r: Result<(), CaptureFailure>)
    ensures
        match capture_error(capture.format, capture.width, capture.height, capture.data@.len() as int, l, old(pool)@.len() as int) {
            Some(e) => r == Err::<(), CaptureFailure>(e) && final(pool)@ == old(pool)@,
            None => r == Ok::<(), CaptureFailure>(()) && final(pool)@ == filled(PixelSource::Capture(capture), l, old(pool)@),
        },
{
    if capture.format != ARGB8888_FOURCC {
        return Err(CaptureFailure::BufferConstraints);
    }
    if !check_layout(l, pool.len()) {
        return Err(CaptureFailure::BufferConstraints);
    }
    if capture.width == 0 || capture.height == 0 {
        return Err(CaptureFailure::Unknown);
    }
    let needed = (capture.width as u64 * 4).checked_mul(capture.height as u64);
    let len = capture.data.len();
    match needed {
        Some(n) => {
            if (len as u64) < n {
                return Err(CaptureFailure::BufferConstraints);
            }
        },
        None => {
            return Err(CaptureFailure::BufferConstraints);
        },
    }
    let src = PixelSource::Capture(capture);
    fill_pixels(&src, l, pool);
    Ok(())
}

/// Fills a client's buffer laid out as `l` in `pool` with a checkerboard of
/// 32-pixel squares, opaque; on an error nothing is written.
pub fn fill_checker_to_shm_buffer(l: ShmLayout, pool: &mut [u8]) -> (r: Result<(), CaptureFailure>)
    ensures
        layout_fits(l, old(pool)@.len() as int) ==> r == Ok::<(), CaptureFailure>(()) && final(pool)@ == filled(
            PixelSource::Checker,
            l,
            old(pool)@,
        ),
        !layout_fits(l, old(pool)@.len() as int) ==> r == Err::<(), CaptureFailure>(CaptureFailure::BufferConstraints)
            && final(pool)@ == old(pool)@,
{
    if !check_layout(l, pool.len()) {
        return Err(CaptureFailure::BufferConstraints);
    }
    fill_pixels(&PixelSource::Checker, l, pool);
    Ok(())
}

} // verus!
