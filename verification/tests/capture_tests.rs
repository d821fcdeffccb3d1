use vitrum::capture::{
    fill_checker_to_shm_buffer, write_capture_to_shm_buffer, CaptureFailure, CapturedFrame, ShmLayout, ARGB8888_FOURCC,
    SHM_ARGB8888, SHM_XRGB8888,
};

fn frame(width: u32, height: u32, flipped: bool) -> CapturedFrame {
    let mut data = Vec::new();
    for y in 0..height {
        for x in 0..width {
            data.extend_from_slice(&[x as u8, y as u8, 7, 0x80]);
        }
    }
    CapturedFrame { width, height, format: ARGB8888_FOURCC, flipped, data }
}

#[test]
fn capture_copies_pixels_at_the_offset() {
    let capture = frame(2, 2, false);
    let layout = ShmLayout { format: SHM_ARGB8888, offset: 4, width: 2, height: 2, stride: 12 };
    let mut pool = vec![0xAAu8; 4 + 12 * 2];
    assert_eq!(write_capture_to_shm_buffer(&capture, layout, &mut pool), Ok(()));
    assert_eq!(&pool[0..4], &[0xAA; 4]);
    assert_eq!(&pool[4..12], &[0, 0, 7, 0x80, 1, 0, 7, 0x80]);
    assert_eq!(&pool[12..16], &[0xAA; 4]);
    assert_eq!(&pool[16..24], &[0, 1, 7, 0x80, 1, 1, 7, 0x80]);
    assert_eq!(&pool[24..28], &[0xAA; 4]);
}

#[test]
fn capture_scales_flips_and_makes_xrgb_opaque() {
    let capture = frame(2, 2, true);
    let layout = ShmLayout { format: SHM_XRGB8888, offset: 0, width: 4, height: 2, stride: 16 };
    let mut pool = vec![0u8; 32];
    assert_eq!(write_capture_to_shm_buffer(&capture, layout, &mut pool), Ok(()));
    // Row 0 shows source row 1 (flipped); columns 0,1 show source column 0.
    assert_eq!(&pool[0..8], &[0, 1, 7, 0xff, 0, 1, 7, 0xff]);
    assert_eq!(&pool[8..16], &[1, 1, 7, 0xff, 1, 1, 7, 0xff]);
    assert_eq!(&pool[16..20], &[0, 0, 7, 0xff]);
}

#[test]
fn capture_errors_write_nothing() {
    let capture = frame(2, 2, false);
    let good = ShmLayout { format: SHM_ARGB8888, offset: 0, width: 2, height: 2, stride: 8 };
    let mut pool = vec![9u8; 16];

    let mut other = frame(2, 2, false);
    other.format = 0x1234;
    assert_eq!(write_capture_to_shm_buffer(&other, good, &mut pool), Err(CaptureFailure::BufferConstraints));

    let narrow = ShmLayout { stride: 7, ..good };
    assert_eq!(write_capture_to_shm_buffer(&capture, narrow, &mut pool), Err(CaptureFailure::BufferConstraints));

    let too_big = ShmLayout { height: 3, ..good };
    assert_eq!(write_capture_to_shm_buffer(&capture, too_big, &mut pool), Err(CaptureFailure::BufferConstraints));

    let bad_format = ShmLayout { format: 5, ..good };
    assert_eq!(write_capture_to_shm_buffer(&capture, bad_format, &mut pool), Err(CaptureFailure::BufferConstraints));

    let empty = CapturedFrame { width: 0, height: 2, format: ARGB8888_FOURCC, flipped: false, data: vec![] };
    assert_eq!(write_capture_to_shm_buffer(&empty, good, &mut pool), Err(CaptureFailure::Unknown));

    let mut short = frame(2, 2, false);
    short.data.pop();
    assert_eq!(write_capture_to_shm_buffer(&short, good, &mut pool), Err(CaptureFailure::BufferConstraints));

    assert_eq!(pool, vec![9u8; 16]);
}

#[test]
fn checkerboard_squares_alternate() {
    let layout = ShmLayout { format: SHM_ARGB8888, offset: 0, width: 64, height: 1, stride: 256 };
    let mut pool = vec![0u8; 256];
    assert_eq!(fill_checker_to_shm_buffer(layout, &mut pool), Ok(()));
    assert_eq!(&pool[0..4], &[0x22, 0x22, 0x22, 0xff]);
    assert_eq!(&pool[31 * 4..32 * 4], &[0x22, 0x22, 0x22, 0xff]);
    assert_eq!(&pool[32 * 4..33 * 4], &[0x44, 0x44, 0x44, 0xff]);
    let negative = ShmLayout { offset: -1, ..layout };
    assert_eq!(fill_checker_to_shm_buffer(negative, &mut pool), Err(CaptureFailure::BufferConstraints));
}
