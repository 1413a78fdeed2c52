use iris::camera::{black_field, downscale_yuyv_to_uyvy, split_fields, CameraSource};
use iris::video_source::{FieldParity, VideoStandard};

#[test]
fn black_field_is_neutral_uyvy() {
    let b = black_field(2, 1);
    assert_eq!(&b[..], &[128, 16, 128, 16]);
}

#[test]
fn split_fields_partitions_rows_by_parity() {
    // Two-row frame, each row is 4 bytes (2 pixels UYVY).
    let frame = vec![
        0x01, 0x02, 0x03, 0x04, // row 0 → even
        0x11, 0x12, 0x13, 0x14, // row 1 → odd
    ];
    let (e, o) = split_fields(&frame, 2, 2);
    assert_eq!(e, vec![0x01, 0x02, 0x03, 0x04]);
    assert_eq!(o, vec![0x11, 0x12, 0x13, 0x14]);
}

#[test]
fn downscale_byte_swap_is_correct_for_1to1_2x1() {
    // A 2×1 YUYV input is already UYVY-equivalent after swap.
    let src = vec![0xA0, 0x80, 0xA1, 0x40];
    let dst = downscale_yuyv_to_uyvy(&src, 2, 1, 2, 1);
    assert_eq!(dst, vec![0x80, 0xA0, 0x40, 0xA1]);
}

#[test]
fn downscale_averages_4x1_to_2x1() {
    // Two YUYV pairs at 4×1 → one UYVY pair at 2×1, averaged.
    let src = vec![
        0x10, 0x80, 0x20, 0x40, // pair 0: Y0=0x10 U=0x80 Y1=0x20 V=0x40
        0x30, 0xA0, 0x40, 0x60, // pair 1: Y0=0x30 U=0xA0 Y1=0x40 V=0x60
    ];
    let dst = downscale_yuyv_to_uyvy(&src, 4, 1, 2, 1);
    assert_eq!(dst, vec![0x90, 0x20, 0x50, 0x30]);
}

#[test]
fn downscale_averages_rows() {
    let src = vec![
        10, 20, 30, 40, //
        20, 40, 60, 81, //
    ];
    assert_eq!(downscale_yuyv_to_uyvy(&src, 2, 2, 2, 1), vec![30, 15, 60, 45]);
}

#[test]
fn upscale_repeats_pixels() {
    let src = vec![10, 20, 30, 40];
    assert_eq!(
        downscale_yuyv_to_uyvy(&src, 2, 1, 4, 2),
        vec![20, 10, 40, 30, 20, 10, 40, 30, 20, 10, 40, 30, 20, 10, 40, 30]
    );
}

#[test]
fn missing_source_bytes_give_zero() {
    // The second source pair is cut short and does not count.
    let src = vec![10, 20, 30, 40, 50, 60, 70];
    assert_eq!(downscale_yuyv_to_uyvy(&src, 4, 1, 4, 1), vec![20, 10, 40, 30, 0, 0, 0, 0]);
}

#[test]
fn odd_width_leaves_the_last_column_empty() {
    let src = vec![1, 2, 3, 4, 5, 6];
    assert_eq!(downscale_yuyv_to_uyvy(&src, 3, 1, 3, 1), vec![2, 1, 4, 3, 0, 0]);
}

#[test]
fn source_is_black_before_the_first_frame() {
    let mut cam = CameraSource::new(VideoStandard::Ntsc, 1_000, 5_000);
    let (field, wait) = cam.next_field(5_000);
    assert_eq!(field.parity, FieldParity::Even);
    assert_eq!((field.width, field.height), (640, 243));
    assert_eq!(field.pixels.len(), 640 * 243 * 2);
    assert_eq!(&field.pixels[..4], &[128, 16, 128, 16]);
    assert_eq!(wait, 0);
    assert_eq!(cam.next_due, 6_000);
    let (field, wait) = cam.next_field(5_200);
    assert_eq!(field.parity, FieldParity::Odd);
    assert_eq!(wait, 800);
    assert_eq!(cam.next_due, 7_000);
}

#[test]
fn late_caller_moves_the_schedule_on() {
    let mut cam = CameraSource::new(VideoStandard::Pal, 1_000, 0);
    let (field, wait) = cam.next_field(4_000);
    assert_eq!((field.width, field.height, wait), (768, 288, 0));
    // Four periods late is not too late yet.
    assert_eq!(cam.next_due, 1_000);
    let _ = cam.next_field(5_001);
    assert_eq!(cam.next_due, 6_001);
}

#[test]
fn frames_are_handed_out_by_parity() {
    let mut cam = CameraSource::new(VideoStandard::Ntsc, 1_000, 0);
    let (w, h) = cam.frame_size();
    assert_eq!((w, h), (640, 486));
    let row = (w * 2) as usize;
    let mut frame = vec![0u8; row * h as usize];
    for (i, b) in frame.iter_mut().enumerate() {
        *b = if (i / row) % 2 == 0 { 1 } else { 2 };
    }
    assert!(!cam.accept_frame(&frame[1..], w, h));
    assert!(cam.even.is_none());
    assert!(cam.accept_frame(&frame, w, h));
    let (even, _) = cam.next_field(0);
    let (odd, _) = cam.next_field(0);
    assert!(even.pixels.iter().all(|b| *b == 1));
    assert!(odd.pixels.iter().all(|b| *b == 2));
    assert_eq!(even.pixels.len(), row * 243);
    assert_eq!(odd.pixels.len(), row * 243);
}

#[test]
fn means_keep_the_range_of_their_kind() {
    // Y0 between 10 and 19, U between 100 and 109, Y1 between 50 and 59, V between 200 and 209.
    let mut src = Vec::new();
    for i in 0..32u8 {
        let d = i % 10;
        src.extend_from_slice(&[10 + d, 100 + d, 50 + d, 200 + d]);
    }
    for (dw, dh) in [(2, 1), (4, 3), (6, 5), (32, 16)] {
        for pair in downscale_yuyv_to_uyvy(&src, 8, 8, dw, dh).chunks_exact(4) {
            assert!((100..=109).contains(&pair[0]));
            assert!((10..=19).contains(&pair[1]));
            assert!((200..=209).contains(&pair[2]));
            assert!((50..=59).contains(&pair[3]));
        }
    }
}

#[test]
fn fields_alternate_however_frames_come() {
    let mut cam = CameraSource::new(VideoStandard::Pal, 1_000, 0);
    let (w, h) = cam.frame_size();
    let mut latest = None;
    for k in 0..9u64 {
        if k % 4 == 2 {
            let frame = vec![k as u8; (w * h * 2) as usize];
            assert!(cam.accept_frame(&frame, w, h));
            assert!(!cam.accept_frame(&frame[2..], w, h));
            latest = Some(k as u8);
        }
        let (field, _) = cam.next_field(k * 1_000);
        let expected = if k % 2 == 0 { FieldParity::Even } else { FieldParity::Odd };
        assert_eq!(field.parity, expected);
        assert_eq!((field.width, field.height), (w, h / 2));
        match latest {
            Some(v) => assert!(field.pixels.iter().all(|b| *b == v)),
            None => assert_eq!(field.pixels, black_field(w, h / 2)),
        }
        assert_eq!(cam.next_due, (k + 1) * 1_000);
    }
}
