use iris::cdmc::{Cdmc, I2cState, I2C_READ_ADDR, I2C_WRITE_ADDR};
use iris::decode_cache_profile::{load_raw_words, profile_path, save_raw_words};
use iris::framebuffer::{CaptureRenderer, FrameSink};

fn write_reg(c: &mut Cdmc, sub: u8, data: &[u8]) {
    c.i2c_write(I2C_WRITE_ADDR);
    c.i2c_write(sub);
    for b in data {
        c.i2c_write(*b);
    }
    c.i2c_stop();
}

fn read_reg(c: &mut Cdmc, sub: u8) -> u8 {
    c.i2c_write(I2C_READ_ADDR);
    c.i2c_write(sub);
    let v = c.i2c_read();
    c.i2c_stop();
    v
}

#[test]
fn camera_registers_read_back() {
    let mut c = Cdmc::new();
    write_reg(&mut c, 1, &[0x55, 0x66]);
    assert_eq!(read_reg(&mut c, 1), 0x55);
    assert_eq!(read_reg(&mut c, 2), 0x66);
    assert_eq!(read_reg(&mut c, 3), 0);
}

#[test]
fn camera_version_cannot_be_written() {
    let mut c = Cdmc::new();
    write_reg(&mut c, 0, &[0x99]);
    assert_eq!(read_reg(&mut c, 0), 0x12);
}

#[test]
fn camera_subaddress_wraps() {
    let mut c = Cdmc::new();
    write_reg(&mut c, 8, &[0x77, 0x01, 0x02]);
    assert_eq!(read_reg(&mut c, 8), 0x77);
    assert_eq!(read_reg(&mut c, 0), 0x12);
    assert_eq!(read_reg(&mut c, 1), 0x02);
    // One beyond the registers holds nothing, and the next one is found by the rest.
    write_reg(&mut c, 200, &[0x11, 0x22]);
    assert_eq!(read_reg(&mut c, 200), 0);
    assert_eq!(read_reg(&mut c, 3), 0x22);
}

#[test]
fn camera_reads_advance() {
    let mut c = Cdmc::new();
    write_reg(&mut c, 1, &[1, 2, 3]);
    c.i2c_write(I2C_READ_ADDR);
    c.i2c_write(1);
    assert_eq!((c.i2c_read(), c.i2c_read(), c.i2c_read()), (1, 2, 3));
    assert!(c.is_active());
    // A write in the middle of a read ends it.
    c.i2c_write(9);
    assert!(!c.is_active());
}

#[test]
fn camera_ignores_other_addresses() {
    let mut c = Cdmc::new();
    c.i2c_write(0x8A);
    assert!(!c.is_active());
    c.i2c_write(I2C_WRITE_ADDR);
    assert!(c.is_active());
    assert_eq!(c.state, I2cState::SubaddrWrite);
    assert_eq!(c.i2c_read(), 0);
    assert!(!c.is_active());
}

#[test]
fn camera_power_on_forgets() {
    let mut c = Cdmc::new();
    write_reg(&mut c, 4, &[0x44]);
    c.i2c_write(I2C_WRITE_ADDR);
    c.power_on();
    assert!(!c.is_active());
    assert_eq!(read_reg(&mut c, 4), 0);
}

#[test]
fn camera_registers_have_names() {
    let names: Vec<&str> = (0..10).map(Cdmc::reg_name).collect();
    assert_eq!(
        names,
        vec![
            "VERSION", "GAIN", "BLUE_BAL", "RED_BAL", "RED_SAT", "BLUE_SAT", "SHUTTER_HI", "SHUTTER_LO", "CONTROL",
            "(unknown)"
        ]
    );
}

#[test]
fn profile_bytes_are_as_laid_down() {
    assert_eq!(
        save_raw_words(&[0x01020304, 0xA0B0C0D0]),
        vec![b'I', b'R', b'D', b'P', 1, 2, 0, 0, 0, 4, 3, 2, 1, 0xD0, 0xC0, 0xB0, 0xA0]
    );
}

#[test]
fn profile_gives_back_what_was_saved() {
    let words = vec![0, 1, u32::MAX, 0x3C08BFC0];
    assert_eq!(load_raw_words(&save_raw_words(&words)), words);
    assert!(load_raw_words(&save_raw_words(&[])).is_empty());
}

#[test]
fn bad_profiles_are_empty() {
    let good = save_raw_words(&[7]);
    let mut magic = good.clone();
    magic[0] = b'X';
    assert!(load_raw_words(&magic).is_empty());
    let mut version = good.clone();
    version[4] = 2;
    assert!(load_raw_words(&version).is_empty());
    assert!(load_raw_words(&good[..8]).is_empty());
    assert!(load_raw_words(&[]).is_empty());
}

#[test]
fn cut_profile_gives_no_words() {
    let bytes = save_raw_words(&[1, 2, 3]);
    for n in 0..bytes.len() {
        assert!(load_raw_words(&bytes[..n]).is_empty());
    }
    let cut = [b'I', b'R', b'D', b'P', 1, 2, 0, 0, 0, 7, 0, 0, 0];
    assert!(load_raw_words(&cut).is_empty());
    assert!(load_raw_words(&[b'I', b'R', b'D', b'P', 1, 255, 255, 255, 255]).is_empty());
}

#[test]
fn bytes_behind_a_profile_do_not_count() {
    let mut longer = save_raw_words(&[1, 2, 3]);
    longer.extend_from_slice(&[9, 9, 9, 9]);
    assert_eq!(load_raw_words(&longer), vec![1, 2, 3]);
}

#[test]
fn profile_lies_below_the_home_directory() {
    assert_eq!(profile_path(Some("/home/u")), "/home/u/.iris/decode-cache.bin");
    assert_eq!(profile_path(None), "decode-cache.bin");
}

#[test]
fn captured_pixels_are_opaque_and_packed() {
    let mut r = CaptureRenderer::new(FrameSink::new());
    assert_eq!(r.sink.seq(), 0);
    let mut buffer = vec![0u32; 2048 * 2];
    buffer[0] = 0x00332211;
    buffer[1] = 0x80665544;
    buffer[2048] = 0xFF998877;
    r.present(2, 2, &buffer);
    let f = r.sink.snapshot();
    assert_eq!((f.width, f.height, f.seq), (2, 2, 1));
    assert_eq!(
        f.rgba,
        vec![0x11, 0x22, 0x33, 0xFF, 0x44, 0x55, 0x66, 0xFF, 0x77, 0x88, 0x99, 0xFF, 0, 0, 0, 0xFF]
    );
    assert_eq!(r.sink.seq(), 1);
}

#[test]
fn empty_pictures_are_not_captured() {
    let mut r = CaptureRenderer::new(FrameSink::new());
    r.present(0, 5, &[]);
    r.present(5, 0, &[]);
    r.present(usize::MAX, 2, &[]);
    assert_eq!(r.sink.seq(), 0);
    assert_eq!(r.sink.snapshot().rgba.len(), 0);
}

#[test]
fn rows_beyond_the_buffer_stay_as_they_were() {
    let mut r = CaptureRenderer::new(FrameSink::new());
    let white = vec![0x00FFFFFFu32; 2048 * 2];
    r.present(1, 2, &white);
    r.present(1, 2, &[0u32; 1]);
    assert_eq!(r.sink.snapshot().rgba, vec![0, 0, 0, 0xFF, 0xFF, 0xFF, 0xFF, 0xFF]);
    assert_eq!(r.sink.snapshot().seq, 2);
    // A picture of another size starts from zeros.
    r.present(1, 3, &[0u32; 1]);
    assert_eq!(r.sink.snapshot().rgba, vec![0, 0, 0, 0xFF, 0, 0, 0, 0, 0, 0, 0, 0]);
}
