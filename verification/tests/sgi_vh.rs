use iris::sgi_vh::{
    build_vh, create_scratch_image, fix_csum, write_pt_entry, PT_ENTRY_SIZE, PT_RAW, PT_TABLE_OFFSET, PT_VOLHDR,
    PT_VOLUME, SECTOR_SIZE, SGI_MAGIC, VH_SECTORS,
};

fn word(bytes: &[u8], at: usize) -> u32 {
    u32::from_be_bytes([bytes[at], bytes[at + 1], bytes[at + 2], bytes[at + 3]])
}

#[test]
fn scratch_image_has_correct_size_and_magic() {
    let size: u64 = 4 * 1024 * 1024; // 4 MB
    let image = create_scratch_image(size).expect("create");
    assert_eq!(image.size, size, "image size must match request");
    assert_eq!(&image.header[0..4], &SGI_MAGIC.to_be_bytes(), "missing SGI magic");
}

#[test]
fn partition_table_describes_vol_and_vh() {
    let size: u64 = 64 * 1024 * 1024;
    let bytes = create_scratch_image(size).expect("create").header;

    // Slot 0 (payload): nblks = total - 8, first = 8, type = PT_RAW.
    let off0 = PT_TABLE_OFFSET;
    assert_eq!(word(&bytes, off0), (size / SECTOR_SIZE - VH_SECTORS) as u32);
    assert_eq!(word(&bytes, off0 + 4), VH_SECTORS as u32);
    assert_eq!(word(&bytes, off0 + 8), PT_RAW);

    // Slot 8 (vh): nblks = 8, first = 0, type = PT_VOLHDR.
    let off8 = PT_TABLE_OFFSET + 8 * PT_ENTRY_SIZE;
    assert_eq!(word(&bytes, off8), VH_SECTORS as u32);
    assert_eq!(word(&bytes, off8 + 4), 0);
    assert_eq!(word(&bytes, off8 + 8), PT_VOLHDR);

    // Slot 10 (vol): nblks = total, first = 0, type = PT_VOLUME (whole disk).
    let off10 = PT_TABLE_OFFSET + 10 * PT_ENTRY_SIZE;
    assert_eq!(word(&bytes, off10), (size / SECTOR_SIZE) as u32);
    assert_eq!(word(&bytes, off10 + 4), 0);
    assert_eq!(word(&bytes, off10 + 8), PT_VOLUME);
}

#[test]
fn checksum_sums_to_zero() {
    let size: u64 = 64 * 1024 * 1024;
    let bytes = create_scratch_image(size).expect("create").header;
    let mut sum: u32 = 0;
    for chunk in bytes[..512].chunks_exact(4) {
        let w = u32::from_be_bytes([chunk[0], chunk[1], chunk[2], chunk[3]]);
        sum = sum.wrapping_add(w);
    }
    assert_eq!(sum, 0, "VH csum must make 32-bit sum of 128 BE words == 0");
}

#[test]
fn rejects_too_small_image() {
    let r = create_scratch_image(4096); // exactly VH size, no payload
    assert!(r.is_err());
}

#[test]
fn rejects_non_sector_aligned_size() {
    let r = create_scratch_image(4096 + 100);
    assert!(r.is_err());
}

#[test]
fn scratch_size_errors_name_the_size() {
    assert_eq!(
        create_scratch_image(4096).err().unwrap(),
        "scratch size 4096 bytes is too small (minimum 4608 bytes)"
    );
    assert_eq!(create_scratch_image(5000).err().unwrap(), "scratch size 5000 is not a multiple of 512 bytes");
    assert!(create_scratch_image(4608).is_ok());
}

#[test]
fn partition_entry_is_big_endian() {
    let mut vh = [0u8; 512];
    write_pt_entry(&mut vh, 1, 0x01020304, 0x05060708, 0x090A0B0C);
    assert_eq!(&vh[0x144..0x150], &[1, 2, 3, 4, 5, 6, 7, 8, 9, 10, 11, 12]);
    assert!(vh[..0x144].iter().all(|b| *b == 0));
    assert!(vh[0x150..].iter().all(|b| *b == 0));
}

#[test]
fn checksum_of_a_known_header() {
    let mut vh = [0u8; 512];
    vh[3] = 1;
    fix_csum(&mut vh);
    assert_eq!(&vh[0x1F8..0x1FC], &[0xFF, 0xFF, 0xFF, 0xFF]);
    // The old checksum does not count.
    fix_csum(&mut vh);
    assert_eq!(&vh[0x1F8..0x1FC], &[0xFF, 0xFF, 0xFF, 0xFF]);
}

#[test]
fn header_of_a_small_volume() {
    let vh = build_vh(1);
    assert_eq!(&vh[0..4], &[0x0B, 0xE5, 0xA9, 0x41]);
    assert_eq!(word(&vh, 0x138), 1);
    assert_eq!(word(&vh, 0x138 + 120), 9);
}
