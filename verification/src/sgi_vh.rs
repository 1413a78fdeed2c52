//! The SGI volume header of a scratch volume.
//!
//! A scratch volume starts with a header of one sector that holds a partition
//! table. Slot 0 is the payload, all sectors behind the first eight; slot 8 is the
//! header area, the first eight sectors; slot 10 is the whole volume. All numbers
//! are big-endian.
use crate::text;
use vstd::prelude::*;

verus! {

/// The first byte of the payload. The bytes before it hold the header area.
pub const SCRATCH_PAYLOAD_OFFSET: u64 = 4096;

pub const SECTOR_SIZE: u64 = 512;

/// The sectors of the header area.
pub const VH_SECTORS: u64 = 8;

pub const SGI_MAGIC: u32 = 0x0BE5_A941;

/// Partition type: volume header.
pub const PT_VOLHDR: u32 = 0;

/// Partition type: raw data.
pub const PT_RAW: u32 = 3;

/// Partition type: the entire volume.
pub const PT_VOLUME: u32 = 6;

/// Where the partition table starts.
pub const PT_TABLE_OFFSET: usize = 0x138;

pub const PT_ENTRY_SIZE: usize = 12;

/// The entries of the partition table.
pub const PT_SLOTS: usize = 16;

/// Where the checksum stands.
pub const CSUM_OFFSET: usize = 0x1F8;

/// The number of values of a 32-bit word.
pub const WORD_VALUES: u64 = 0x1_0000_0000;

/// The big-endian word at byte `off`.
pub open spec fn word_at(s: Seq<u8>, off: int) -> int {
    s[off] * 0x100_0000 + s[off + 1] * 0x1_0000 + s[off + 2] * 0x100 + s[off + 3]
}

/// The sum of the first `n` words.
pub open spec fn words_sum(s: Seq<u8>, n: nat) -> int
    decreases n,
{
    if n == 0 {
        0
    } else {
        words_sum(s, (n - 1) as nat) + word_at(s, 4 * (n - 1))
    }
}

/// A partition: its sectors, its first sector and its type.
pub struct Partition {
    pub nblks: int,
    pub first: int,
    pub ty: int,
}

/// The partition in a slot of the table.
pub open spec fn partition(vh: Seq<u8>, slot: int) -> Partition {
    let off = PT_TABLE_OFFSET + slot * PT_ENTRY_SIZE;
    Partition { nblks: word_at(vh, off), first: word_at(vh, off + 4), ty: word_at(vh, off + 8) }
}

/// The partition that a header for `vol_sectors` payload sectors has in a slot.
/// The counts keep their low 32 bits.
pub open spec fn expected_partition(slot: int, vol_sectors: int) -> Partition {
    if slot == 0 {
        Partition { nblks: vol_sectors % (WORD_VALUES as int), first: VH_SECTORS as int, ty: PT_RAW as int }
    } else if slot == 8 {
        Partition { nblks: VH_SECTORS as int, first: 0, ty: PT_VOLHDR as int }
    } else if slot == 10 {
        Partition { nblks: (vol_sectors + VH_SECTORS) % (WORD_VALUES as int), first: 0, ty: PT_VOLUME as int }
    } else {
        Partition { nblks: 0, first: 0, ty: 0 }
    }
}

/// Whether a sector is a header for `vol_sectors` payload sectors, whatever its
/// checksum: the magic, the partition table, and zeros everywhere else.
pub open spec fn is_header(vh: Seq<u8>, vol_sectors: int) -> bool {
    &&& vh.len() == SECTOR_SIZE
    &&& word_at(vh, 0) == SGI_MAGIC
    &&& forall|slot: int| 0 <= slot < PT_SLOTS ==> #[trigger] partition(vh, slot) == expected_partition(slot, vol_sectors)
    &&& forall|i: int| 4 <= i < PT_TABLE_OFFSET ==> #[trigger] vh[i] == 0
    &&& forall|i: int| CSUM_OFFSET + 4 <= i < SECTOR_SIZE ==> #[trigger] vh[i] == 0
}

/// Whether the words of a sector sum to zero, by 32 bits.
pub open spec fn sums_to_zero(vh: Seq<u8>) -> bool {
    words_sum(vh, 128) % (WORD_VALUES as int) == 0
}

/// Stores a big-endian word.
fn put_word(vh: &mut [u8; 512], off: usize, word: u32)
    requires
        off + 4 <= 512,
    ensures
        word_at(final(vh)@, off as int) == word,
        forall|i: int| 0 <= i < 512 && !(off <= i < off + 4) ==> final(vh)@[i] == old(vh)@[i],
{
    vh[off] = (word / 0x100_0000) as u8;
    vh[off + 1] = (word / 0x1_0000 % 0x100) as u8;
    vh[off + 2] = (word / 0x100 % 0x100) as u8;
    vh[off + 3] = (word % 0x100) as u8;
}

/// Writes one entry of the partition table.
pub fn write_pt_entry(vh: &mut [u8; 512], slot: usize, nblks: u32, first: u32, ty: u32)
    requires
        slot < PT_SLOTS,
    ensures
        partition(final(vh)@, slot as int) == (Partition { nblks: nblks as int, first: first as int, ty: ty as int }),
        forall|i: int|
            0 <= i < 512 && !(PT_TABLE_OFFSET + slot * PT_ENTRY_SIZE <= i < PT_TABLE_OFFSET + (slot + 1)
                * PT_ENTRY_SIZE) ==> final(vh)@[i] == old(vh)@[i],
{
    let off: usize = PT_TABLE_OFFSET + slot * PT_ENTRY_SIZE;
    put_word(vh, off, nblks);
    put_word(vh, off + 4, first);
    put_word(vh, off + 8, ty);
}

/// The low 32 bits of a count.
fn low_word(n: u64) -> (r: u32)
    ensures
        r == n % WORD_VALUES,
{
    (n % WORD_VALUES) as u32
}

/// The header of a volume with `vol_sectors` payload sectors, without a checksum.
pub fn build_vh(vol_sectors: u64) -> (vh: [u8; 512])
    requires
        vol_sectors + VH_SECTORS <= u64::MAX,
    ensures
        is_header(vh@, vol_sectors as int),
        word_at(vh@, CSUM_OFFSET as int) == 0,
{
    let mut vh: [u8; 512] = [0u8; 512];
    put_word(&mut vh, 0, SGI_MAGIC);
    write_pt_entry(&mut vh, 0, low_word(vol_sectors), VH_SECTORS as u32, PT_RAW);
    write_pt_entry(&mut vh, 8, VH_SECTORS as u32, 0, PT_VOLHDR);
    write_pt_entry(&mut vh, 10, low_word(vol_sectors + VH_SECTORS), 0, PT_VOLUME);
    proof {
        assert forall|slot: int| 0 <= slot < PT_SLOTS implies #[trigger] partition(vh@, slot) == expected_partition(
            slot,
            vol_sectors as int,
        ) by {
            let off = PT_TABLE_OFFSET + slot * PT_ENTRY_SIZE;
            if slot != 0 && slot != 8 && slot != 10 {
                assert(vh@[off] == 0 && vh@[off + 1] == 0 && vh@[off + 2] == 0 && vh@[off + 3] == 0);
                assert(vh@[off + 4] == 0 && vh@[off + 5] == 0 && vh@[off + 6] == 0 && vh@[off + 7] == 0);
                assert(vh@[off + 8] == 0 && vh@[off + 9] == 0 && vh@[off + 10] == 0 && vh@[off + 11] == 0);
            }
        }
    }
    vh
}

/// Sums of words agree where the bytes do.
proof fn lemma_words_sum_same(a: Seq<u8>, b: Seq<u8>, n: nat)
    requires
        forall|i: int| 0 <= i < 4 * n ==> a[i] == b[i],
    ensures
        words_sum(a, n) == words_sum(b, n),
    decreases n,
{
    if n > 0 {
        lemma_words_sum_same(a, b, (n - 1) as nat);
    }
}

/// Changing one word changes the sum by as much.
proof fn lemma_words_sum_change(a: Seq<u8>, b: Seq<u8>, w: int, n: nat)
    requires
        0 <= w < n,
        forall|i: int| 0 <= i < 4 * n && !(4 * w <= i < 4 * w + 4) ==> a[i] == b[i],
    ensures
        words_sum(b, n) - words_sum(a, n) == word_at(b, 4 * w) - word_at(a, 4 * w),
    decreases n,
{
    if w == n - 1 {
        lemma_words_sum_same(a, b, (n - 1) as nat);
    } else {
        lemma_words_sum_change(a, b, w, (n - 1) as nat);
    }
}

/// Sets the checksum so that the words of the sector sum to zero.
pub fn fix_csum(vh: &mut [u8; 512])
    ensures
        sums_to_zero(final(vh)@),
        forall|i: int| 0 <= i < 512 && !(CSUM_OFFSET <= i < CSUM_OFFSET + 4) ==> final(vh)@[i] == old(vh)@[i],
{
    put_word(vh, CSUM_OFFSET, 0);
    let mut sum: u32 = 0;
    let mut w: usize = 0;
    while w < 128
        invariant
            w <= 128,
            sum == words_sum(vh@, w as nat) % (WORD_VALUES as int),
            forall|i: int| 0 <= i < 512 && !(CSUM_OFFSET <= i < CSUM_OFFSET + 4) ==> vh@[i] == old(vh)@[i],
            word_at(vh@, CSUM_OFFSET as int) == 0,
        decreases 128 - w,
    {
        let off: usize = w * 4;
        let word: u64 = (vh[off] as u64) * 0x100_0000 + (vh[off + 1] as u64) * 0x1_0000 + (vh[off + 2] as u64) * 0x100 + (
        vh[off + 3] as u64);
        assert(word == word_at(vh@, 4 * w));
        let next: u64 = (sum as u64) + word;
        sum = (next % WORD_VALUES) as u32;
        w += 1;
    }
    let csum: u32 = if sum == 0 {
        0
    } else {
        (WORD_VALUES - (sum as u64)) as u32
    };
    let ghost zeroed = vh@;
    put_word(vh, CSUM_OFFSET, csum);
    proof {
        lemma_words_sum_change(zeroed, vh@, 126, 128);
    }
}

/// A fresh scratch volume: its first sector and its size. All bytes behind the
/// first sector are zero.
pub struct ScratchImage {
    pub header: [u8; 512],
    pub size: u64,
}

/// The least size of a scratch volume: the header area and one sector.
pub const MIN_SCRATCH_SIZE: u64 = 4608;

/// What is wrong with a size, where it is not the size of a volume.
pub open spec fn size_error(total_bytes: u64) -> Option<Seq<char>> {
    if total_bytes < MIN_SCRATCH_SIZE {
        Some(
            "scratch size "@ + text::decimal_chars(total_bytes as nat) + " bytes is too small (minimum "@
                + text::decimal_chars(MIN_SCRATCH_SIZE as nat) + " bytes)"@,
        )
    } else if total_bytes % SECTOR_SIZE != 0 {
        Some(
            "scratch size "@ + text::decimal_chars(total_bytes as nat) + " is not a multiple of "@
                + text::decimal_chars(SECTOR_SIZE as nat) + " bytes"@,
        )
    } else {
        None
    }
}

/// A fresh scratch volume of `total_bytes` bytes. The size is a whole number of
/// sectors, more than the header area; any other is an error.
pub fn create_scratch_image(total_bytes: u64) -> (r: Result<ScratchImage, String>)
    ensures
        match r {
            Ok(image) => {
                &&& size_error(total_bytes) is None
                &&& image.size == total_bytes
                &&& is_header(image.header@, total_bytes / SECTOR_SIZE - VH_SECTORS)
                &&& sums_to_zero(image.header@)
            },
            Err(e) => size_error(total_bytes) == Some(e@),
        },
{
    if total_bytes < MIN_SCRATCH_SIZE {
        let mut e = String::from_str("scratch size ");
        e.append(text::decimal(total_bytes as u128).as_str());
        e.append(" bytes is too small (minimum ");
        e.append(text::decimal(MIN_SCRATCH_SIZE as u128).as_str());
        e.append(" bytes)");
        return Err(e);
    }
    if total_bytes % SECTOR_SIZE != 0 {
        let mut e = String::from_str("scratch size ");
        e.append(text::decimal(total_bytes as u128).as_str());
        e.append(" is not a multiple of ");
        e.append(text::decimal(SECTOR_SIZE as u128).as_str());
        e.append(" bytes");
        return Err(e);
    }
    let vol_sectors: u64 = total_bytes / SECTOR_SIZE - VH_SECTORS;
    let mut header = build_vh(vol_sectors);
    let ghost built = header@;
    fix_csum(&mut header);
    proof {
        assert forall|slot: int| 0 <= slot < PT_SLOTS implies #[trigger] partition(header@, slot)
            == expected_partition(slot, vol_sectors as int) by {
            assert(partition(built, slot) == expected_partition(slot, vol_sectors as int));
        }
    }
    Ok(ScratchImage { header, size: total_bytes })
}

/// The header area and the payload make up the whole volume and do not overlap,
/// as long as the sectors can be counted in 32 bits; the payload starts at
/// [`SCRATCH_PAYLOAD_OFFSET`].
pub proof fn law_partitions_cover_the_volume(vh: Seq<u8>, total_bytes: u64)
    requires
        size_error(total_bytes) is None,
        total_bytes / SECTOR_SIZE < WORD_VALUES,
        is_header(vh, total_bytes / SECTOR_SIZE - VH_SECTORS),
    ensures
        partition(vh, 8).first == 0,
        partition(vh, 0).first == partition(vh, 8).first + partition(vh, 8).nblks,
        (partition(vh, 0).first + partition(vh, 0).nblks) * SECTOR_SIZE == total_bytes,
        partition(vh, 0).nblks >= 1,
        partition(vh, 0).first * SECTOR_SIZE == SCRATCH_PAYLOAD_OFFSET,
        partition(vh, 10).first == 0,
        partition(vh, 10).nblks * SECTOR_SIZE == total_bytes,
{
    let n = total_bytes / SECTOR_SIZE - VH_SECTORS;
    assert(partition(vh, 0) == expected_partition(0, n));
    assert(partition(vh, 8) == expected_partition(8, n));
    assert(partition(vh, 10) == expected_partition(10, n));
}

/// A header is one sector that starts with the bytes 0B E5 A9 41. Its partition table starts
/// at byte 312 with twelve bytes to the entry: sectors, first sector and type, each in four
/// bytes, the high one first. Entry 0 is the payload, `n` sectors from sector 8 on, of type
/// 3; entry 8 the eight sectors of the header area, of type 0; and entry 10 the whole
/// volume, of type 6. All other entries, and everything else up to the table and behind the
/// checksum at byte 504, are zero.
pub proof fn law_bytes_of_a_header(vh: Seq<u8>, n: int, slot: int, i: int)
    requires
        is_header(vh, n),
        0 <= n,
        n + 8 < 0x1_0000_0000,
        0 <= slot < 16,
    ensures
        vh.len() == 512,
        vh[0] == 0x0B && vh[1] == 0xE5 && vh[2] == 0xA9 && vh[3] == 0x41,
        ({
            let at = 312 + 12 * slot;
            let nblks = vh[at] * 0x100_0000 + vh[at + 1] * 0x1_0000 + vh[at + 2] * 0x100 + vh[at + 3];
            let first = vh[at + 4] * 0x100_0000 + vh[at + 5] * 0x1_0000 + vh[at + 6] * 0x100 + vh[at + 7];
            let ty = vh[at + 8] * 0x100_0000 + vh[at + 9] * 0x1_0000 + vh[at + 10] * 0x100 + vh[at + 11];
            &&& slot == 0 ==> nblks == n && first == 8 && ty == 3
            &&& slot == 8 ==> nblks == 8 && first == 0 && ty == 0
            &&& slot == 10 ==> nblks == n + 8 && first == 0 && ty == 6
            &&& slot != 0 && slot != 8 && slot != 10 ==> nblks == 0 && first == 0 && ty == 0
        }),
        4 <= i < 312 ==> vh[i] == 0,
        508 <= i < 512 ==> vh[i] == 0,
{
    assert(partition(vh, slot) == expected_partition(slot, n));
    assert(slot * PT_ENTRY_SIZE == 12 * slot);
}

/// The words of a sector sum up one by one, each of its four bytes with the high one first;
/// they sum to zero where the sum is a multiple of two to the power of 32.
pub proof fn law_sum_of_words(s: Seq<u8>, n: int)
    requires
        0 <= n,
    ensures
        words_sum(s, 0) == 0,
        words_sum(s, (n + 1) as nat) == words_sum(s, n as nat) + s[4 * n] * 0x100_0000 + s[4 * n + 1] * 0x1_0000 + s[4
            * n + 2] * 0x100 + s[4 * n + 3],
        sums_to_zero(s) <==> words_sum(s, 128) % 0x1_0000_0000 == 0,
{
}

/// A volume may have every size that is a whole number of sectors of 512 bytes, at least nine
/// of them, and no other.
pub proof fn law_sizes_of_volumes(total_bytes: u64)
    ensures
        size_error(total_bytes) is None <==> (total_bytes >= 4608 && total_bytes % 512 == 0),
        total_bytes < 4608 ==> size_error(total_bytes) == Some(
            "scratch size "@ + text::decimal_chars(total_bytes as nat) + " bytes is too small (minimum "@
                + text::decimal_chars(4608) + " bytes)"@,
        ),
        total_bytes >= 4608 && total_bytes % 512 != 0 ==> size_error(total_bytes) == Some(
            "scratch size "@ + text::decimal_chars(total_bytes as nat) + " is not a multiple of "@
                + text::decimal_chars(512) + " bytes"@,
        ),
        total_bytes / SECTOR_SIZE - VH_SECTORS == total_bytes / 512 - 8,
        SCRATCH_PAYLOAD_OFFSET == 4096,
{
}

/// Where the numbers of a partition stand: at byte 312 and twelve for each slot before it,
/// four bytes to the number, the high one first. The checksum stands at byte 504.
pub proof fn law_place_of_a_partition(vh: Seq<u8>, slot: int)
    requires
        0 <= slot < 16,
    ensures
        ({
            let at = 312 + 12 * slot;
            let p = partition(vh, slot);
            &&& p.nblks == vh[at] * 0x100_0000 + vh[at + 1] * 0x1_0000 + vh[at + 2] * 0x100 + vh[at + 3]
            &&& p.first == vh[at + 4] * 0x100_0000 + vh[at + 5] * 0x1_0000 + vh[at + 6] * 0x100 + vh[at + 7]
            &&& p.ty == vh[at + 8] * 0x100_0000 + vh[at + 9] * 0x1_0000 + vh[at + 10] * 0x100 + vh[at + 11]
        }),
        CSUM_OFFSET == 504,
        PT_TABLE_OFFSET == 312,
        PT_ENTRY_SIZE == 12,
        PT_SLOTS == 16,
{
    assert(slot * PT_ENTRY_SIZE == 12 * slot);
}

}
