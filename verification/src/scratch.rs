//! Reading and writing the payload of a scratch volume.
//!
//! Offsets count from the first byte behind the header area, which none of these
//! operations touches.
use crate::sgi_vh::SCRATCH_PAYLOAD_OFFSET;
use vstd::prelude::*;

verus! {

/// The most bytes that are cleared at once.
pub const CLEAR_CHUNK: u64 = 1_048_576;

/// The bytes of a volume's payload.
pub open spec fn payload_bytes(size: int) -> int {
    if size > SCRATCH_PAYLOAD_OFFSET {
        size - SCRATCH_PAYLOAD_OFFSET
    } else {
        0
    }
}

/// Where a payload offset lies in the volume; `None` where it is no 64-bit number.
pub open spec fn place(offset: int) -> Option<int> {
    if offset + SCRATCH_PAYLOAD_OFFSET <= u64::MAX {
        Some(offset + SCRATCH_PAYLOAD_OFFSET)
    } else {
        None
    }
}

/// The bytes that a read gives: as many as are asked for, or all, no more than the
/// payload has behind the offset.
pub open spec fn readable(size: int, offset: int, length: Option<int>) -> int {
    let left = if payload_bytes(size) > offset {
        payload_bytes(size) - offset
    } else {
        0
    };
    match length {
        Some(n) => if n < left {
            n
        } else {
            left
        },
        None => left,
    }
}

/// The bytes of a volume's payload.
pub fn payload_size(size: u64) -> (r: u64)
    ensures
        r == payload_bytes(size as int),
{
    if size > SCRATCH_PAYLOAD_OFFSET {
        size - SCRATCH_PAYLOAD_OFFSET
    } else {
        0
    }
}

/// Where a payload offset lies in the volume.
pub fn raw_offset(offset: u64) -> (r: Result<u64, String>)
    ensures
        match r {
            Ok(raw) => place(offset as int) == Some(raw as int),
            Err(e) => place(offset as int) is None && e@ == "offset overflow"@,
        },
{
    match SCRATCH_PAYLOAD_OFFSET.checked_add(offset) {
        Some(raw) => Ok(raw),
        None => Err("offset overflow".to_owned()),
    }
}

/// The bytes that a read gives from a volume of `size` bytes.
pub fn read_len(size: u64, offset: u64, length: Option<u64>) -> (r: u64)
    ensures
        r == readable(
            size as int,
            offset as int,
            match length {
                Some(n) => Some(n as int),
                None => None,
            },
        ),
{
    let payload: u64 = payload_size(size);
    let left: u64 = if payload > offset {
        payload - offset
    } else {
        0
    };
    match length {
        Some(n) => if n < left {
            n
        } else {
            left
        },
        None => left,
    }
}

/// The sum of some lengths.
pub open spec fn total(lengths: Seq<u64>) -> int
    decreases lengths.len(),
{
    if lengths.len() == 0 {
        0
    } else {
        total(lengths.drop_last()) + lengths.last()
    }
}

/// Whether lengths are those of whole chunks, but for the last.
pub open spec fn is_chunked(lengths: Seq<u64>) -> bool {
    forall|i: int|
        0 <= i < lengths.len() ==> 0 < #[trigger] lengths[i] <= CLEAR_CHUNK && (i + 1 < lengths.len() ==> lengths[i]
            == CLEAR_CHUNK)
}

/// The lengths of the writes that clear the payload of a volume, one behind the
/// other from the start of the payload.
pub fn clear_chunks(size: u64) -> (r: Vec<u64>)
    ensures
        total(r@) == payload_bytes(size as int),
        is_chunked(r@),
{
    let mut r: Vec<u64> = Vec::new();
    let mut remaining: u64 = payload_size(size);
    while remaining > 0
        invariant
            total(r@) + remaining == payload_bytes(size as int),
            is_chunked(r@),
            remaining > 0 ==> forall|i: int| 0 <= i < r@.len() ==> #[trigger] r@[i] == CLEAR_CHUNK,
        decreases remaining,
    {
        let n: u64 = if remaining < CLEAR_CHUNK {
            remaining
        } else {
            CLEAR_CHUNK
        };
        let ghost had = r@;
        r.push(n);
        proof {
            assert(r@.drop_last() =~= had);
        }
        remaining = remaining - n;
    }
    r
}

/// A volume after bytes were written at a place: those, and what it held
/// elsewhere. A place behind its end is reached by zeros.
pub open spec fn volume_written(vol: Seq<u8>, at: int, bytes: Seq<u8>) -> Seq<u8> {
    let end = at + bytes.len();
    let len = if end > vol.len() && bytes.len() > 0 {
        end
    } else {
        vol.len() as int
    };
    Seq::new(
        len as nat,
        |i: int|
            if at <= i < end {
                bytes[i - at]
            } else if i < vol.len() {
                vol[i]
            } else {
                0u8
            },
    )
}

/// A write to the payload leaves the header area as it was, wherever it goes.
pub proof fn law_write_keeps_header(vol: Seq<u8>, offset: int, bytes: Seq<u8>, i: int)
    requires
        0 <= offset,
        place(offset) is Some,
        0 <= i < SCRATCH_PAYLOAD_OFFSET,
        i < vol.len(),
    ensures
        i < volume_written(vol, place(offset)->0, bytes).len(),
        volume_written(vol, place(offset)->0, bytes)[i] == vol[i],
{
}

/// Reading what was written gives it back: the same offset and length, right after
/// the write.
pub proof fn law_read_gives_back_what_write_wrote(vol: Seq<u8>, offset: int, bytes: Seq<u8>)
    requires
        0 <= offset,
        place(offset) is Some,
    ensures
        ({
            let after = volume_written(vol, place(offset)->0, bytes);
            let n = readable(after.len() as int, offset, Some(bytes.len() as int));
            &&& n == bytes.len()
            &&& bytes.len() > 0 ==> after.subrange(place(offset)->0, place(offset)->0 + n) == bytes
        }),
{
    let at = place(offset)->0;
    let after = volume_written(vol, at, bytes);
    if bytes.len() > 0 {
        assert(after.len() >= at + bytes.len());
        assert(after.subrange(at, at + bytes.len()) =~= bytes);
    }
}

/// A read stays within the volume.
pub proof fn law_read_stays_in_the_volume(size: int, offset: int, length: Option<int>)
    requires
        0 <= offset,
        0 <= size,
        length matches Some(n) ==> n >= 0,
    ensures
        0 <= readable(size, offset, length),
        readable(size, offset, length) > 0 ==> SCRATCH_PAYLOAD_OFFSET + offset + readable(size, offset, length)
            <= size,
        length matches Some(n) ==> readable(size, offset, length) <= n,
{
}

/// Clearing the payload writes all of it and nothing behind it.
pub proof fn law_clear_covers_the_payload(size: int, lengths: Seq<u64>)
    requires
        size > SCRATCH_PAYLOAD_OFFSET,
        total(lengths) == payload_bytes(size),
    ensures
        SCRATCH_PAYLOAD_OFFSET + total(lengths) == size,
{
}

/// A read without a length gives everything behind the offset: the 4096 bytes of the
/// header area, the offset and the bytes read make up the volume. Behind the end of the
/// volume there is nothing.
pub proof fn law_read_without_a_length_reaches_the_end(size: int, offset: int)
    requires
        0 <= offset,
        0 <= size,
    ensures
        4096 + offset <= size ==> 4096 + offset + readable(size, offset, None) == size,
        4096 + offset > size ==> readable(size, offset, None) == 0,
{
}

/// A read with a length gives as many bytes wherever that many are left, and all that
/// are left elsewhere.
pub proof fn law_read_with_a_length(size: int, offset: int, n: int)
    requires
        0 <= offset,
        0 <= size,
        0 <= n,
    ensures
        4096 + offset + n <= size ==> readable(size, offset, Some(n)) == n,
        4096 + offset <= size < 4096 + offset + n ==> 4096 + offset + readable(size, offset, Some(n)) == size,
        size < 4096 + offset ==> readable(size, offset, Some(n)) == 0,
{
}

/// Two reads, the second where the first ended, give what one read of both lengths
/// gives.
pub proof fn law_reads_follow_each_other(size: int, offset: int, n: int, m: int)
    requires
        0 <= offset,
        0 <= size,
        0 <= n,
        0 <= m,
    ensures
        readable(size, offset, Some(n)) + readable(size, offset + n, Some(m)) == readable(size, offset, Some(n + m)),
        readable(size, offset, Some(n)) + readable(size, offset + n, None) == readable(size, offset, None),
{
}

/// Every payload offset lies 4096 bytes further on in the volume; only one so large that
/// the sum is no 64-bit number has no place. The header area and the payload make up the
/// volume.
pub proof fn law_payload_lies_behind_the_header(offset: int, size: int)
    requires
        0 <= offset <= u64::MAX,
        0 <= size,
    ensures
        offset + 4096 < 0x1_0000_0000_0000_0000 ==> place(offset) == Some(offset + 4096),
        offset + 4096 >= 0x1_0000_0000_0000_0000 ==> place(offset) is None,
        size >= 4096 ==> payload_bytes(size) + 4096 == size,
        size < 4096 ==> payload_bytes(size) == 0,
{
}

/// Where chunk `i` of a clearing starts, counted from the start of the payload.
pub open spec fn chunk_start(lengths: Seq<u64>, i: int) -> int {
    total(lengths.take(i))
}

proof fn lemma_chunk_start(lengths: Seq<u64>, i: int)
    requires
        is_chunked(lengths),
        0 <= i <= lengths.len(),
    ensures
        i < lengths.len() ==> chunk_start(lengths, i) == i * CLEAR_CHUNK,
        i == lengths.len() && i > 0 ==> chunk_start(lengths, i) == (i - 1) * CLEAR_CHUNK + lengths[i - 1],
        i == 0 ==> chunk_start(lengths, i) == 0,
    decreases i,
{
    if i > 0 {
        lemma_chunk_start(lengths, i - 1);
        assert(lengths.take(i).drop_last() =~= lengths.take(i - 1));
        assert(lengths.take(i).last() == lengths[i - 1]);
    }
}

/// Clearing writes every byte of the payload once, in pieces of one mebibyte: the piece
/// that byte `p` of the payload falls into is number `p / 1048576`.
pub proof fn law_every_payload_byte_is_cleared(size: int, lengths: Seq<u64>, p: int)
    requires
        0 <= p,
        p + 4096 < size,
        total(lengths) == payload_bytes(size),
        is_chunked(lengths),
    ensures
        p / 1048576 < lengths.len(),
        chunk_start(lengths, p / 1048576) <= p < chunk_start(lengths, p / 1048576) + lengths[p / 1048576],
        chunk_start(lengths, p / 1048576) == p / 1048576 * 1048576,
{
    let n = lengths.len() as int;
    assert(lengths.take(n) =~= lengths);
    lemma_chunk_start(lengths, n);
    let k = p / 1048576;
    if n == 0 {
        assert(total(lengths) == 0);
    }
    assert(lengths[n - 1] <= CLEAR_CHUNK);
    lemma_chunk_start(lengths, k);
    if k + 1 < n {
        assert(lengths[k] == CLEAR_CHUNK);
    }
}

/// A total is what its last length adds to the total of the others.
pub proof fn law_total_adds_up(lengths: Seq<u64>, n: u64)
    ensures
        total(seq![]) == 0,
        total(lengths.push(n)) == total(lengths) + n,
{
    assert(lengths.push(n).drop_last() =~= lengths);
}

/// Bytes that are written to a volume stand at their place, behind zeros where the volume
/// ended before it; every other byte stays, and the volume does not get shorter.
pub proof fn law_written_volume(vol: Seq<u8>, at: int, bytes: Seq<u8>, i: int)
    requires
        0 <= at,
        bytes.len() > 0,
    ensures
        at + bytes.len() <= vol.len() ==> volume_written(vol, at, bytes).len() == vol.len(),
        at + bytes.len() > vol.len() ==> volume_written(vol, at, bytes).len() == at + bytes.len(),
        at <= i < at + bytes.len() ==> volume_written(vol, at, bytes)[i] == bytes[i - at],
        0 <= i < vol.len() && (i < at || i >= at + bytes.len()) ==> volume_written(vol, at, bytes)[i] == vol[i],
        vol.len() <= i < at ==> volume_written(vol, at, bytes)[i] == 0,
{
}

}
