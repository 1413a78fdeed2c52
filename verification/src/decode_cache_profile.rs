//! The decode cache profile: raw instruction words kept from one run to the next.
//!
//! A profile is the bytes `IRDP`, a version byte, the number of words and the
//! words, all numbers little-endian in 32 bits.
use crate::path;
use vstd::prelude::*;

verus! {

pub const VERSION: u8 = 1;

/// The bytes before the words.
pub const HEADER_SIZE: usize = 9;

/// The bytes that a profile starts with.
pub open spec fn magic() -> Seq<u8> {
    seq![73u8, 82u8, 68u8, 80u8]
}

/// A word in four bytes, the low one first.
pub open spec fn le_bytes(n: int) -> Seq<u8> {
    seq![(n % 256) as u8, (n / 256 % 256) as u8, (n / 65536 % 256) as u8, (n / 16777216 % 256) as u8]
}

/// The word in the four bytes at `off`, the low one first.
pub open spec fn le_word(s: Seq<u8>, off: int) -> int {
    s[off] + s[off + 1] * 256 + s[off + 2] * 65536 + s[off + 3] * 16777216
}

/// Words in bytes, one after the other.
pub open spec fn words_bytes(words: Seq<u32>) -> Seq<u8>
    decreases words.len(),
{
    if words.len() == 0 {
        seq![]
    } else {
        words_bytes(words.drop_last()) + le_bytes(words.last() as int)
    }
}

/// The profile of some words. The count keeps its low 32 bits.
pub open spec fn profile_bytes(words: Seq<u32>) -> Seq<u8> {
    magic().push(VERSION) + le_bytes(words.len() as int % 0x1_0000_0000) + words_bytes(words)
}

/// Whether bytes start as a profile does.
pub open spec fn has_header(bytes: Seq<u8>) -> bool {
    bytes.len() >= HEADER_SIZE && bytes.take(4) == magic() && bytes[4] == VERSION
}

/// Whether bytes are a whole profile: the header, and behind it all the words that it
/// says there are.
pub open spec fn is_whole(bytes: Seq<u8>) -> bool {
    has_header(bytes) && HEADER_SIZE + 4 * le_word(bytes, 5) <= bytes.len()
}

/// The words of a profile; none where the bytes are no whole profile.
pub open spec fn loaded_words(bytes: Seq<u8>) -> Seq<u32> {
    if is_whole(bytes) {
        Seq::new(le_word(bytes, 5) as nat, |i: int| le_word(bytes, HEADER_SIZE + 4 * i) as u32)
    } else {
        seq![]
    }
}

/// Appends a word, the low byte first.
fn push_word(bytes: &mut Vec<u8>, word: u32)
    ensures
        final(bytes)@ == old(bytes)@ + le_bytes(word as int),
{
    bytes.push((word % 256) as u8);
    bytes.push((word / 256 % 256) as u8);
    bytes.push((word / 65536 % 256) as u8);
    bytes.push((word / 16777216 % 256) as u8);
    assert(bytes@ =~= old(bytes)@ + le_bytes(word as int));
}

/// Reads the word at `off`, the low byte first.
fn read_word(bytes: &[u8], off: usize) -> (r: u32)
    requires
        off + 4 <= bytes@.len(),
    ensures
        r == le_word(bytes@, off as int),
{
    (bytes[off] as u32) + (bytes[off + 1] as u32) * 256 + (bytes[off + 2] as u32) * 65536 + (bytes[off + 3] as u32)
        * 16777216
}

/// The words of a profile. What is no profile has none, and neither has one that was
/// cut off.
pub fn load_raw_words(bytes: &[u8]) -> (r: Vec<u32>)
    ensures
        r@ == loaded_words(bytes@),
{
    let mut r: Vec<u32> = Vec::new();
    if bytes.len() < HEADER_SIZE || bytes[0] != 73 || bytes[1] != 82 || bytes[2] != 68 || bytes[3] != 80 || bytes[4]
        != VERSION {
        proof {
            if has_header(bytes@) {
                assert(bytes@.take(4)[0] == 73 && bytes@.take(4)[1] == 82 && bytes@.take(4)[2] == 68
                    && bytes@.take(4)[3] == 80);
            }
            assert(r@ =~= loaded_words(bytes@));
        }
        return r;
    }
    assert(bytes@.take(4) =~= magic());
    let said: u32 = read_word(bytes, 5);
    let len: usize = bytes.len();
    let there: usize = (len - HEADER_SIZE) / 4;
    if (said as u64) > (there as u64) {
        assert(!is_whole(bytes@));
        assert(r@ =~= loaded_words(bytes@));
        return r;
    }
    let n: usize = said as usize;
    let mut i: usize = 0;
    while i < n
        invariant
            i <= n,
            len == bytes@.len(),
            HEADER_SIZE <= len,
            n <= (len - HEADER_SIZE) / 4,
            r@.len() == i,
            forall|k: int| 0 <= k < i ==> #[trigger] r@[k] == le_word(bytes@, HEADER_SIZE + 4 * k),
        decreases n - i,
    {
        r.push(read_word(bytes, HEADER_SIZE + 4 * i));
        i += 1;
    }
    assert(r@ =~= loaded_words(bytes@));
    r
}

/// The profile of some words.
pub fn save_raw_words(words: &[u32]) -> (r: Vec<u8>)
    ensures
        r@ == profile_bytes(words@),
{
    let mut r: Vec<u8> = Vec::new();
    r.push(73);
    r.push(82);
    r.push(68);
    r.push(80);
    r.push(VERSION);
    assert(r@ =~= magic().push(VERSION));
    let count: u64 = (words.len() as u64) % 0x1_0000_0000;
    push_word(&mut r, count as u32);
    let ghost head = r@;
    let mut i: usize = 0;
    assert(words@.take(0) =~= seq![]);
    assert(r@ =~= head + words_bytes(words@.take(0)));
    while i < words.len()
        invariant
            i <= words.len(),
            r@ == head + words_bytes(words@.take(i as int)),
        decreases words.len() - i,
    {
        proof {
            let next = words@.take(i + 1);
            assert(next.drop_last() =~= words@.take(i as int));
            assert(next.last() == words@[i as int]);
            assert(head + words_bytes(next) =~= r@ + le_bytes(words@[i as int] as int));
        }
        push_word(&mut r, words[i]);
        i += 1;
    }
    assert(words@.take(i as int) =~= words@);
    r
}

proof fn lemma_words_bytes(words: Seq<u32>, i: int)
    requires
        0 <= i < words.len(),
    ensures
        words_bytes(words).len() == 4 * words.len(),
        words_bytes(words).subrange(4 * i, 4 * i + 4) == le_bytes(words[i] as int),
    decreases words.len(),
{
    let front = words_bytes(words.drop_last());
    if words.len() == 1 {
        assert(words.drop_last() =~= seq![]);
        assert(front =~= seq![]);
        assert(words_bytes(words).subrange(0, 4) =~= le_bytes(words[0] as int));
    } else if i == words.len() - 1 {
        lemma_words_bytes(words.drop_last(), 0);
        assert(words_bytes(words).subrange(4 * i, 4 * i + 4) =~= le_bytes(words[i] as int));
    } else {
        lemma_words_bytes(words.drop_last(), i);
        assert(words_bytes(words).subrange(4 * i, 4 * i + 4) =~= front.subrange(4 * i, 4 * i + 4));
    }
}

proof fn lemma_le_word(s: Seq<u8>, off: int, n: int)
    requires
        0 <= off,
        off + 4 <= s.len(),
        0 <= n < 0x1_0000_0000,
        s.subrange(off, off + 4) == le_bytes(n),
    ensures
        le_word(s, off) == n,
{
    let b = s.subrange(off, off + 4);
    assert(b[0] == s[off] && b[1] == s[off + 1] && b[2] == s[off + 2] && b[3] == s[off + 3]);
}

/// Loading what was saved gives the words back, as long as their number fits in
/// the profile.
pub proof fn law_load_gives_back_what_save_wrote(words: Seq<u32>)
    requires
        words.len() < 0x1_0000_0000,
    ensures
        loaded_words(profile_bytes(words)) == words,
{
    let p = profile_bytes(words);
    let head = magic().push(VERSION) + le_bytes(words.len() as int);
    assert(p.take(4) =~= magic());
    assert(p[4] == VERSION);
    assert(p.subrange(5, 9) =~= le_bytes(words.len() as int));
    if words.len() > 0 {
        lemma_words_bytes(words, 0);
    }
    assert(p.len() == 9 + 4 * words.len());
    lemma_le_word(p, 5, words.len() as int);
    assert(is_whole(p));
    assert forall|i: int| 0 <= i < words.len() implies #[trigger] loaded_words(p)[i] == words[i] by {
        lemma_words_bytes(words, i);
        assert(p.subrange(9 + 4 * i, 9 + 4 * i + 4) =~= words_bytes(words).subrange(4 * i, 4 * i + 4));
        lemma_le_word(p, 9 + 4 * i, words[i] as int);
    }
    assert(loaded_words(p) =~= words);
}

/// A profile that was cut off anywhere gives no words.
pub proof fn law_cut_profile_gives_no_words(words: Seq<u32>, n: int)
    requires
        words.len() < 0x1_0000_0000,
        0 <= n < profile_bytes(words).len(),
    ensures
        loaded_words(profile_bytes(words).take(n)) == Seq::<u32>::empty(),
{
    let p = profile_bytes(words);
    let cut = p.take(n);
    if words.len() > 0 {
        lemma_words_bytes(words, 0);
    }
    assert(p.len() == HEADER_SIZE + 4 * words.len());
    assert(p.subrange(5, 9) =~= le_bytes(words.len() as int));
    lemma_le_word(p, 5, words.len() as int);
    if n >= HEADER_SIZE {
        assert(le_word(cut, 5) == le_word(p, 5));
    }
    assert(!is_whole(cut));
}

/// What stands behind the words of a profile does not count.
pub proof fn law_bytes_behind_the_words_do_not_count(words: Seq<u32>, more: Seq<u8>)
    requires
        words.len() < 0x1_0000_0000,
    ensures
        loaded_words(profile_bytes(words) + more) == words,
{
    let p = profile_bytes(words);
    let longer = p + more;
    law_load_gives_back_what_save_wrote(words);
    if words.len() > 0 {
        lemma_words_bytes(words, 0);
    }
    assert(p.len() == HEADER_SIZE + 4 * words.len());
    assert(p.take(4) =~= magic());
    assert(longer.take(4) =~= magic());
    assert(p.subrange(5, 9) =~= le_bytes(words.len() as int));
    lemma_le_word(p, 5, words.len() as int);
    assert(le_word(longer, 5) == le_word(p, 5));
    assert forall|i: int| 0 <= i < words.len() implies #[trigger] loaded_words(longer)[i] == words[i] by {
        assert(loaded_words(p)[i] == words[i]);
        assert(le_word(longer, HEADER_SIZE + 4 * i) == le_word(p, HEADER_SIZE + 4 * i));
    }
    assert(loaded_words(longer) =~= words);
}

/// Where the profile is kept: below the home directory, where there is one.
pub open spec fn profile_place(home: Option<Seq<char>>) -> Seq<char> {
    match home {
        Some(h) => path::joined(path::joined(h, ".iris"@), "decode-cache.bin"@),
        None => "decode-cache.bin"@,
    }
}

/// Where the profile is kept.
pub fn profile_path(home: Option<&str>) -> (r: String)
    ensures
        r@ == profile_place(match home {
            Some(h) => Some(h@),
            None => None,
        }),
{
    match home {
        Some(h) => {
            let dir = path::join(h, ".iris");
            path::join(dir.as_str(), "decode-cache.bin")
        },
        None => "decode-cache.bin".to_owned(),
    }
}

/// A profile is the letters `IRDP`, the byte 1, the number of words and the words, each in
/// four bytes with the low one first, and nothing else.
pub proof fn law_bytes_of_a_profile(words: Seq<u32>, i: int)
    requires
        words.len() < 0x1_0000_0000,
    ensures
        ({
            let p = profile_bytes(words);
            let n = words.len() as int;
            &&& p.len() == 9 + 4 * n
            &&& p[0] == 'I' as u8 && p[1] == 'R' as u8 && p[2] == 'D' as u8 && p[3] == 'P' as u8 && p[4] == 1
            &&& p[5] + p[6] * 0x100 + p[7] * 0x1_0000 + p[8] * 0x100_0000 == n
            &&& 0 <= i < n ==> p[9 + 4 * i] + p[10 + 4 * i] * 0x100 + p[11 + 4 * i] * 0x1_0000 + p[12 + 4 * i]
                * 0x100_0000 == words[i]
        }),
{
    let p = profile_bytes(words);
    let n = words.len() as int;
    if n > 0 {
        lemma_words_bytes(words, 0);
    }
    assert(p.len() == 9 + 4 * n);
    assert(p.subrange(5, 9) =~= le_bytes(n));
    lemma_le_word(p, 5, n);
    assert(p[0] == magic()[0] && p[1] == magic()[1] && p[2] == magic()[2] && p[3] == magic()[3]);
    if 0 <= i < n {
        lemma_words_bytes(words, i);
        assert(p.subrange(9 + 4 * i, 9 + 4 * i + 4) =~= words_bytes(words).subrange(4 * i, 4 * i + 4));
        lemma_le_word(p, 9 + 4 * i, words[i] as int);
    }
}

/// Bytes that start as a profile and have all the words that they say give these words; any
/// others give none.
pub proof fn law_words_of_some_bytes(b: Seq<u8>, i: int)
    ensures
        ({
            let starts = b.len() >= 9 && b[0] == 73 && b[1] == 82 && b[2] == 68 && b[3] == 80 && b[4] == 1;
            let n = b[5] + b[6] * 0x100 + b[7] * 0x1_0000 + b[8] * 0x100_0000;
            &&& !starts || 9 + 4 * n > b.len() ==> loaded_words(b).len() == 0
            &&& starts && 9 + 4 * n <= b.len() ==> loaded_words(b).len() == n
            &&& starts && 9 + 4 * n <= b.len() && 0 <= i < n ==> loaded_words(b)[i] == b[9 + 4 * i] + b[10 + 4 * i]
                * 0x100 + b[11 + 4 * i] * 0x1_0000 + b[12 + 4 * i] * 0x100_0000
        }),
{
    let t = b.take(4);
    if has_header(b) {
        assert(t[0] == b[0] && t[1] == b[1] && t[2] == b[2] && t[3] == b[3]);
        assert(t[0] == magic()[0] && t[1] == magic()[1] && t[2] == magic()[2] && t[3] == magic()[3]);
    }
    if b.len() >= 9 && b[0] == 73 && b[1] == 82 && b[2] == 68 && b[3] == 80 {
        assert(t =~= magic());
    }
}

/// The profile is kept in `.iris/decode-cache.bin` below the home directory, and in
/// `decode-cache.bin` where there is none.
pub proof fn law_place_of_the_profile(home: Seq<char>)
    requires
        home.len() > 0,
        home[home.len() - 1] != '/',
    ensures
        profile_place(Some(home)) == home + "/.iris/decode-cache.bin"@,
        profile_place(None) == "decode-cache.bin"@,
{
    reveal_strlit("/.iris/decode-cache.bin");
    reveal_strlit(".iris");
    reveal_strlit("decode-cache.bin");
    let dir = path::joined(home, ".iris"@);
    path::law_joined_paths(home, ".iris"@);
    assert(dir[dir.len() - 1] == 's');
    path::law_joined_paths(dir, "decode-cache.bin"@);
    assert(profile_place(Some(home)) =~= home + "/.iris/decode-cache.bin"@);
}

}
