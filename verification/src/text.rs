//! Text: characters, digits, and the order of strings.
use vstd::prelude::*;
use vstd::utf8::*;

verus! {

/// `String::push` of std: the character goes to the end of the string and
/// nothing else changes.
pub assume_specification[ std::string::String::push ](s: &mut std::string::String, c: char)
    ensures
        final(s)@ == old(s)@.push(c),
;

/// The digit that stands for `d`, in lower case.
pub open spec fn digit_char(d: nat) -> char {
    if d < 10 {
        (48 + d) as char
    } else {
        (87 + d) as char
    }
}

/// `n` in decimal, without leading zeros.
pub open spec fn decimal_chars(n: nat) -> Seq<char>
    decreases n,
{
    if n < 10 {
        seq![digit_char(n)]
    } else {
        decimal_chars(n / 10).push(digit_char(n % 10))
    }
}

/// The low `width` hexadecimal digits of `n`, most significant first.
pub open spec fn hex_chars(n: nat, width: nat) -> Seq<char>
    decreases width,
{
    if width == 0 {
        seq![]
    } else {
        hex_chars(n / 16, (width - 1) as nat).push(digit_char(n % 16))
    }
}

/// The value of a digit, in either case, where `c` is a digit of `radix`.
pub open spec fn digit_value(c: char, radix: nat) -> Option<nat> {
    let v: int = if '0' <= c && c <= '9' {
        c as int - 48
    } else if 'a' <= c && c <= 'z' {
        c as int - 87
    } else if 'A' <= c && c <= 'Z' {
        c as int - 55
    } else {
        -1
    };
    if 0 <= v < radix {
        Some(v as nat)
    } else {
        None
    }
}

/// The number that a run of digits stands for; `None` where a character is no
/// digit of `radix`. No digits at all stand for zero here.
pub open spec fn digits_value(s: Seq<char>, radix: nat) -> Option<nat>
    decreases s.len(),
{
    if s.len() == 0 {
        Some(0)
    } else {
        match (digits_value(s.drop_last(), radix), digit_value(s.last(), radix)) {
            (Some(high), Some(low)) => Some(high * radix + low),
            _ => None,
        }
    }
}

/// The digits of an unsigned number, behind the sign that may precede them.
pub open spec fn unsigned_digits(s: Seq<char>) -> Seq<char> {
    if s.len() > 0 && s[0] == '+' {
        s.skip(1)
    } else {
        s
    }
}

/// The unsigned number no larger than `max` that `s` is the text of: an
/// optional plus sign and one digit or more, and nothing else.
pub open spec fn parsed_unsigned(s: Seq<char>, radix: nat, max: nat) -> Option<nat> {
    let digits = unsigned_digits(s);
    if digits.len() == 0 {
        None
    } else {
        match digits_value(digits, radix) {
            Some(n) => if n <= max {
                Some(n)
            } else {
                None
            },
            None => None,
        }
    }
}

/// `s` without the `0x` prefixes that it starts with, however many.
pub open spec fn without_0x(s: Seq<char>) -> Seq<char>
    decreases s.len(),
{
    if s.len() >= 2 && s[0] == '0' && s[1] == 'x' {
        without_0x(s.skip(2))
    } else {
        s
    }
}

/// Lexicographic order by code point.
pub open spec fn text_lt(a: Seq<char>, b: Seq<char>) -> bool {
    exists|i: int| #[trigger] first_difference(a, b, i) && i < b.len() && (i == a.len() || a[i] < b[i])
}

/// Up to `i` the two agree, and at `i` one of them ends or they differ.
pub open spec fn first_difference(a: Seq<char>, b: Seq<char>, i: int) -> bool {
    &&& 0 <= i <= a.len()
    &&& i <= b.len()
    &&& a.take(i) == b.take(i)
    &&& (i == a.len() || i == b.len() || a[i] != b[i])
}

/// The texts of some strings.
pub open spec fn texts(v: Seq<String>) -> Seq<Seq<char>> {
    Seq::new(v.len(), |i: int| v[i]@)
}

/// Whether `part` occurs in `s`.
pub open spec fn has_infix(s: Seq<char>, part: Seq<char>) -> bool {
    exists|i: int| 0 <= i <= s.len() - part.len() && #[trigger] s.subrange(i, i + part.len()) == part
}

proof fn lemma_first_difference_unique(a: Seq<char>, b: Seq<char>, i: int, j: int)
    requires
        first_difference(a, b, i),
        first_difference(a, b, j),
    ensures
        i == j,
{
    if i < j {
        assert(a.take(j)[i] == b.take(j)[i]);
    }
    if j < i {
        assert(a.take(i)[j] == b.take(i)[j]);
    }
}

/// Two texts always have a first difference.
proof fn lemma_first_difference_exists(a: Seq<char>, b: Seq<char>, i: int) -> (d: int)
    requires
        0 <= i <= a.len(),
        i <= b.len(),
        a.take(i) == b.take(i),
    ensures
        first_difference(a, b, d),
    decreases a.len() - i,
{
    if i == a.len() || i == b.len() || a[i] != b[i] {
        i
    } else {
        assert(a.take(i + 1) =~= a.take(i).push(a[i]));
        assert(b.take(i + 1) =~= b.take(i).push(b[i]));
        lemma_first_difference_exists(a, b, i + 1)
    }
}

/// No text is below itself.
pub proof fn lemma_text_lt_irreflexive(a: Seq<char>)
    ensures
        !text_lt(a, a),
{
}

/// Of two texts that are not equal one is below the other.
pub proof fn lemma_text_lt_total(a: Seq<char>, b: Seq<char>)
    ensures
        a == b || text_lt(a, b) || text_lt(b, a),
{
    assert(a.take(0) =~= b.take(0));
    let d = lemma_first_difference_exists(a, b, 0);
    if d == a.len() && d == b.len() {
        assert(a =~= a.take(d));
        assert(b =~= b.take(d));
    } else {
        assert(first_difference(b, a, d));
    }
}

/// The order is transitive.
pub proof fn lemma_text_lt_transitive(a: Seq<char>, b: Seq<char>, c: Seq<char>)
    requires
        text_lt(a, b),
        text_lt(b, c),
    ensures
        text_lt(a, c),
{
    let i = choose|i: int| #[trigger] first_difference(a, b, i) && i < b.len() && (i == a.len() || a[i] < b[i]);
    let j = choose|j: int| #[trigger] first_difference(b, c, j) && j < c.len() && (j == b.len() || b[j] < c[j]);
    let k = if i < j { i } else { j };
    assert(a.take(k) =~= a.take(i).take(k));
    assert(b.take(k) =~= b.take(i).take(k));
    assert(b.take(k) =~= b.take(j).take(k));
    assert(c.take(k) =~= c.take(j).take(k));
    if i < j {
        assert(b.take(j)[i] == c.take(j)[i]);
    } else if j < i {
        assert(a.take(i)[j] == b.take(i)[j]);
    }
    assert(first_difference(a, c, k));
}

/// The order is asymmetric.
pub proof fn lemma_text_lt_asymmetric(a: Seq<char>, b: Seq<char>)
    requires
        text_lt(a, b),
    ensures
        !text_lt(b, a),
        a != b,
{
    if text_lt(b, a) {
        lemma_text_lt_transitive(a, b, a);
    }
    lemma_text_lt_irreflexive(a);
}

/// The characters of a string.
pub fn chars_of(s: &str) -> (r: Vec<char>)
    ensures
        r@ == s@,
{
    let mut r: Vec<char> = Vec::new();
    for c in it: s.chars()
        invariant
            r@ == s@.take(it.index()),
            it.seq() == s@,
    {
        proof {
            assert(s@.take(it.index() + 1) =~= s@.take(it.index()).push(s@[it.index()]));
        }
        r.push(c);
    }
    proof {
        assert(s@.take(s@.len() as int) =~= s@);
    }
    r
}

/// Whether two strings are equal.
pub fn same(a: &str, b: &str) -> (r: bool)
    ensures
        r == (a@ == b@),
{
    let x = a.as_bytes();
    let y = b.as_bytes();
    proof {
        encode_utf8_decode_utf8(a@);
        encode_utf8_decode_utf8(b@);
    }
    if x.len() != y.len() {
        return false;
    }
    let mut i: usize = 0;
    while i < x.len()
        invariant
            i <= x.len() == y.len(),
            x@ == encode_utf8(a@),
            y@ == encode_utf8(b@),
            forall|k: int| 0 <= k < i ==> x@[k] == y@[k],
        decreases x.len() - i,
    {
        if x[i] != y[i] {
            return false;
        }
        i += 1;
    }
    assert(x@ =~= y@);
    true
}

/// Whether `a` comes before `b` in the order of their characters.
pub fn before(a: &str, b: &str) -> (r: bool)
    ensures
        r == text_lt(a@, b@),
{
    let x = chars_of(a);
    let y = chars_of(b);
    let mut i: usize = 0;
    assert(a@.take(0) =~= b@.take(0));
    while i < x.len() && i < y.len() && x[i] == y[i]
        invariant
            i <= x.len(),
            i <= y.len(),
            x@ == a@,
            y@ == b@,
            a@.take(i as int) == b@.take(i as int),
        decreases x.len() - i,
    {
        proof {
            assert(a@.take(i + 1) =~= a@.take(i as int).push(a@[i as int]));
            assert(b@.take(i + 1) =~= b@.take(i as int).push(b@[i as int]));
        }
        i += 1;
    }
    let r = i < y.len() && (i == x.len() || x[i] < y[i]);
    proof {
        assert(first_difference(a@, b@, i as int));
        if text_lt(a@, b@) {
            let j = choose|j: int| #[trigger] first_difference(a@, b@, j) && j < b@.len() && (j == a@.len() || a@[j] < b@[j]);
            lemma_first_difference_unique(a@, b@, i as int, j);
        }
    }
    r
}

/// The digit for `d`.
fn digit(d: u8) -> (r: char)
    requires
        d < 16,
    ensures
        r == digit_char(d as nat),
{
    if d < 10 {
        (48 + d) as char
    } else {
        (87 + d) as char
    }
}

/// A number in decimal.
pub fn decimal(n: u128) -> (r: String)
    ensures
        r@ == decimal_chars(n as nat),
    decreases n,
{
    if n < 10 {
        let mut s = String::new();
        s.push(digit(n as u8));
        assert(s@ =~= seq![digit_char(n as nat)]);
        s
    } else {
        let mut s = decimal(n / 10);
        s.push(digit((n % 10) as u8));
        s
    }
}

/// The low `width` hexadecimal digits of a number.
pub fn hex(n: u64, width: u32) -> (r: String)
    ensures
        r@ == hex_chars(n as nat, width as nat),
    decreases width,
{
    if width == 0 {
        let s = String::new();
        assert(s@ =~= seq![]);
        s
    } else {
        let mut s = hex(n / 16, width - 1);
        s.push(digit((n % 16) as u8));
        s
    }
}


/// The value of one digit.
fn value_of_digit(c: char, radix: u64) -> (r: Option<u64>)
    requires
        radix <= 36,
    ensures
        match r {
            Some(v) => v < radix && digit_value(c, radix as nat) == Some(v as nat),
            None => digit_value(c, radix as nat) is None,
        },
{
    let v: u64 = if '0' <= c && c <= '9' {
        (c as u64) - 48
    } else if 'a' <= c && c <= 'z' {
        (c as u64) - 87
    } else if 'A' <= c && c <= 'Z' {
        (c as u64) - 55
    } else {
        36
    };
    if v < radix {
        Some(v)
    } else {
        None
    }
}

/// A prefix of digits stands for no more than the whole.
proof fn lemma_digits_value_prefix(s: Seq<char>, n: int, radix: nat)
    requires
        0 <= n <= s.len(),
        radix >= 1,
        digits_value(s, radix) is Some,
    ensures
        digits_value(s.take(n), radix) is Some,
        digits_value(s.take(n), radix)->0 <= digits_value(s, radix)->0,
    decreases s.len(),
{
    if n == s.len() {
        assert(s.take(n) =~= s);
    } else {
        lemma_digits_value_prefix(s.drop_last(), n, radix);
        assert(s.drop_last().take(n) =~= s.take(n));
        let high = digits_value(s.drop_last(), radix)->0;
        assert(high <= high * radix) by (nonlinear_arith)
            requires
                radix >= 1,
                high >= 0,
        ;
    }
}

/// Reads an unsigned number no larger than `max` from its text.
pub fn parse_unsigned(chars: &Vec<char>, from: usize, radix: u64, max: u64) -> (r: Option<u64>)
    requires
        from <= chars.len(),
        2 <= radix <= 36,
    ensures
        match r {
            Some(v) => parsed_unsigned(chars@.skip(from as int), radix as nat, max as nat) == Some(v as nat),
            None => parsed_unsigned(chars@.skip(from as int), radix as nat, max as nat) is None,
        },
{
    let ghost text = chars@.skip(from as int);
    let ghost digits = unsigned_digits(text);
    let mut i: usize = from;
    if i < chars.len() && chars[i] == '+' {
        i += 1;
    }
    let first: usize = i;
    assert(digits =~= chars@.skip(first as int));
    if i == chars.len() {
        return None;
    }
    let mut n: u64 = 0;
    while i < chars.len()
        invariant
            first <= i <= chars.len(),
            2 <= radix <= 36,
            digits == chars@.skip(first as int),
            digits.len() > 0,
            text == chars@.skip(from as int),
            digits == unsigned_digits(text),
            n <= max,
            digits_value(digits.take(i - first), radix as nat) == Some(n as nat),
        decreases chars.len() - i,
    {
        let ghost next = digits.take(i - first + 1);
        proof {
            assert(next.drop_last() =~= digits.take(i - first));
            assert(next.last() == chars@[i as int]);
            if digits_value(digits, radix as nat) is Some {
                lemma_digits_value_prefix(digits, i - first + 1, radix as nat);
            }
        }
        let d: u64 = match value_of_digit(chars[i], radix) {
            Some(d) => d,
            None => {
                return None;
            },
        };
        assert(digits_value(next, radix as nat) == Some((n * radix + d) as nat));
        assert(n * radix <= u64::MAX * 36) by (nonlinear_arith)
            requires
                n <= u64::MAX,
                radix <= 36,
        ;
        let wide: u128 = (n as u128) * (radix as u128) + (d as u128);
        if wide > max as u128 {
            return None;
        }
        n = wide as u64;
        i += 1;
    }
    assert(digits.take(i - first) =~= digits);
    Some(n)
}

/// How many characters the `0x` prefixes of a text take.
pub fn prefix_0x(chars: &Vec<char>) -> (r: usize)
    ensures
        r <= chars.len(),
        chars@.skip(r as int) == without_0x(chars@),
{
    let mut i: usize = 0;
    assert(chars@.skip(0) =~= chars@);
    while chars.len() - i >= 2 && chars[i] == '0' && chars[i + 1] == 'x'
        invariant
            i <= chars.len(),
            without_0x(chars@) == without_0x(chars@.skip(i as int)),
        decreases chars.len() - i,
    {
        proof {
            let rest = chars@.skip(i as int);
            assert(rest.skip(2) =~= chars@.skip(i + 2));
        }
        i += 2;
    }
    i
}

/// Whether `part` occurs in `s`.
pub fn contains(s: &str, part: &str) -> (r: bool)
    ensures
        r == has_infix(s@, part@),
{
    let x = chars_of(s);
    let y = chars_of(part);
    if y.len() > x.len() {
        return false;
    }
    let last: usize = x.len() - y.len();
    let mut i: usize = 0;
    while i <= last
        invariant
            last == x.len() - y.len(),
            i <= last + 1,
            last < usize::MAX || i <= last,
            x@ == s@,
            y@ == part@,
            forall|k: int| 0 <= k < i ==> #[trigger] s@.subrange(k, k + part@.len()) != part@,
        decreases last + 1 - i,
    {
        let mut j: usize = 0;
        while j < y.len() && x[i + j] == y[j]
            invariant
                i + y.len() <= x.len(),
                j <= y.len(),
                forall|k: int| 0 <= k < j ==> x@[i + k] == y@[k],
            decreases y.len() - j,
        {
            j += 1;
        }
        if j == y.len() {
            assert(s@.subrange(i as int, i + part@.len()) =~= part@);
            return true;
        }
        assert(s@.subrange(i as int, i + part@.len())[j as int] != part@[j as int]);
        if i == last {
            return false;
        }
        i += 1;
    }
    false
}

/// Reading back the hexadecimal text of a number gives the number, as far as
/// the digits hold it.
pub proof fn lemma_hex_value(n: nat, width: nat)
    ensures
        hex_chars(n, width).len() == width,
        digits_value(hex_chars(n, width), 16) == Some(n % pow16(width)),
        forall|i: int| 0 <= i < width ==> #[trigger] hex_chars(n, width)[i] != '+' && hex_chars(n, width)[i] != 'x',
    decreases width,
{
    if width > 0 {
        let w = (width - 1) as nat;
        lemma_hex_value(n / 16, w);
        let s = hex_chars(n, width);
        assert(s.drop_last() =~= hex_chars(n / 16, w));
        let p = pow16(w);
        lemma_pow16_positive(w);
        assert(n % (16 * p) == ((n / 16) % p) * 16 + n % 16) by {
            vstd::arithmetic::div_mod::lemma_mod_breakdown(n as int, 16, p as int);
            assert((n / 16) % p * 16 == 16 * ((n / 16) % p)) by (nonlinear_arith);
        }
        assert(digit_value(digit_char(n % 16), 16) == Some(n % 16));
    } else {
        assert(n % 1 == 0);
    }
}

/// Sixteen to the power of `n`.
pub open spec fn pow16(n: nat) -> nat
    decreases n,
{
    if n == 0 {
        1
    } else {
        16 * pow16((n - 1) as nat)
    }
}

proof fn lemma_pow16_positive(n: nat)
    ensures
        pow16(n) >= 1,
    decreases n,
{
    if n > 0 {
        lemma_pow16_positive((n - 1) as nat);
    }
}

/// The decimal text of a number is its digits, and reads back as the number.
pub proof fn lemma_decimal_value(n: nat)
    ensures
        decimal_chars(n).len() >= 1,
        digits_value(decimal_chars(n), 10) == Some(n),
        forall|i: int| 0 <= i < decimal_chars(n).len() ==> '0' <= #[trigger] decimal_chars(n)[i] <= '9',
    decreases n,
{
    let s = decimal_chars(n);
    if n < 10 {
        assert(s.drop_last() =~= Seq::<char>::empty());
        assert(digits_value(s.drop_last(), 10) == Some(0nat));
    } else {
        lemma_decimal_value(n / 10);
        assert(s.drop_last() =~= decimal_chars(n / 10));
    }
    assert(digit_value(digit_char(n % 10), 10) == Some(n % 10));
}

/// A decimal text ends in the last digit of its number, behind the text of the others; a
/// number below ten is one digit.
pub proof fn law_decimal_text(high: nat, low: nat)
    requires
        low < 10,
    ensures
        decimal_chars(low) == seq![(48 + low) as char],
        high > 0 ==> decimal_chars(10 * high + low) == decimal_chars(high).push((48 + low) as char),
{
    let n = 10 * high + low;
    assert(n / 10 == high && n % 10 == low);
}

/// A hexadecimal text of a width ends in the last digit, in lower case, behind the text of
/// the others.
pub proof fn law_hex_text(high: nat, low: nat, width: nat)
    requires
        low < 16,
    ensures
        hex_chars(high, 0).len() == 0,
        hex_chars(high, width).len() == width,
        low < 10 ==> hex_chars(16 * high + low, width + 1) == hex_chars(high, width).push((48 + low) as char),
        low >= 10 ==> hex_chars(16 * high + low, width + 1) == hex_chars(high, width).push((87 + low) as char),
{
    lemma_hex_value(high, width);
    let n = 16 * high + low;
    assert(n / 16 == high && n % 16 == low);
}

/// A digit behind some digits multiplies what they stand for by the radix and adds what it
/// stands for itself: 0 to 9, and from ten on the letters, in either case. Whatever is no
/// digit of the radix leaves no number.
pub proof fn law_value_of_digits(s: Seq<char>, c: char, radix: nat)
    requires
        2 <= radix <= 36,
    ensures
        digits_value(seq![], radix) == Some(0nat),
        digits_value(s, radix) matches Some(v) ==> {
            &&& '0' <= c <= '9' && c as int - 48 < radix ==> digits_value(s.push(c), radix) == Some(
                (v * radix + (c as int - 48)) as nat,
            )
            &&& 'a' <= c <= 'z' && c as int - 87 < radix ==> digits_value(s.push(c), radix) == Some(
                (v * radix + (c as int - 87)) as nat,
            )
            &&& 'A' <= c <= 'Z' && c as int - 55 < radix ==> digits_value(s.push(c), radix) == Some(
                (v * radix + (c as int - 55)) as nat,
            )
        },
        digits_value(s, radix) is None ==> digits_value(s.push(c), radix) is None,
        !('0' <= c <= '9') && !('a' <= c <= 'z') && !('A' <= c <= 'Z') ==> digits_value(s.push(c), radix) is None,
        '0' <= c <= '9' && c as int - 48 >= radix ==> digits_value(s.push(c), radix) is None,
        'a' <= c <= 'z' && c as int - 87 >= radix ==> digits_value(s.push(c), radix) is None,
        'A' <= c <= 'Z' && c as int - 55 >= radix ==> digits_value(s.push(c), radix) is None,
{
    assert(s.push(c).drop_last() =~= s);
    assert(s.push(c).last() == c);
    if let Some(v) = digits_value(s, radix) {
        assert(v * radix >= 0) by (nonlinear_arith);
    }
}

/// A text reads as an unsigned number if and only if it is digits, at least one, that stand
/// for no more than the largest. One plus sign in front changes nothing.
pub proof fn law_unsigned_numbers(s: Seq<char>, radix: nat, max: nat)
    requires
        s.len() > 0 ==> s[0] != '+',
    ensures
        s.len() == 0 ==> parsed_unsigned(s, radix, max) is None,
        s.len() > 0 ==> parsed_unsigned(s, radix, max) == (match digits_value(s, radix) {
            Some(v) => if v <= max {
                Some(v)
            } else {
                None
            },
            None => None,
        }),
        parsed_unsigned(seq!['+'] + s, radix, max) == parsed_unsigned(s, radix, max),
{
    let signed = seq!['+'] + s;
    assert(signed.skip(1) =~= s);
}

/// The number that is written in decimal is read again from its text.
pub proof fn law_decimal_reads_back(n: nat, max: nat)
    requires
        n <= max,
    ensures
        parsed_unsigned(decimal_chars(n), 10, max) == Some(n),
{
    lemma_decimal_value(n);
    assert(decimal_chars(n)[0] != '+');
}

/// Prefixes `0x` are taken off a text, one after the other, and nothing else.
pub proof fn law_prefixes_are_taken_off(s: Seq<char>)
    ensures
        without_0x(seq!['0', 'x'] + s) == without_0x(s),
        (s.len() < 2 || s[0] != '0' || s[1] != 'x') ==> without_0x(s) == s,
{
    assert((seq!['0', 'x'] + s).skip(2) =~= s);
}

/// Texts are in order by the first character in which they differ; one that ends there comes
/// first.
pub proof fn law_order_of_texts(common: Seq<char>, a: Seq<char>, b: Seq<char>)
    requires
        b.len() > 0,
        a.len() == 0 || a[0] < b[0],
    ensures
        text_lt(common + a, common + b),
        !text_lt(common + b, common + a),
{
    let (x, y) = (common + a, common + b);
    let i = common.len() as int;
    assert(x.take(i) =~= y.take(i));
    assert(first_difference(x, y, i));
    lemma_text_lt_asymmetric(x, y);
}

/// A text occurs in another wherever that one is made up of something, it and something, and
/// nowhere else.
pub proof fn law_occurrence(before: Seq<char>, part: Seq<char>, behind: Seq<char>, s: Seq<char>)
    ensures
        has_infix(before + part + behind, part),
        has_infix(s, part) ==> exists|a: Seq<char>, b: Seq<char>| s == #[trigger] (a + part + b),
{
    let whole = before + part + behind;
    let i = before.len() as int;
    assert(whole.subrange(i, i + part.len()) =~= part);
    if has_infix(s, part) {
        let k = choose|k: int| 0 <= k <= s.len() - part.len() && #[trigger] s.subrange(k, k + part.len()) == part;
        let (a, b) = (s.take(k), s.skip(k + part.len()));
        assert(s =~= a + s.subrange(k, k + part.len()) + b);
        assert(s == a + part + b);
    }
}

/// The texts of some strings are theirs, one by one.
pub proof fn law_texts_of_strings(v: Seq<String>, i: int)
    ensures
        texts(v).len() == v.len(),
        0 <= i < v.len() ==> texts(v)[i] == v[i]@,
{
}

}
