//! Byte strings and the fixed decimal text form of integers.

use vstd::prelude::*;
use crate::number::Number;

verus! {

/// The ASCII code of `0`.
pub const DIGIT_ZERO: u8 = 48;

/// The ASCII code of `-`.
pub const MINUS_SIGN: u8 = 45;

/// Whether a byte is an ASCII decimal digit.
pub open spec fn is_digit(b: u8) -> bool {
    DIGIT_ZERO <= b <= 57
}

/// Whether every byte of a sequence is an ASCII decimal digit.
pub open spec fn all_digits(s: Seq<u8>) -> bool {
    forall|i: int| 0 <= i < s.len() ==> is_digit(#[trigger] s[i])
}

/// The decimal digits of a non-negative integer, most significant first.
pub open spec fn dec_digits(n: nat) -> Seq<u8>
    decreases n,
{
    if n < 10 {
        seq![(DIGIT_ZERO + n) as u8]
    } else {
        dec_digits(n / 10).push((DIGIT_ZERO + n % 10) as u8)
    }
}

/// The decimal text of an integer: digits, with a leading `-` if negative.
pub open spec fn dec_int(v: int) -> Seq<u8> {
    if v < 0 {
        seq![MINUS_SIGN] + dec_digits((-v) as nat)
    } else {
        dec_digits(v as nat)
    }
}

/// The decimal text of a number.
pub open spec fn dec_number(n: Number) -> Seq<u8> {
    dec_int(n.as_int())
}

/// The value of a sequence of decimal digits.
pub open spec fn digits_value(s: Seq<u8>) -> int
    decreases s.len(),
{
    if s.len() == 0 {
        0
    } else {
        digits_value(s.drop_last()) * 10 + (s.last() - DIGIT_ZERO)
    }
}

/// What parsing decimal text as a signed 128-bit integer yields: the value
/// when the text is a non-empty digit string, optionally signed, whose value
/// fits; nothing otherwise.
pub open spec fn spec_parse_i128(s: Seq<u8>) -> Option<i128> {
    if s.len() > 0 && s[0] == MINUS_SIGN {
        let d = s.skip(1);
        if d.len() > 0 && all_digits(d) && -digits_value(d) >= i128::MIN {
            Some((-digits_value(d)) as i128)
        } else {
            None
        }
    } else if s.len() > 0 && all_digits(s) && digits_value(s) <= i128::MAX {
        Some(digits_value(s) as i128)
    } else {
        None
    }
}

/// Decimal digit strings are non-empty, hold digits only, and denote the
/// number they were built from.
pub proof fn lemma_dec_digits_value(n: nat)
    ensures
        dec_digits(n).len() >= 1,
        all_digits(dec_digits(n)),
        digits_value(dec_digits(n)) == n,
    decreases n,
{
    if n < 10 {
        let s = seq![(DIGIT_ZERO + n) as u8];
        assert(dec_digits(n) =~= s);
        assert(s.len() == 1);
        assert(s.last() == (DIGIT_ZERO + n) as u8);
        assert(s.drop_last() =~= Seq::<u8>::empty());
        assert(digits_value(Seq::<u8>::empty()) == 0);
        assert(digits_value(s.drop_last()) == 0);
        assert(digits_value(s) == digits_value(s.drop_last()) * 10 + (s.last() - DIGIT_ZERO));
        assert(digits_value(s) == n);
    } else {
        lemma_dec_digits_value(n / 10);
        let s = dec_digits(n / 10);
        let d = (DIGIT_ZERO + n % 10) as u8;
        assert(s.push(d).drop_last() =~= s);
        assert(s.push(d).last() == d);
        assert(digits_value(s.push(d)) == (n / 10) * 10 + n % 10);
        assert((n / 10) * 10 + n % 10 == n) by {
            vstd::arithmetic::div_mod::lemma_fundamental_div_mod(n as int, 10);
        }
    }
}

/// Parsing the decimal text of any signed 128-bit integer yields that
/// integer back.
pub proof fn lemma_parse_dec_roundtrip(v: i128)
    ensures
        spec_parse_i128(dec_int(v as int)) == Some(v),
{
    if v < 0 {
        let m = (-(v as int)) as nat;
        lemma_dec_digits_value(m);
        let s = seq![MINUS_SIGN] + dec_digits(m);
        assert(s[0] == MINUS_SIGN);
        assert(s.skip(1) =~= dec_digits(m));
    } else {
        let m = (v as int) as nat;
        lemma_dec_digits_value(m);
        let s = dec_digits(m);
        assert(s[0] != MINUS_SIGN) by {
            if s.len() == 1 {
            } else {
                assert(all_digits(s));
                assert(is_digit(s[0]));
            }
        }
    }
}

/// Formats a non-negative integer in decimal.
pub fn format_u128(n: u128) -> (r: Vec<u8>)
    ensures
        r@ == dec_digits(n as nat),
    decreases n,
{
    if n < 10 {
        let mut v: Vec<u8> = Vec::new();
        v.push(DIGIT_ZERO + n as u8);
        proof {
            assert(v@ =~= dec_digits(n as nat));
        }
        v
    } else {
        let mut v = format_u128(n / 10);
        v.push(DIGIT_ZERO + (n % 10) as u8);
        v
    }
}

/// Formats a signed integer in decimal, with a leading `-` if negative.
pub fn format_i128(n: i128) -> (r: Vec<u8>)
    ensures
        r@ == dec_int(n as int),
{
    if n >= 0 {
        format_u128(n as u128)
    } else {
        let m: u128 = (-(n + 1)) as u128 + 1;
        let mut v: Vec<u8> = Vec::new();
        v.push(MINUS_SIGN);
        let mut digits = format_u128(m);
        v.append(&mut digits);
        proof {
            assert(v@ =~= dec_int(n as int));
        }
        v
    }
}

/// Formats a signed 64-bit integer in decimal.
pub fn format_i64(n: i64) -> (r: Vec<u8>)
    ensures
        r@ == dec_int(n as int),
{
    format_i128(n as i128)
}

/// Parses decimal text as a signed 128-bit integer; exactly the non-empty,
/// optionally signed digit strings whose value fits are accepted.
pub fn parse_i128(s: &[u8]) -> (r: Option<i128>)
    ensures
        r == spec_parse_i128(s@),
{
    let n = s.len();
    if n == 0 {
        return None;
    }
    let negative = s[0] == MINUS_SIGN;
    let start: usize = if negative { 1 } else { 0 };
    if start == n {
        return None;
    }
    let ghost d = if negative { s@.skip(1) } else { s@ };
    let mut acc: u128 = 0;
    let mut i: usize = start;
    while i < n
        invariant
            start <= i <= n,
            start < n,
            n == s@.len(),
            negative == (s@[0] == MINUS_SIGN),
            start == if negative { 1int } else { 0int },
            d == if negative { s@.skip(1) } else { s@ },
            all_digits(d.take(i - start)),
            acc == digits_value(d.take(i - start)),
            acc <= i128::MAX as u128 + 1,
            negative || acc <= i128::MAX as u128,
        decreases n - i,
    {
        let b = s[i];
        if b < DIGIT_ZERO || b > 57 {
            proof {
                assert(d[i - start] == b);
                assert(!all_digits(d));
            }
            return None;
        }
        let digit = (b - DIGIT_ZERO) as u128;
        proof {
            assert(d.take(i + 1 - start).drop_last() =~= d.take(i - start));
            assert(d.take(i + 1 - start).last() == b);
        }
        let limit: u128 = if negative {
            i128::MAX as u128 + 1
        } else {
            i128::MAX as u128
        };
        if acc > (limit - digit) / 10 {
            proof {
                assert(d.take(d.len() as int) =~= d);
                if all_digits(d) {
                    assert(digits_value(d.take(i + 1 - start)) == acc * 10 + digit);
                    lemma_acc_monotone(d, i + 1 - start, d.len() as int);
                    vstd::arithmetic::div_mod::lemma_fundamental_div_mod(
                        (limit - digit) as int,
                        10,
                    );
                    assert(digits_value(d) > limit);
                }
            }
            return None;
        }
        proof {
            vstd::arithmetic::div_mod::lemma_fundamental_div_mod((limit - digit) as int, 10);
        }
        acc = acc * 10 + digit;
        i += 1;
    }
    proof {
        assert(d.take(n - start) =~= d);
    }
    if negative {
        if acc == i128::MAX as u128 + 1 {
            Some(i128::MIN)
        } else {
            Some(-(acc as i128))
        }
    } else {
        Some(acc as i128)
    }
}

/// The value of a digit string grows, weakly, with its length.
proof fn lemma_acc_monotone(d: Seq<u8>, i: int, j: int)
    requires
        0 <= i <= j <= d.len(),
        all_digits(d.take(j)),
        digits_value(d.take(i)) >= 0,
    ensures
        digits_value(d.take(j)) >= digits_value(d.take(i)),
    decreases j - i,
{
    if i < j {
        lemma_acc_monotone(d, i, j - 1);
        assert(d.take(j).drop_last() =~= d.take(j - 1));
        assert(all_digits(d.take(j - 1)));
        let prev = digits_value(d.take(j - 1));
        assert(digits_value(d.take(j)) == prev * 10 + (d.take(j).last() - DIGIT_ZERO));
        assert(prev * 10 >= prev) by (nonlinear_arith)
            requires prev >= 0;
    }
}

/// The lowercase hex digit of a nibble.
pub open spec fn hex_digit_lower(n: u8) -> u8
    recommends
        n < 16,
{
    if n < 10 {
        (DIGIT_ZERO + n) as u8
    } else {
        (87 + n) as u8
    }
}

/// The lowercase hex text of the bytes from position `i` on, two digits
/// per byte.
pub open spec fn hex_text_from(bytes: Seq<u8>, i: int) -> Seq<u8>
    decreases bytes.len() - i,
{
    if i < 0 || i >= bytes.len() {
        Seq::<u8>::empty()
    } else {
        seq![
            hex_digit_lower((bytes[i] / 16) as u8),
            hex_digit_lower((bytes[i] % 16) as u8),
        ] + hex_text_from(bytes, i + 1)
    }
}

/// Whether a byte is a hex digit, in either case.
pub open spec fn is_hex_digit(b: u8) -> bool {
    is_digit(b) || 97 <= b <= 102 || 65 <= b <= 70
}

/// The value of a hex digit.
pub open spec fn hex_nibble_value(b: u8) -> u8
    recommends
        is_hex_digit(b),
{
    if is_digit(b) {
        (b - DIGIT_ZERO) as u8
    } else if 97 <= b <= 102 {
        (b - 87) as u8
    } else {
        (b - 55) as u8
    }
}

/// Whether every byte of a sequence is a hex digit.
pub open spec fn all_hex_digits(s: Seq<u8>) -> bool {
    forall|i: int| 0 <= i < s.len() ==> is_hex_digit(#[trigger] s[i])
}

/// The byte named by the `k`-th pair of hex digits.
pub open spec fn hex_pair_value(text: Seq<u8>, k: int) -> u8
    recommends
        0 <= k,
        2 * k + 1 < text.len(),
{
    (hex_nibble_value(text[2 * k]) * 16 + hex_nibble_value(text[2 * k + 1])) as u8
}

/// What parsing hex text yields: the named bytes when the text is a
/// sequence of hex-digit pairs; nothing otherwise.
pub open spec fn spec_parse_hex(text: Seq<u8>) -> Option<Seq<u8>> {
    if text.len() % 2 == 0 && all_hex_digits(text) {
        Some(Seq::new((text.len() / 2) as nat, |k: int| hex_pair_value(text, k)))
    } else {
        None
    }
}

/// Consuming one byte moves its two digits from the rest into the prefix.
proof fn hex_text_step(bytes: Seq<u8>, i: int)
    requires
        0 <= i < bytes.len(),
    ensures
        forall|acc: Seq<u8>|
            #[trigger] (acc + hex_text_from(bytes, i)) == (acc + seq![
                hex_digit_lower((bytes[i] / 16) as u8),
                hex_digit_lower((bytes[i] % 16) as u8),
            ]) + hex_text_from(bytes, i + 1),
{
    assert forall|acc: Seq<u8>|
        #[trigger] (acc + hex_text_from(bytes, i)) == (acc + seq![
            hex_digit_lower((bytes[i] / 16) as u8),
            hex_digit_lower((bytes[i] % 16) as u8),
        ]) + hex_text_from(bytes, i + 1) by {
        let pair = seq![
            hex_digit_lower((bytes[i] / 16) as u8),
            hex_digit_lower((bytes[i] % 16) as u8),
        ];
        assert(acc + (pair + hex_text_from(bytes, i + 1)) =~= (acc + pair) + hex_text_from(
            bytes,
            i + 1,
        ));
    }
}

/// The lowercase hex digit of a nibble.
fn hex_digit(n: u8) -> (r: u8)
    requires
        n < 16,
    ensures
        r == hex_digit_lower(n),
{
    if n < 10 {
        DIGIT_ZERO + n
    } else {
        87 + n
    }
}

/// Formats bytes as lowercase hex text, two digits per byte, as random
/// seeds are written.
pub fn hex_lower(bytes: &[u8]) -> (r: Vec<u8>)
    ensures
        r@ == hex_text_from(bytes@, 0),
{
    let mut out: Vec<u8> = Vec::new();
    let n = bytes.len();
    let mut i: usize = 0;
    proof {
        assert(out@ + hex_text_from(bytes@, 0) =~= hex_text_from(bytes@, 0));
    }
    while i < n
        invariant
            0 <= i <= n,
            n == bytes@.len(),
            hex_text_from(bytes@, 0) == out@ + hex_text_from(bytes@, i as int),
        decreases n - i,
    {
        proof {
            hex_text_step(bytes@, i as int);
        }
        let ghost before = out@;
        let b = bytes[i];
        out.push(hex_digit(b / 16));
        out.push(hex_digit(b % 16));
        proof {
            assert(out@ =~= before + seq![
                hex_digit_lower((bytes@[i as int] / 16) as u8),
                hex_digit_lower((bytes@[i as int] % 16) as u8),
            ]);
        }
        i += 1;
    }
    proof {
        assert(out@ + Seq::<u8>::empty() =~= out@);
    }
    out
}

/// The value of a hex digit, or nothing for any other byte.
fn hex_nibble(b: u8) -> (r: Option<u8>)
    ensures
        r == (if is_hex_digit(b) {
            Some(hex_nibble_value(b))
        } else {
            None::<u8>
        }),
{
    if DIGIT_ZERO <= b && b <= 57 {
        Some(b - DIGIT_ZERO)
    } else if 97 <= b && b <= 102 {
        Some(b - 87)
    } else if 65 <= b && b <= 70 {
        Some(b - 55)
    } else {
        None
    }
}

/// Parses hex text into bytes; exactly the even-length strings of hex
/// digits, in either case, are accepted.
pub fn parse_hex(text: &[u8]) -> (r: Option<Vec<u8>>)
    ensures
        ({
            let t = spec_parse_hex(text@);
            &&& (t matches Some(b) ==> (r matches Some(v) && v@ == b))
            &&& (t is None ==> r is None)
        }),
{
    let n = text.len();
    if n % 2 != 0 {
        return None;
    }
    let m = n / 2;
    let mut out: Vec<u8> = Vec::new();
    let mut k: usize = 0;
    while k < m
        invariant
            0 <= k <= m,
            n == text@.len(),
            n % 2 == 0,
            m == n / 2,
            out@.len() == k,
            forall|i: int| 0 <= i < 2 * k ==> is_hex_digit(#[trigger] text@[i]),
            forall|j: int| 0 <= j < k ==> #[trigger] out@[j] == hex_pair_value(text@, j),
        decreases m - k,
    {
        let hi = hex_nibble(text[2 * k]);
        let lo = hex_nibble(text[2 * k + 1]);
        match (hi, lo) {
            (Some(h), Some(l)) => {
                out.push(h * 16 + l);
            },
            _ => {
                return None;
            },
        }
        k += 1;
    }
    proof {
        assert(out@ =~= Seq::new((text@.len() / 2) as nat, |j: int| hex_pair_value(text@, j)));
    }
    Some(out)
}

/// A byte vector, with a flag recording whether every source it was built
/// from was known to hold valid UTF-8 text.
#[derive(Clone, Debug, PartialEq)]
pub struct ByteString {
    /// The raw bytes.
    pub bytes: Vec<u8>,
    /// Whether the bytes came only from known-text sources.
    pub known_utf8: bool,
}

impl View for ByteString {
    type V = Seq<u8>;

    open spec fn view(&self) -> Seq<u8> {
        self.bytes@
    }
}

/// The ordering of two byte sequences, lexicographic over unsigned bytes,
/// with a missing byte ordering before any byte.
pub open spec fn lex_cmp_bytes(a: Seq<u8>, b: Seq<u8>) -> core::cmp::Ordering
    decreases a.len(),
{
    if a.len() == 0 && b.len() == 0 {
        core::cmp::Ordering::Equal
    } else if a.len() == 0 {
        core::cmp::Ordering::Less
    } else if b.len() == 0 {
        core::cmp::Ordering::Greater
    } else if a[0] < b[0] {
        core::cmp::Ordering::Less
    } else if a[0] > b[0] {
        core::cmp::Ordering::Greater
    } else {
        lex_cmp_bytes(a.skip(1), b.skip(1))
    }
}

/// Dropping a shared first byte does not change the lexicographic order.
proof fn lemma_lex_cmp_step(a: Seq<u8>, b: Seq<u8>, i: int)
    requires
        0 <= i < a.len(),
        0 <= i < b.len(),
        a[i] == b[i],
    ensures
        lex_cmp_bytes(a.skip(i), b.skip(i)) == lex_cmp_bytes(a.skip(i + 1), b.skip(i + 1)),
{
    assert(a.skip(i).skip(1) =~= a.skip(i + 1));
    assert(b.skip(i).skip(1) =~= b.skip(i + 1));
}

impl ByteString {
    /// An empty byte string; empty text is trivially known text.
    pub fn new() -> (r: ByteString)
        ensures
            r@ == Seq::<u8>::empty(),
            r.known_utf8,
    {
        let r = ByteString { bytes: Vec::new(), known_utf8: true };
        proof {
            assert(r@ =~= Seq::<u8>::empty());
        }
        r
    }

    /// Wraps raw bytes of unknown encoding.
    pub fn from_bytes(bytes: Vec<u8>) -> (r: ByteString)
        ensures
            r@ == bytes@,
            !r.known_utf8,
    {
        ByteString { bytes, known_utf8: false }
    }

    /// The number of bytes.
    pub fn len(&self) -> (r: usize)
        ensures
            r == self@.len(),
    {
        self.bytes.len()
    }

    /// Appends the decimal text of a number; digits are text, so the
    /// known-text flag is kept.
    pub fn extend_number(&mut self, n: &Number)
        ensures
            final(self)@ == old(self)@ + dec_number(*n),
            final(self).known_utf8 == old(self).known_utf8,
    {
        let mut digits = match n {
            Number::Int(i) => format_i128(*i),
            Number::UInt(u) => format_u128(*u),
        };
        proof {
            assert(dec_number(*n) == digits@);
        }
        self.bytes.append(&mut digits);
    }

    /// Appends another byte string; the result is known text only when both
    /// sides were.
    pub fn extend_byte_string(&mut self, other: &ByteString)
        ensures
            final(self)@ == old(self)@ + other@,
            final(self).known_utf8 == (old(self).known_utf8 && other.known_utf8),
    {
        let mut tail = vstd::slice::slice_to_vec(other.bytes.as_slice());
        self.bytes.append(&mut tail);
        self.known_utf8 = self.known_utf8 && other.known_utf8;
    }

    /// Appends raw bytes that the caller knows to be text.
    pub fn extend_text_bytes(&mut self, other: &[u8])
        ensures
            final(self)@ == old(self)@ + other@,
            final(self).known_utf8 == old(self).known_utf8,
    {
        let mut tail = vstd::slice::slice_to_vec(other);
        self.bytes.append(&mut tail);
    }

    /// Compares byte strings lexicographically over unsigned bytes.
    pub fn compare(&self, other: &ByteString) -> (r: core::cmp::Ordering)
        ensures
            r == lex_cmp_bytes(self@, other@),
    {
        let an = self.bytes.len();
        let bn = other.bytes.len();
        proof {
            assert(self@.skip(0) =~= self@);
            assert(other@.skip(0) =~= other@);
        }
        let mut i: usize = 0;
        while i < an && i < bn
            invariant
                0 <= i <= an,
                0 <= i <= bn,
                an == self@.len(),
                bn == other@.len(),
                lex_cmp_bytes(self@, other@) == lex_cmp_bytes(self@.skip(i as int), other@.skip(i as int)),
            decreases an - i,
        {
            let x = self.bytes[i];
            let y = other.bytes[i];
            if x < y {
                return core::cmp::Ordering::Less;
            }
            if x > y {
                return core::cmp::Ordering::Greater;
            }
            proof {
                lemma_lex_cmp_step(self@, other@, i as int);
            }
            i += 1;
        }
        if an == bn {
            core::cmp::Ordering::Equal
        } else if an < bn {
            core::cmp::Ordering::Less
        } else {
            core::cmp::Ordering::Greater
        }
    }
}

} // verus!
