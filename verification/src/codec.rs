use vstd::prelude::*;
use vstd::utf8::*;

verus! {

/// The lower-case hexadecimal digit for a value below 16.
pub open spec fn hex_digit(v: int) -> u8 {
    if v < 10 {
        (0x30 + v) as u8
    } else {
        (0x61 + v - 10) as u8
    }
}

/// The value of a lower-case hexadecimal digit.
pub open spec fn hex_value(b: u8) -> Option<int> {
    if 0x30 <= b <= 0x39 {
        Some(b - 0x30)
    } else if 0x61 <= b <= 0x66 {
        Some(b - 0x61 + 10)
    } else {
        None
    }
}

/// One more than the largest number that `width` hexadecimal digits can hold.
pub open spec fn hex_limit(width: nat) -> nat
    decreases width,
{
    if width == 0 {
        1
    } else {
        16 * hex_limit((width - 1) as nat)
    }
}

/// A number in exactly `width` hexadecimal digits, the most significant
/// first, with leading zeros.
pub open spec fn hex_digits(n: nat, width: nat) -> Seq<u8>
    decreases width,
{
    if width == 0 {
        Seq::empty()
    } else {
        hex_digits(n / 16, (width - 1) as nat).push(hex_digit((n % 16) as int))
    }
}

/// The number that a sequence of hexadecimal digits denotes, if every byte
/// is such a digit.
pub open spec fn hex_number(s: Seq<u8>) -> Option<nat>
    decreases s.len(),
{
    if s.len() == 0 {
        Some(0)
    } else {
        match (hex_number(s.drop_last()), hex_value(s.last())) {
            (Some(hi), Some(d)) => Some((hi * 16 + d) as nat),
            _ => None,
        }
    }
}

pub proof fn lemma_hex_digits_len(n: nat, width: nat)
    ensures
        hex_digits(n, width).len() == width,
    decreases width,
{
    if width > 0 {
        lemma_hex_digits_len(n / 16, (width - 1) as nat);
    }
}

/// Every byte of a number's digits is below 128.
pub proof fn lemma_hex_digits_ascii(n: nat, width: nat)
    ensures
        forall|i: int| 0 <= i < hex_digits(n, width).len() ==> #[trigger] hex_digits(n, width)[i] < 128,
    decreases width,
{
    if width > 0 {
        let hi = hex_digits(n / 16, (width - 1) as nat);
        lemma_hex_digits_ascii(n / 16, (width - 1) as nat);
        lemma_hex_digits_len(n / 16, (width - 1) as nat);
        assert forall|i: int| 0 <= i < hex_digits(n, width).len() implies #[trigger] hex_digits(
            n,
            width,
        )[i] < 128 by {
            if i < hi.len() {
                assert(hex_digits(n, width)[i] == hi[i]);
            }
        }
    }
}

/// The digits of a number begin with a digit.
pub proof fn lemma_hex_digits_first(n: nat, width: nat)
    requires
        width > 0,
    ensures
        hex_digits(n, width).len() == width,
        hex_value(hex_digits(n, width)[0]) is Some,
    decreases width,
{
    lemma_hex_digits_len(n, width);
    if width > 1 {
        let hi = hex_digits(n / 16, (width - 1) as nat);
        lemma_hex_digits_first(n / 16, (width - 1) as nat);
        assert(hex_digits(n, width)[0] == hi[0]);
    }
}

/// Reading the digits of a number that fits the width gives the number back.
pub proof fn lemma_hex_round_trip(n: nat, width: nat)
    requires
        n < hex_limit(width),
    ensures
        hex_number(hex_digits(n, width)) == Some(n),
    decreases width,
{
    if width > 0 {
        let s = hex_digits(n, width);
        let hi = hex_digits(n / 16, (width - 1) as nat);
        lemma_hex_round_trip(n / 16, (width - 1) as nat);
        assert(s.drop_last() =~= hi);
        assert(s.last() == hex_digit((n % 16) as int));
    }
}

/// What was read from digits is below the limit of their number.
pub proof fn lemma_hex_number_bound(s: Seq<u8>)
    ensures
        hex_number(s) matches Some(n) ==> n < hex_limit(s.len()),
    decreases s.len(),
{
    if s.len() > 0 {
        lemma_hex_number_bound(s.drop_last());
    }
}

pub proof fn lemma_hex_limits()
    ensures
        hex_limit(1) == 0x10,
        hex_limit(4) == 0x1_0000,
        hex_limit(8) == 0x1_0000_0000,
        hex_limit(16) == 0x1_0000_0000_0000_0000,
        hex_limit(32) == 0x1_0000_0000_0000_0000_0000_0000_0000_0000,
{
    reveal_with_fuel(hex_limit, 5);
    assert(hex_limit(4) == 0x1_0000);
    assert(hex_limit(8) == 0x1_0000 * hex_limit(4));
    assert(hex_limit(12) == 0x1_0000 * hex_limit(8));
    assert(hex_limit(16) == 0x1_0000 * hex_limit(12));
    assert(hex_limit(20) == 0x1_0000 * hex_limit(16));
    assert(hex_limit(24) == 0x1_0000 * hex_limit(20));
    assert(hex_limit(28) == 0x1_0000 * hex_limit(24));
    assert(hex_limit(32) == 0x1_0000 * hex_limit(28));
}

pub proof fn lemma_hex_limit_grows(a: nat, b: nat)
    requires
        a <= b,
    ensures
        hex_limit(a) <= hex_limit(b),
        hex_limit(a) >= 1,
    decreases b,
{
    if a < b {
        lemma_hex_limit_grows(a, (b - 1) as nat);
    } else if a > 0 {
        lemma_hex_limit_grows((a - 1) as nat, (a - 1) as nat);
    }
}

/// Appends a number in `width` hexadecimal digits.
pub fn push_hex(buf: &mut Vec<u8>, n: u128, width: usize)
    ensures
        final(buf)@ == old(buf)@ + hex_digits(n as nat, width as nat),
    decreases width,
{
    if width == 0 {
        assert(buf@ =~= old(buf)@ + hex_digits(n as nat, 0));
    } else {
        push_hex(buf, n / 16, width - 1);
        let d: u8 = (n % 16) as u8;
        let b: u8 = if d < 10 {
            0x30 + d
        } else {
            0x61 + (d - 10)
        };
        buf.push(b);
        assert(buf@ =~= old(buf)@ + hex_digits(n as nat, width as nat));
    }
}

/// Reads the number that the `width` hexadecimal digits from `pos` on denote.
/// `None` where the input ends before, or where a byte is no digit.
pub fn read_hex(buf: &[u8], pos: usize, width: usize) -> (r: Option<u128>)
    requires
        width <= 32,
    ensures
        match r {
            Some(n) => pos + width <= buf@.len() && hex_number(
                buf@.subrange(pos as int, pos + width),
            ) == Some(n as nat),
            None => pos + width > buf@.len() || hex_number(buf@.subrange(pos as int, pos + width))
                is None,
        },
{
    if width > buf.len() || pos > buf.len() - width {
        return None;
    }
    let ghost s = buf@.subrange(pos as int, pos + width);
    let mut acc: u128 = 0;
    let mut i: usize = 0;
    while i < width
        invariant
            i <= width <= 32,
            pos + width <= buf@.len() <= usize::MAX,
            s == buf@.subrange(pos as int, pos + width),
            hex_number(s.take(i as int)) == Some(acc as nat),
        decreases width - i,
    {
        let b = buf[pos + i];
        proof {
            let t = s.take(i + 1);
            assert(t.drop_last() =~= s.take(i as int));
            assert(t.last() == b);
            lemma_hex_number_bound(s.take(i as int));
            lemma_hex_limit_grows(i as nat, 31);
            lemma_hex_limit_grows(31, 32);
            lemma_hex_limits();
            assert(hex_limit(32) == 16 * hex_limit(31));
        }
        let d: u8 = if 0x30 <= b && b <= 0x39 {
            b - 0x30
        } else if 0x61 <= b && b <= 0x66 {
            b - 0x61 + 10
        } else {
            proof {
                lemma_hex_prefix_fails(s, i + 1);
            }
            return None;
        };
        acc = acc * 16 + d as u128;
        i += 1;
    }
    assert(s.take(width as int) =~= s);
    Some(acc)
}

/// Where a prefix of a sequence is no number, the sequence is none either.
pub proof fn lemma_hex_prefix_fails(s: Seq<u8>, k: int)
    requires
        0 <= k <= s.len(),
        hex_number(s.take(k)) is None,
    ensures
        hex_number(s) is None,
    decreases s.len() - k,
{
    if k < s.len() {
        let t = s.take(k + 1);
        assert(t.drop_last() =~= s.take(k));
        lemma_hex_prefix_fails(s, k + 1);
    } else {
        assert(s.take(k) =~= s);
    }
}

/// The characters that bytes below 128 stand for.
pub open spec fn ascii_chars(bytes: Seq<u8>) -> Seq<char> {
    bytes.map_values(|b: u8| b as char)
}

/// Bytes below 128 are the UTF-8 encoding of the characters they stand for.
pub proof fn lemma_ascii_is_utf8(bytes: Seq<u8>)
    requires
        forall|i: int| 0 <= i < bytes.len() ==> #[trigger] bytes[i] < 128,
    ensures
        encode_utf8(ascii_chars(bytes)) == bytes,
        valid_utf8(bytes),
        decode_utf8(bytes) == ascii_chars(bytes),
{
    let chars = ascii_chars(bytes);
    assert(is_ascii_chars(chars)) by {
        assert forall|i: int| 0 <= i < chars.len() implies '\0' <= #[trigger] chars[i]
            <= '\u{7f}' by {
            assert(bytes[i] < 128);
        }
    }
    is_ascii_chars_encode_utf8(chars);
    assert(encode_utf8(chars) =~= bytes) by {
        assert forall|i: int| 0 <= i < bytes.len() implies encode_utf8(chars)[i] == bytes[i] by {
            assert(chars[i] as u8 == encode_utf8(chars)[i]);
            assert(bytes[i] < 128);
        }
    }
    encode_utf8_valid_utf8(chars);
    encode_utf8_decode_utf8(chars);
}

/// Calls `String::from_utf8`, which accepts exactly the byte sequences that
/// are well-formed UTF-8 and then holds the characters they encode.
#[verifier::external_body]
pub(crate) fn string_from_utf8(bytes: Vec<u8>) -> (r: Option<String>)
    ensures
        match r {
            Some(s) => valid_utf8(bytes@) && s@ == decode_utf8(bytes@),
            None => !valid_utf8(bytes@),
        },
{
    String::from_utf8(bytes).ok()
}

/// The text that bytes below 128 stand for.
pub(crate) fn ascii_string(bytes: Vec<u8>) -> (s: String)
    requires
        forall|i: int| 0 <= i < bytes@.len() ==> #[trigger] bytes@[i] < 128,
    ensures
        s@ == ascii_chars(bytes@),
{
    proof {
        lemma_ascii_is_utf8(bytes@);
    }
    match string_from_utf8(bytes) {
        Some(s) => s,
        None => String::new(),
    }
}

/// An id in its 32 hexadecimal digits.
pub open spec fn id_text(id: u128) -> Seq<char> {
    ascii_chars(hex_digits(id as nat, 32))
}

/// Spells an id in its 32 hexadecimal digits.
pub fn id_string(id: u128) -> (s: String)
    ensures
        s@ == id_text(id),
{
    let mut bytes: Vec<u8> = Vec::new();
    push_hex(&mut bytes, id, 32);
    proof {
        lemma_hex_digits_ascii(id as nat, 32);
        assert(bytes@ =~= hex_digits(id as nat, 32));
    }
    ascii_string(bytes)
}

/// A number in decimal digits, without leading zeros.
pub open spec fn decimal_digits(n: nat) -> Seq<u8>
    decreases n,
{
    if n < 10 {
        seq![(0x30 + n) as u8]
    } else {
        decimal_digits(n / 10).push((0x30 + n % 10) as u8)
    }
}

/// Every decimal digit is a byte below 128.
pub proof fn lemma_decimal_digits_ascii(n: nat)
    ensures
        forall|i: int| 0 <= i < decimal_digits(n).len() ==> #[trigger] decimal_digits(n)[i] < 128,
    decreases n,
{
    if n >= 10 {
        let hi = decimal_digits(n / 10);
        lemma_decimal_digits_ascii(n / 10);
        assert forall|i: int| 0 <= i < decimal_digits(n).len() implies #[trigger] decimal_digits(
            n,
        )[i] < 128 by {
            if i < hi.len() {
                assert(decimal_digits(n)[i] == hi[i]);
            }
        }
    }
}

/// Appends a number in decimal digits.
pub fn push_decimal(buf: &mut Vec<u8>, n: u64)
    ensures
        final(buf)@ == old(buf)@ + decimal_digits(n as nat),
    decreases n,
{
    if n < 10 {
        buf.push(0x30 + n as u8);
        assert(buf@ =~= old(buf)@ + decimal_digits(n as nat));
    } else {
        push_decimal(buf, n / 10);
        buf.push(0x30 + (n % 10) as u8);
        assert(buf@ =~= old(buf)@ + decimal_digits(n as nat));
    }
}

/// The decimal spelling of a number.
pub open spec fn decimal_text(n: nat) -> Seq<char> {
    ascii_chars(decimal_digits(n))
}

/// Spells a number in decimal digits.
pub fn decimal_string(n: u64) -> (s: String)
    ensures
        s@ == decimal_text(n as nat),
{
    let mut bytes: Vec<u8> = Vec::new();
    push_decimal(&mut bytes, n);
    proof {
        lemma_decimal_digits_ascii(n as nat);
        assert(bytes@ =~= decimal_digits(n as nat));
    }
    ascii_string(bytes)
}

} // verus!
