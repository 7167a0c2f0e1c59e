//! The building blocks of the persisted form: words, numbers, truth values
//! and texts.
//!
//! For each kind of value `x`, `s_x` is its written form, and `p_x` reads one
//! `x` from the front of the input and gives the value together with the
//! input that follows it. Numbers are written in hexadecimal digits of a
//! fixed count, so that no value needs a mark at its end.
use vstd::prelude::*;
use vstd::slice::*;
use vstd::string::*;
use vstd::utf8::*;

use crate::codec::{
    hex_digits, hex_limit, hex_number, lemma_hex_digits_first, lemma_hex_digits_len,
    lemma_hex_limits, lemma_hex_number_bound, lemma_hex_round_trip, push_hex, read_hex,
    string_from_utf8,
};
use crate::text::bytes_eq;

verus! {

pub const LINE_FEED: u8 = 0x0a;

pub const COLON: u8 = 0x3a;

pub const COMMA: u8 = 0x2c;

/// Stands for a value that is absent: a hyphen.
pub const ABSENT: u8 = 0x2d;

pub const FALSE_DIGIT: u8 = 0x30;

pub const TRUE_DIGIT: u8 = 0x31;

/// Reads one given byte, and gives what follows it.
pub open spec fn p_byte(s: Seq<u8>, b: u8) -> Option<Seq<u8>> {
    if s.len() > 0 && s[0] == b {
        Some(s.skip(1))
    } else {
        None
    }
}

/// The bytes of a word of the format, such as the name of a field.
pub open spec fn word(t: Seq<char>) -> Seq<u8> {
    encode_utf8(t)
}

/// Reads a given word, and gives what follows it.
pub open spec fn p_word(s: Seq<u8>, w: Seq<u8>) -> Option<Seq<u8>> {
    if s.len() >= w.len() && s.take(w.len() as int) == w {
        Some(s.skip(w.len() as int))
    } else {
        None
    }
}

/// Reads a number of `width` hexadecimal digits.
pub open spec fn p_hex(s: Seq<u8>, width: nat) -> Option<(nat, Seq<u8>)> {
    if s.len() >= width {
        match hex_number(s.take(width as int)) {
            Some(n) => Some((n, s.skip(width as int))),
            None => None,
        }
    } else {
        None
    }
}

/// A truth value: the digit 1 or the digit 0.
pub open spec fn s_bool(b: bool) -> Seq<u8> {
    seq![if b { TRUE_DIGIT } else { FALSE_DIGIT }]
}

pub open spec fn p_bool(s: Seq<u8>) -> Option<(bool, Seq<u8>)> {
    if s.len() > 0 && s[0] == TRUE_DIGIT {
        Some((true, s.skip(1)))
    } else if s.len() > 0 && s[0] == FALSE_DIGIT {
        Some((false, s.skip(1)))
    } else {
        None
    }
}

/// A text: the length of its UTF-8 encoding in 16 hexadecimal digits, a
/// colon, and the encoding.
pub open spec fn s_text(t: Seq<char>) -> Seq<u8> {
    hex_digits(encode_utf8(t).len(), 16) + seq![COLON] + encode_utf8(t)
}

pub open spec fn p_text(s: Seq<u8>) -> Option<(Seq<char>, Seq<u8>)> {
    match p_hex(s, 16) {
        Some((n, r1)) => match p_byte(r1, COLON) {
            Some(r2) => if r2.len() >= n && valid_utf8(r2.take(n as int)) {
                Some((decode_utf8(r2.take(n as int)), r2.skip(n as int)))
            } else {
                None
            },
            None => None,
        },
        None => None,
    }
}

/// A text's encoding is short enough for its length to be written.
pub open spec fn text_fits(t: Seq<char>) -> bool {
    encode_utf8(t).len() < 0x1_0000_0000_0000_0000
}

/// An optional 16-bit number: a hyphen, or 4 digits.
pub open spec fn s_opt16(v: Option<u16>) -> Seq<u8> {
    match v {
        Some(n) => hex_digits(n as nat, 4),
        None => seq![ABSENT],
    }
}

pub open spec fn p_opt16(s: Seq<u8>) -> Option<(Option<u16>, Seq<u8>)> {
    match p_byte(s, ABSENT) {
        Some(r) => Some((None, r)),
        None => match p_hex(s, 4) {
            Some((n, r)) => Some((Some(n as u16), r)),
            None => None,
        },
    }
}

/// An optional 32-bit number: a hyphen, or 8 digits.
pub open spec fn s_opt32(v: Option<u32>) -> Seq<u8> {
    match v {
        Some(n) => hex_digits(n as nat, 8),
        None => seq![ABSENT],
    }
}

pub open spec fn p_opt32(s: Seq<u8>) -> Option<(Option<u32>, Seq<u8>)> {
    match p_byte(s, ABSENT) {
        Some(r) => Some((None, r)),
        None => match p_hex(s, 8) {
            Some((n, r)) => Some((Some(n as u32), r)),
            None => None,
        },
    }
}

/// An optional text: a hyphen, or the text.
pub open spec fn s_opt_text(v: Option<Seq<char>>) -> Seq<u8> {
    match v {
        Some(t) => s_text(t),
        None => seq![ABSENT],
    }
}

pub open spec fn p_opt_text(s: Seq<u8>) -> Option<(Option<Seq<char>>, Seq<u8>)> {
    match p_byte(s, ABSENT) {
        Some(r) => Some((None, r)),
        None => match p_text(s) {
            Some((t, r)) => Some((Some(t), r)),
            None => None,
        },
    }
}

pub proof fn lemma_p_byte(b: u8, rest: Seq<u8>)
    ensures
        p_byte(seq![b] + rest, b) == Some(rest),
{
    assert((seq![b] + rest).skip(1) =~= rest);
}

pub proof fn lemma_p_word(w: Seq<u8>, rest: Seq<u8>)
    ensures
        p_word(w + rest, w) == Some(rest),
{
    assert((w + rest).take(w.len() as int) =~= w);
    assert((w + rest).skip(w.len() as int) =~= rest);
}

pub proof fn lemma_p_hex(n: nat, width: nat, rest: Seq<u8>)
    requires
        n < hex_limit(width),
    ensures
        p_hex(hex_digits(n, width) + rest, width) == Some((n, rest)),
{
    let d = hex_digits(n, width);
    lemma_hex_digits_len(n, width);
    lemma_hex_round_trip(n, width);
    assert((d + rest).take(width as int) =~= d);
    assert((d + rest).skip(width as int) =~= rest);
}

/// Digits are not taken for the mark of an absent value.
pub proof fn lemma_digits_are_present(n: nat, width: nat, rest: Seq<u8>)
    requires
        width > 0,
    ensures
        p_byte(hex_digits(n, width) + rest, ABSENT) is None,
{
    lemma_hex_digits_first(n, width);
    assert((hex_digits(n, width) + rest)[0] == hex_digits(n, width)[0]);
}

pub proof fn lemma_p_bool(b: bool, rest: Seq<u8>)
    ensures
        p_bool(s_bool(b) + rest) == Some((b, rest)),
{
    assert((s_bool(b) + rest).skip(1) =~= rest);
}

pub proof fn lemma_p_text(t: Seq<char>, rest: Seq<u8>)
    requires
        text_fits(t),
    ensures
        p_text(s_text(t) + rest) == Some((t, rest)),
        p_byte(s_text(t) + rest, ABSENT) is None,
{
    let enc = encode_utf8(t);
    let n = enc.len();
    lemma_hex_limits();
    let tail = seq![COLON] + (enc + rest);
    assert(s_text(t) + rest =~= hex_digits(n, 16) + tail);
    lemma_p_hex(n, 16, tail);
    lemma_digits_are_present(n, 16, tail);
    lemma_p_byte(COLON, enc + rest);
    assert((enc + rest).take(n as int) =~= enc);
    assert((enc + rest).skip(n as int) =~= rest);
    encode_utf8_valid_utf8(t);
    encode_utf8_decode_utf8(t);
}

pub proof fn lemma_p_opt16(v: Option<u16>, rest: Seq<u8>)
    ensures
        p_opt16(s_opt16(v) + rest) == Some((v, rest)),
{
    match v {
        Some(n) => {
            lemma_hex_limits();
            lemma_digits_are_present(n as nat, 4, rest);
            lemma_p_hex(n as nat, 4, rest);
        },
        None => {
            lemma_p_byte(ABSENT, rest);
        },
    }
}

pub proof fn lemma_p_opt32(v: Option<u32>, rest: Seq<u8>)
    ensures
        p_opt32(s_opt32(v) + rest) == Some((v, rest)),
{
    match v {
        Some(n) => {
            lemma_hex_limits();
            lemma_digits_are_present(n as nat, 8, rest);
            lemma_p_hex(n as nat, 8, rest);
        },
        None => {
            lemma_p_byte(ABSENT, rest);
        },
    }
}

pub proof fn lemma_p_opt_text(v: Option<Seq<char>>, rest: Seq<u8>)
    requires
        v matches Some(t) ==> text_fits(t),
    ensures
        p_opt_text(s_opt_text(v) + rest) == Some((v, rest)),
{
    match v {
        Some(t) => {
            lemma_p_text(t, rest);
        },
        None => {
            lemma_p_byte(ABSENT, rest);
        },
    }
}

pub(crate) fn read_byte(buf: &[u8], pos: usize, b: u8) -> (r: Option<usize>)
    requires
        pos <= buf@.len(),
    ensures
        match r {
            Some(next) => next == pos + 1 && next <= buf@.len() && p_byte(buf@.skip(pos as int), b)
                == Some(buf@.skip(next as int)),
            None => p_byte(buf@.skip(pos as int), b) is None,
        },
{
    if pos < buf.len() && buf[pos] == b {
        assert(buf@.skip(pos as int).skip(1) =~= buf@.skip(pos + 1));
        Some(pos + 1)
    } else {
        None
    }
}

pub(crate) fn write_word(buf: &mut Vec<u8>, w: &str)
    ensures
        final(buf)@ == old(buf)@ + word(w@),
{
    buf.extend_from_slice(w.as_bytes());
    assert(buf@ =~= old(buf)@ + word(w@));
}

pub(crate) fn read_word(buf: &[u8], pos: usize, w: &str) -> (r: Option<usize>)
    requires
        pos <= buf@.len(),
    ensures
        match r {
            Some(next) => pos <= next <= buf@.len() && p_word(buf@.skip(pos as int), word(w@))
                == Some(buf@.skip(next as int)),
            None => p_word(buf@.skip(pos as int), word(w@)) is None,
        },
{
    let bytes = w.as_bytes();
    let n = bytes.len();
    if n > buf.len() - pos {
        return None;
    }
    let piece = slice_subrange(buf, pos, pos + n);
    proof {
        assert(buf@.skip(pos as int).take(n as int) =~= piece@);
        assert(buf@.skip(pos as int).skip(n as int) =~= buf@.skip(pos + n));
    }
    if bytes_eq(piece, bytes) {
        Some(pos + n)
    } else {
        None
    }
}

pub(crate) fn read_number(buf: &[u8], pos: usize, width: usize) -> (r: Option<(u128, usize)>)
    requires
        pos <= buf@.len(),
        width <= 32,
    ensures
        match r {
            Some((n, next)) => {
                &&& next == pos + width
                &&& next <= buf@.len()
                &&& n < hex_limit(width as nat)
                &&& p_hex(buf@.skip(pos as int), width as nat) == Some(
                    (n as nat, buf@.skip(next as int)),
                )
            },
            None => p_hex(buf@.skip(pos as int), width as nat) is None,
        },
{
    let len = buf.len();
    proof {
        if pos + width <= buf@.len() {
            assert(buf@.skip(pos as int).take(width as int) =~= buf@.subrange(
                pos as int,
                pos + width,
            ));
            assert(buf@.skip(pos as int).skip(width as int) =~= buf@.skip(pos + width));
            lemma_hex_number_bound(buf@.subrange(pos as int, pos + width));
        }
    }
    match read_hex(buf, pos, width) {
        Some(n) => Some((n, pos + width)),
        None => None,
    }
}

pub(crate) fn write_bool(buf: &mut Vec<u8>, b: bool)
    ensures
        final(buf)@ == old(buf)@ + s_bool(b),
{
    buf.push(if b { TRUE_DIGIT } else { FALSE_DIGIT });
    assert(buf@ =~= old(buf)@ + s_bool(b));
}

pub(crate) fn read_bool(buf: &[u8], pos: usize) -> (r: Option<(bool, usize)>)
    requires
        pos <= buf@.len(),
    ensures
        match r {
            Some((b, next)) => next <= buf@.len() && p_bool(buf@.skip(pos as int)) == Some(
                (b, buf@.skip(next as int)),
            ),
            None => p_bool(buf@.skip(pos as int)) is None,
        },
{
    if pos >= buf.len() {
        return None;
    }
    assert(buf@.skip(pos as int).skip(1) =~= buf@.skip(pos + 1));
    let b = buf[pos];
    if b == TRUE_DIGIT {
        Some((true, pos + 1))
    } else if b == FALSE_DIGIT {
        Some((false, pos + 1))
    } else {
        None
    }
}

pub(crate) fn write_text(buf: &mut Vec<u8>, t: &str)
    ensures
        final(buf)@ == old(buf)@ + s_text(t@),
        text_fits(t@),
{
    let bytes = t.as_bytes();
    let n = bytes.len();
    push_hex(buf, n as u128, 16);
    buf.push(COLON);
    let ghost mid = buf@;
    buf.extend_from_slice(bytes);
    assert(buf@ =~= mid + bytes@);
    assert(buf@ =~= old(buf)@ + s_text(t@));
}

pub(crate) fn read_text(buf: &[u8], pos: usize) -> (r: Option<(String, usize)>)
    requires
        pos <= buf@.len(),
    ensures
        match r {
            Some((t, next)) => next <= buf@.len() && p_text(buf@.skip(pos as int)) == Some(
                (t@, buf@.skip(next as int)),
            ),
            None => p_text(buf@.skip(pos as int)) is None,
        },
{
    let (n, p1) = match read_number(buf, pos, 16) {
        Some(x) => x,
        None => {
            return None;
        },
    };
    let p2 = match read_byte(buf, p1, COLON) {
        Some(x) => x,
        None => {
            return None;
        },
    };
    let remaining = buf.len() - p2;
    if n > remaining as u128 {
        return None;
    }
    let count = n as usize;
    let end = p2 + count;
    let piece = slice_to_vec(slice_subrange(buf, p2, end));
    proof {
        assert(buf@.skip(p2 as int).take(count as int) =~= buf@.subrange(p2 as int, end as int));
        assert(buf@.skip(p2 as int).skip(count as int) =~= buf@.skip(end as int));
    }
    match string_from_utf8(piece) {
        Some(t) => Some((t, end)),
        None => None,
    }
}

pub(crate) fn write_opt16(buf: &mut Vec<u8>, v: Option<u16>)
    ensures
        final(buf)@ == old(buf)@ + s_opt16(v),
{
    match v {
        Some(n) => {
            push_hex(buf, n as u128, 4);
        },
        None => {
            buf.push(ABSENT);
        },
    }
    assert(buf@ =~= old(buf)@ + s_opt16(v));
}

pub(crate) fn read_opt16(buf: &[u8], pos: usize) -> (r: Option<(Option<u16>, usize)>)
    requires
        pos <= buf@.len(),
    ensures
        match r {
            Some((v, next)) => next <= buf@.len() && p_opt16(buf@.skip(pos as int)) == Some(
                (v, buf@.skip(next as int)),
            ),
            None => p_opt16(buf@.skip(pos as int)) is None,
        },
{
    if let Some(next) = read_byte(buf, pos, ABSENT) {
        return Some((None, next));
    }
    proof {
        lemma_hex_limits();
    }
    match read_number(buf, pos, 4) {
        Some((n, next)) => Some((Some(n as u16), next)),
        None => None,
    }
}

pub(crate) fn write_opt32(buf: &mut Vec<u8>, v: Option<u32>)
    ensures
        final(buf)@ == old(buf)@ + s_opt32(v),
{
    match v {
        Some(n) => {
            push_hex(buf, n as u128, 8);
        },
        None => {
            buf.push(ABSENT);
        },
    }
    assert(buf@ =~= old(buf)@ + s_opt32(v));
}

pub(crate) fn read_opt32(buf: &[u8], pos: usize) -> (r: Option<(Option<u32>, usize)>)
    requires
        pos <= buf@.len(),
    ensures
        match r {
            Some((v, next)) => next <= buf@.len() && p_opt32(buf@.skip(pos as int)) == Some(
                (v, buf@.skip(next as int)),
            ),
            None => p_opt32(buf@.skip(pos as int)) is None,
        },
{
    if let Some(next) = read_byte(buf, pos, ABSENT) {
        return Some((None, next));
    }
    proof {
        lemma_hex_limits();
    }
    match read_number(buf, pos, 8) {
        Some((n, next)) => Some((Some(n as u32), next)),
        None => None,
    }
}

pub(crate) fn write_opt_text(buf: &mut Vec<u8>, v: &Option<String>)
    ensures
        final(buf)@ == old(buf)@ + s_opt_text(
            match *v {
                Some(t) => Some(t@),
                None => None,
            },
        ),
        *v matches Some(t) ==> text_fits(t@),
{
    match v {
        Some(t) => {
            write_text(buf, t.as_str());
        },
        None => {
            buf.push(ABSENT);
            assert(buf@ =~= old(buf)@ + seq![ABSENT]);
        },
    }
}

pub(crate) fn read_opt_text(buf: &[u8], pos: usize) -> (r: Option<(Option<String>, usize)>)
    requires
        pos <= buf@.len(),
    ensures
        match r {
            Some((v, next)) => next <= buf@.len() && p_opt_text(buf@.skip(pos as int)) == Some(
                (
                    match v {
                        Some(t) => Some(t@),
                        None => None,
                    },
                    buf@.skip(next as int),
                ),
            ),
            None => p_opt_text(buf@.skip(pos as int)) is None,
        },
{
    if let Some(next) = read_byte(buf, pos, ABSENT) {
        return Some((None, next));
    }
    match read_text(buf, pos) {
        Some((t, next)) => Some((Some(t), next)),
        None => None,
    }
}

} // verus!
