//! Decimal numbers as they stand in a line of text.

use vstd::prelude::*;
use vstd::string::StringExecFns;
use vstd::utf8::encode_utf8;

verus! {

/// `b` is one of the characters `0` to `9`.
pub open spec fn is_digit(b: u8) -> bool {
    0x30 <= b <= 0x39
}

/// Every byte of `s` is a decimal digit.
pub open spec fn all_digits(s: Seq<u8>) -> bool {
    forall|i: int| 0 <= i < s.len() ==> is_digit(#[trigger] s[i])
}

/// The number that the digits of `s` write in base ten.
pub open spec fn decimal_value(s: Seq<u8>) -> nat
    decreases s.len(),
{
    if s.len() == 0 {
        0
    } else {
        decimal_value(s.drop_last()) * 10 + (s.last() - 0x30) as nat
    }
}

/// `s` without a leading `+`.
pub open spec fn without_plus(s: Seq<u8>) -> Seq<u8> {
    if s.len() > 0 && s[0] == 0x2b {
        s.drop_first()
    } else {
        s
    }
}

/// The number that `s` writes, where it writes one up to `max`: an optional
/// `+`, then one or more digits.
pub open spec fn unsigned_of(s: Seq<u8>, max: nat) -> Option<nat> {
    let d = without_plus(s);
    if d.len() > 0 && all_digits(d) && decimal_value(d) <= max {
        Some(decimal_value(d))
    } else {
        None
    }
}

/// The number that `s` writes, where it writes one from `min` to `max`: an
/// optional `+` or `-`, then one or more digits.
pub open spec fn signed_of(s: Seq<u8>, min: int, max: int) -> Option<int> {
    if s.len() > 0 && s[0] == 0x2d {
        let d = s.drop_first();
        if d.len() > 0 && all_digits(d) && -(decimal_value(d) as int) >= min {
            Some(-(decimal_value(d) as int))
        } else {
            None
        }
    } else {
        let d = without_plus(s);
        if d.len() > 0 && all_digits(d) && decimal_value(d) <= max {
            Some(decimal_value(d) as int)
        } else {
            None
        }
    }
}

/// More digits never write a smaller number.
pub proof fn lemma_decimal_value_grows(s: Seq<u8>, k: int)
    requires
        0 <= k <= s.len(),
    ensures
        decimal_value(s.take(k)) <= decimal_value(s),
    decreases s.len() - k,
{
    if k == s.len() {
        assert(s.take(k) =~= s);
    } else {
        lemma_decimal_value_grows(s, k + 1);
        assert(s.take(k + 1).drop_last() =~= s.take(k));
    }
}

/// Reads the digits of `bytes` from `start` to the end as a number up to `max`.
fn digits_from(bytes: &[u8], start: usize, max: u64) -> (r: Option<u64>)
    requires
        start <= bytes@.len(),
    ensures
        ({
            let d = bytes@.subrange(start as int, bytes@.len() as int);
            r == if d.len() > 0 && all_digits(d) && decimal_value(d) <= max {
                Some(decimal_value(d) as u64)
            } else {
                None
            }
        }),
{
    let n: usize = bytes.len();
    let ghost d = bytes@.subrange(start as int, n as int);
    if start == n {
        return None;
    }
    let mut acc: u64 = 0;
    let mut i: usize = start;
    while i < n
        invariant
            start <= i <= n,
            n == bytes@.len(),
            d == bytes@.subrange(start as int, n as int),
            all_digits(d.take(i - start)),
            acc == decimal_value(d.take(i - start)),
            acc <= max,
        decreases n - i,
    {
        let b: u8 = bytes[i];
        assert(d[i - start] == b);
        if b < 0x30 || b > 0x39 {
            return None;
        }
        let digit: u64 = (b - 0x30) as u64;
        proof {
            assert(d.take(i - start + 1).drop_last() =~= d.take(i - start));
            assert(d.take(i - start + 1).last() == b);
            lemma_decimal_value_grows(d, i - start + 1);
        }
        if digit > max || acc > (max - digit) / 10 {
            assert(acc * 10 + digit > max);
            return None;
        }
        assert(acc * 10 + digit <= max);
        acc = acc * 10 + digit;
        i += 1;
    }
    assert(d.take(n - start) =~= d);
    Some(acc)
}

/// Where the digits of a number begin in `bytes`: behind a leading `+`, else at 0.
fn digits_start(bytes: &[u8]) -> (r: usize)
    ensures
        r <= bytes@.len(),
        bytes@.subrange(r as int, bytes@.len() as int) == without_plus(bytes@),
{
    if bytes.len() > 0 && bytes[0] == 0x2b {
        assert(bytes@.subrange(1, bytes@.len() as int) =~= bytes@.drop_first());
        1
    } else {
        assert(bytes@.subrange(0, bytes@.len() as int) =~= bytes@);
        0
    }
}

/// Reads `bytes` as an unsigned 64-bit number.
pub fn parse_u64(bytes: &[u8]) -> (r: Option<u64>)
    ensures
        r is Some <==> unsigned_of(bytes@, u64::MAX as nat) is Some,
        r matches Some(v) ==> unsigned_of(bytes@, u64::MAX as nat) == Some(v as nat),
{
    let start = digits_start(bytes);
    digits_from(bytes, start, u64::MAX)
}

/// Reads `bytes` as an unsigned number of the machine's word size.
pub fn parse_usize(bytes: &[u8]) -> (r: Option<usize>)
    ensures
        r is Some <==> unsigned_of(bytes@, usize::MAX as nat) is Some,
        r matches Some(v) ==> unsigned_of(bytes@, usize::MAX as nat) == Some(v as nat),
{
    let start = digits_start(bytes);
    match digits_from(bytes, start, usize::MAX as u64) {
        Some(v) => Some(v as usize),
        None => None,
    }
}

/// Reads `bytes` as a signed 32-bit number.
pub fn parse_i32(bytes: &[u8]) -> (r: Option<i32>)
    ensures
        r is Some <==> signed_of(bytes@, i32::MIN as int, i32::MAX as int) is Some,
        r matches Some(v) ==> signed_of(bytes@, i32::MIN as int, i32::MAX as int) == Some(v as int),
{
    if bytes.len() > 0 && bytes[0] == 0x2d {
        assert(bytes@.subrange(1, bytes@.len() as int) =~= bytes@.drop_first());
        match digits_from(bytes, 1, 0x8000_0000) {
            Some(v) => Some((0 - (v as i64)) as i32),
            None => None,
        }
    } else {
        let start = digits_start(bytes);
        match digits_from(bytes, start, 0x7fff_ffff) {
            Some(v) => Some(v as i32),
            None => None,
        }
    }
}

/// The character that writes the digit `d`.
pub open spec fn digit_char(d: nat) -> char {
    if d == 0 {
        '0'
    } else if d == 1 {
        '1'
    } else if d == 2 {
        '2'
    } else if d == 3 {
        '3'
    } else if d == 4 {
        '4'
    } else if d == 5 {
        '5'
    } else if d == 6 {
        '6'
    } else if d == 7 {
        '7'
    } else if d == 8 {
        '8'
    } else {
        '9'
    }
}

/// The number `n` written in base ten, without leading zeros.
pub open spec fn decimal_text(n: nat) -> Seq<char>
    decreases n,
{
    if n < 10 {
        seq![digit_char(n)]
    } else {
        decimal_text(n / 10).push(digit_char(n % 10))
    }
}

/// The byte that writes the digit `d`.
pub proof fn lemma_digit_encoding(d: nat)
    requires
        d < 10,
    ensures
        encode_utf8(seq![digit_char(d)]) == seq![(0x30 + d) as u8],
{
    let c = digit_char(d);
    let v = c as u32;
    assert(v == 0x30 + d);
    assert((v & 0x7F) as u8 == v as u8) by (bit_vector)
        requires
            v < 0x80,
    ;
    assert(seq![c].drop_first() =~= Seq::<char>::empty());
    reveal_with_fuel(encode_utf8, 2);
    assert(encode_utf8(seq![c]) =~= seq![(0x30 + d) as u8]);
}

/// What is written of a number is read back as that number: the text of
/// `n` is digits only, and their value is `n`.
pub proof fn lemma_written_digits(n: nat)
    ensures
        encode_utf8(decimal_text(n)).len() > 0,
        all_digits(encode_utf8(decimal_text(n))),
        decimal_value(encode_utf8(decimal_text(n))) == n,
    decreases n,
{
    let d = n % 10;
    lemma_digit_encoding(d);
    let last = seq![(0x30 + d) as u8];
    if n < 10 {
        let s = encode_utf8(decimal_text(n));
        assert(s =~= last);
        assert(s.drop_last() =~= Seq::<u8>::empty());
        reveal_with_fuel(decimal_value, 2);
    } else {
        let head = decimal_text(n / 10);
        lemma_written_digits(n / 10);
        crate::textbuf::lemma_encode_concat(head, seq![digit_char(d)]);
        assert(head.push(digit_char(d)) =~= head + seq![digit_char(d)]);
        let s = encode_utf8(decimal_text(n));
        assert(s =~= encode_utf8(head) + last);
        assert(s.drop_last() =~= encode_utf8(head));
        assert(s.last() == (0x30 + d) as u8);
    }
}

/// A number that is written and read again is the same number, where it is
/// within the range that is read.
pub proof fn lemma_write_then_read(n: nat, max: nat)
    requires
        n <= max,
    ensures
        unsigned_of(encode_utf8(decimal_text(n)), max) == Some(n),
{
    lemma_written_digits(n);
    let s = encode_utf8(decimal_text(n));
    assert(is_digit(s[0]));
}

/// The digit `d` as a text of one character.
fn digit_str(d: u64) -> (r: &'static str)
    requires
        d < 10,
    ensures
        r@ == seq![digit_char(d as nat)],
{
    proof {
        reveal_strlit("0");
        reveal_strlit("1");
        reveal_strlit("2");
        reveal_strlit("3");
        reveal_strlit("4");
        reveal_strlit("5");
        reveal_strlit("6");
        reveal_strlit("7");
        reveal_strlit("8");
        reveal_strlit("9");
    }
    let r = if d == 0 {
        "0"
    } else if d == 1 {
        "1"
    } else if d == 2 {
        "2"
    } else if d == 3 {
        "3"
    } else if d == 4 {
        "4"
    } else if d == 5 {
        "5"
    } else if d == 6 {
        "6"
    } else if d == 7 {
        "7"
    } else if d == 8 {
        "8"
    } else {
        "9"
    };
    assert(r@ =~= seq![digit_char(d as nat)]);
    r
}

/// Writes `n` in base ten.
pub fn render_u64(n: u64) -> (r: String)
    ensures
        r@ == decimal_text(n as nat),
    decreases n,
{
    if n < 10 {
        digit_str(n).to_owned()
    } else {
        let mut r = render_u64(n / 10);
        r.append(digit_str(n % 10));
        assert(r@ =~= decimal_text(n as nat));
        r
    }
}

/// Writes `n` in base ten.
pub fn render_usize(n: usize) -> (r: String)
    ensures
        r@ == decimal_text(n as nat),
{
    render_u64(n as u64)
}

} // verus!
