//! String helpers: decimal rendering and parsing, byte-level comparison.
use vstd::prelude::*;
use vstd::utf8::*;

verus! {

/// The ASCII character for a decimal digit `d < 10`.
pub open spec fn digit_char(d: nat) -> char {
    (d + 48) as char
}

/// Decimal rendering of a natural number, without leading zeros.
pub open spec fn decimal_text(n: nat) -> Seq<char>
    decreases n,
{
    if n < 10 {
        seq![digit_char(n)]
    } else {
        decimal_text(n / 10).push(digit_char(n % 10))
    }
}

/// Appends one character to a string (`String::push`).
#[verifier::external_body]
pub(crate) fn push_char(s: &mut String, c: char)
    ensures
        final(s)@ == old(s)@.push(c),
{
    s.push(c);
}

/// Appends the decimal rendering of `n` to `s`.
pub fn append_decimal(s: &mut String, n: u64)
    ensures
        final(s)@ == old(s)@ + decimal_text(n as nat),
    decreases n,
{
    if n >= 10 {
        append_decimal(s, n / 10);
    }
    let d: u8 = (n % 10) as u8;
    let c: char = (48u8 + d) as char;
    push_char(s, c);
    assert(c == digit_char((n % 10) as nat));
}

/// The decimal rendering of `n` as a new string.
pub fn decimal_string(n: u64) -> (res: String)
    ensures
        res@ == decimal_text(n as nat),
{
    let mut s = String::new();
    append_decimal(&mut s, n);
    s
}


/// Whether a byte is an ASCII decimal digit.
pub open spec fn is_digit_byte(b: u8) -> bool {
    48 <= b <= 57
}

/// Whether every byte is an ASCII decimal digit.
pub open spec fn all_digit_bytes(b: Seq<u8>) -> bool {
    forall|i: int| 0 <= i < b.len() ==> is_digit_byte(#[trigger] b[i])
}

/// The value of a run of decimal digits.
pub open spec fn digits_value(b: Seq<u8>) -> nat
    decreases b.len(),
{
    if b.len() == 0 {
        0
    } else {
        digits_value(b.drop_last()) * 10 + (b.last() - 48) as nat
    }
}

/// The digits that std's unsigned integer parsing reads: an optional leading
/// `+` is dropped; empty input and a lone sign are rejected.
pub open spec fn unsigned_digit_part(b: Seq<u8>) -> Option<Seq<u8>> {
    if b.len() == 0 || b =~= seq![43u8] || b =~= seq![45u8] {
        None
    } else if b[0] == 43 {
        Some(b.drop_first())
    } else {
        Some(b)
    }
}

/// The value that std's `from_str` for an unsigned integer type with the
/// given maximum yields on these bytes (radix 10), or `None` if it fails.
pub open spec fn parse_unsigned(b: Seq<u8>, max: nat) -> Option<nat> {
    match unsigned_digit_part(b) {
        Some(d) => if all_digit_bytes(d) && digits_value(d) <= max {
            Some(digits_value(d))
        } else {
            None
        },
        None => None,
    }
}

/// The ASCII bytes of `decimal_text(n)`.
pub open spec fn decimal_bytes(n: nat) -> Seq<u8>
    decreases n,
{
    if n < 10 {
        seq![(n + 48) as u8]
    } else {
        decimal_bytes(n / 10).push(((n % 10) + 48) as u8)
    }
}

proof fn lemma_decimal_bytes(n: nat)
    ensures
        is_ascii_chars(decimal_text(n)),
        encode_utf8(decimal_text(n)) == decimal_bytes(n),
        decimal_bytes(n).len() >= 1,
        all_digit_bytes(decimal_bytes(n)),
        digits_value(decimal_bytes(n)) == n,
    decreases n,
{
    let t = decimal_text(n);
    let b = decimal_bytes(n);
    if n >= 10 {
        lemma_decimal_bytes(n / 10);
        let p = decimal_bytes(n / 10);
        assert forall|i: int| 0 <= i < b.len() implies is_digit_byte(#[trigger] b[i]) by {
            if i < p.len() {
                assert(b[i] == p[i]);
            }
        }
        assert(b.drop_last() =~= p);
        assert(digits_value(b) == digits_value(p) * 10 + (n % 10));
        assert((n / 10) * 10 + n % 10 == n);
        assert forall|i: int| 0 <= i < t.len() implies '\0' <= #[trigger] t[i] <= '\u{7f}' by {
            if i < t.len() - 1 {
                assert(t[i] == decimal_text(n / 10)[i]);
            }
        }
    } else {
        assert(b.drop_last() =~= Seq::<u8>::empty());
        assert(b.last() == (n + 48) as u8);
        assert(digits_value(Seq::<u8>::empty()) == 0);
        assert(digits_value(b) == digits_value(b.drop_last()) * 10 + n);
    }
    is_ascii_chars_encode_utf8(t);
    if n >= 10 {
        is_ascii_chars_encode_utf8(decimal_text(n / 10));
        assert forall|i: int| 0 <= i < b.len() implies #[trigger] encode_utf8(t)[i] == b[i] by {
            if i < b.len() - 1 {
                assert(t[i] == decimal_text(n / 10)[i]);
                assert(b[i] == decimal_bytes(n / 10)[i]);
            }
        }
    }
    assert(encode_utf8(t) =~= b);
}

/// Reading back the decimal rendering of a number that fits gives the
/// number.
pub proof fn lemma_decimal_parse_roundtrip(n: nat, max: nat)
    requires
        n <= max,
    ensures
        parse_unsigned(encode_utf8(decimal_text(n)), max) == Some(n),
{
    lemma_decimal_bytes(n);
    let b = decimal_bytes(n);
    assert(is_digit_byte(b[0]));
    assert(!(b =~= seq![43u8]));
    assert(!(b =~= seq![45u8]));
    assert(unsigned_digit_part(b) == Some(b));
}

proof fn lemma_digits_value_grows(d: Seq<u8>, i: int, j: int)
    requires
        0 <= i <= j <= d.len(),
        all_digit_bytes(d),
    ensures
        digits_value(d.take(i)) <= digits_value(d.take(j)),
    decreases j - i,
{
    if i < j {
        lemma_digits_value_grows(d, i, j - 1);
        assert(d.take(j).drop_last() =~= d.take(j - 1));
    }
}

proof fn lemma_too_large(d: Seq<u8>, k: int, max: nat)
    requires
        0 <= k <= d.len(),
        digits_value(d.take(k)) > max,
    ensures
        !(all_digit_bytes(d) && digits_value(d) <= max),
{
    if all_digit_bytes(d) {
        lemma_digits_value_grows(d, k, d.len() as int);
        assert(d.take(d.len() as int) =~= d);
    }
}

/// Parses bytes as an unsigned decimal number no larger than `max`, with the
/// rules of std's `from_str` for unsigned integers.
pub fn parse_unsigned_bytes(b: &[u8], max: u64) -> (res: Option<u64>)
    ensures
        match parse_unsigned(b@, max as nat) {
            Some(v) => res == Some(v as u64),
            None => res is None,
        },
{
    let len = b.len();
    if len == 0 {
        return None;
    }
    if len == 1 && (b[0] == 43 || b[0] == 45) {
        assert(b@ =~= seq![b[0]]);
        return None;
    }
    let start: usize = if b[0] == 43 { 1 } else { 0 };
    let ghost d: Seq<u8> = b@.subrange(start as int, len as int);
    assert(unsigned_digit_part(b@) == Some(d)) by {
        if b[0] == 43 {
            assert(d =~= b@.drop_first());
        } else {
            assert(d =~= b@);
        }
        assert(!(b@ =~= seq![43u8])) by {
            if b@ =~= seq![43u8] {
                assert(b@.len() == 1);
            }
        }
        assert(!(b@ =~= seq![45u8])) by {
            if b@ =~= seq![45u8] {
                assert(b@.len() == 1);
            }
        }
    }
    let mut acc: u64 = 0;
    let mut i: usize = start;
    while i < len
        invariant
            start <= i <= len,
            len == b@.len(),
            d == b@.subrange(start as int, len as int),
            unsigned_digit_part(b@) == Some(d),
            all_digit_bytes(d.take(i - start)),
            acc as nat == digits_value(d.take(i - start)),
            acc <= max,
        decreases len - i,
    {
        let c = b[i];
        if c < 48 || c > 57 {
            assert(!is_digit_byte(d[i - start]));
            return None;
        }
        let digit: u64 = (c - 48) as u64;
        assert(d.take(i + 1 - start).drop_last() =~= d.take(i - start));
        assert(all_digit_bytes(d.take(i + 1 - start)));
        let next = acc.checked_mul(10);
        match next {
            None => {
                proof {
                    lemma_too_large(d, (i + 1 - start) as int, max as nat);
                }
                return None;
            },
            Some(m) => {
                match m.checked_add(digit) {
                    None => {
                        proof {
                            lemma_too_large(d, (i + 1 - start) as int, max as nat);
                        }
                        return None;
                    },
                    Some(v) => {
                        if v > max {
                            proof {
                                lemma_too_large(d, (i + 1 - start) as int, max as nat);
                            }
                            return None;
                        }
                        acc = v;
                    },
                }
            },
        }
        i = i + 1;
    }
    assert(d.take(len - start) =~= d);
    Some(acc)
}

} // verus!
