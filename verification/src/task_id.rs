//! Task ids: 16 bytes, carried on the wire as bytes and shown as 32
//! lowercase hexadecimal characters.
use vstd::prelude::*;
use vstd::utf8::*;
use vstd::string::StringSliceAdditionalSpecFns;
use crate::codec::be_u64_bytes;
use crate::text::push_char;

verus! {

/// The lowercase hexadecimal digit for `n < 16`.
pub open spec fn hex_digit(n: nat) -> char {
    if n < 10 {
        (n + 48) as char
    } else {
        (n + 87) as char
    }
}

/// Two lowercase hexadecimal digits per byte (`format!("{:02x}", b)`).
pub open spec fn hex_text(b: Seq<u8>) -> Seq<char> {
    Seq::new(
        2 * b.len(),
        |i: int|
            if i % 2 == 0 {
                hex_digit((b[i / 2] / 16) as nat)
            } else {
                hex_digit((b[i / 2] % 16) as nat)
            },
    )
}

/// Whether a byte is an ASCII hexadecimal digit (either case).
pub open spec fn is_hex_byte(c: u8) -> bool {
    (48 <= c <= 57) || (65 <= c <= 70) || (97 <= c <= 102)
}

/// The value of an ASCII hexadecimal digit.
pub open spec fn hex_value(c: u8) -> nat {
    if 48 <= c <= 57 {
        (c - 48) as nat
    } else if 65 <= c <= 70 {
        (c - 55) as nat
    } else {
        (c - 87) as nat
    }
}

/// What `u8::from_str_radix(.., 16).unwrap_or(0)` gives for a two-byte
/// text: two hex digits, or `+` and one hex digit; anything else is 0.
pub open spec fn hex_pair_value(a: u8, b: u8) -> u8 {
    if is_hex_byte(a) && is_hex_byte(b) {
        (hex_value(a) * 16 + hex_value(b)) as u8
    } else if a == 43 && is_hex_byte(b) {
        hex_value(b) as u8
    } else {
        0
    }
}

/// The 16 bytes read from a hexadecimal text, two bytes of text per byte.
pub open spec fn task_id_bytes_of(hex: Seq<u8>) -> Seq<u8> {
    Seq::new(16, |i: int| hex_pair_value(hex[2 * i], hex[2 * i + 1]))
}

fn hex_char(n: u8) -> (c: char)
    requires
        n < 16,
    ensures
        c == hex_digit(n as nat),
{
    if n < 10 {
        (n + 48) as char
    } else {
        (n + 87) as char
    }
}

/// The 32-character lowercase hexadecimal text of a task id.
pub fn bytes_to_task_id_hex(bytes: &[u8; 16]) -> (res: String)
    ensures
        res@ == hex_text(bytes@),
{
    let mut s = String::new();
    let mut i: usize = 0;
    while i < 16
        invariant
            i <= 16,
            bytes@.len() == 16,
            s@ =~= hex_text(bytes@.take(i as int)),
        decreases 16 - i,
    {
        let x = bytes[i];
        push_char(&mut s, hex_char(x / 16));
        push_char(&mut s, hex_char(x % 16));
        assert(bytes@.take(i + 1)[i as int] == x);
        assert forall|k: int| 0 <= k < 2 * i implies #[trigger] hex_text(bytes@.take(i + 1))[k]
            == hex_text(bytes@.take(i as int))[k] by {
            assert(bytes@.take(i + 1)[k / 2] == bytes@.take(i as int)[k / 2]);
        }
        assert(s@ =~= hex_text(bytes@.take(i + 1)));
        i = i + 1;
    }
    assert(bytes@.take(16) =~= bytes@);
    s
}

fn is_hex(c: u8) -> (res: bool)
    ensures
        res == is_hex_byte(c),
{
    (48 <= c && c <= 57) || (65 <= c && c <= 70) || (97 <= c && c <= 102)
}

fn hex_val(c: u8) -> (res: u8)
    requires
        is_hex_byte(c),
    ensures
        res as nat == hex_value(c),
        res < 16,
{
    if 48 <= c && c <= 57 {
        c - 48
    } else if 65 <= c && c <= 70 {
        c - 55
    } else {
        c - 87
    }
}

fn pair_value(a: u8, b: u8) -> (res: u8)
    ensures
        res == hex_pair_value(a, b),
{
    if is_hex(a) && is_hex(b) {
        hex_val(a) * 16 + hex_val(b)
    } else if a == 43 && is_hex(b) {
        hex_val(b)
    } else {
        0
    }
}

/// Reads a task id from its hexadecimal text, two text bytes per byte; a
/// pair that does not parse gives 0. The text must be at least 32 bytes long.
pub fn task_id_hex_to_bytes(hex: &str) -> (res: [u8; 16])
    requires
        hex.spec_bytes().len() >= 32,
    ensures
        res@ == task_id_bytes_of(hex.spec_bytes()),
{
    let h = hex.as_bytes();
    let mut out = [0u8; 16];
    let mut i: usize = 0;
    while i < 16
        invariant
            i <= 16,
            h@ == hex.spec_bytes(),
            h@.len() >= 32,
            forall|j: int| 0 <= j < i ==> out@[j] == hex_pair_value(h@[2 * j], h@[2 * j + 1]),
        decreases 16 - i,
    {
        out[i] = pair_value(h[2 * i], h[2 * i + 1]);
        i = i + 1;
    }
    assert(out@ =~= task_id_bytes_of(hex.spec_bytes()));
    out
}

/// Reading back the hexadecimal text of a task id gives the same 16 bytes.
pub proof fn lemma_task_id_hex_roundtrip(b: Seq<u8>)
    requires
        b.len() == 16,
    ensures
        encode_utf8(hex_text(b)).len() == 32,
        task_id_bytes_of(encode_utf8(hex_text(b))) == b,
{
    let t = hex_text(b);
    assert(is_ascii_chars(t));
    is_ascii_chars_encode_utf8(t);
    let e = encode_utf8(t);
    assert forall|i: int| 0 <= i < 16 implies #[trigger] task_id_bytes_of(e)[i] == b[i] by {
        assert(t[2 * i] as u8 == e[2 * i]);
        assert(t[2 * i + 1] as u8 == e[2 * i + 1]);
        assert((2 * i) / 2 == i);
        assert((2 * i + 1) / 2 == i);
        assert((2 * i) % 2 == 0);
        assert((2 * i + 1) % 2 == 1);
    }
    assert(task_id_bytes_of(e) =~= b);
}

/// A lowercase hexadecimal digit.
pub open spec fn is_lower_hex_char(c: char) -> bool {
    ('0' <= c && c <= '9') || ('a' <= c && c <= 'f')
}

proof fn lemma_hex_digit_of_char(c: char)
    requires
        is_lower_hex_char(c),
    ensures
        is_hex_byte(c as u8),
        hex_value(c as u8) < 16,
        hex_digit(hex_value(c as u8)) == c,
{
}

/// Reading a task id written as 32 lowercase hexadecimal digits into bytes,
/// and writing those bytes out again, gives the same text.
pub proof fn lemma_task_id_text_roundtrip(t: Seq<char>)
    requires
        t.len() == 32,
        forall|i: int| 0 <= i < 32 ==> is_lower_hex_char(#[trigger] t[i]),
    ensures
        encode_utf8(t).len() == 32,
        hex_text(task_id_bytes_of(encode_utf8(t))) == t,
{
    assert(is_ascii_chars(t));
    is_ascii_chars_encode_utf8(t);
    let e = encode_utf8(t);
    let b = task_id_bytes_of(e);
    let h = hex_text(b);
    assert forall|k: int| 0 <= k < 32 implies #[trigger] h[k] == t[k] by {
        let q = k / 2;
        let a = 2 * q;
        assert(0 <= q < 16);
        assert(a == k || a + 1 == k);
        lemma_hex_digit_of_char(t[a]);
        lemma_hex_digit_of_char(t[a + 1]);
        assert(e[a] == t[a] as u8);
        assert(e[a + 1] == t[a + 1] as u8);
        let hi = hex_value(e[a]);
        let lo = hex_value(e[a + 1]);
        assert(b[q] == (hi * 16 + lo) as u8);
        assert(hi * 16 + lo < 256);
        assert(b[q] / 16 == hi);
        assert(b[q] % 16 == lo);
        if k % 2 == 0 {
            assert(k == a);
        } else {
            assert(k == a + 1);
        }
    }
    assert(h =~= t);
}

/// A task id survives the wire: the sender turns its text into 16 bytes,
/// the receiver turns those bytes back into text, and both report the same
/// id.
pub proof fn lemma_task_id_survives_the_wire(a: u64, b: u64)
    ensures
        ({
            let id = hex_text(task_id_bytes_from_words(a, b));
            &&& encode_utf8(id).len() == 32
            &&& hex_text(task_id_bytes_of(encode_utf8(id))) == id
        }),
{
    let bytes = task_id_bytes_from_words(a, b);
    assert(bytes.len() == 16);
    lemma_task_id_hex_roundtrip(bytes);
}

/// The 16 bytes of a random version-4 task id built from two random words:
/// both words big-endian, with the version nibble set to 4 and the variant
/// bits set to `10`.
pub open spec fn task_id_bytes_from_words(a: u64, b: u64) -> Seq<u8> {
    let raw = be_u64_bytes(a) + be_u64_bytes(b);
    raw.update(6, (raw[6] & 0x0Fu8) | 0x40u8).update(8, (raw[8] & 0x3Fu8) | 0x80u8)
}

/// The hexadecimal task id made from two random words (see
/// `task_id_bytes_from_words`).
pub fn task_id_from_words(a: u64, b: u64) -> (res: String)
    ensures
        res@ == hex_text(task_id_bytes_from_words(a, b)),
        res@.len() == 32,
        res@[12] == '4',
        res@[16] == '8' || res@[16] == '9' || res@[16] == 'a' || res@[16] == 'b',
{
    let mut raw: Vec<u8> = Vec::new();
    crate::codec::push_u64_be(&mut raw, a);
    crate::codec::push_u64_be(&mut raw, b);
    let mut bytes = [0u8; 16];
    let mut i: usize = 0;
    while i < 16
        invariant
            i <= 16,
            raw@ == be_u64_bytes(a) + be_u64_bytes(b),
            forall|j: int| 0 <= j < i ==> bytes@[j] == raw@[j],
        decreases 16 - i,
    {
        bytes[i] = raw[i];
        i = i + 1;
    }
    let b6 = bytes[6];
    let b8 = bytes[8];
    bytes[6] = (b6 & 0x0F) | 0x40;
    bytes[8] = (b8 & 0x3F) | 0x80;
    assert(bytes@ =~= task_id_bytes_from_words(a, b));
    let res = bytes_to_task_id_hex(&bytes);
    let x6 = bytes[6];
    let x8 = bytes[8];
    assert(x6 / 16 == 4) by (bit_vector)
        requires
            x6 == (b6 & 0x0F) | 0x40,
    ;
    assert(8 <= x8 / 16 <= 11) by (bit_vector)
        requires
            x8 == (b8 & 0x3F) | 0x80,
    ;
    res
}

} // verus!
