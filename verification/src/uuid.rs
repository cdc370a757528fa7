//! UUID text to the 16 bytes of an SMBIOS system UUID: the hexadecimal digits
//! of the text, taken in pairs; every other character (the hyphens of
//! `XXXXXXXX-XXXX-XXXX-XXXX-XXXXXXXXXXXX`, braces, white space) is skipped.
use vstd::prelude::*;
use crate::text::chars_of;

verus! {

/// An ASCII hexadecimal digit: `0-9`, `a-f` or `A-F`.
pub open spec fn is_hex_char(c: char) -> bool {
    ('0' <= c && c <= '9') || ('a' <= c && c <= 'f') || ('A' <= c && c <= 'F')
}

/// The value of the hexadecimal digit `c`.
pub open spec fn hex_value(c: char) -> int {
    if '0' <= c && c <= '9' {
        c as int - '0' as int
    } else if 'a' <= c && c <= 'f' {
        c as int - 'a' as int + 10
    } else {
        c as int - 'A' as int + 10
    }
}

/// The hexadecimal digits of `s`, in order.
pub open spec fn hex_digits(s: Seq<char>) -> Seq<char>
    decreases s.len(),
{
    if s.len() == 0 {
        s
    } else if is_hex_char(s.last()) {
        hex_digits(s.drop_last()).push(s.last())
    } else {
        hex_digits(s.drop_last())
    }
}

/// The bytes that the digits `h` spell, two digits (high, then low) a byte.
pub open spec fn bytes_of_hex(h: Seq<char>) -> Seq<u8> {
    Seq::new(h.len() / 2, |i: int| (16 * hex_value(h[2 * i]) + hex_value(h[2 * i + 1])) as u8)
}

/// The UUID that `s` spells: its hexadecimal digits as bytes, where there are
/// exactly 32 of them.
pub open spec fn parsed_uuid(s: Seq<char>) -> Option<Seq<u8>> {
    let h = hex_digits(s);
    if h.len() == 32 {
        Some(bytes_of_hex(h))
    } else {
        None
    }
}

/// Tells whether `c` is an ASCII hexadecimal digit, as `char::is_ascii_hexdigit`
/// does.
pub fn is_ascii_hexdigit(c: char) -> (b: bool)
    ensures
        b == is_hex_char(c),
{
    ('0' <= c && c <= '9') || ('a' <= c && c <= 'f') || ('A' <= c && c <= 'F')
}

/// The value of the hexadecimal digit `c`.
pub fn hex_digit_value(c: char) -> (v: u8)
    requires
        is_hex_char(c),
    ensures
        v == hex_value(c),
        v < 16,
{
    let u = c as u32;
    if '0' <= c && c <= '9' {
        (u - 48) as u8
    } else if 'a' <= c && c <= 'f' {
        (u - 97 + 10) as u8
    } else {
        (u - 65 + 10) as u8
    }
}

/// Parses a UUID string in the format `XXXXXXXX-XXXX-XXXX-XXXX-XXXXXXXXXXXX`.
///
/// The hexadecimal digits of the text, in either case, make the 16 bytes, two
/// digits each, the first digit the high half; the other characters are
/// skipped. `None` unless the text holds exactly 32 hexadecimal digits.
pub fn parse_uuid_string(uuid_str: &str) -> (r: Option<[u8; 16]>)
    ensures
        r matches Some(b) ==> parsed_uuid(uuid_str@) == Some(b@),
        r is None ==> parsed_uuid(uuid_str@) is None,
{
    let chars = chars_of(uuid_str);
    let mut hex: Vec<char> = Vec::new();
    let mut i: usize = 0;
    while i < chars.len()
        invariant
            0 <= i <= chars.len(),
            hex@ == hex_digits(chars@.take(i as int)),
            forall|k: int| 0 <= k < hex@.len() ==> is_hex_char(#[trigger] hex@[k]),
        decreases chars.len() - i,
    {
        assert(chars@.take(i + 1).drop_last() =~= chars@.take(i as int));
        if is_ascii_hexdigit(chars[i]) {
            hex.push(chars[i]);
        }
        i = i + 1;
    }
    assert(chars@.take(chars.len() as int) =~= chars@);
    if hex.len() != 32 {
        return None;
    }
    let mut bytes = [0u8; 16];
    let mut k: usize = 0;
    while k < 16
        invariant
            0 <= k <= 16,
            hex@.len() == 32,
            hex@ == hex_digits(uuid_str@),
            forall|j: int| 0 <= j < hex@.len() ==> is_hex_char(#[trigger] hex@[j]),
            forall|j: int| 0 <= j < k ==> bytes@[j] == #[trigger] bytes_of_hex(hex@)[j],
        decreases 16 - k,
    {
        let high = hex_digit_value(hex[2 * k]);
        let low = hex_digit_value(hex[2 * k + 1]);
        bytes[k] = high * 16 + low;
        k = k + 1;
    }
    assert(bytes@ =~= bytes_of_hex(hex@));
    Some(bytes)
}

/// The hexadecimal digit for `d` (below 16), in upper or lower case.
pub open spec fn hex_digit_char(d: u8, upper: bool) -> char {
    if upper {
        seq!['0', '1', '2', '3', '4', '5', '6', '7', '8', '9', 'A', 'B', 'C', 'D', 'E', 'F'][d as int]
    } else {
        seq!['0', '1', '2', '3', '4', '5', '6', '7', '8', '9', 'a', 'b', 'c', 'd', 'e', 'f'][d as int]
    }
}

/// The two hexadecimal digits of `b`.
pub open spec fn hex_of_byte(b: u8, upper: bool) -> Seq<char> {
    seq![hex_digit_char(b / 16, upper), hex_digit_char(b % 16, upper)]
}

/// The hexadecimal digits of `bytes`, two per byte.
pub open spec fn hex_of_bytes(bytes: Seq<u8>, upper: bool) -> Seq<char>
    decreases bytes.len(),
{
    if bytes.len() == 0 {
        Seq::empty()
    } else {
        hex_of_bytes(bytes.drop_last(), upper) + hex_of_byte(bytes.last(), upper)
    }
}

/// The canonical text of a 16-byte UUID: `XXXXXXXX-XXXX-XXXX-XXXX-XXXXXXXXXXXX`.
pub open spec fn uuid_text(bytes: Seq<u8>, upper: bool) -> Seq<char> {
    hex_of_bytes(bytes.subrange(0, 4), upper) + seq!['-'] + hex_of_bytes(bytes.subrange(4, 6), upper)
        + seq!['-'] + hex_of_bytes(bytes.subrange(6, 8), upper) + seq!['-'] + hex_of_bytes(
        bytes.subrange(8, 10),
        upper,
    ) + seq!['-'] + hex_of_bytes(bytes.subrange(10, 16), upper)
}

/// A digit that `hex_digit_char` gives is a hexadecimal digit of that value.
pub proof fn lemma_hex_digit_char(d: u8, upper: bool)
    requires
        0 <= d < 16,
    ensures
        is_hex_char(hex_digit_char(d, upper)),
        hex_value(hex_digit_char(d, upper)) == d,
{
    let lower = seq!['0', '1', '2', '3', '4', '5', '6', '7', '8', '9', 'a', 'b', 'c', 'd', 'e', 'f'];
    let upper_digits = seq![
        '0',
        '1',
        '2',
        '3',
        '4',
        '5',
        '6',
        '7',
        '8',
        '9',
        'A',
        'B',
        'C',
        'D',
        'E',
        'F',
    ];
    assert(lower[d as int] == hex_digit_char(d, false));
    assert(upper_digits[d as int] == hex_digit_char(d, true));
}

/// The digits of a concatenation are those of its parts.
proof fn lemma_hex_digits_concat(a: Seq<char>, b: Seq<char>)
    ensures
        hex_digits(a + b) == hex_digits(a) + hex_digits(b),
    decreases b.len(),
{
    if b.len() == 0 {
        assert(a + b =~= a);
        assert(hex_digits(a) + hex_digits(b) =~= hex_digits(a));
    } else {
        assert((a + b).drop_last() =~= a + b.drop_last());
        lemma_hex_digits_concat(a, b.drop_last());
        if is_hex_char(b.last()) {
            assert(hex_digits(a) + hex_digits(b.drop_last()).push(b.last()) =~= (hex_digits(a)
                + hex_digits(b.drop_last())).push(b.last()));
        }
    }
}

/// A text made only of digits is its own digits.
proof fn lemma_hex_digits_all_hex(s: Seq<char>)
    requires
        forall|i: int| 0 <= i < s.len() ==> is_hex_char(#[trigger] s[i]),
    ensures
        hex_digits(s) == s,
    decreases s.len(),
{
    if s.len() > 0 {
        lemma_hex_digits_all_hex(s.drop_last());
        assert(s.drop_last().push(s.last()) =~= s);
    }
}

/// The digits of bytes: two per byte, high half first, each a hexadecimal
/// digit of that value.
proof fn lemma_hex_of_bytes(bytes: Seq<u8>, upper: bool)
    ensures
        hex_of_bytes(bytes, upper).len() == 2 * bytes.len(),
        forall|i: int|
            0 <= i < bytes.len() ==> {
                &&& #[trigger] hex_of_bytes(bytes, upper)[2 * i] == hex_digit_char(
                    bytes[i] / 16,
                    upper,
                )
                &&& hex_of_bytes(bytes, upper)[2 * i + 1] == hex_digit_char(bytes[i] % 16, upper)
            },
        forall|j: int|
            0 <= j < hex_of_bytes(bytes, upper).len() ==> is_hex_char(
                #[trigger] hex_of_bytes(bytes, upper)[j],
            ),
    decreases bytes.len(),
{
    if bytes.len() > 0 {
        let last = bytes.last();
        lemma_hex_of_bytes(bytes.drop_last(), upper);
        lemma_hex_digit_char(last / 16, upper);
        lemma_hex_digit_char(last % 16, upper);
        let front = hex_of_bytes(bytes.drop_last(), upper);
        let h = hex_of_bytes(bytes, upper);
        assert(h == front + hex_of_byte(last, upper));
        assert forall|i: int| 0 <= i < bytes.len() implies {
            &&& #[trigger] h[2 * i] == hex_digit_char(bytes[i] / 16, upper)
            &&& h[2 * i + 1] == hex_digit_char(bytes[i] % 16, upper)
        } by {
            if i < bytes.len() - 1 {
                assert(bytes.drop_last()[i] == bytes[i]);
            }
        }
        assert forall|j: int| 0 <= j < h.len() implies is_hex_char(#[trigger] h[j]) by {
            if j < front.len() {
                assert(h[j] == front[j]);
            }
        }
    }
}

/// The canonical text of 16 bytes, in either case, parses back to those bytes.
pub proof fn lemma_uuid_text_roundtrip(bytes: Seq<u8>, upper: bool)
    requires
        bytes.len() == 16,
    ensures
        parsed_uuid(uuid_text(bytes, upper)) == Some(bytes),
{
    let g0 = hex_of_bytes(bytes.subrange(0, 4), upper);
    let g1 = hex_of_bytes(bytes.subrange(4, 6), upper);
    let g2 = hex_of_bytes(bytes.subrange(6, 8), upper);
    let g3 = hex_of_bytes(bytes.subrange(8, 10), upper);
    let g4 = hex_of_bytes(bytes.subrange(10, 16), upper);
    let dash = seq!['-'];
    lemma_hex_of_bytes(bytes.subrange(0, 4), upper);
    lemma_hex_of_bytes(bytes.subrange(4, 6), upper);
    lemma_hex_of_bytes(bytes.subrange(6, 8), upper);
    lemma_hex_of_bytes(bytes.subrange(8, 10), upper);
    lemma_hex_of_bytes(bytes.subrange(10, 16), upper);
    lemma_hex_of_bytes(bytes, upper);
    lemma_hex_digits_all_hex(g0);
    lemma_hex_digits_all_hex(g1);
    lemma_hex_digits_all_hex(g2);
    lemma_hex_digits_all_hex(g3);
    lemma_hex_digits_all_hex(g4);
    assert(hex_digits(dash.drop_last()) == Seq::<char>::empty()) by {
        assert(dash.drop_last().len() == 0);
    }
    assert(hex_digits(dash) =~= Seq::<char>::empty());
    lemma_hex_digits_concat(g0, dash);
    lemma_hex_digits_concat(g0 + dash, g1);
    lemma_hex_digits_concat(g0 + dash + g1, dash);
    lemma_hex_digits_concat(g0 + dash + g1 + dash, g2);
    lemma_hex_digits_concat(g0 + dash + g1 + dash + g2, dash);
    lemma_hex_digits_concat(g0 + dash + g1 + dash + g2 + dash, g3);
    lemma_hex_digits_concat(g0 + dash + g1 + dash + g2 + dash + g3, dash);
    lemma_hex_digits_concat(g0 + dash + g1 + dash + g2 + dash + g3 + dash, g4);
    let h = hex_digits(uuid_text(bytes, upper));
    let all = hex_of_bytes(bytes, upper);
    assert(h =~= g0 + g1 + g2 + g3 + g4);
    assert forall|j: int| 0 <= j < 32 implies #[trigger] h[j] == all[j] by {
        let i = j / 2;
        assert(all[2 * i] == hex_digit_char(bytes[i] / 16, upper));
        assert(all[2 * i + 1] == hex_digit_char(bytes[i] % 16, upper));
        if i < 4 {
            assert(bytes.subrange(0, 4)[i] == bytes[i]);
            assert(g0[2 * i] == hex_digit_char(bytes.subrange(0, 4)[i] / 16, upper));
            assert(g0[2 * i + 1] == hex_digit_char(bytes.subrange(0, 4)[i] % 16, upper));
        } else if i < 6 {
            assert(bytes.subrange(4, 6)[i - 4] == bytes[i]);
            assert(g1[2 * (i - 4)] == hex_digit_char(bytes.subrange(4, 6)[i - 4] / 16, upper));
            assert(g1[2 * (i - 4) + 1] == hex_digit_char(bytes.subrange(4, 6)[i - 4] % 16, upper));
        } else if i < 8 {
            assert(bytes.subrange(6, 8)[i - 6] == bytes[i]);
            assert(g2[2 * (i - 6)] == hex_digit_char(bytes.subrange(6, 8)[i - 6] / 16, upper));
            assert(g2[2 * (i - 6) + 1] == hex_digit_char(bytes.subrange(6, 8)[i - 6] % 16, upper));
        } else if i < 10 {
            assert(bytes.subrange(8, 10)[i - 8] == bytes[i]);
            assert(g3[2 * (i - 8)] == hex_digit_char(bytes.subrange(8, 10)[i - 8] / 16, upper));
            assert(g3[2 * (i - 8) + 1] == hex_digit_char(bytes.subrange(8, 10)[i - 8] % 16, upper));
        } else {
            assert(bytes.subrange(10, 16)[i - 10] == bytes[i]);
            assert(g4[2 * (i - 10)] == hex_digit_char(bytes.subrange(10, 16)[i - 10] / 16, upper));
            assert(g4[2 * (i - 10) + 1] == hex_digit_char(
                bytes.subrange(10, 16)[i - 10] % 16,
                upper,
            ));
        }
    }
    assert(h =~= all);
    assert forall|i: int| 0 <= i < 16 implies #[trigger] bytes_of_hex(h)[i] == bytes[i] by {
        lemma_hex_digit_char(bytes[i] / 16, upper);
        lemma_hex_digit_char(bytes[i] % 16, upper);
        assert(h[2 * i] == hex_digit_char(bytes[i] / 16, upper));
        assert(h[2 * i + 1] == hex_digit_char(bytes[i] % 16, upper));
    }
    assert(bytes_of_hex(h) =~= bytes);
}

/// The digits of a text are all hexadecimal digits.
proof fn lemma_hex_digits_are_hex(s: Seq<char>)
    ensures
        forall|i: int| 0 <= i < hex_digits(s).len() ==> is_hex_char(#[trigger] hex_digits(s)[i]),
    decreases s.len(),
{
    if s.len() > 0 {
        lemma_hex_digits_are_hex(s.drop_last());
        let front = hex_digits(s.drop_last());
        assert forall|i: int| 0 <= i < hex_digits(s).len() implies is_hex_char(
            #[trigger] hex_digits(s)[i],
        ) by {
            if i < front.len() {
                assert(front[i] == hex_digits(s)[i]);
            }
        }
    }
}

/// Only the hexadecimal digits of a text count: the digits alone parse to the
/// same UUID (or to none alike).
pub proof fn lemma_uuid_only_digits_count(s: Seq<char>)
    ensures
        parsed_uuid(s) == parsed_uuid(hex_digits(s)),
{
    lemma_hex_digits_are_hex(s);
    lemma_hex_digits_all_hex(hex_digits(s));
}

/// A character that is no hexadecimal digit (none of `0-9`, `a-f`, `A-F`)
/// changes nothing: the text with it parses as the text without it.
pub proof fn lemma_uuid_ignores_other_char(s: Seq<char>, c: char)
    requires
        !(('0' <= c && c <= '9') || ('a' <= c && c <= 'f') || ('A' <= c && c <= 'F')),
    ensures
        parsed_uuid(s.push(c)) == parsed_uuid(s),
{
    assert(s.push(c).drop_last() =~= s);
}

} // verus!
