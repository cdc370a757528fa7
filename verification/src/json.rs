//! Lookup of a string value by its key in the small JSON objects that the
//! host's management queries print, without a JSON parser: the first `"key"`
//! followed by a colon names the member; its value is read as a quoted string
//! (or `null`), and the string's escapes are decoded.
//!
//! The scan for the closing quote counts bytes the way a UTF-8 slice is cut:
//! a backslash and the character after it count two bytes, any other
//! character its UTF-8 width. Where that count does not fall on a character
//! boundary of the value, cutting the value there is impossible; those inputs
//! are left out by `requires`, and `json_string_is_extractable` tells them
//! apart.
use vstd::prelude::*;
use crate::text::{
    char_from_u32, chars_of, copy_range, is_white_space, lemma_trim_start_prefix,
    lemma_utf8_len_concat, lemma_utf8_len_take, lemma_utf8_len_take_increasing, occurs_at,
    occurs_at_index, skip_white_space, starts_with, string_of_range, trim_start, utf8_len,
    utf8_width, utf8_width_of,
};
use crate::uuid::{hex_digit_char, hex_digit_value, hex_value, is_hex_char, lemma_hex_digit_char};

verus! {

/// The key as it is searched for: in double quotes.
pub open spec fn key_pattern(key: Seq<char>) -> Seq<char> {
    seq!['"'] + key + seq!['"']
}

/// The JSON literal `null`.
pub open spec fn null_literal() -> Seq<char> {
    seq!['n', 'u', 'l', 'l']
}

/// `"key"` occurs in `json` at index `i` as the name of a member: followed by
/// optional white space and a colon.
pub open spec fn is_member_name_at(json: Seq<char>, key: Seq<char>, i: int) -> bool {
    &&& occurs_at(json, key_pattern(key), i)
    &&& {
        let after = trim_start(json.skip(i + key_pattern(key).len()));
        after.len() > 0 && after[0] == ':'
    }
}

/// The first index at or after `i` where `"key"` names a member of `json`.
pub open spec fn find_member_from(json: Seq<char>, key: Seq<char>, i: int) -> Option<int>
    decreases json.len() + 1 - i,
{
    if i < 0 || i + key_pattern(key).len() > json.len() {
        None
    } else if is_member_name_at(json, key, i) {
        Some(i)
    } else {
        find_member_from(json, key, i + 1)
    }
}

/// What follows the opening quote of the value of the first member named
/// `key` in `json`, or `None` where there is no such member or its value is
/// not a string (in particular where it is `null`).
pub open spec fn value_content(json: Seq<char>, key: Seq<char>) -> Option<Seq<char>> {
    match find_member_from(json, key, 0) {
        None => None,
        Some(p) => {
            let after_key = trim_start(json.skip(p + key_pattern(key).len()));
            let after_colon = trim_start(after_key.drop_first());
            if starts_with(after_colon, null_literal()) {
                None
            } else if after_colon.len() == 0 || after_colon[0] != '"' {
                None
            } else {
                Some(after_colon.drop_first())
            }
        },
    }
}

/// The byte count at which the scan of `content` for the closing quote stops:
/// a backslash and the character after it (if any) count two, a double quote
/// ends the scan, any other character counts its UTF-8 width.
pub open spec fn scanned_len(content: Seq<char>) -> nat
    decreases content.len(),
{
    if content.len() == 0 {
        0
    } else if content[0] == '\\' {
        if content.len() >= 2 {
            2 + scanned_len(content.skip(2))
        } else {
            2
        }
    } else if content[0] == '"' {
        0
    } else {
        utf8_width(content[0]) + scanned_len(content.drop_first())
    }
}

/// Some prefix of `s` takes exactly `n` bytes in UTF-8.
pub open spec fn has_utf8_prefix(s: Seq<char>, n: nat) -> bool {
    exists|k: int| 0 <= k <= s.len() && utf8_len(#[trigger] s.take(k)) == n
}

/// The prefix of `s` that takes exactly `n` bytes in UTF-8 (where there is one).
pub open spec fn utf8_prefix(s: Seq<char>, n: nat) -> Seq<char> {
    s.take(choose|k: int| 0 <= k <= s.len() && utf8_len(#[trigger] s.take(k)) == n)
}

/// The character that the JSON escape `\c` stands for, for the escapes made of
/// one character after the backslash: `\"`, `\\`, `\/`, `\b`, `\f`, `\n`,
/// `\r`, `\t`.
pub open spec fn simple_escape(c: char) -> Option<char> {
    if c == '"' {
        Some('"')
    } else if c == '\\' {
        Some('\\')
    } else if c == '/' {
        Some('/')
    } else if c == 'b' {
        Some('\u{8}')
    } else if c == 'f' {
        Some('\u{c}')
    } else if c == 'n' {
        Some('\n')
    } else if c == 'r' {
        Some('\r')
    } else if c == 't' {
        Some('\t')
    } else {
        None
    }
}

/// The value of four hexadecimal digits, where `s` begins with four.
pub open spec fn hex4(s: Seq<char>) -> Option<int> {
    if s.len() >= 4 && is_hex_char(s[0]) && is_hex_char(s[1]) && is_hex_char(s[2])
        && is_hex_char(s[3]) {
        Some(
            4096 * hex_value(s[0]) + 256 * hex_value(s[1]) + 16 * hex_value(s[2]) + hex_value(
                s[3],
            ),
        )
    } else {
        None
    }
}

/// A UTF-16 surrogate: half of a pair, no character by itself.
pub open spec fn is_surrogate(u: int) -> bool {
    0xd800 <= u <= 0xdfff
}

/// The first half of a UTF-16 surrogate pair.
pub open spec fn is_high_surrogate(u: int) -> bool {
    0xd800 <= u <= 0xdbff
}

/// The second half of a UTF-16 surrogate pair.
pub open spec fn is_low_surrogate(u: int) -> bool {
    0xdc00 <= u <= 0xdfff
}

/// The character whose scalar value is `u`.
pub open spec fn scalar_char(u: int) -> char {
    (u as u32) as char
}

/// The character that a `\uXXXX` escape at the start of `s` stands for, with
/// the number of characters the escape takes: six, or twelve for a surrogate
/// pair written as two escapes. `None` where `s` does not begin with such an
/// escape, or where it begins with a surrogate that is not the first half of
/// a pair.
pub open spec fn unicode_escape(s: Seq<char>) -> Option<(char, int)> {
    if s.len() >= 6 && s[0] == '\\' && s[1] == 'u' && hex4(s.subrange(2, 6)) is Some {
        let h = hex4(s.subrange(2, 6)).unwrap();
        if !is_surrogate(h) {
            Some((scalar_char(h), 6))
        } else if is_high_surrogate(h) && s.len() >= 12 && s[6] == '\\' && s[7] == 'u' && hex4(
            s.subrange(8, 12),
        ) is Some && is_low_surrogate(hex4(s.subrange(8, 12)).unwrap()) {
            let l = hex4(s.subrange(8, 12)).unwrap();
            Some((scalar_char(0x10000 + (h - 0xd800) * 0x400 + (l - 0xdc00)), 12))
        } else {
            None
        }
    } else {
        None
    }
}

/// The string that the JSON text `s` (between its quotes) stands for: its
/// escapes decoded from left to right, each once. A backslash that begins no
/// escape (an unknown letter, a lone surrogate, or the end of the text) is
/// kept as it is.
pub open spec fn unescape(s: Seq<char>) -> Seq<char>
    decreases s.len(),
{
    if s.len() == 0 {
        s
    } else if s[0] != '\\' {
        seq![s[0]] + unescape(s.drop_first())
    } else if s.len() >= 2 && simple_escape(s[1]) is Some {
        seq![simple_escape(s[1]).unwrap()] + unescape(s.skip(2))
    } else if unicode_escape(s) is Some && 0 < unicode_escape(s).unwrap().1 <= s.len() {
        seq![unicode_escape(s).unwrap().0] + unescape(s.skip(unicode_escape(s).unwrap().1))
    } else {
        seq![s[0]] + unescape(s.drop_first())
    }
}

/// The value can be cut where the scan stops: the inputs on which the lookup
/// is defined.
pub open spec fn json_string_extractable(json: Seq<char>, key: Seq<char>) -> bool {
    match value_content(json, key) {
        None => true,
        Some(content) => has_utf8_prefix(content, scanned_len(content)),
    }
}

/// The string value of the member `key` of `json`: the text from the opening
/// quote up to where the scan stops, its escapes decoded; `None` where there
/// is no such value, the value is `null`, or the string is empty.
pub open spec fn extracted_json_string(json: Seq<char>, key: Seq<char>) -> Option<Seq<char>> {
    match value_content(json, key) {
        None => None,
        Some(content) => {
            let value = unescape(utf8_prefix(content, scanned_len(content)));
            if value.len() == 0 {
                None
            } else {
                Some(value)
            }
        },
    }
}

/// The index in `json` where the value of the member `key` begins, just after
/// its opening quote.
fn locate_value(json: &Vec<char>, key: &str) -> (r: Option<usize>)
    ensures
        r matches Some(i) ==> i <= json.len() && value_content(json@, key@) == Some(
            json@.skip(i as int),
        ),
        r is None ==> value_content(json@, key@) is None,
{
    let key_chars = chars_of(key);
    let mut pattern: Vec<char> = Vec::new();
    pattern.push('"');
    let mut k: usize = 0;
    while k < key_chars.len()
        invariant
            0 <= k <= key_chars.len(),
            pattern@ == seq!['"'] + key_chars@.take(k as int),
        decreases key_chars.len() - k,
    {
        pattern.push(key_chars[k]);
        assert(key_chars@.take(k + 1) =~= key_chars@.take(k as int).push(key_chars@[k as int]));
        k = k + 1;
    }
    pattern.push('"');
    assert(key_chars@.take(key_chars.len() as int) =~= key_chars@);
    assert(pattern@ =~= key_pattern(key@));
    let len = json.len();
    let mut i: usize = 0;
    let mut colon: usize = 0;
    let mut found = false;
    while !found && i < len && pattern.len() <= len - i
        invariant
            len == json.len(),
            pattern@ == key_pattern(key@),
            i <= len,
            !found ==> find_member_from(json@, key@, i as int) == find_member_from(
                json@,
                key@,
                0,
            ),
            found ==> find_member_from(json@, key@, 0) == Some(i as int) && i + pattern.len()
                <= colon < len && json@[colon as int] == ':' && json@.skip(colon as int)
                == trim_start(json@.skip(i + pattern.len())),
        decreases 2 * (len - i) + if found { 0int } else { 1int },
    {
        if occurs_at_index(json, &pattern, i) {
            let a = skip_white_space(json, i + pattern.len());
            if a < len && json[a] == ':' {
                colon = a;
                found = true;
            } else {
                i = i + 1;
            }
        } else {
            i = i + 1;
        }
    }
    if !found {
        return None;
    }
    assert(json@.skip(colon as int).drop_first() =~= json@.skip(colon + 1));
    let b = skip_white_space(json, colon + 1);
    let mut null: Vec<char> = Vec::new();
    null.push('n');
    null.push('u');
    null.push('l');
    null.push('l');
    assert(null@ =~= null_literal());
    let is_null = occurs_at_index(json, &null, b);
    assert(is_null == starts_with(json@.skip(b as int), null_literal())) by {
        if b + 4 <= json.len() {
            assert(json@.skip(b as int).subrange(0, 4) =~= json@.subrange(b as int, b + 4));
        }
    }
    if is_null {
        return None;
    }
    if b >= json.len() || json[b] != '"' {
        return None;
    }
    assert(json@.skip(b as int).drop_first() =~= json@.skip(b + 1));
    Some(b + 1)
}

/// The byte count at which the scan for the closing quote, started at index
/// `start` of `json`, stops.
fn scan_value(json: &Vec<char>, start: usize) -> (n: u128)
    requires
        start <= json.len(),
    ensures
        n == scanned_len(json@.skip(start as int)),
        n <= 4 * (json.len() - start),
{
    let len = json.len();
    let mut i = start;
    let mut n: u128 = 0;
    while i < len && json[i] != '"'
        invariant
            len == json.len(),
            start <= i <= len,
            n <= 4 * (i - start),
            n + scanned_len(json@.skip(i as int)) == scanned_len(json@.skip(start as int)),
        decreases len - i,
    {
        let c = json[i];
        if c == '\\' {
            n = n + 2;
            if i + 1 < len {
                assert(json@.skip(i as int).skip(2) =~= json@.skip(i + 2));
                i = i + 2;
            } else {
                assert(json@.skip(len as int).len() == 0);
                i = len;
            }
        } else {
            n = n + utf8_width_of(c) as u128;
            assert(json@.skip(i as int).drop_first() =~= json@.skip(i + 1));
            i = i + 1;
        }
    }
    n
}

/// The end index of the part of `json` from `start` that takes exactly `n`
/// bytes in UTF-8, if there is one.
fn utf8_prefix_end(json: &Vec<char>, start: usize, n: u128) -> (r: Option<usize>)
    requires
        start <= json.len(),
    ensures
        r matches Some(stop) ==> start <= stop <= json.len() && utf8_len(
            json@.skip(start as int).take(stop - start),
        ) == n,
        r is None ==> !has_utf8_prefix(json@.skip(start as int), n as nat),
{
    let ghost s = json@.skip(start as int);
    let len = json.len();
    let mut k = start;
    let mut acc: u128 = 0;
    assert(s.take(0).len() == 0);
    while k < len && acc < n
        invariant
            len == json.len(),
            s == json@.skip(start as int),
            start <= k <= len,
            acc <= 4 * (k - start),
            acc == utf8_len(s.take(k - start)),
            forall|m: int| 0 <= m < k - start ==> utf8_len(#[trigger] s.take(m)) < n,
        decreases len - k,
    {
        proof {
            lemma_utf8_len_take(s, k - start);
        }
        acc = acc + utf8_width_of(json[k]) as u128;
        k = k + 1;
    }
    if acc == n {
        Some(k)
    } else {
        assert(!has_utf8_prefix(s, n as nat)) by {
            if has_utf8_prefix(s, n as nat) {
                let m = choose|m: int| 0 <= m <= s.len() && utf8_len(#[trigger] s.take(m)) == n;
                if m > k - start {
                    lemma_utf8_len_take_increasing(s, k - start, m);
                }
            }
        }
        None
    }
}

/// The prefix that `utf8_prefix` picks is the one of the given length.
proof fn lemma_utf8_prefix_unique(s: Seq<char>, n: nat, k: int)
    requires
        0 <= k <= s.len(),
        utf8_len(s.take(k)) == n,
    ensures
        has_utf8_prefix(s, n),
        utf8_prefix(s, n) == s.take(k),
{
    assert(has_utf8_prefix(s, n));
    let k2 = choose|m: int| 0 <= m <= s.len() && utf8_len(#[trigger] s.take(m)) == n;
    if k2 < k {
        lemma_utf8_len_take_increasing(s, k2, k);
    } else if k < k2 {
        lemma_utf8_len_take_increasing(s, k, k2);
    }
}


/// The character that the escape `\c` stands for, as `simple_escape` says.
fn simple_escape_of(c: char) -> (r: Option<char>)
    ensures
        r == simple_escape(c),
{
    if c == '"' {
        Some('"')
    } else if c == '\\' {
        Some('\\')
    } else if c == '/' {
        Some('/')
    } else if c == 'b' {
        Some('\u{8}')
    } else if c == 'f' {
        Some('\u{c}')
    } else if c == 'n' {
        Some('\n')
    } else if c == 'r' {
        Some('\r')
    } else if c == 't' {
        Some('\t')
    } else {
        None
    }
}

/// The value of the four hexadecimal digits at index `j` of `v`, if they are
/// four.
fn hex4_at(v: &Vec<char>, j: usize) -> (r: Option<u32>)
    requires
        j + 4 <= v.len(),
    ensures
        r matches Some(x) ==> hex4(v@.subrange(j as int, j + 4)) == Some(x as int) && x < 0x10000,
        r is None ==> hex4(v@.subrange(j as int, j + 4)) is None,
{
    let ghost s = v@.subrange(j as int, j + 4);
    assert(s[0] == v@[j as int] && s[1] == v@[j + 1] && s[2] == v@[j + 2] && s[3] == v@[j + 3]);
    if crate::uuid::is_ascii_hexdigit(v[j]) && crate::uuid::is_ascii_hexdigit(v[j + 1])
        && crate::uuid::is_ascii_hexdigit(v[j + 2]) && crate::uuid::is_ascii_hexdigit(v[j + 3]) {
        let d0 = hex_digit_value(v[j]) as u32;
        let d1 = hex_digit_value(v[j + 1]) as u32;
        let d2 = hex_digit_value(v[j + 2]) as u32;
        let d3 = hex_digit_value(v[j + 3]) as u32;
        Some(4096 * d0 + 256 * d1 + 16 * d2 + d3)
    } else {
        None
    }
}

/// The `\uXXXX` escape (or surrogate pair of them) at index `i` of `v`, as
/// `unicode_escape` says.
fn unicode_escape_at(v: &Vec<char>, i: usize) -> (r: Option<(char, usize)>)
    requires
        i <= v.len(),
    ensures
        r matches Some((c, k)) ==> unicode_escape(v@.skip(i as int)) == Some((c, k as int)) && i
            + k <= v.len(),
        r is None ==> unicode_escape(v@.skip(i as int)) is None,
{
    let len = v.len();
    let ghost s = v@.skip(i as int);
    if len - i < 6 || v[i] != '\\' || v[i + 1] != 'u' {
        return None;
    }
    assert(s.subrange(2, 6) =~= v@.subrange(i + 2, i + 6));
    let h = match hex4_at(v, i + 2) {
        None => {
            return None;
        },
        Some(h) => h,
    };
    if h < 0xd800 || h > 0xdfff {
        return match char_from_u32(h) {
            Some(c) => {
                proof {
                    vstd::utf8::char_u32_cast(c, h);
                }
                Some((c, 6))
            },
            None => None,
        };
    }
    if h > 0xdbff || len - i < 12 || v[i + 6] != '\\' || v[i + 7] != 'u' {
        return None;
    }
    assert(s.subrange(8, 12) =~= v@.subrange(i + 8, i + 12));
    let l = match hex4_at(v, i + 8) {
        None => {
            return None;
        },
        Some(l) => l,
    };
    if l < 0xdc00 || l > 0xdfff {
        return None;
    }
    let u = 0x10000 + (h - 0xd800) * 0x400 + (l - 0xdc00);
    match char_from_u32(u) {
        Some(c) => {
            proof {
                vstd::utf8::char_u32_cast(c, u);
            }
            Some((c, 12))
        },
        None => None,
    }
}

/// The string that the JSON text `v` stands for, as `unescape` says.
fn unescape_chars(v: &Vec<char>) -> (r: Vec<char>)
    ensures
        r@ == unescape(v@),
{
    let len = v.len();
    let mut out: Vec<char> = Vec::new();
    let mut i: usize = 0;
    assert(v@.skip(0) =~= v@);
    while i < len
        invariant
            len == v.len(),
            i <= len,
            unescape(v@) == out@ + unescape(v@.skip(i as int)),
        decreases len - i,
    {
        let ghost s = v@.skip(i as int);
        let ghost before = out@;
        let c = v[i];
        if c != '\\' {
            out.push(c);
            assert(s.drop_first() =~= v@.skip(i + 1));
            assert(before + unescape(s) =~= out@ + unescape(v@.skip(i + 1)));
            i = i + 1;
        } else {
            let simple = if i + 1 < len {
                simple_escape_of(v[i + 1])
            } else {
                None
            };
            match simple {
                Some(d) => {
                    out.push(d);
                    assert(s.skip(2) =~= v@.skip(i + 2));
                    assert(before + unescape(s) =~= out@ + unescape(v@.skip(i + 2)));
                    i = i + 2;
                },
                None => {
                    match unicode_escape_at(v, i) {
                        Some((d, k)) => {
                            out.push(d);
                            assert(s.skip(k as int) =~= v@.skip(i + k));
                            assert(before + unescape(s) =~= out@ + unescape(v@.skip(i + k)));
                            i = i + k;
                        },
                        None => {
                            out.push('\\');
                            assert(s.drop_first() =~= v@.skip(i + 1));
                            assert(before + unescape(s) =~= out@ + unescape(v@.skip(i + 1)));
                            i = i + 1;
                        },
                    }
                },
            }
        }
    }
    assert(v@.skip(len as int) =~= Seq::<char>::empty());
    assert(out@ + unescape(Seq::<char>::empty()) =~= out@);
    out
}

/// Tells whether `extract_json_string` is defined on `json` and `key`: false
/// exactly where the scan for the closing quote stops inside a character or
/// past the end of the text, where the value cannot be cut.
pub fn json_string_is_extractable(json: &str, key: &str) -> (b: bool)
    ensures
        b == json_string_extractable(json@, key@),
{
    let chars = chars_of(json);
    match locate_value(&chars, key) {
        None => true,
        Some(start) => {
            let n = scan_value(&chars, start);
            match utf8_prefix_end(&chars, start, n) {
                Some(stop) => {
                    proof {
                        lemma_utf8_prefix_unique(chars@.skip(start as int), n as nat, stop - start);
                    }
                    true
                },
                None => false,
            }
        },
    }
}

/// Extract a string value from simple JSON.
///
/// Handles both `{"key": "value"}` and `{"key": null}`: the value of the
/// first member named `key` (the first `"key"` followed by optional white
/// space and a colon) when it is a quoted string, with its escapes (`\"`,
/// `\\`, `\/`, `\b`, `\f`, `\n`, `\r`, `\t`, `\uXXXX`) decoded. `None` where
/// there is no such member, its value is `null` or not a string, or the
/// string is empty.
pub fn extract_json_string(json: &str, key: &str) -> (r: Option<String>)
    requires
        json_string_extractable(json@, key@),
    ensures
        r matches Some(s) ==> extracted_json_string(json@, key@) == Some(s@),
        r is None ==> extracted_json_string(json@, key@) is None,
        r matches Some(s) ==> s@.len() > 0,
{
    let chars = chars_of(json);
    let start = match locate_value(&chars, key) {
        None => {
            return None;
        },
        Some(start) => start,
    };
    let n = scan_value(&chars, start);
    let stop = match utf8_prefix_end(&chars, start, n) {
        None => {
            return None;
        },
        Some(stop) => stop,
    };
    proof {
        lemma_utf8_prefix_unique(chars@.skip(start as int), n as nat, stop - start);
    }
    let value = copy_range(&chars, start, stop);
    assert(value@ =~= chars@.skip(start as int).take(stop - start));
    let unescaped = unescape_chars(&value);
    if unescaped.len() == 0 {
        None
    } else {
        let s = string_of_range(&unescaped, 0, unescaped.len());
        assert(s@ =~= unescaped@);
        Some(s)
    }
}

/// Every character of `w` is white space.
pub open spec fn is_white_space_text(w: Seq<char>) -> bool {
    forall|i: int| 0 <= i < w.len() ==> is_white_space(#[trigger] w[i])
}

/// The JSON text for the character `c` inside a string: `\"`, `\\`, `\n`,
/// `\r` or `\t` for a quote, a backslash, a newline, a carriage return or a
/// tab; the character itself otherwise.
pub open spec fn escape_char(c: char) -> Seq<char> {
    if c == '"' {
        seq!['\\', '"']
    } else if c == '\\' {
        seq!['\\', '\\']
    } else if c == '\n' {
        seq!['\\', 'n']
    } else if c == '\r' {
        seq!['\\', 'r']
    } else if c == '\t' {
        seq!['\\', 't']
    } else {
        seq![c]
    }
}

/// The JSON text for the string `v` (between its quotes).
pub open spec fn json_escape(v: Seq<char>) -> Seq<char>
    decreases v.len(),
{
    if v.len() == 0 {
        Seq::empty()
    } else {
        escape_char(v[0]) + json_escape(v.drop_first())
    }
}

/// The object `{"key": "text"}`, with the white space `ws1` before the colon
/// and `ws2` after it; `text` is written between the quotes as it is.
pub open spec fn object_with_string(
    key: Seq<char>,
    ws1: Seq<char>,
    ws2: Seq<char>,
    text: Seq<char>,
) -> Seq<char> {
    seq!['{'] + key_pattern(key) + ws1 + seq![':'] + ws2 + seq!['"'] + text + seq!['"', '}']
}

/// The object `{"key": null` followed by `rest`, with the white space `ws1`
/// before the colon and `ws2` after it.
pub open spec fn object_with_null(
    key: Seq<char>,
    ws1: Seq<char>,
    ws2: Seq<char>,
    rest: Seq<char>,
) -> Seq<char> {
    seq!['{'] + key_pattern(key) + ws1 + seq![':'] + ws2 + null_literal() + rest
}

/// The member that the search finds is a member name at that index.
proof fn lemma_find_member_from_found(json: Seq<char>, key: Seq<char>, i: int)
    ensures
        find_member_from(json, key, i) matches Some(k) ==> i <= k && is_member_name_at(
            json,
            key,
            k,
        ),
    decreases json.len() + 1 - i,
{
    if i < 0 || i + key_pattern(key).len() > json.len() {
    } else if is_member_name_at(json, key, i) {
    } else {
        lemma_find_member_from_found(json, key, i + 1);
    }
}

/// In an object that begins with `{"key"`, white space and a colon, the
/// member found is the one at index 1.
proof fn lemma_find_member_in_object(key: Seq<char>, ws1: Seq<char>, rest: Seq<char>)
    requires
        is_white_space_text(ws1),
        rest.len() > 0,
        rest[0] == ':',
    ensures
        find_member_from(seq!['{'] + key_pattern(key) + (ws1 + rest), key, 0) == Some(1int),
        trim_start((seq!['{'] + key_pattern(key) + (ws1 + rest)).skip(
            1 + key_pattern(key).len() as int,
        )) == rest,
{
    let pat = key_pattern(key);
    let json = seq!['{'] + pat + (ws1 + rest);
    assert(pat[0] == '"');
    assert(!occurs_at(json, pat, 0)) by {
        if occurs_at(json, pat, 0) {
            assert(json.subrange(0, pat.len() as int)[0] == json[0]);
        }
    }
    assert(json.subrange(1, 1 + pat.len() as int) =~= pat);
    assert(json.skip(1 + pat.len() as int) =~= ws1 + rest);
    lemma_trim_start_prefix(ws1, rest);
    assert(is_member_name_at(json, key, 1));
    assert(find_member_from(json, key, 1) == Some(1int));
}

/// The JSON text of one character is two characters (a backslash and an
/// ASCII letter or sign) or the character itself, which is then no quote or
/// backslash.
proof fn lemma_escape_char(c: char)
    ensures
        escape_char(c).len() == 2 ==> escape_char(c)[0] == '\\' && simple_escape(
            escape_char(c)[1],
        ) == Some(c) && utf8_len(escape_char(c)) == 2,
        escape_char(c).len() != 2 ==> escape_char(c) == seq![c] && c != '\\' && c != '"'
            && utf8_len(escape_char(c)) == utf8_width(c),
{
    let e = escape_char(c);
    assert(utf8_len(Seq::<char>::empty()) == 0);
    if e.len() == 2 {
        assert(e.drop_last() =~= seq![e[0]]);
        assert(seq![e[0]].drop_last() =~= Seq::<char>::empty());
        assert(utf8_len(seq![e[0]]) == utf8_width(e[0]));
        assert(e[0] == '\\');
        assert(utf8_width(e[0]) == 1);
        assert(utf8_width(e[1]) == 1);
        assert(simple_escape(e[1]) == Some(c));
    } else {
        assert(seq![c].drop_last() =~= Seq::<char>::empty());
    }
}

/// The scan over written JSON text counts its UTF-8 length and goes on past
/// it: every escape there is a backslash and an ASCII character.
proof fn lemma_scanned_len_escaped(v: Seq<char>, t: Seq<char>)
    ensures
        scanned_len(json_escape(v) + t) == utf8_len(json_escape(v)) + scanned_len(t),
    decreases v.len(),
{
    if v.len() == 0 {
        assert(json_escape(v) + t =~= t);
        assert(utf8_len(json_escape(v)) == 0);
    } else {
        let e = escape_char(v[0]);
        let r = json_escape(v.drop_first());
        lemma_escape_char(v[0]);
        lemma_scanned_len_escaped(v.drop_first(), t);
        lemma_utf8_len_concat(e, r);
        assert(json_escape(v) + t =~= e + (r + t));
        if e.len() == 2 {
            assert((e + (r + t)).skip(2) =~= r + t);
            assert((e + (r + t))[0] == '\\');
        } else {
            assert((e + (r + t)).drop_first() =~= r + t);
            assert((e + (r + t))[0] == v[0]);
        }
    }
}

/// Decoding written JSON text gives back the string.
proof fn lemma_unescape_escaped(v: Seq<char>)
    ensures
        unescape(json_escape(v)) == v,
    decreases v.len(),
{
    if v.len() == 0 {
    } else {
        let e = escape_char(v[0]);
        let r = json_escape(v.drop_first());
        lemma_escape_char(v[0]);
        lemma_unescape_escaped(v.drop_first());
        let s = e + r;
        assert(json_escape(v) == s);
        if e.len() == 2 {
            assert(s[0] == '\\' && s[1] == e[1]);
            assert(s.skip(2) =~= r);
        } else {
            assert(s[0] == v[0]);
            assert(s.drop_first() =~= r);
        }
        assert(seq![v[0]] + v.drop_first() =~= v);
    }
}

/// What a read gives back of a write: in `{"key": "text"}`, with any white
/// space around the colon, where `text` is the string `value` written as JSON
/// (quotes, backslashes, newlines, carriage returns and tabs escaped), the
/// value of `key` is `value`, and `None` when it is empty.
pub proof fn lemma_extract_written_string(
    key: Seq<char>,
    ws1: Seq<char>,
    ws2: Seq<char>,
    value: Seq<char>,
)
    requires
        is_white_space_text(ws1),
        is_white_space_text(ws2),
    ensures
        json_string_extractable(object_with_string(key, ws1, ws2, json_escape(value)), key),
        extracted_json_string(object_with_string(key, ws1, ws2, json_escape(value)), key) == (if value.len() > 0 {
            Some(value)
        } else {
            None
        }),
{
    let text = json_escape(value);
    let pat = key_pattern(key);
    let json = object_with_string(key, ws1, ws2, text);
    let rest2 = seq!['"'] + text + seq!['"', '}'];
    let rest1 = seq![':'] + ws2 + rest2;
    assert(json =~= seq!['{'] + pat + (ws1 + rest1));
    lemma_find_member_in_object(key, ws1, rest1);
    assert(rest1.drop_first() =~= ws2 + rest2);
    lemma_trim_start_prefix(ws2, rest2);
    assert(!starts_with(rest2, null_literal())) by {
        if starts_with(rest2, null_literal()) {
            assert(rest2.subrange(0, 4)[0] == rest2[0]);
        }
    }
    let content = rest2.drop_first();
    assert(content =~= text + seq!['"', '}']);
    lemma_scanned_len_escaped(value, seq!['"', '}']);
    assert(scanned_len(seq!['"', '}']) == 0);
    assert(content.take(text.len() as int) =~= text);
    lemma_utf8_prefix_unique(content, utf8_len(text), text.len() as int);
    lemma_unescape_escaped(value);
}

/// A `null` value is no string: in `{"key": null ...`, with any white space
/// around the colon, the lookup of `key` gives `None`.
pub proof fn lemma_extract_null(key: Seq<char>, ws1: Seq<char>, ws2: Seq<char>, rest: Seq<char>)
    requires
        is_white_space_text(ws1),
        is_white_space_text(ws2),
    ensures
        json_string_extractable(object_with_null(key, ws1, ws2, rest), key),
        extracted_json_string(object_with_null(key, ws1, ws2, rest), key) is None,
{
    let pat = key_pattern(key);
    let json = object_with_null(key, ws1, ws2, rest);
    let rest2 = null_literal() + rest;
    let rest1 = seq![':'] + ws2 + rest2;
    assert(json =~= seq!['{'] + pat + (ws1 + rest1));
    lemma_find_member_in_object(key, ws1, rest1);
    assert(rest1.drop_first() =~= ws2 + rest2);
    lemma_trim_start_prefix(ws2, rest2);
    assert(rest2.subrange(0, 4) =~= null_literal());
}

/// A key that does not occur in quotes has no value.
pub proof fn lemma_extract_missing_key(json: Seq<char>, key: Seq<char>)
    requires
        forall|i: int| !occurs_at(json, key_pattern(key), i),
    ensures
        json_string_extractable(json, key),
        extracted_json_string(json, key) is None,
{
    lemma_find_member_from_found(json, key, 0);
}

/// A quoted occurrence of the key that is not followed by a colon (a value,
/// say) does not end the search: the member found is the first one after it.
pub proof fn lemma_member_search_passes_values(json: Seq<char>, key: Seq<char>, i: int)
    requires
        0 <= i,
        forall|j: int| 0 <= j <= i ==> !is_member_name_at(json, key, j),
    ensures
        find_member_from(json, key, 0) == find_member_from(json, key, i + 1),
    decreases i,
{
    if i > 0 {
        lemma_member_search_passes_values(json, key, i - 1);
    }
    if i + key_pattern(key).len() > json.len() {
        assert(find_member_from(json, key, i) is None);
        assert(find_member_from(json, key, i + 1) is None);
    }
}

/// The text `before`, then the member `"key": "text"` (with the white space
/// `ws1` before the colon and `ws2` after it), then `after`.
pub open spec fn text_with_member(
    before: Seq<char>,
    key: Seq<char>,
    ws1: Seq<char>,
    ws2: Seq<char>,
    text: Seq<char>,
    after: Seq<char>,
) -> Seq<char> {
    before + key_pattern(key) + ws1 + seq![':'] + ws2 + seq!['"'] + text + seq!['"'] + after
}

/// A member's value is found wherever the member stands and whatever follows
/// it: after any text in which `"key"` does not occur (an opening brace,
/// indentation and line breaks, earlier members), the member `"key": "text"`,
/// with any white space around the colon, gives the string that `text`
/// writes, and the lookup is defined, whatever comes after the closing quote
/// (more members, the closing brace, a trailing line break).
pub proof fn lemma_extract_member_anywhere(
    before: Seq<char>,
    key: Seq<char>,
    ws1: Seq<char>,
    ws2: Seq<char>,
    value: Seq<char>,
    after: Seq<char>,
)
    requires
        is_white_space_text(ws1),
        is_white_space_text(ws2),
        forall|i: int|
            0 <= i < before.len() ==> !occurs_at(
                text_with_member(before, key, ws1, ws2, json_escape(value), after),
                key_pattern(key),
                i,
            ),
    ensures
        json_string_extractable(
            text_with_member(before, key, ws1, ws2, json_escape(value), after),
            key,
        ),
        extracted_json_string(
            text_with_member(before, key, ws1, ws2, json_escape(value), after),
            key,
        ) == (if value.len() > 0 {
            Some(value)
        } else {
            None
        }),
{
    let text = json_escape(value);
    let pat = key_pattern(key);
    let json = text_with_member(before, key, ws1, ws2, text, after);
    let p = before.len() as int;
    let rest2 = seq!['"'] + text + seq!['"'] + after;
    let rest1 = seq![':'] + ws2 + rest2;
    assert(json =~= before + pat + (ws1 + rest1));
    assert(json.subrange(p, p + pat.len()) =~= pat);
    assert(json.skip(p + pat.len()) =~= ws1 + rest1);
    lemma_trim_start_prefix(ws1, rest1);
    assert(is_member_name_at(json, key, p));
    assert forall|j: int| 0 <= j < p implies !is_member_name_at(json, key, j) by {}
    if p > 0 {
        lemma_member_search_passes_values(json, key, p - 1);
    }
    assert(find_member_from(json, key, p) == Some(p));
    assert(find_member_from(json, key, 0) == Some(p));
    assert(rest1.drop_first() =~= ws2 + rest2);
    lemma_trim_start_prefix(ws2, rest2);
    assert(!starts_with(rest2, null_literal())) by {
        if starts_with(rest2, null_literal()) {
            assert(rest2.subrange(0, 4)[0] == rest2[0]);
        }
    }
    let content = rest2.drop_first();
    assert(content =~= text + (seq!['"'] + after));
    lemma_scanned_len_escaped(value, seq!['"'] + after);
    assert((seq!['"'] + after)[0] == '"');
    assert(scanned_len(seq!['"'] + after) == 0);
    assert(content.take(text.len() as int) =~= text);
    lemma_utf8_prefix_unique(content, utf8_len(text), text.len() as int);
    lemma_unescape_escaped(value);
}

/// Each escape of one character after a backslash stands for its character,
/// and the text after it is decoded on its own: `\"` a quote, `\\` a
/// backslash, `\/` a slash, `\b` a backspace, `\f` a form feed, `\n` a
/// newline, `\r` a carriage return, `\t` a tab.
pub proof fn lemma_unescape_simple_escapes(rest: Seq<char>)
    ensures
        unescape(seq!['\\', '"'] + rest) == seq!['"'] + unescape(rest),
        unescape(seq!['\\', '\\'] + rest) == seq!['\\'] + unescape(rest),
        unescape(seq!['\\', '/'] + rest) == seq!['/'] + unescape(rest),
        unescape(seq!['\\', 'b'] + rest) == seq!['\u{8}'] + unescape(rest),
        unescape(seq!['\\', 'f'] + rest) == seq!['\u{c}'] + unescape(rest),
        unescape(seq!['\\', 'n'] + rest) == seq!['\n'] + unescape(rest),
        unescape(seq!['\\', 'r'] + rest) == seq!['\r'] + unescape(rest),
        unescape(seq!['\\', 't'] + rest) == seq!['\t'] + unescape(rest),
{
    assert((seq!['\\', '"'] + rest).skip(2) =~= rest);
    assert((seq!['\\', '\\'] + rest).skip(2) =~= rest);
    assert((seq!['\\', '/'] + rest).skip(2) =~= rest);
    assert((seq!['\\', 'b'] + rest).skip(2) =~= rest);
    assert((seq!['\\', 'f'] + rest).skip(2) =~= rest);
    assert((seq!['\\', 'n'] + rest).skip(2) =~= rest);
    assert((seq!['\\', 'r'] + rest).skip(2) =~= rest);
    assert((seq!['\\', 't'] + rest).skip(2) =~= rest);
}

/// The text `\u` and the four hexadecimal digits of `d0`..`d3` (each below
/// 16), in upper or lower case.
pub open spec fn unicode_escape_text(d0: u8, d1: u8, d2: u8, d3: u8, upper: bool) -> Seq<char> {
    seq![
        '\\',
        'u',
        hex_digit_char(d0, upper),
        hex_digit_char(d1, upper),
        hex_digit_char(d2, upper),
        hex_digit_char(d3, upper),
    ]
}

/// The hexadecimal digits of an escape are read as its code.
proof fn lemma_hex4_of_escape(d0: u8, d1: u8, d2: u8, d3: u8, upper: bool, rest: Seq<char>)
    requires
        d0 < 16,
        d1 < 16,
        d2 < 16,
        d3 < 16,
    ensures
        hex4((unicode_escape_text(d0, d1, d2, d3, upper) + rest).subrange(2, 6)) == Some(
            4096 * d0 + 256 * d1 + 16 * d2 + d3,
        ),
{
    lemma_hex_digit_char(d0, upper);
    lemma_hex_digit_char(d1, upper);
    lemma_hex_digit_char(d2, upper);
    lemma_hex_digit_char(d3, upper);
    let t = unicode_escape_text(d0, d1, d2, d3, upper) + rest;
    assert(t.subrange(2, 6) =~= seq![
        hex_digit_char(d0, upper),
        hex_digit_char(d1, upper),
        hex_digit_char(d2, upper),
        hex_digit_char(d3, upper),
    ]);
}

/// `\u` with four hexadecimal digits (in either case) stands for the one
/// character whose code they spell, where that code is no surrogate; the
/// text after it is decoded on its own.
pub proof fn lemma_unescape_unicode(d0: u8, d1: u8, d2: u8, d3: u8, upper: bool, rest: Seq<char>)
    requires
        d0 < 16,
        d1 < 16,
        d2 < 16,
        d3 < 16,
        !(0xd800 <= 4096 * d0 + 256 * d1 + 16 * d2 + d3 <= 0xdfff),
    ensures
        unescape(unicode_escape_text(d0, d1, d2, d3, upper) + rest).len() > 0,
        unescape(unicode_escape_text(d0, d1, d2, d3, upper) + rest)[0] as u32 == 4096 * d0 + 256
            * d1 + 16 * d2 + d3,
        unescape(unicode_escape_text(d0, d1, d2, d3, upper) + rest).drop_first() == unescape(
            rest,
        ),
{
    let t = unicode_escape_text(d0, d1, d2, d3, upper) + rest;
    let code = 4096 * d0 + 256 * d1 + 16 * d2 + d3;
    lemma_hex4_of_escape(d0, d1, d2, d3, upper, rest);
    lemma_hex_digit_char(d0, upper);
    assert(t[0] == '\\' && t[1] == 'u');
    assert(t[2] == hex_digit_char(d0, upper));
    assert(simple_escape(t[1]) is None);
    assert(unicode_escape(t) == Some((scalar_char(code), 6int)));
    assert(t.skip(6) =~= rest);
    assert(unescape(t) == seq![scalar_char(code)] + unescape(rest));
    assert((seq![scalar_char(code)] + unescape(rest)).drop_first() =~= unescape(rest));
    assert(scalar_char(code) as u32 == code);
}

/// A surrogate pair written as two `\u` escapes (a high half, then a low
/// half) stands for the one character it encodes in UTF-16; the text after
/// it is decoded on its own.
pub proof fn lemma_unescape_surrogate_pair(
    h0: u8,
    h1: u8,
    h2: u8,
    h3: u8,
    l0: u8,
    l1: u8,
    l2: u8,
    l3: u8,
    upper: bool,
    rest: Seq<char>,
)
    requires
        h0 < 16,
        h1 < 16,
        h2 < 16,
        h3 < 16,
        l0 < 16,
        l1 < 16,
        l2 < 16,
        l3 < 16,
        0xd800 <= 4096 * h0 + 256 * h1 + 16 * h2 + h3 <= 0xdbff,
        0xdc00 <= 4096 * l0 + 256 * l1 + 16 * l2 + l3 <= 0xdfff,
    ensures
        ({
            let t = unicode_escape_text(h0, h1, h2, h3, upper) + unicode_escape_text(
                l0,
                l1,
                l2,
                l3,
                upper,
            ) + rest;
            let high = 4096 * h0 + 256 * h1 + 16 * h2 + h3;
            let low = 4096 * l0 + 256 * l1 + 16 * l2 + l3;
            &&& unescape(t).len() > 0
            &&& unescape(t)[0] as u32 == 0x10000 + (high - 0xd800) * 0x400 + (low - 0xdc00)
            &&& unescape(t).drop_first() == unescape(rest)
        }),
{
    let second = unicode_escape_text(l0, l1, l2, l3, upper) + rest;
    let t = unicode_escape_text(h0, h1, h2, h3, upper) + second;
    assert(t =~= unicode_escape_text(h0, h1, h2, h3, upper) + unicode_escape_text(
        l0,
        l1,
        l2,
        l3,
        upper,
    ) + rest);
    let high = 4096 * h0 + 256 * h1 + 16 * h2 + h3;
    let low = 4096 * l0 + 256 * l1 + 16 * l2 + l3;
    let code = 0x10000 + (high - 0xd800) * 0x400 + (low - 0xdc00);
    lemma_hex4_of_escape(h0, h1, h2, h3, upper, second);
    lemma_hex4_of_escape(l0, l1, l2, l3, upper, rest);
    assert(t.subrange(8, 12) =~= second.subrange(2, 6));
    assert(t[6] == '\\' && t[7] == 'u');
    assert(t[0] == '\\' && t[1] == 'u');
    assert(simple_escape(t[1]) is None);
    assert(unicode_escape(t) == Some((scalar_char(code), 12int)));
    assert(t.skip(12) =~= rest);
    assert(unescape(t) == seq![scalar_char(code)] + unescape(rest));
    assert((seq![scalar_char(code)] + unescape(rest)).drop_first() =~= unescape(rest));
    assert(scalar_char(code) as u32 == code);
}

} // verus!
