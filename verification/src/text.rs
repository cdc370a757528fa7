//! Text as a sequence of Unicode scalar values: the model of `str` that the
//! parsers of this crate are stated over, with the few string operations they
//! need (trimming, matching, splitting off lines), each proved against its
//! model.
use vstd::prelude::*;

verus! {

broadcast use vstd::string::group_string_axioms;

/// Unicode `White_Space`: the characters that `char::is_whitespace` accepts and
/// that `str::trim` and `str::trim_start` remove.
pub open spec fn is_white_space(c: char) -> bool {
    let u = c as u32;
    ||| (0x09 <= u && u <= 0x0d)
    ||| u == 0x20
    ||| u == 0x85
    ||| u == 0xa0
    ||| u == 0x1680
    ||| (0x2000 <= u && u <= 0x200a)
    ||| u == 0x2028
    ||| u == 0x2029
    ||| u == 0x202f
    ||| u == 0x205f
    ||| u == 0x3000
}

/// `s` without its leading white space.
pub open spec fn trim_start(s: Seq<char>) -> Seq<char>
    decreases s.len(),
{
    if s.len() > 0 && is_white_space(s[0]) {
        trim_start(s.drop_first())
    } else {
        s
    }
}

/// `s` without its trailing white space.
pub open spec fn trim_end(s: Seq<char>) -> Seq<char>
    decreases s.len(),
{
    if s.len() > 0 && is_white_space(s.last()) {
        trim_end(s.drop_last())
    } else {
        s
    }
}

/// `s` without its leading and trailing white space.
pub open spec fn trim(s: Seq<char>) -> Seq<char> {
    trim_end(trim_start(s))
}

/// The number of bytes that UTF-8 takes for `c`.
pub open spec fn utf8_width(c: char) -> nat {
    let u = c as u32;
    if u < 0x80 {
        1
    } else if u < 0x800 {
        2
    } else if u < 0x10000 {
        3
    } else {
        4
    }
}

/// The number of bytes that UTF-8 takes for `s`.
pub open spec fn utf8_len(s: Seq<char>) -> nat
    decreases s.len(),
{
    if s.len() == 0 {
        0
    } else {
        utf8_len(s.drop_last()) + utf8_width(s.last())
    }
}

/// `s` begins with `p`.
pub open spec fn starts_with(s: Seq<char>, p: Seq<char>) -> bool {
    p.len() <= s.len() && s.subrange(0, p.len() as int) == p
}

/// `p` occurs in `s` at index `i`.
pub open spec fn occurs_at(s: Seq<char>, p: Seq<char>, i: int) -> bool {
    0 <= i && i + p.len() <= s.len() && s.subrange(i, i + p.len()) == p
}

/// The index of the first `c` in `s`, as `str::find` with a character gives
/// it (counted in characters).
pub open spec fn index_of(s: Seq<char>, c: char) -> Option<int>
    decreases s.len(),
{
    if s.len() == 0 {
        None
    } else if s[0] == c {
        Some(0)
    } else {
        match index_of(s.drop_first(), c) {
            Some(i) => Some(i + 1),
            None => None,
        }
    }
}

/// The length of the first line of `text`: the characters before the first
/// newline.
pub open spec fn line_len(text: Seq<char>) -> nat
    decreases text.len(),
{
    if text.len() == 0 || text[0] == '\n' {
        0
    } else {
        1 + line_len(text.drop_first())
    }
}

/// The first line is no longer than the text.
pub proof fn lemma_line_len_bound(text: Seq<char>)
    ensures
        line_len(text) <= text.len(),
    decreases text.len(),
{
    if text.len() > 0 && text[0] != '\n' {
        lemma_line_len_bound(text.drop_first());
    }
}

/// The first line of `a + "\n" + b` is `a`, where `a` holds no newline.
pub proof fn lemma_line_len_first_line(a: Seq<char>, b: Seq<char>)
    requires
        !a.contains('\n'),
    ensures
        line_len(a + seq!['\n'] + b) == a.len(),
    decreases a.len(),
{
    let t = a + seq!['\n'] + b;
    if a.len() == 0 {
        assert(t[0] == '\n');
    } else {
        assert(a.contains(a[0]));
        assert(t[0] == a[0]);
        assert(t.drop_first() =~= a.drop_first() + seq!['\n'] + b);
        assert(!a.drop_first().contains('\n')) by {
            if a.drop_first().contains('\n') {
                let j = choose|j: int| 0 <= j < a.drop_first().len() && a.drop_first()[j] == '\n';
                assert(a[j + 1] == '\n');
            }
        }
        lemma_line_len_first_line(a.drop_first(), b);
    }
}

/// The UTF-8 length of a concatenation is the sum of the lengths.
pub proof fn lemma_utf8_len_concat(a: Seq<char>, b: Seq<char>)
    ensures
        utf8_len(a + b) == utf8_len(a) + utf8_len(b),
    decreases b.len(),
{
    if b.len() == 0 {
        assert(a + b =~= a);
    } else {
        assert((a + b).drop_last() =~= a + b.drop_last());
        lemma_utf8_len_concat(a, b.drop_last());
    }
}

/// The UTF-8 length of a prefix grows with the prefix, by the width of each
/// character added.
pub proof fn lemma_utf8_len_take(s: Seq<char>, k: int)
    requires
        0 <= k < s.len(),
    ensures
        utf8_len(s.take(k + 1)) == utf8_len(s.take(k)) + utf8_width(s[k]),
{
    assert(s.take(k + 1).drop_last() =~= s.take(k));
}

/// The UTF-8 length of prefixes is strictly increasing in their length.
pub proof fn lemma_utf8_len_take_increasing(s: Seq<char>, k1: int, k2: int)
    requires
        0 <= k1 < k2 <= s.len(),
    ensures
        utf8_len(s.take(k1)) < utf8_len(s.take(k2)),
    decreases k2 - k1,
{
    lemma_utf8_len_take(s, k2 - 1);
    if k1 < k2 - 1 {
        lemma_utf8_len_take_increasing(s, k1, k2 - 1);
    }
}

/// White space in front of a text that does not begin with white space is
/// what `trim_start` removes.
pub proof fn lemma_trim_start_prefix(w: Seq<char>, s: Seq<char>)
    requires
        forall|i: int| 0 <= i < w.len() ==> is_white_space(#[trigger] w[i]),
        s.len() > 0 ==> !is_white_space(s[0]),
    ensures
        trim_start(w + s) == s,
    decreases w.len(),
{
    if w.len() == 0 {
        assert(w + s =~= s);
    } else {
        assert((w + s).drop_first() =~= w.drop_first() + s);
        lemma_trim_start_prefix(w.drop_first(), s);
    }
}

/// White space after a text starts as the text's own trailing white space:
/// `trim_start` of the text with it is the trimmed text with it, or empty.
proof fn lemma_trim_start_push_white(x: Seq<char>, w: char)
    requires
        is_white_space(w),
    ensures
        trim_start(x.push(w)) == if trim_start(x).len() > 0 {
            trim_start(x).push(w)
        } else {
            Seq::<char>::empty()
        },
    decreases x.len(),
{
    if x.len() == 0 {
        assert(x.push(w).drop_first() =~= Seq::<char>::empty());
        assert(trim_start(Seq::<char>::empty()) == Seq::<char>::empty());
        assert(x =~= Seq::<char>::empty());
        assert(x.push(w)[0] == w);
    } else if is_white_space(x[0]) {
        assert(x.push(w).drop_first() =~= x.drop_first().push(w));
        assert(x.push(w)[0] == x[0]);
        lemma_trim_start_push_white(x.drop_first(), w);
    } else {
        assert(x.push(w)[0] == x[0]);
    }
}

/// Trailing white space is trimmed away: `trim` of a text with one more white
/// space character at its end is `trim` of the text.
pub proof fn lemma_trim_push_white(x: Seq<char>, w: char)
    requires
        is_white_space(w),
    ensures
        trim(x.push(w)) == trim(x),
{
    lemma_trim_start_push_white(x, w);
    if trim_start(x).len() > 0 {
        assert(trim_start(x).push(w).drop_last() =~= trim_start(x));
    }
}

/// A character other than `c` at the end changes nothing of where the first
/// `c` is.
pub proof fn lemma_index_of_push_other(a: Seq<char>, d: char, c: char)
    requires
        d != c,
    ensures
        index_of(a.push(d), c) == index_of(a, c),
    decreases a.len(),
{
    if a.len() == 0 {
        assert(a.push(d)[0] == d);
        assert(a.push(d).drop_first() =~= Seq::<char>::empty());
        assert(index_of(Seq::<char>::empty(), c) is None);
    } else if a[0] == c {
        assert(a.push(d)[0] == c);
    } else {
        assert(a.push(d)[0] == a[0]);
        assert(a.push(d).drop_first() =~= a.drop_first().push(d));
        lemma_index_of_push_other(a.drop_first(), d, c);
    }
}

/// The index `index_of` finds holds the character.
pub proof fn lemma_index_of_found(s: Seq<char>, c: char)
    ensures
        index_of(s, c) matches Some(i) ==> 0 <= i < s.len() && s[i] == c,
    decreases s.len(),
{
    if s.len() > 0 && s[0] != c {
        lemma_index_of_found(s.drop_first(), c);
    }
}

/// Pushes `c` onto `s`.
///
/// Calls `String::push`, which appends the character to the string: the
/// contract says that the string's characters are those before the call with
/// `c` after them.
#[verifier::external_body]
fn push_char(s: &mut String, c: char)
    ensures
        final(s)@ == old(s)@.push(c),
{
    s.push(c);
}

/// The character whose scalar value is `u`.
///
/// Calls `char::from_u32`, which gives that character, and `None` where `u`
/// is no Unicode scalar value (a surrogate, `0xD800` to `0xDFFF`, or above
/// `0x10FFFF`): the contract says exactly that.
#[verifier::external_body]
pub(crate) fn char_from_u32(u: u32) -> (r: Option<char>)
    ensures
        r matches Some(c) ==> c as u32 == u,
        r is Some <==> (u <= 0x10ffff && !(0xd800 <= u <= 0xdfff)),
{
    char::from_u32(u)
}

/// The characters of `s`, in order.
pub fn chars_of(s: &str) -> (v: Vec<char>)
    ensures
        v@ == s@,
{
    let mut v: Vec<char> = Vec::new();
    for c in it: s.chars()
        invariant
            v@ == it.seq().take(it.index() as int),
    {
        v.push(c);
    }
    v
}

/// A `String` made of the characters of `v` from index `from` up to `to`.
pub fn string_of_range(v: &Vec<char>, from: usize, to: usize) -> (s: String)
    requires
        from <= to <= v.len(),
    ensures
        s@ == v@.subrange(from as int, to as int),
{
    let mut s = String::new();
    let mut i = from;
    while i < to
        invariant
            from <= i <= to <= v.len(),
            s@ == v@.subrange(from as int, i as int),
        decreases to - i,
    {
        push_char(&mut s, v[i]);
        assert(v@.subrange(from as int, i + 1) =~= v@.subrange(from as int, i as int).push(
            v@[i as int],
        ));
        i = i + 1;
    }
    s
}

/// The characters of `v` from index `from` up to `to`.
pub fn copy_range(v: &Vec<char>, from: usize, to: usize) -> (r: Vec<char>)
    requires
        from <= to <= v.len(),
    ensures
        r@ == v@.subrange(from as int, to as int),
{
    let mut r: Vec<char> = Vec::new();
    let mut i = from;
    while i < to
        invariant
            from <= i <= to <= v.len(),
            r@ == v@.subrange(from as int, i as int),
        decreases to - i,
    {
        r.push(v[i]);
        assert(v@.subrange(from as int, i + 1) =~= v@.subrange(from as int, i as int).push(
            v@[i as int],
        ));
        i = i + 1;
    }
    r
}

/// Tells whether `c` is Unicode white space, as `char::is_whitespace` does.
pub fn is_white_space_char(c: char) -> (b: bool)
    ensures
        b == is_white_space(c),
{
    let u = c as u32;
    (0x09 <= u && u <= 0x0d) || u == 0x20 || u == 0x85 || u == 0xa0 || u == 0x1680 || (0x2000
        <= u && u <= 0x200a) || u == 0x2028 || u == 0x2029 || u == 0x202f || u == 0x205f || u
        == 0x3000
}

/// The number of bytes that UTF-8 takes for `c`, as `char::len_utf8` gives it.
pub fn utf8_width_of(c: char) -> (w: u8)
    ensures
        w == utf8_width(c),
        1 <= w <= 4,
{
    let u = c as u32;
    if u < 0x80 {
        1
    } else if u < 0x800 {
        2
    } else if u < 0x10000 {
        3
    } else {
        4
    }
}

/// The index of the first character at or after `from` that is not white
/// space (or the length of `v`).
pub fn skip_white_space(v: &Vec<char>, from: usize) -> (i: usize)
    requires
        from <= v.len(),
    ensures
        from <= i <= v.len(),
        v@.skip(i as int) == trim_start(v@.skip(from as int)),
{
    let mut i = from;
    while i < v.len() && is_white_space_char(v[i])
        invariant
            from <= i <= v.len(),
            trim_start(v@.skip(i as int)) == trim_start(v@.skip(from as int)),
        decreases v.len() - i,
    {
        assert(v@.skip(i as int).drop_first() =~= v@.skip(i + 1));
        i = i + 1;
    }
    i
}

/// The bounds of `v[from..to]` with its leading and trailing white space
/// removed.
pub fn trim_range(v: &Vec<char>, from: usize, to: usize) -> (r: (usize, usize))
    requires
        from <= to <= v.len(),
    ensures
        from <= r.0 <= r.1 <= to,
        v@.subrange(r.0 as int, r.1 as int) == trim(v@.subrange(from as int, to as int)),
{
    let mut a = from;
    while a < to && is_white_space_char(v[a])
        invariant
            from <= a <= to <= v.len(),
            trim_start(v@.subrange(a as int, to as int)) == trim_start(
                v@.subrange(from as int, to as int),
            ),
        decreases to - a,
    {
        assert(v@.subrange(a as int, to as int).drop_first() =~= v@.subrange(a + 1, to as int));
        a = a + 1;
    }
    let mut b = to;
    while b > a && is_white_space_char(v[b - 1])
        invariant
            from <= a <= b <= to <= v.len(),
            trim_end(v@.subrange(a as int, b as int)) == trim_end(
                v@.subrange(a as int, to as int),
            ),
        decreases b - a,
    {
        assert(v@.subrange(a as int, b as int).drop_last() =~= v@.subrange(a as int, b - 1));
        b = b - 1;
    }
    (a, b)
}

/// Tells whether `p` occurs in `v` at index `i`.
pub fn occurs_at_index(v: &Vec<char>, p: &Vec<char>, i: usize) -> (b: bool)
    ensures
        b == occurs_at(v@, p@, i as int),
{
    if i > v.len() || p.len() > v.len() - i {
        return false;
    }
    let mut k: usize = 0;
    while k < p.len()
        invariant
            i + p.len() <= v.len(),
            0 <= k <= p.len(),
            forall|j: int| 0 <= j < k ==> v@[i + j] == p@[j],
        decreases p.len() - k,
    {
        if v[i + k] != p[k] {
            assert(v@.subrange(i as int, i + p.len())[k as int] != p@[k as int]);
            return false;
        }
        k = k + 1;
    }
    assert(v@.subrange(i as int, i + p.len()) =~= p@);
    true
}

/// The index of the first `c` in `v[from..to]`, counted from the start of `v`.
pub fn index_of_range(v: &Vec<char>, from: usize, to: usize, c: char) -> (r: Option<usize>)
    requires
        from <= to <= v.len(),
    ensures
        r matches Some(i) ==> from <= i < to && index_of(v@.subrange(from as int, to as int), c)
            == Some(i - from),
        r is None ==> index_of(v@.subrange(from as int, to as int), c) is None,
{
    let mut k = from;
    while k < to
        invariant
            from <= k <= to <= v.len(),
            index_of(v@.subrange(from as int, to as int), c) == match index_of(
                v@.subrange(k as int, to as int),
                c,
            ) {
                Some(i) => Some(i + (k - from)),
                None => None,
            },
        decreases to - k,
    {
        if v[k] == c {
            assert(v@.subrange(k as int, to as int)[0] == c);
            return Some(k);
        }
        assert(v@.subrange(k as int, to as int).drop_first() =~= v@.subrange(k + 1, to as int));
        k = k + 1;
    }
    None
}

/// The end of the line of `v` that begins at `from`: the index of the next
/// newline, or the length of `v`.
pub fn line_end(v: &Vec<char>, from: usize) -> (e: usize)
    requires
        from <= v.len(),
    ensures
        from <= e <= v.len(),
        line_len(v@.skip(from as int)) == e - from,
        e < v.len() ==> v@[e as int] == '\n',
{
    let len = v.len();
    let mut e = from;
    while e < len && v[e] != '\n'
        invariant
            len == v.len(),
            from <= e <= len,
            line_len(v@.skip(from as int)) == (e - from) + line_len(v@.skip(e as int)),
        decreases len - e,
    {
        assert(v@.skip(e as int).drop_first() =~= v@.skip(e + 1));
        e = e + 1;
    }
    e
}

} // verus!
