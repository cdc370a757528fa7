//! The value that `dmidecode -s <keyword>` prints: the first line of its
//! output that is not a `#` comment, trimmed.
use vstd::prelude::*;
use crate::text::{
    chars_of, lemma_line_len_first_line, line_end, line_len, string_of_range, trim, trim_range,
};

verus! {

/// The value in the output of `dmidecode -s`: its first line that does not
/// begin with `#`, trimmed; empty where there is none.
pub open spec fn dmidecode_value(out: Seq<char>) -> Seq<char>
    decreases out.len(),
{
    if out.len() == 0 {
        Seq::empty()
    } else {
        let line = out.take(line_len(out) as int);
        if !(line.len() > 0 && line[0] == '#') {
            trim(line)
        } else if line_len(out) < out.len() {
            dmidecode_value(out.skip(line_len(out) + 1int))
        } else {
            Seq::empty()
        }
    }
}

/// The value in the output `out` of `dmidecode -s`, as `dmidecode_value` says.
pub fn dmidecode_value_of(out: &str) -> (r: String)
    ensures
        r@ == dmidecode_value(out@),
{
    let v = chars_of(out);
    let len = v.len();
    let mut pos: usize = 0;
    assert(v@.skip(0) =~= v@);
    while pos < len
        invariant
            len == v.len(),
            pos <= len,
            v@ == out@,
            dmidecode_value(v@.skip(pos as int)) == dmidecode_value(out@),
        decreases len - pos,
    {
        let e = line_end(&v, pos);
        let ghost text = v@.skip(pos as int);
        let ghost line = text.take(e - pos);
        assert(line =~= v@.subrange(pos as int, e as int));
        if !(e > pos && v[pos] == '#') {
            let (a, b) = trim_range(&v, pos, e);
            return string_of_range(&v, a, b);
        }
        if e < len {
            assert(text.skip(e - pos + 1) =~= v@.skip(e + 1));
            pos = e + 1;
        } else {
            assert(v@.skip(len as int).len() == 0);
            pos = len;
        }
    }
    String::new()
}

/// A first line that does not begin with `#` is the value, trimmed, whatever
/// follows it.
pub proof fn lemma_dmidecode_first_line(line: Seq<char>, rest: Seq<char>)
    requires
        !line.contains('\n'),
        !(line.len() > 0 && line[0] == '#'),
    ensures
        dmidecode_value(line + seq!['\n'] + rest) == trim(line),
{
    let out = line + seq!['\n'] + rest;
    lemma_line_len_first_line(line, rest);
    assert(out.take(line.len() as int) =~= line);
}

/// A first line that begins with `#` (a comment) is passed over.
pub proof fn lemma_dmidecode_skips_comment(line: Seq<char>, rest: Seq<char>)
    requires
        !line.contains('\n'),
        line.len() > 0,
        line[0] == '#',
    ensures
        dmidecode_value(line + seq!['\n'] + rest) == dmidecode_value(rest),
{
    let out = line + seq!['\n'] + rest;
    lemma_line_len_first_line(line, rest);
    assert(out.take(line.len() as int) =~= line);
    assert(out.skip(line.len() + 1int) =~= rest);
}

/// An output of one line without a line break is that line, trimmed, unless
/// it is a comment.
pub proof fn lemma_dmidecode_single_line(line: Seq<char>)
    requires
        !line.contains('\n'),
    ensures
        dmidecode_value(line) == if line.len() > 0 && line[0] == '#' {
            Seq::<char>::empty()
        } else {
            trim(line)
        },
{
    if line.len() > 0 {
        lemma_line_len_no_newline(line);
        assert(line.take(line.len() as int) =~= line);
    }
}

/// A text without a line break is one line.
proof fn lemma_line_len_no_newline(s: Seq<char>)
    requires
        !s.contains('\n'),
    ensures
        line_len(s) == s.len(),
    decreases s.len(),
{
    if s.len() > 0 {
        assert(s.contains(s[0]));
        assert(!s.drop_first().contains('\n')) by {
            if s.drop_first().contains('\n') {
                let j = choose|j: int| 0 <= j < s.drop_first().len() && s.drop_first()[j] == '\n';
                assert(s[j + 1] == '\n');
            }
        }
        lemma_line_len_no_newline(s.drop_first());
    }
}

} // verus!
