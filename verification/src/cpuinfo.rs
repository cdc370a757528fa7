//! The processor's name as `/proc/cpuinfo` gives it: the value of the first
//! `model name` line.
use vstd::prelude::*;
use crate::text::{
    chars_of, index_of, index_of_range, lemma_index_of_found, lemma_index_of_push_other, lemma_line_len_bound,
    lemma_line_len_first_line,
    lemma_trim_push_white, line_end, line_len, occurs_at_index, starts_with, string_of_range, trim,
    trim_range,
};

verus! {

/// The text that a processor name line begins with.
pub open spec fn model_name_prefix() -> Seq<char> {
    seq!['m', 'o', 'd', 'e', 'l', ' ', 'n', 'a', 'm', 'e']
}

/// The value of the first line of `text` that begins with `model name` and
/// holds a colon: what follows the line's first colon, trimmed; `None` where
/// there is no such line.
///
/// This is what the lines of the text (`str::lines`) give when the first
/// one that starts with `model name` and splits at a colon is split there:
/// a carriage return before a newline, which `str::lines` drops, is white
/// space, so trimming the value removes it too.
pub open spec fn model_name_in(text: Seq<char>) -> Option<Seq<char>>
    decreases text.len(),
{
    if text.len() == 0 {
        None
    } else {
        let line = text.take(line_len(text) as int);
        if starts_with(line, model_name_prefix()) && index_of(line, ':') is Some {
            Some(trim(line.skip(index_of(line, ':').unwrap() + 1)))
        } else if line_len(text) < text.len() {
            model_name_in(text.skip(line_len(text) + 1int))
        } else {
            None
        }
    }
}

/// The processor's name in the text of `/proc/cpuinfo`: the value of its first
/// `model name` line, or the empty string where there is none.
pub fn processor_info_from_cpuinfo(cpuinfo: &str) -> (r: String)
    ensures
        r@ == match model_name_in(cpuinfo@) {
            Some(name) => name,
            None => Seq::<char>::empty(),
        },
{
    let v = chars_of(cpuinfo);
    let mut prefix: Vec<char> = Vec::new();
    prefix.push('m');
    prefix.push('o');
    prefix.push('d');
    prefix.push('e');
    prefix.push('l');
    prefix.push(' ');
    prefix.push('n');
    prefix.push('a');
    prefix.push('m');
    prefix.push('e');
    assert(prefix@ =~= model_name_prefix());
    let len = v.len();
    let mut pos: usize = 0;
    assert(v@.skip(0) =~= v@);
    while pos < len
        invariant
            len == v.len(),
            pos <= len,
            prefix@ == model_name_prefix(),
            model_name_in(v@.skip(pos as int)) == model_name_in(cpuinfo@),
            v@ == cpuinfo@,
        decreases len - pos,
    {
        let e = line_end(&v, pos);
        let ghost text = v@.skip(pos as int);
        let ghost line = text.take(e - pos);
        assert(line_len(text) == e - pos);
        assert(line =~= v@.subrange(pos as int, e as int));
        let starts = e - pos >= prefix.len() && occurs_at_index(&v, &prefix, pos);
        assert(starts == starts_with(line, model_name_prefix())) by {
            if e - pos >= 10 {
                assert(line.subrange(0, 10) =~= v@.subrange(pos as int, pos + 10));
            }
        }
        if starts {
            match index_of_range(&v, pos, e, ':') {
                Some(c) => {
                    assert(line.skip(c - pos + 1) =~= v@.subrange(c + 1, e as int));
                    let (a, b) = trim_range(&v, c + 1, e);
                    return string_of_range(&v, a, b);
                },
                None => {},
            }
        }
        if e < len {
            assert(text.skip(e - pos + 1) =~= v@.skip(e + 1));
            pos = e + 1;
        } else {
            assert(v@.skip(len as int).len() == 0);
            pos = len;
        }
    }
    String::new()
}

/// The first `c` in `a + [c] + b` is the one after `a`, where `a` holds no `c`.
proof fn lemma_index_of_after(a: Seq<char>, c: char, b: Seq<char>)
    requires
        !a.contains(c),
    ensures
        index_of(a + seq![c] + b, c) == Some(a.len() as int),
    decreases a.len(),
{
    let t = a + seq![c] + b;
    if a.len() == 0 {
        assert(t[0] == c);
    } else {
        assert(a.contains(a[0]));
        assert(t[0] == a[0]);
        assert(t.drop_first() =~= a.drop_first() + seq![c] + b);
        assert(!a.drop_first().contains(c)) by {
            if a.drop_first().contains(c) {
                let j = choose|j: int| 0 <= j < a.drop_first().len() && a.drop_first()[j] == c;
                assert(a[j + 1] == c);
            }
        }
        lemma_index_of_after(a.drop_first(), c, b);
    }
}

/// Only lines that begin with the very text `model name` name the
/// processor.
pub proof fn lemma_model_name_prefix_is_model_name()
    ensures
        model_name_prefix() == "model name"@,
{
    reveal_strlit("model name");
    assert(model_name_prefix() =~= "model name"@);
}

/// A first line `model name<label>: <value>` gives the value, trimmed,
/// whatever follows it.
pub proof fn lemma_model_name_first_line(
    label: Seq<char>,
    value: Seq<char>,
    rest: Seq<char>,
)
    requires
        !label.contains('\n'),
        !label.contains(':'),
        !value.contains('\n'),
    ensures
        model_name_in("model name"@ + label + seq![':'] + value + seq!['\n'] + rest) == Some(
            trim(value),
        ),
{
    lemma_model_name_prefix_is_model_name();
    let head = model_name_prefix() + label;
    let line = head + seq![':'] + value;
    let text = line + seq!['\n'] + rest;
    assert(!head.contains('\n') && !head.contains(':')) by {
        if head.contains('\n') || head.contains(':') {
            let j = choose|j: int|
                0 <= j < head.len() && (head[j] == '\n' || head[j] == ':');
            if j >= 10 {
                assert(head[j] == label[j - 10]);
            }
        }
    }
    assert(!line.contains('\n')) by {
        if line.contains('\n') {
            let j = choose|j: int| 0 <= j < line.len() && line[j] == '\n';
            if j < head.len() {
                assert(line[j] == head[j]);
            } else if j > head.len() {
                assert(line[j] == value[j - head.len() - 1]);
            }
        }
    }
    lemma_line_len_first_line(line, rest);
    assert(text.take(line.len() as int) =~= line);
    assert(line.subrange(0, 10) =~= model_name_prefix());
    lemma_index_of_after(head, ':', value);
    assert(line.skip(head.len() + 1int) =~= value);
}

/// A first line that is no `model name` line with a colon is passed over.
pub proof fn lemma_model_name_skips_line(line: Seq<char>, rest: Seq<char>)
    requires
        !line.contains('\n'),
        !(starts_with(line, "model name"@) && line.contains(':')),
    ensures
        model_name_in(line + seq!['\n'] + rest) == model_name_in(rest),
{
    lemma_model_name_prefix_is_model_name();
    let text = line + seq!['\n'] + rest;
    lemma_line_len_first_line(line, rest);
    assert(text.take(line.len() as int) =~= line);
    assert(text.skip(line.len() + 1int) =~= rest);
    if starts_with(line, model_name_prefix()) && index_of(line, ':') is Some {
        lemma_index_of_found(line, ':');
    }
}

/// `line` without a carriage return at its end.
pub open spec fn strip_cr(line: Seq<char>) -> Seq<char> {
    if line.len() > 0 && line.last() == '\r' {
        line.drop_last()
    } else {
        line
    }
}

/// The lines of `text` as `str::lines` gives them: the text split after each
/// newline, the newline and a carriage return just before it dropped, and no
/// empty line after a final newline.
pub open spec fn text_lines(text: Seq<char>) -> Seq<Seq<char>>
    decreases text.len(),
{
    if text.len() == 0 {
        Seq::empty()
    } else if line_len(text) < text.len() {
        seq![strip_cr(text.take(line_len(text) as int))] + text_lines(
            text.skip(line_len(text) + 1int),
        )
    } else {
        seq![text]
    }
}

/// The value of the first of `lines` that starts with `model name` and splits
/// at a colon, split at its first colon and trimmed: `lines.filter(..)
/// .find_map(..split_once(':'))` with the value trimmed.
pub open spec fn first_model_name(lines: Seq<Seq<char>>) -> Option<Seq<char>>
    decreases lines.len(),
{
    if lines.len() == 0 {
        None
    } else if starts_with(lines[0], model_name_prefix()) && index_of(lines[0], ':') is Some {
        Some(trim(lines[0].skip(index_of(lines[0], ':').unwrap() + 1)))
    } else {
        first_model_name(lines.drop_first())
    }
}

/// A carriage return at the end of a line changes neither whether it is a
/// `model name` line with a colon nor the value it gives.
proof fn lemma_strip_cr_same_value(line: Seq<char>)
    ensures
        (starts_with(line, model_name_prefix()) && index_of(line, ':') is Some) == (starts_with(
            strip_cr(line),
            model_name_prefix(),
        ) && index_of(strip_cr(line), ':') is Some),
        starts_with(line, model_name_prefix()) && index_of(line, ':') is Some ==> trim(
            line.skip(index_of(line, ':').unwrap() + 1),
        ) == trim(strip_cr(line).skip(index_of(strip_cr(line), ':').unwrap() + 1)),
{
    if line.len() > 0 && line.last() == '\r' {
        let a = line.drop_last();
        assert(a.push('\r') =~= line);
        lemma_index_of_push_other(a, '\r', ':');
        if a.len() >= 10 {
            assert(line.subrange(0, 10) =~= a.subrange(0, 10));
        } else if line.len() >= 10 {
            assert(line.subrange(0, 10)[9] == '\r');
        }
        if index_of(a, ':') is Some {
            let i = index_of(a, ':').unwrap();
            lemma_index_of_found(a, ':');
            assert(line.skip(i + 1) =~= a.skip(i + 1).push('\r'));
            lemma_trim_push_white(a.skip(i + 1), '\r');
        }
    }
}

/// The processor name that `model_name_in` gives is what the lines of the
/// text give: the value of the first line (as `str::lines` splits the text)
/// that starts with `model name` and holds a colon, after its first colon,
/// trimmed.
pub proof fn lemma_model_name_by_lines(text: Seq<char>)
    ensures
        model_name_in(text) == first_model_name(text_lines(text)),
    decreases text.len(),
{
    if text.len() > 0 {
        let n = line_len(text);
        lemma_line_len_bound(text);
        let line = text.take(n as int);
        if n < text.len() {
            let rest = text.skip(n + 1int);
            lemma_model_name_by_lines(rest);
            let lines = text_lines(text);
            assert(lines[0] == strip_cr(line));
            assert(lines.drop_first() =~= text_lines(rest));
            lemma_strip_cr_same_value(line);
            assert(first_model_name(lines) == if starts_with(strip_cr(line), model_name_prefix())
                && index_of(strip_cr(line), ':') is Some {
                Some(trim(strip_cr(line).skip(index_of(strip_cr(line), ':').unwrap() + 1)))
            } else {
                first_model_name(text_lines(rest))
            });
        } else {
            assert(text.take(n as int) =~= text);
            assert(text_lines(text)[0] == text);
            assert(text_lines(text).drop_first() =~= Seq::<Seq<char>>::empty());
            assert(first_model_name(Seq::<Seq<char>>::empty()) is None);
        }
    }
}

} // verus!
