//! Text as a sequence of characters: conversion, whitespace, trimming and
//! lines.

use vstd::prelude::*;

verus! {

/// Whether `c` has the Unicode property `White_Space`.
pub open spec fn is_whitespace(c: char) -> bool {
    let n = c as u32;
    (0x09 <= n <= 0x0D) || n == 0x20 || n == 0x85 || n == 0xA0 || n == 0x1680 || (0x2000 <= n
        <= 0x200A) || n == 0x2028 || n == 0x2029 || n == 0x202F || n == 0x205F || n == 0x3000
}

/// `s` without the whitespace at its start.
pub open spec fn trim_start(s: Seq<char>) -> Seq<char>
    decreases s.len(),
{
    if s.len() > 0 && is_whitespace(s[0]) {
        trim_start(s.drop_first())
    } else {
        s
    }
}

/// `s` without the whitespace at its end.
pub open spec fn trim_end(s: Seq<char>) -> Seq<char>
    decreases s.len(),
{
    if s.len() > 0 && is_whitespace(s.last()) {
        trim_end(s.drop_last())
    } else {
        s
    }
}

/// `s` without the whitespace at its start and at its end.
pub open spec fn trimmed(s: Seq<char>) -> Seq<char> {
    trim_end(trim_start(s))
}

/// The number of characters before the first line feed of `s`, or the
/// length of `s` where it holds none.
pub open spec fn line_end(s: Seq<char>) -> nat
    decreases s.len(),
{
    if s.len() == 0 || s[0] == '\n' {
        0
    } else {
        1 + line_end(s.drop_first())
    }
}

/// `line` without a carriage return at its end.
pub open spec fn without_cr(line: Seq<char>) -> Seq<char> {
    if line.len() > 0 && line.last() == '\r' {
        line.drop_last()
    } else {
        line
    }
}

/// The lines of `s`. A line ends at a line feed, or at a carriage return
/// directly followed by one; neither belongs to the line. The last line
/// needs no line ending, and an empty rest after the last line ending is
/// no line.
pub open spec fn lines(s: Seq<char>) -> Seq<Seq<char>>
    decreases s.len(),
{
    if s.len() == 0 {
        Seq::empty()
    } else {
        let end = line_end(s);
        if end >= s.len() {
            seq![s]
        } else {
            seq![without_cr(s.take(end as int))] + lines(s.skip(end as int + 1))
        }
    }
}

/// The number of leading whitespace characters bounds `trim_start`.
pub proof fn lemma_trim_start(s: Seq<char>, from: int)
    requires
        0 <= from <= s.len(),
        forall|i: int| 0 <= i < from ==> is_whitespace(#[trigger] s[i]),
        from == s.len() || !is_whitespace(s[from]),
    ensures
        trim_start(s) == s.skip(from),
    decreases from,
{
    if from == 0 {
        assert(s.skip(0) == s);
    } else {
        let rest = s.drop_first();
        assert forall|i: int| 0 <= i < from - 1 implies is_whitespace(#[trigger] rest[i]) by {
            assert(rest[i] == s[i + 1]);
        }
        lemma_trim_start(rest, from - 1);
        assert(rest.skip(from - 1) == s.skip(from));
    }
}

/// The number of trailing whitespace characters bounds `trim_end`.
pub proof fn lemma_trim_end(s: Seq<char>, to: int)
    requires
        0 <= to <= s.len(),
        forall|i: int| to <= i < s.len() ==> is_whitespace(#[trigger] s[i]),
        to == 0 || !is_whitespace(s[to - 1]),
    ensures
        trim_end(s) == s.take(to),
    decreases s.len() - to,
{
    if to == s.len() {
        assert(s.take(to) == s);
    } else {
        let rest = s.drop_last();
        lemma_trim_end(rest, to);
        assert(rest.take(to) == s.take(to));
    }
}

/// The first line feed of `s` is where `line_end` says.
pub proof fn lemma_line_end(s: Seq<char>, end: int)
    requires
        0 <= end <= s.len(),
        forall|i: int| 0 <= i < end ==> #[trigger] s[i] != '\n',
        end == s.len() || s[end] == '\n',
    ensures
        line_end(s) == end,
    decreases end,
{
    if end > 0 {
        let rest = s.drop_first();
        assert forall|i: int| 0 <= i < end - 1 implies #[trigger] rest[i] != '\n' by {
            assert(rest[i] == s[i + 1]);
        }
        lemma_line_end(rest, end - 1);
    }
}

/// The characters of `s`.
pub fn chars_of(s: &str) -> (chars: Vec<char>)
    ensures
        chars@ == s@,
{
    let mut chars: Vec<char> = Vec::new();
    for c in it: s.chars()
        invariant
            it.seq() == s@,
            chars@ == s@.take(it.index()),
    {
        chars.push(c);
    }
    chars
}

/// The string that holds `chars`.
pub fn string_of(chars: &[char]) -> (s: String)
    ensures
        s@ == chars@,
{
    let mut s = String::new();
    let mut i: usize = 0;
    while i < chars.len()
        invariant
            i <= chars@.len(),
            s@ == chars@.take(i as int),
        decreases chars@.len() - i,
    {
        s.push(chars[i]);
        i += 1;
    }
    s
}

/// Whether `c` is whitespace.
pub fn is_whitespace_char(c: char) -> (b: bool)
    ensures
        b == is_whitespace(c),
{
    let n: u32 = c as u32;
    (0x09 <= n && n <= 0x0D) || n == 0x20 || n == 0x85 || n == 0xA0 || n == 0x1680 || (0x2000 <= n
        && n <= 0x200A) || n == 0x2028 || n == 0x2029 || n == 0x202F || n == 0x205F || n
        == 0x3000
}

/// The part of `chars` between its leading and its trailing whitespace.
pub fn trim(chars: &[char]) -> (r: &[char])
    ensures
        r@ == trimmed(chars@),
{
    let n = chars.len();
    let mut from: usize = 0;
    while from < n && is_whitespace_char(chars[from])
        invariant
            from <= n,
            n == chars@.len(),
            forall|i: int| 0 <= i < from ==> is_whitespace(#[trigger] chars@[i]),
        decreases n - from,
    {
        from += 1;
    }
    let mut to: usize = n;
    while to > from && is_whitespace_char(chars[to - 1])
        invariant
            from <= to <= n,
            n == chars@.len(),
            forall|i: int| to <= i < n ==> is_whitespace(#[trigger] chars@[i]),
        decreases to,
    {
        to -= 1;
    }
    proof {
        let s = chars@;
        lemma_trim_start(s, from as int);
        let t = s.skip(from as int);
        assert forall|i: int| to - from <= i < t.len() implies is_whitespace(#[trigger] t[i]) by {
            assert(t[i] == s[i + from]);
        }
        lemma_trim_end(t, to - from);
        assert(t.take(to - from) == s.subrange(from as int, to as int));
    }
    vstd::slice::slice_subrange(chars, from, to)
}

/// The lines of `chars`, each as a vector of its own.
pub fn split_lines(chars: &[char]) -> (out: Vec<Vec<char>>)
    ensures
        out@.len() == lines(chars@).len(),
        forall|k: int| 0 <= k < out@.len() ==> (#[trigger] out@[k])@ == lines(chars@)[k],
{
    let n = chars.len();
    let mut out: Vec<Vec<char>> = Vec::new();
    let mut pos: usize = 0;
    let ghost mut done: Seq<Seq<char>> = Seq::empty();
    proof {
        assert(chars@.skip(0) == chars@);
        assert(done + lines(chars@) == lines(chars@));
    }
    while pos < n
        invariant
            pos <= n,
            n == chars@.len(),
            lines(chars@) == done + lines(chars@.skip(pos as int)),
            out@.len() == done.len(),
            forall|k: int| 0 <= k < out@.len() ==> (#[trigger] out@[k])@ == done[k],
        decreases n - pos,
    {
        let ghost rest = chars@.skip(pos as int);
        let mut end: usize = pos;
        while end < n && chars[end] != '\n'
            invariant
                pos <= end <= n,
                n == chars@.len(),
                forall|i: int| pos <= i < end ==> #[trigger] chars@[i] != '\n',
            decreases n - end,
        {
            end += 1;
        }
        proof {
            assert forall|i: int| 0 <= i < end - pos implies #[trigger] rest[i] != '\n' by {
                assert(rest[i] == chars@[i + pos]);
            }
            lemma_line_end(rest, end - pos);
        }
        let mut stop: usize = end;
        if end < n && end > pos && chars[end - 1] == '\r' {
            stop = end - 1;
        }
        let line = vstd::slice::slice_to_vec(vstd::slice::slice_subrange(chars, pos, stop));
        proof {
            let whole = rest.take(end - pos);
            assert(whole == chars@.subrange(pos as int, end as int));
            if end < n {
                assert(line@ == without_cr(whole)) by {
                    if end > pos {
                        assert(whole.last() == chars@[end - 1]);
                        assert(whole.drop_last() == chars@.subrange(pos as int, end - 1));
                    }
                }
                assert(rest.skip(end - pos + 1) == chars@.skip(end + 1));
                assert(lines(rest) == seq![line@] + lines(chars@.skip(end + 1)));
                assert(done + (seq![line@] + lines(chars@.skip(end + 1))) == done.push(line@)
                    + lines(chars@.skip(end + 1)));
            } else {
                assert(whole == rest);
                assert(lines(rest) == seq![line@]);
                assert(chars@.skip(n as int).len() == 0);
                assert(lines(chars@.skip(n as int)) == Seq::<Seq<char>>::empty());
                assert(done + seq![line@] == done.push(line@) + Seq::<Seq<char>>::empty());
            }
            done = done.push(line@);
        }
        out.push(line);
        if end < n {
            pos = end + 1;
        } else {
            pos = n;
        }
    }
    proof {
        assert(chars@.skip(n as int).len() == 0);
        assert(done + Seq::<Seq<char>>::empty() == done);
    }
    out
}

} // verus!
