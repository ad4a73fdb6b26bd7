//! Bytes as text that survives storage in text-oriented places: padded
//! base64, broken into lines of 64 characters.

use crate::backend::{
    base64_encodable, base64_standard_bytes, base64_standard_decode, base64_standard_encode,
    base64_standard_text, is_base64_standard_char,
};
use crate::error::VaultError;
use crate::text::chars_of;
use vstd::prelude::*;

verus! {

/// The number of characters on a full line.
pub const LINE_WIDTH: usize = 64;

/// Whether `c` is a line feed or a carriage return.
pub open spec fn is_break(c: char) -> bool {
    c == '\n' || c == '\r'
}

/// `text` with a line feed after every 64 characters that others follow.
pub open spec fn wrapped(text: Seq<char>) -> Seq<char>
    decreases text.len(),
{
    if text.len() <= LINE_WIDTH {
        text
    } else {
        text.take(LINE_WIDTH as int) + seq!['\n'] + wrapped(text.skip(LINE_WIDTH as int))
    }
}

/// `text` without its line feeds and carriage returns.
pub open spec fn without_breaks(text: Seq<char>) -> Seq<char>
    decreases text.len(),
{
    if text.len() == 0 {
        Seq::empty()
    } else if is_break(text.last()) {
        without_breaks(text.drop_last())
    } else {
        without_breaks(text.drop_last()).push(text.last())
    }
}

/// The bytes that wrapped text stands for: the line breaks are taken
/// out, and the rest is read as padded base64.
pub open spec fn unwrapped(text: Seq<char>) -> Result<Seq<u8>, VaultError> {
    match base64_standard_bytes(without_breaks(text)) {
        Some(bytes) => Ok(bytes),
        None => Err(VaultError::EncodingError),
    }
}

/// The bytes in `r`, or its error.
pub open spec fn bytes_view(r: Result<Vec<u8>, VaultError>) -> Result<Seq<u8>, VaultError> {
    match r {
        Ok(bytes) => Ok(bytes@),
        Err(e) => Err(e),
    }
}

/// Taking the breaks out of two texts in a row is taking them out of each.
pub proof fn lemma_without_breaks_add(a: Seq<char>, b: Seq<char>)
    ensures
        without_breaks(a + b) == without_breaks(a) + without_breaks(b),
    decreases b.len(),
{
    if b.len() == 0 {
        assert(a + b == a);
        assert(without_breaks(a) + without_breaks(b) == without_breaks(a));
    } else {
        let whole = a + b;
        assert(whole.drop_last() == a + b.drop_last());
        assert(whole.last() == b.last());
        lemma_without_breaks_add(a, b.drop_last());
        if !is_break(b.last()) {
            assert((without_breaks(a) + without_breaks(b.drop_last())).push(b.last())
                == without_breaks(a) + without_breaks(b.drop_last()).push(b.last()));
        }
    }
}

/// Text that holds no break is left as it is.
pub proof fn lemma_without_breaks_none(text: Seq<char>)
    requires
        forall|i: int| 0 <= i < text.len() ==> !is_break(#[trigger] text[i]),
    ensures
        without_breaks(text) == text,
    decreases text.len(),
{
    if text.len() > 0 {
        lemma_without_breaks_none(text.drop_last());
        assert(text.drop_last().push(text.last()) == text);
    }
}

/// Wrapping text that holds no break, and taking the breaks out again,
/// gives the text back.
pub proof fn lemma_wrap_round_trip(text: Seq<char>)
    requires
        forall|i: int| 0 <= i < text.len() ==> !is_break(#[trigger] text[i]),
    ensures
        without_breaks(wrapped(text)) == text,
    decreases text.len(),
{
    if text.len() <= LINE_WIDTH {
        lemma_without_breaks_none(text);
    } else {
        let head = text.take(LINE_WIDTH as int);
        let tail = text.skip(LINE_WIDTH as int);
        let feed = seq!['\n'];
        lemma_wrap_round_trip(tail);
        lemma_without_breaks_none(head);
        lemma_without_breaks_add(head + feed, wrapped(tail));
        lemma_without_breaks_add(head, feed);
        assert(without_breaks(feed) == Seq::<char>::empty()) by {
            assert(feed.last() == '\n');
            assert(feed.drop_last().len() == 0);
            assert(without_breaks(feed.drop_last()) == Seq::<char>::empty());
        }
        assert(head + Seq::<char>::empty() + tail == text);
    }
}

/// `text` with a line feed after every 64 characters that others follow.
pub fn wrap_lines(text: &str) -> (out: String)
    ensures
        out@ == wrapped(text@),
{
    let chars = chars_of(text);
    let n = chars.len();
    let mut out = String::new();
    let mut pos: usize = 0;
    proof {
        assert(chars@.skip(0) == chars@);
        assert(out@ + wrapped(chars@) == wrapped(chars@));
    }
    while n - pos > 64
        invariant
            pos <= n == chars@.len(),
            wrapped(chars@) == out@ + wrapped(chars@.skip(pos as int)),
        decreases n - pos,
    {
        let ghost before = out@;
        let ghost rest = chars@.skip(pos as int);
        let mut i: usize = 0;
        while i < 64
            invariant
                i <= 64,
                pos + 64 < n == chars@.len(),
                out@ == before + chars@.subrange(pos as int, pos + i),
            decreases 64 - i,
        {
            out.push(chars[pos + i]);
            assert(chars@.subrange(pos as int, pos + i + 1) == chars@.subrange(
                pos as int,
                pos + i,
            ).push(chars@[pos + i]));
            i += 1;
        }
        out.push('\n');
        proof {
            assert(rest.take(64) == chars@.subrange(pos as int, pos + 64));
            assert(rest.skip(64) == chars@.skip(pos + 64));
            assert(out@ == before + (rest.take(64) + seq!['\n']));
            assert(before + (rest.take(64) + seq!['\n'] + wrapped(rest.skip(64))) == out@
                + wrapped(rest.skip(64)));
        }
        pos += 64;
    }
    let ghost before = out@;
    let mut i: usize = pos;
    while i < n
        invariant
            pos <= i <= n == chars@.len(),
            out@ == before + chars@.subrange(pos as int, i as int),
        decreases n - i,
    {
        out.push(chars[i]);
        assert(chars@.subrange(pos as int, i + 1) == chars@.subrange(pos as int, i as int).push(
            chars@[i as int],
        ));
        i += 1;
    }
    assert(chars@.subrange(pos as int, n as int) == chars@.skip(pos as int));
    out
}

/// `text` without its line feeds and carriage returns.
pub fn strip_breaks(text: &str) -> (out: String)
    ensures
        out@ == without_breaks(text@),
{
    let mut out = String::new();
    for c in it: text.chars()
        invariant
            it.seq() == text@,
            out@ == without_breaks(text@.take(it.index())),
    {
        let ghost i = it.index();
        assert(text@.take(i + 1).drop_last() == text@.take(i));
        assert(text@.take(i + 1).last() == c);
        if c != '\n' && c != '\r' {
            out.push(c);
        }
    }
    assert(text@.take(text@.len() as int) == text@);
    out
}

/// `bytes` as padded base64 in lines of 64 characters. `unwrap` reads
/// the same bytes from the result.
pub fn wrap(bytes: &[u8]) -> (text: String)
    requires
        base64_encodable(bytes@.len()),
    ensures
        text@ == wrapped(base64_standard_text(bytes@)),
        unwrapped(text@) == Ok::<Seq<u8>, VaultError>(bytes@),
{
    let encoded = base64_standard_encode(bytes);
    proof {
        assert forall|i: int| 0 <= i < encoded@.len() implies !is_break(#[trigger] encoded@[i]) by {
            assert(is_base64_standard_char(encoded@[i]));
        }
        lemma_wrap_round_trip(encoded@);
    }
    wrap_lines(encoded.as_str())
}

/// The bytes that wrapped text stands for. Line feeds and carriage
/// returns may stand anywhere in it; any other character outside the
/// base64 alphabet, and wrong padding, make the text no encoding.
pub fn unwrap(text: &str) -> (r: Result<Vec<u8>, VaultError>)
    ensures
        bytes_view(r) == unwrapped(text@),
{
    let cleaned = strip_breaks(text);
    match base64_standard_decode(cleaned.as_str()) {
        Ok(bytes) => Ok(bytes),
        Err(_) => Err(VaultError::EncodingError),
    }
}

} // verus!
