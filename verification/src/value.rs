//! Values as they leave the document: byte strings that are borrowed where
//! the stored bytes can serve as they are, the removal of quotes and escapes,
//! and the choice among the five kinds of typed value.

use vstd::prelude::*;
use vstd::slice::slice_subrange;

use crate::bytes::{BACKSLASH, QUOTE};

verus! {

/// Why a raw value could not be read as the type that was asked for.
#[derive(Clone, Copy, Debug, PartialEq, Eq, Structural)]
pub enum Error {
    /// A backslash that is followed by nothing, or by a byte other than
    /// `n`, `t`, `b`, `\` and `"`.
    MalformedEscape,
    /// Not one of the words for true or false.
    InvalidBoolean,
    /// Not a decimal number, with or without a suffix.
    InvalidInteger,
    /// A decimal number followed by a byte that is no known suffix.
    InvalidSuffix,
    /// A decimal number that does not fit into 64 bits.
    IntegerOverflow,
    /// A word that is neither a color nor an attribute, or a color behind
    /// an attribute.
    InvalidColor,
    /// A third color.
    TooManyColors,
}

/// A byte string that is either a part of the document or a copy of its own.
#[derive(Clone, Debug, PartialEq, Eq)]
pub enum Bytes<'a> {
    /// The bytes as the document holds them.
    Borrowed(&'a [u8]),
    /// Bytes that had to be made: without quotes, with escapes resolved.
    Owned(Vec<u8>),
}

impl<'a> View for Bytes<'a> {
    type V = Seq<u8>;

    open spec fn view(&self) -> Seq<u8> {
        match self {
            Bytes::Borrowed(s) => s@,
            Bytes::Owned(v) => v@,
        }
    }
}

impl<'a> Bytes<'a> {
    /// The bytes, whoever owns them.
    pub fn as_slice(&self) -> (r: &[u8])
        ensures
            r@ == self@,
    {
        match self {
            Bytes::Borrowed(s) => s,
            Bytes::Owned(v) => v.as_slice(),
        }
    }

    /// True when no copy was made.
    pub fn is_borrowed(&self) -> (r: bool)
        ensures
            r == (self is Borrowed),
    {
        match self {
            Bytes::Borrowed(_) => true,
            Bytes::Owned(_) => false,
        }
    }

    /// The number of bytes.
    pub fn len(&self) -> (r: usize)
        ensures
            r == self@.len(),
    {
        self.as_slice().len()
    }
}

/// What the byte behind a backslash stands for.
pub open spec fn escaped(b: u8) -> Option<u8> {
    if b == 'n' as u8 {
        Some(10u8)
    } else if b == 't' as u8 {
        Some(9u8)
    } else if b == 'b' as u8 {
        Some(8u8)
    } else if b == BACKSLASH || b == QUOTE {
        Some(b)
    } else {
        None
    }
}

/// `bytes` in front of what `rest` came to.
pub open spec fn prepend(bytes: Seq<u8>, rest: Option<Seq<u8>>) -> Option<Seq<u8>> {
    match rest {
        Some(rest) => Some(bytes + rest),
        None => None,
    }
}

/// The text of `raw` from `i` on: quotes are left out, a backslash and the
/// byte behind it become the byte they stand for, all else stays. `None`
/// where a backslash is followed by nothing that it could stand for.
pub open spec fn unquoted_from(raw: Seq<u8>, i: int) -> Option<Seq<u8>>
    decreases raw.len() - i,
{
    if i < 0 || i >= raw.len() {
        Some(Seq::empty())
    } else if raw[i] == QUOTE {
        unquoted_from(raw, i + 1)
    } else if raw[i] == BACKSLASH {
        if i + 1 < raw.len() && escaped(raw[i + 1]) is Some {
            prepend(seq![escaped(raw[i + 1])->0], unquoted_from(raw, i + 2))
        } else {
            None
        }
    } else {
        prepend(seq![raw[i]], unquoted_from(raw, i + 1))
    }
}

/// The text that the raw value `raw` stands for.
pub open spec fn unquoted(raw: Seq<u8>) -> Option<Seq<u8>> {
    unquoted_from(raw, 0)
}

/// Neither a quote nor a backslash occurs in `s`.
pub open spec fn is_plain(s: Seq<u8>) -> bool {
    forall|i: int| 0 <= i < s.len() ==> s[i] != QUOTE && s[i] != BACKSLASH
}

/// `raw` is plain text between one pair of quotes.
pub open spec fn is_plain_in_quotes(raw: Seq<u8>) -> bool {
    &&& raw.len() >= 2
    &&& raw[0] == QUOTE
    &&& raw[raw.len() - 1] == QUOTE
    &&& is_plain(raw.subrange(1, raw.len() - 1))
}

/// The text of `raw` is a part of `raw` itself, so that no copy is needed.
pub open spec fn needs_no_copy(raw: Seq<u8>) -> bool {
    is_plain(raw) || is_plain_in_quotes(raw)
}

/// Plain bytes stand for themselves.
pub proof fn lemma_plain_is_unquoted(raw: Seq<u8>, i: int, end: int)
    requires
        0 <= i <= end <= raw.len(),
        is_plain(raw.subrange(i, end)),
    ensures
        unquoted_from(raw, i) == prepend(raw.subrange(i, end), unquoted_from(raw, end)),
    decreases end - i,
{
    if i < end {
        assert(raw.subrange(i, end)[0] == raw[i]);
        let tail = raw.subrange(i + 1, end);
        assert forall|k: int| 0 <= k < tail.len() implies #[trigger] tail[k] != QUOTE && tail[k]
            != BACKSLASH by {
            assert(tail[k] == raw.subrange(i, end)[k + 1]);
        }
        lemma_plain_is_unquoted(raw, i + 1, end);
        match unquoted_from(raw, end) {
            Some(rest) => {
                assert(seq![raw[i]] + (raw.subrange(i + 1, end) + rest) =~= raw.subrange(i, end)
                    + rest);
            },
            None => {},
        }
    } else {
        match unquoted_from(raw, end) {
            Some(rest) => {
                assert(raw.subrange(i, end) + rest =~= rest);
            },
            None => {},
        }
    }
}

fn plain(s: &[u8]) -> (r: bool)
    ensures
        r == is_plain(s@),
{
    let mut i: usize = 0;
    while i < s.len()
        invariant
            i <= s.len(),
            forall|k: int| 0 <= k < i ==> s[k] != QUOTE && s[k] != BACKSLASH,
        decreases s.len() - i,
    {
        if s[i] == QUOTE || s[i] == BACKSLASH {
            return false;
        }
        i += 1;
    }
    true
}

fn unescape(b: u8) -> (r: Option<u8>)
    ensures
        r == escaped(b),
{
    if b == 'n' as u8 {
        Some(10)
    } else if b == 't' as u8 {
        Some(9)
    } else if b == 'b' as u8 {
        Some(8)
    } else if b == BACKSLASH || b == QUOTE {
        Some(b)
    } else {
        None
    }
}

/// Removes the quotes of `raw` and resolves its escapes. Where `raw` is
/// plain, or plain between one pair of quotes, the result is a part of `raw`;
/// otherwise it is a copy.
pub fn normalize<'a>(raw: &'a [u8]) -> (r: Result<Bytes<'a>, Error>)
    ensures
        match r {
            Ok(text) => unquoted(raw@) == Some(text@) && (text is Borrowed <==> needs_no_copy(
                raw@,
            )),
            Err(e) => unquoted(raw@) is None && e == Error::MalformedEscape,
        },
{
    let n = raw.len();
    if plain(raw) {
        proof {
            assert(raw@.subrange(0, n as int) =~= raw@);
            lemma_plain_is_unquoted(raw@, 0, n as int);
            assert(raw@ + Seq::<u8>::empty() =~= raw@);
        }
        return Ok(Bytes::Borrowed(raw));
    }
    if n >= 2 && raw[0] == QUOTE && raw[n - 1] == QUOTE {
        let inner = slice_subrange(raw, 1, n - 1);
        if plain(inner) {
            proof {
                lemma_plain_is_unquoted(raw@, 1, n - 1);
                assert(unquoted_from(raw@, n as int) == Some(Seq::<u8>::empty()));
                assert(unquoted_from(raw@, n - 1) == Some(Seq::<u8>::empty()));
                assert(inner@ + Seq::<u8>::empty() =~= inner@);
            }
            return Ok(Bytes::Borrowed(inner));
        }
    }
    let mut out: Vec<u8> = Vec::new();
    let mut i: usize = 0;
    assert(prepend(out@, unquoted_from(raw@, 0)) == unquoted(raw@)) by {
        match unquoted_from(raw@, 0) {
            Some(rest) => {
                assert(out@ + rest =~= rest);
            },
            None => {},
        }
    }
    while i < n
        invariant
            n == raw.len(),
            i <= n,
            prepend(out@, unquoted_from(raw@, i as int)) == unquoted(raw@),
        decreases n - i,
    {
        let b = raw[i];
        let ghost before = out@;
        if b == QUOTE {
            i += 1;
        } else if b == BACKSLASH {
            if i + 1 >= n {
                return Err(Error::MalformedEscape);
            }
            match unescape(raw[i + 1]) {
                Some(c) => {
                    out.push(c);
                    proof {
                        match unquoted_from(raw@, i + 2) {
                            Some(rest) => {
                                assert(before + (seq![c] + rest) =~= before.push(c) + rest);
                            },
                            None => {},
                        }
                    }
                    i += 2;
                },
                None => {
                    return Err(Error::MalformedEscape);
                },
            }
        } else {
            out.push(b);
            proof {
                match unquoted_from(raw@, i + 1) {
                    Some(rest) => {
                        assert(before + (seq![b] + rest) =~= before.push(b) + rest);
                    },
                    None => {},
                }
            }
            i += 1;
        }
    }
    assert(out@ + Seq::<u8>::empty() =~= out@);
    Ok(Bytes::Owned(out))
}

} // verus!
