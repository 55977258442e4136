//! Small verified helpers on byte strings.

use bstr::ByteSlice;
use vstd::prelude::*;
use vstd::slice::slice_subrange;

verus! {

/// The byte of horizontal tab.
pub const TAB: u8 = 9;

/// The byte of line feed.
pub const NEWLINE: u8 = 10;

/// The byte of carriage return.
pub const CARRIAGE_RETURN: u8 = 13;

/// The byte of space.
pub const SPACE: u8 = 32;

/// The byte of `!`.
pub const BANG: u8 = 33;

/// The byte of `"`.
pub const QUOTE: u8 = 34;

/// The byte of `#`.
pub const HASH: u8 = 35;

/// The byte of `%`.
pub const PERCENT: u8 = 37;

/// The byte of `&`.
pub const AMPERSAND: u8 = 38;

/// The byte of `'`.
pub const APOSTROPHE: u8 = 39;

/// The byte of `(`.
pub const OPEN_PAREN: u8 = 40;

/// The byte of `)`.
pub const CLOSE_PAREN: u8 = 41;

/// The byte of `+`.
pub const PLUS: u8 = 43;

/// The byte of `,`.
pub const COMMA: u8 = 44;

/// The byte of `-`.
pub const MINUS: u8 = 45;

/// The byte of `.`.
pub const DOT: u8 = 46;

/// The byte of `/`.
pub const SLASH: u8 = 47;

/// The byte of `:`.
pub const COLON: u8 = 58;

/// The byte of `;`.
pub const SEMICOLON: u8 = 59;

/// The byte of `<`.
pub const LESS: u8 = 60;

/// The byte of `=`.
pub const EQUALS: u8 = 61;

/// The byte of `>`.
pub const GREATER: u8 = 62;

/// The byte of `@`.
pub const AT: u8 = 64;

/// The byte of `[`.
pub const OPEN_BRACKET: u8 = 91;

/// The byte of `\\`.
pub const BACKSLASH: u8 = 92;

/// The byte of `]`.
pub const CLOSE_BRACKET: u8 = 93;

/// The byte of `^`.
pub const CARET: u8 = 94;

/// The byte of `_`.
pub const UNDERSCORE: u8 = 95;

/// The byte of a backtick.
pub const BACKTICK: u8 = 96;

/// The byte of `~`.
pub const TILDE: u8 = 126;

/// `p` stands at the start of `s`.
pub open spec fn has_prefix(s: Seq<u8>, p: Seq<u8>) -> bool {
    p.len() <= s.len() && s.subrange(0, p.len() as int) == p
}

/// Lower-case form of an ASCII letter; every other byte is itself.
pub open spec fn lower(b: u8) -> u8 {
    if 0x41 <= b <= 0x5a {
        (b + 32) as u8
    } else {
        b
    }
}

/// The two strings are equal once ASCII letters are folded to lower case.
pub open spec fn eq_ignore_case(a: Seq<u8>, b: Seq<u8>) -> bool {
    a.len() == b.len() && forall|i: int| 0 <= i < a.len() ==> lower(#[trigger] a[i]) == lower(b[i])
}

/// Equality up to case goes on from one pair to the next.
pub proof fn lemma_eq_ignore_case_transitive(a: Seq<u8>, b: Seq<u8>, c: Seq<u8>)
    requires
        eq_ignore_case(b, c),
    ensures
        eq_ignore_case(a, b) ==> eq_ignore_case(a, c),
{
    if eq_ignore_case(a, b) {
        assert forall|i: int| 0 <= i < a.len() implies lower(#[trigger] a[i]) == lower(c[i]) by {
            assert(lower(a[i]) == lower(b[i]));
            assert(lower(b[i]) == lower(c[i]));
        }
    }
}

/// `i` is the index of the first `b` in `s`.
pub open spec fn is_first_index_of(s: Seq<u8>, b: u8, i: int) -> bool {
    &&& 0 <= i < s.len()
    &&& s[i] == b
    &&& forall|j: int| 0 <= j < i ==> s[j] != b
}

/// Index of the first `b` in `s`, if there is one.
pub open spec fn first_index_of(s: Seq<u8>, b: u8) -> Option<int> {
    if exists|i: int| is_first_index_of(s, b, i) {
        Some(choose|i: int| is_first_index_of(s, b, i))
    } else {
        None
    }
}

/// There is one first index at most, and there is one where `b` occurs.
pub proof fn lemma_first_index_of(s: Seq<u8>, b: u8)
    ensures
        forall|i: int| is_first_index_of(s, b, i) ==> first_index_of(s, b) == Some(i),
        first_index_of(s, b) is None ==> forall|j: int| 0 <= j < s.len() ==> s[j] != b,
{
    assert forall|i: int| is_first_index_of(s, b, i) implies first_index_of(s, b) == Some(i) by {
        let c = choose|c: int| is_first_index_of(s, b, c);
        assert(is_first_index_of(s, b, c));
        if c < i {
            assert(s[c] != b);
        }
        if i < c {
            assert(s[i] != b);
        }
    }
    if first_index_of(s, b) is None {
        assert forall|j: int| 0 <= j < s.len() implies s[j] != b by {
            if s[j] == b {
                lemma_occurrence_has_first(s, b, j);
            }
        }
    }
}

/// Where `b` occurs at `j`, some index up to `j` is the first that holds it.
pub proof fn lemma_occurrence_has_first(s: Seq<u8>, b: u8, j: int)
    requires
        0 <= j < s.len(),
        s[j] == b,
    ensures
        exists|i: int| 0 <= i <= j && is_first_index_of(s, b, i),
    decreases j,
{
    if exists|k: int| 0 <= k < j && s[k] == b {
        let k = choose|k: int| 0 <= k < j && s[k] == b;
        lemma_occurrence_has_first(s, b, k);
    } else {
        assert(is_first_index_of(s, b, j));
    }
}

/// `bstr::ByteSlice::find` with a needle of one byte: the index of the first
/// occurrence of `needle` in `haystack`, and `None` where it does not occur.
#[verifier::external_body]
pub(crate) fn find_byte(haystack: &[u8], needle: u8) -> (r: Option<usize>)
    ensures
        match r {
            Some(i) => is_first_index_of(haystack@, needle, i as int),
            None => forall|j: int| 0 <= j < haystack.len() ==> haystack[j] != needle,
        },
{
    haystack.find([needle])
}

/// `s` with its ASCII letters in lower case.
pub open spec fn lowercase(s: Seq<u8>) -> Seq<u8> {
    s.map_values(|b: u8| lower(b))
}

/// A byte that parts words: space, tab, line feed, vertical tab, form feed
/// or carriage return.
pub open spec fn is_space(b: u8) -> bool {
    b == SPACE || (TAB <= b <= CARRIAGE_RETURN)
}

/// The words of `s` from `i` on, where `start` is the index at which the
/// word began that `i` stands in, if it stands in one.
pub open spec fn words_from(s: Seq<u8>, start: Option<int>, i: int) -> Seq<Seq<u8>>
    decreases s.len() - i,
{
    if i >= s.len() {
        match start {
            Some(start) => seq![s.subrange(start, s.len() as int)],
            None => Seq::empty(),
        }
    } else if is_space(s[i]) {
        match start {
            Some(start) => seq![s.subrange(start, i)] + words_from(s, None, i + 1),
            None => words_from(s, None, i + 1),
        }
    } else {
        match start {
            Some(start) => words_from(s, Some(start), i + 1),
            None => words_from(s, Some(i), i + 1),
        }
    }
}

/// The words of `s`: its longest runs of bytes that are no space.
pub open spec fn words(s: Seq<u8>) -> Seq<Seq<u8>> {
    words_from(s, None, 0)
}

/// The byte strings that a list of slices holds.
pub open spec fn slices_view(v: Seq<&[u8]>) -> Seq<Seq<u8>> {
    v.map_values(|s: &[u8]| s@)
}

/// True for a byte that parts words.
pub fn space(b: u8) -> (r: bool)
    ensures
        r == is_space(b),
{
    b == SPACE || (b >= TAB && b <= CARRIAGE_RETURN)
}

/// Cuts `s` into its words.
pub fn split_words<'a>(s: &'a [u8]) -> (r: Vec<&'a [u8]>)
    ensures
        slices_view(r@) == words(s@),
{
    let mut out: Vec<&'a [u8]> = Vec::new();
    let mut start: Option<usize> = None;
    let mut i: usize = 0;
    assert(slices_view(out@) + words_from(s@, None, 0) =~= words(s@));
    while i < s.len()
        invariant
            i <= s.len(),
            start matches Some(at) ==> at < i,
            slices_view(out@) + words_from(
                s@,
                match start {
                    Some(at) => Some(at as int),
                    None => None,
                },
                i as int,
            ) == words(s@),
        decreases s.len() - i,
    {
        if space(s[i]) {
            match start {
                Some(at) => {
                    let ghost before = out@;
                    let word = slice_subrange(s, at, i);
                    out.push(word);
                    proof {
                        assert(slices_view(out@) =~= slices_view(before).push(word@));
                        assert(slices_view(before).push(word@) + words_from(s@, None, i + 1)
                            =~= slices_view(before) + (seq![word@] + words_from(s@, None, i + 1)));
                    }
                    start = None;
                },
                None => {},
            }
        } else {
            match start {
                Some(_) => {},
                None => {
                    start = Some(i);
                },
            }
        }
        i += 1;
    }
    match start {
        Some(at) => {
            let ghost before = out@;
            let word = slice_subrange(s, at, s.len());
            out.push(word);
            proof {
                assert(slices_view(out@) =~= slices_view(before).push(word@));
                assert(slices_view(before).push(word@) =~= slices_view(before) + seq![word@]);
            }
        },
        None => {
            assert(slices_view(out@) + Seq::<Seq<u8>>::empty() =~= slices_view(out@));
        },
    }
    out
}

/// Appends the bytes of `s` to `out`.
pub fn append(out: &mut Vec<u8>, s: &[u8])
    ensures
        final(out)@ == old(out)@ + s@,
{
    let mut i: usize = 0;
    while i < s.len()
        invariant
            i <= s.len(),
            out@ == old(out)@ + s@.subrange(0, i as int),
        decreases s.len() - i,
    {
        out.push(s[i]);
        assert(s@.subrange(0, i + 1) =~= s@.subrange(0, i as int).push(s[i as int]));
        i += 1;
    }
    assert(s@.subrange(0, s.len() as int) =~= s@);
}

/// A copy of `s` with its ASCII letters in lower case.
pub fn to_lowercase(s: &[u8]) -> (r: Vec<u8>)
    ensures
        r@ == lowercase(s@),
{
    let mut out: Vec<u8> = Vec::new();
    let mut i: usize = 0;
    while i < s.len()
        invariant
            i <= s.len(),
            out@.len() == i,
            forall|k: int| 0 <= k < i ==> out@[k] == lower(s[k]),
        decreases s.len() - i,
    {
        out.push(to_lower(s[i]));
        i += 1;
    }
    assert(out@ =~= lowercase(s@));
    out
}

/// Lower-case form of `b`.
pub fn to_lower(b: u8) -> (r: u8)
    ensures
        r == lower(b),
{
    if b >= 0x41 && b <= 0x5a {
        b + 32
    } else {
        b
    }
}

/// Byte-for-byte equality.
pub fn equal(a: &[u8], b: &[u8]) -> (r: bool)
    ensures
        r == (a@ == b@),
{
    if a.len() != b.len() {
        return false;
    }
    let mut i: usize = 0;
    while i < a.len()
        invariant
            a.len() == b.len(),
            i <= a.len(),
            forall|k: int| 0 <= k < i ==> a[k] == b[k],
        decreases a.len() - i,
    {
        if a[i] != b[i] {
            return false;
        }
        i += 1;
    }
    assert(a@ =~= b@);
    true
}

/// Equality up to the case of ASCII letters.
pub fn equal_ignore_case(a: &[u8], b: &[u8]) -> (r: bool)
    ensures
        r == eq_ignore_case(a@, b@),
{
    if a.len() != b.len() {
        return false;
    }
    let mut i: usize = 0;
    while i < a.len()
        invariant
            a.len() == b.len(),
            i <= a.len(),
            forall|k: int| 0 <= k < i ==> lower(#[trigger] a[k]) == lower(b[k]),
        decreases a.len() - i,
    {
        if to_lower(a[i]) != to_lower(b[i]) {
            return false;
        }
        i += 1;
    }
    true
}

/// True when `s` begins with `prefix`.
pub fn starts_with(s: &[u8], prefix: &[u8]) -> (r: bool)
    ensures
        r == has_prefix(s@, prefix@),
{
    if prefix.len() > s.len() {
        return false;
    }
    equal(slice_subrange(s, 0, prefix.len()), prefix)
}

} // verus!
