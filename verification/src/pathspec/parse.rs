//! The parser of pathspecs.

use vstd::prelude::*;
use vstd::slice::{slice_subrange, slice_to_vec};
use vstd::string::StringSliceAdditionalSpecFns;

use crate::bytes::{
    equal, find_byte, first_index_of, has_prefix, lemma_first_index_of, slices_view, starts_with,
    AMPERSAND,
    APOSTROPHE, AT, BACKSLASH, BACKTICK, BANG, CARET, CLOSE_PAREN, COLON, COMMA, EQUALS, GREATER,
    HASH, LESS, MINUS, OPEN_PAREN, PERCENT, QUOTE, SEMICOLON, SLASH, TILDE, UNDERSCORE,
};
use crate::pathspec::attributes::{assignments_view, attribute_assignments, read_assignments};
use crate::pathspec::{Flags, MagicSignature, Pattern, PatternView, SearchMode, State, StateView};

verus! {

/// A byte that sets a keyword in the short form: `/`, `^` or `!`.
pub open spec fn is_short_flag(b: u8) -> bool {
    b == SLASH || b == CARET || b == BANG
}

/// A byte that is reserved for a short keyword and has no meaning yet.
pub open spec fn is_reserved_short(b: u8) -> bool {
    b == QUOTE || b == HASH || b == PERCENT || b == AMPERSAND || b == APOSTROPHE || b == COMMA || b == MINUS || b
        == SEMICOLON || b == LESS || b == EQUALS || b == GREATER || b == AT || b == UNDERSCORE || b == BACKTICK || b
        == TILDE
}

/// Where the run of short flags that begins at `start` ends: the first index
/// from `start` on that holds no short flag, or the end of the input.
pub open spec fn short_run_end(input: Seq<u8>, start: int) -> int
    decreases input.len() - start,
{
    if 0 <= start < input.len() && is_short_flag(input[start]) {
        short_run_end(input, start + 1)
    } else {
        start
    }
}

/// The byte `b` occurs in `input` at an index from `start` up to `end`.
pub open spec fn run_has(input: Seq<u8>, start: int, end: int, b: u8) -> bool {
    exists|i: int| start <= i < end && 0 <= i < input.len() && #[trigger] input[i] == b
}

/// The keywords that the short flags from `start` up to `end` set.
pub open spec fn short_flags(input: Seq<u8>, start: int, end: int) -> Flags {
    Flags {
        top: run_has(input, start, end, SLASH),
        icase: false,
        exclude: run_has(input, start, end, CARET) || run_has(input, start, end, BANG),
    }
}

/// The short keywords of `input` from `start` on, and the index at which
/// reading goes on. The run of flags is read whole; a `:` behind it closes
/// the signature and is consumed; a reserved byte behind it is an error and
/// is consumed too; any other byte is left where it is.
pub open spec fn short_keywords(input: Seq<u8>, start: int) -> (Result<Flags, ErrorView>, int) {
    let end = short_run_end(input, start);
    let flags = short_flags(input, start, end);
    if 0 <= end < input.len() && input[end] == COLON {
        (Ok(flags), end + 1)
    } else if 0 <= end < input.len() && is_reserved_short(input[end]) {
        (Err(ErrorView::Unimplemented { found_short_keyword: seq![input[end]] }), end + 1)
    } else {
        (Ok(flags), end)
    }
}

/// The run of short flags lies inside the input and holds short flags only.
pub proof fn lemma_short_run(input: Seq<u8>, start: int)
    requires
        0 <= start <= input.len(),
    ensures
        start <= short_run_end(input, start) <= input.len(),
        forall|i: int| start <= i < short_run_end(input, start) ==> is_short_flag(#[trigger] input[i]),
        short_run_end(input, start) < input.len() ==> !is_short_flag(
            input[short_run_end(input, start)],
        ),
    decreases input.len() - start,
{
    if start < input.len() && is_short_flag(input[start]) {
        lemma_short_run(input, start + 1);
    }
}

fn is_reserved(b: u8) -> (r: bool)
    ensures
        r == is_reserved_short(b),
{
    b == QUOTE || b == HASH || b == PERCENT || b == AMPERSAND || b == APOSTROPHE || b == COMMA || b == MINUS || b
        == SEMICOLON || b == LESS || b == EQUALS || b == GREATER || b == AT || b == UNDERSCORE || b == BACKTICK || b
        == TILDE
}

/// Reads the short keywords of `input` from `*cursor` on and moves the
/// cursor behind what was read.
pub fn parse_short_keywords(input: &[u8], cursor: &mut usize) -> (r: Result<MagicSignature, Error>)
    ensures
        *final(cursor) == short_keywords(input@, *old(cursor) as int).1,
        match r {
            Ok(signature) => signature.wf() && short_keywords(input@, *old(cursor) as int).0 == Ok::<
                Flags,
                ErrorView,
            >(signature@),
            Err(e) => short_keywords(input@, *old(cursor) as int).0 == Err::<Flags, ErrorView>(e@),
        },
{
    let ghost start = *cursor as int;
    let mut signature = MagicSignature::empty();
    while *cursor < input.len()
        invariant
            start == *old(cursor),
            start <= *cursor,
            *cursor <= input.len() || *cursor == start,
            short_run_end(input@, start) == short_run_end(input@, *cursor as int),
            signature.wf(),
            signature@ == short_flags(input@, start, *cursor as int),
        decreases input.len() - *cursor,
    {
        let b = input[*cursor];
        let ghost at = *cursor as int;
        if b == SLASH {
            signature = signature.union(MagicSignature::top());
        } else if b == CARET || b == BANG {
            signature = signature.union(MagicSignature::exclude());
        } else if b == COLON {
            assert(short_run_end(input@, at) == at);
            *cursor += 1;
            return Ok(signature);
        } else if is_reserved(b) {
            assert(short_run_end(input@, at) == at);
            *cursor += 1;
            let mut found_short_keyword: Vec<u8> = Vec::new();
            found_short_keyword.push(b);
            assert(found_short_keyword@ =~= seq![b]);
            return Err(Error::Unimplemented { found_short_keyword });
        } else {
            assert(short_run_end(input@, at) == at);
            return Ok(signature);
        }
        *cursor += 1;
        proof {
            assert(input@[at] == b);
            assert(forall|c: u8|
                run_has(input@, start, at + 1, c) == (run_has(input@, start, at, c) || c == b));
        }
    }
    Ok(signature)
}

/// The word `top`.
pub open spec fn word_top() -> Seq<u8> {
    "top".spec_bytes()
}

/// The word `icase`.
pub open spec fn word_icase() -> Seq<u8> {
    "icase".spec_bytes()
}

/// The word `exclude`.
pub open spec fn word_exclude() -> Seq<u8> {
    "exclude".spec_bytes()
}

/// The word `attr`.
pub open spec fn word_attr() -> Seq<u8> {
    "attr".spec_bytes()
}

/// The word `literal`.
pub open spec fn word_literal() -> Seq<u8> {
    "literal".spec_bytes()
}

/// The word `glob`.
pub open spec fn word_glob() -> Seq<u8> {
    "glob".spec_bytes()
}

/// `attr:`, which stands before a list of attributes.
pub open spec fn word_attr_colon() -> Seq<u8> {
    "attr:".spec_bytes()
}

/// `prefix:`, which is accepted and has no effect.
pub open spec fn word_prefix_colon() -> Seq<u8> {
    "prefix:".spec_bytes()
}

/// What one keyword of the long form is.
pub enum Keyword {
    Top,
    Icase,
    Exclude,
    /// `attr` without a list.
    Attr,
    Literal,
    Glob,
    /// `attr:` and a list of attributes.
    AttrList,
    /// `prefix:` and anything.
    Prefix,
    Unknown,
}

/// The kind of the keyword `k`. A whole word is looked for first, then one of
/// the two prefixes.
pub open spec fn keyword_kind(k: Seq<u8>) -> Keyword {
    if k == word_top() {
        Keyword::Top
    } else if k == word_icase() {
        Keyword::Icase
    } else if k == word_exclude() {
        Keyword::Exclude
    } else if k == word_attr() {
        Keyword::Attr
    } else if k == word_literal() {
        Keyword::Literal
    } else if k == word_glob() {
        Keyword::Glob
    } else if has_prefix(k, word_attr_colon()) {
        Keyword::AttrList
    } else if has_prefix(k, word_prefix_colon()) {
        Keyword::Prefix
    } else {
        Keyword::Unknown
    }
}

/// A comma at `j` parts two keywords when the byte before it is no backslash
/// and is no such comma itself. The first byte never parts anything.
pub open spec fn is_separator(s: Seq<u8>, j: int) -> bool
    decreases j,
{
    &&& 1 <= j < s.len()
    &&& s[j] == COMMA
    &&& s[j - 1] != BACKSLASH
    &&& !is_separator(s, j - 1)
}

/// The pieces of `s` from `last` on, cut at each separator from `j` on.
pub open spec fn split_from(s: Seq<u8>, last: int, j: int) -> Seq<Seq<u8>>
    decreases s.len() - j,
{
    if j >= s.len() {
        seq![s.subrange(last, s.len() as int)]
    } else if is_separator(s, j) {
        seq![s.subrange(last, j)] + split_from(s, j + 1, j + 1)
    } else {
        split_from(s, last, j + 1)
    }
}

/// The keywords between the parentheses: `s` cut at its separators.
pub open spec fn keywords(s: Seq<u8>) -> Seq<Seq<u8>> {
    split_from(s, 0, 0)
}

/// What the list behind `attr:` comes to: an empty list is refused; a name
/// that the reader of attributes refuses is reported, and the whole list
/// where the reader names none.
pub open spec fn attributes_outcome(
    input: Seq<u8>,
    read: Result<Seq<(Seq<u8>, StateView)>, Option<Seq<u8>>>,
) -> Result<Seq<(Seq<u8>, StateView)>, ErrorView> {
    if input.len() == 0 {
        Err(ErrorView::EmptyAttribute)
    } else {
        match read {
            Ok(list) => Ok(list),
            Err(Some(attribute)) => Err(ErrorView::InvalidAttribute { attribute }),
            Err(None) => Err(ErrorView::InvalidAttribute { attribute: input }),
        }
    }
}

/// The attributes that the list `input` asks for.
pub open spec fn attributes(input: Seq<u8>) -> Result<Seq<(Seq<u8>, StateView)>, ErrorView> {
    attributes_outcome(input, attribute_assignments(input))
}

/// The pattern `p` after the keyword `k`.
pub open spec fn apply_keyword(p: PatternView, k: Seq<u8>) -> Result<PatternView, ErrorView> {
    match keyword_kind(k) {
        Keyword::Top => Ok(
            PatternView { signature: Flags { top: true, ..p.signature }, ..p },
        ),
        Keyword::Icase => Ok(
            PatternView { signature: Flags { icase: true, ..p.signature }, ..p },
        ),
        Keyword::Exclude => Ok(
            PatternView { signature: Flags { exclude: true, ..p.signature }, ..p },
        ),
        Keyword::Attr => Ok(p),
        Keyword::Literal => if p.search_mode == SearchMode::PathAwareGlob {
            Err(ErrorView::IncompatibleSearchModes)
        } else {
            Ok(PatternView { search_mode: SearchMode::Literal, ..p })
        },
        Keyword::Glob => if p.search_mode == SearchMode::Literal {
            Err(ErrorView::IncompatibleSearchModes)
        } else {
            Ok(PatternView { search_mode: SearchMode::PathAwareGlob, ..p })
        },
        Keyword::AttrList => if p.attributes.len() == 0 {
            match attributes(k.subrange(5, k.len() as int)) {
                Ok(list) => Ok(PatternView { attributes: list, ..p }),
                Err(e) => Err(e),
            }
        } else {
            Err(ErrorView::MultipleAttributeSpecifications)
        },
        Keyword::Prefix => Ok(p),
        Keyword::Unknown => Err(ErrorView::InvalidKeyword { found_keyword: k }),
    }
}

/// The pattern `p` after the keywords `ks`, applied in their order up to the
/// first that fails.
pub open spec fn apply_keywords(p: PatternView, ks: Seq<Seq<u8>>) -> Result<PatternView, ErrorView>
    decreases ks.len(),
{
    if ks.len() == 0 {
        Ok(p)
    } else {
        match apply_keyword(p, ks[0]) {
            Ok(q) => apply_keywords(q, ks.drop_first()),
            Err(e) => Err(e),
        }
    }
}

/// The long keywords of `input`, which stand between `start` and the first
/// `)` of the input, and the index at which reading goes on: behind that
/// `)`, or `start` where there is none.
pub open spec fn long_keywords(input: Seq<u8>, start: int) -> (Result<PatternView, ErrorView>, int) {
    match first_index_of(input, CLOSE_PAREN) {
        None => (Err(ErrorView::MissingClosingParenthesis { pathspec: input }), start),
        Some(end) => {
            let body = input.subrange(start, end);
            if body.len() == 0 {
                (Ok(PatternView::blank()), end + 1)
            } else {
                (apply_keywords(PatternView::blank(), keywords(body)), end + 1)
            }
        },
    }
}

/// What a pathspec means. Without a leading `:` the input is the path. With
/// one, short keywords follow, then `(` opens the long keywords; what is left
/// is the path.
pub open spec fn pathspec(input: Seq<u8>) -> Result<PatternView, ErrorView> {
    if input.len() == 0 {
        Err(ErrorView::EmptyString)
    } else if input[0] != COLON {
        Ok(PatternView { path: input, ..PatternView::blank() })
    } else {
        let (short, at) = short_keywords(input, 1);
        match short {
            Err(e) => Err(e),
            Ok(flags) => if at < input.len() && input[at] == OPEN_PAREN {
                let (long, rest) = long_keywords(input, at + 1);
                match long {
                    Err(e) => Err(e),
                    Ok(p) => Ok(
                        PatternView {
                            path: input.subrange(rest, input.len() as int),
                            signature: flags.or(p.signature),
                            search_mode: p.search_mode,
                            attributes: p.attributes,
                        },
                    ),
                }
            } else {
                Ok(
                    PatternView {
                        path: input.subrange(at, input.len() as int),
                        signature: flags,
                        ..PatternView::blank()
                    },
                )
            },
        }
    }
}

fn kind_of(k: &[u8]) -> (r: Keyword)
    ensures
        r == keyword_kind(k@),
{
    if equal(k, "top".as_bytes()) {
        Keyword::Top
    } else if equal(k, "icase".as_bytes()) {
        Keyword::Icase
    } else if equal(k, "exclude".as_bytes()) {
        Keyword::Exclude
    } else if equal(k, "attr".as_bytes()) {
        Keyword::Attr
    } else if equal(k, "literal".as_bytes()) {
        Keyword::Literal
    } else if equal(k, "glob".as_bytes()) {
        Keyword::Glob
    } else if starts_with(k, "attr:".as_bytes()) {
        Keyword::AttrList
    } else if starts_with(k, "prefix:".as_bytes()) {
        Keyword::Prefix
    } else {
        Keyword::Unknown
    }
}

/// `attr:` has five bytes.
proof fn lemma_attr_colon_len()
    ensures
        word_attr_colon().len() == 5,
{
    reveal_strlit("attr:");
    vstd::string::is_ascii_spec_bytes("attr:");
}

/// Cuts the text between the parentheses into its keywords.
pub fn split_keywords<'a>(body: &'a [u8]) -> (r: Vec<&'a [u8]>)
    ensures
        slices_view(r@) == keywords(body@),
{
    let mut out: Vec<&'a [u8]> = Vec::new();
    if body.len() == 0 {
        out.push(body);
        assert(slices_view(out@) =~= seq![body@]);
        assert(body@.subrange(0, 0) =~= body@);
        return out;
    }
    let mut last: usize = 0;
    let mut j: usize = 1;
    assert(slices_view(out@) =~= Seq::<Seq<u8>>::empty());
    assert(!is_separator(body@, 0));
    while j < body.len()
        invariant
            body.len() > 0,
            1 <= j <= body.len(),
            last <= j,
            j < body.len() ==> !is_separator(body@, j - 1),
            slices_view(out@) + split_from(body@, last as int, j as int) == keywords(body@),
        decreases body.len() - j,
    {
        if body[j] == COMMA && body[j - 1] != BACKSLASH {
            let ghost before = out@;
            let piece = slice_subrange(body, last, j);
            out.push(piece);
            proof {
                assert(is_separator(body@, j as int));
                assert(!is_separator(body@, j + 1));
                assert(split_from(body@, j + 1, j + 1) == split_from(body@, j + 1, j + 2));
                assert(slices_view(out@) =~= slices_view(before).push(piece@));
                assert(slices_view(before).push(piece@) + split_from(body@, j + 1, j + 2)
                    =~= slices_view(before) + (seq![piece@] + split_from(body@, j + 1, j + 1)));
            }
            last = j + 1;
            j = if j + 1 < body.len() {
                j + 2
            } else {
                j + 1
            };
        } else {
            assert(!is_separator(body@, j as int));
            j += 1;
        }
    }
    let ghost before = out@;
    let piece = slice_subrange(body, last, body.len());
    out.push(piece);
    proof {
        assert(slices_view(out@) =~= slices_view(before).push(piece@));
        assert(slices_view(before).push(piece@) =~= slices_view(before) + seq![piece@]);
    }
    out
}

/// What the outcome `read` of the reader of attributes on `input` comes to.
pub fn attributes_from(
    input: &[u8],
    read: Result<Vec<(Vec<u8>, State)>, Option<Vec<u8>>>,
) -> (r: Result<Vec<(Vec<u8>, State)>, Error>)
    ensures
        match r {
            Ok(list) => attributes_outcome(input@, assignments_view(read)) == Ok::<
                Seq<(Seq<u8>, StateView)>,
                ErrorView,
            >(list.deep_view()),
            Err(e) => attributes_outcome(input@, assignments_view(read)) == Err::<
                Seq<(Seq<u8>, StateView)>,
                ErrorView,
            >(e@),
        },
{
    if input.len() == 0 {
        return Err(Error::EmptyAttribute);
    }
    match read {
        Ok(list) => Ok(list),
        Err(Some(attribute)) => Err(Error::InvalidAttribute { attribute }),
        Err(None) => Err(Error::InvalidAttribute { attribute: slice_to_vec(input) }),
    }
}

/// Reads the list of attributes behind `attr:`.
pub fn parse_attributes(input: &[u8]) -> (r: Result<Vec<(Vec<u8>, State)>, Error>)
    ensures
        match r {
            Ok(list) => attributes(input@) == Ok::<Seq<(Seq<u8>, StateView)>, ErrorView>(
                list.deep_view(),
            ),
            Err(e) => attributes(input@) == Err::<Seq<(Seq<u8>, StateView)>, ErrorView>(e@),
        },
{
    if input.len() == 0 {
        return Err(Error::EmptyAttribute);
    }
    attributes_from(input, read_assignments(input))
}

/// Reads the long keywords of `input`, which begin at `*cursor`, behind the
/// opening parenthesis, and moves the cursor behind the closing one.
pub fn parse_long_keywords(input: &[u8], cursor: &mut usize) -> (r: Result<Pattern, Error>)
    requires
        forall|i: int| 0 <= i < *old(cursor) && i < input.len() ==> input[i] != CLOSE_PAREN,
    ensures
        *final(cursor) == long_keywords(input@, *old(cursor) as int).1,
        match r {
            Ok(p) => p.signature.wf() && long_keywords(input@, *old(cursor) as int).0 == Ok::<
                PatternView,
                ErrorView,
            >(p@),
            Err(e) => long_keywords(input@, *old(cursor) as int).0 == Err::<PatternView, ErrorView>(
                e@,
            ),
        },
{
    proof {
        lemma_first_index_of(input@, CLOSE_PAREN);
    }
    let end = match find_byte(input, CLOSE_PAREN) {
        Some(end) => end,
        None => {
            return Err(Error::MissingClosingParenthesis { pathspec: slice_to_vec(input) });
        },
    };
    assert(end < input.len());
    let body = slice_subrange(input, *cursor, end);
    *cursor = end + 1;
    let mut p = Pattern {
        path: Vec::new(),
        signature: MagicSignature::empty(),
        search_mode: SearchMode::ShellGlob,
        attributes: Vec::new(),
    };
    assert(p@ =~= PatternView::blank()) by {
        assert(p.attributes.deep_view() =~= Seq::empty());
    }
    if body.len() == 0 {
        return Ok(p);
    }
    let keywords = split_keywords(body);
    let ghost ks = slices_view(keywords@);
    let ghost goal = apply_keywords(PatternView::blank(), ks);
    let mut k: usize = 0;
    assert(ks.subrange(0, ks.len() as int) =~= ks);
    while k < keywords.len()
        invariant
            k <= keywords.len(),
            ks == slices_view(keywords@),
            *cursor == long_keywords(input@, *old(cursor) as int).1,
            goal == long_keywords(input@, *old(cursor) as int).0,
            p.signature.wf(),
            apply_keywords(p@, ks.subrange(k as int, ks.len() as int)) == goal,
        decreases keywords.len() - k,
    {
        let keyword = keywords[k];
        proof {
            let rest = ks.subrange(k as int, ks.len() as int);
            assert(rest[0] == keyword@);
            assert(rest.drop_first() =~= ks.subrange(k + 1, ks.len() as int));
        }
        match kind_of(keyword) {
            Keyword::Top => {
                p.signature = p.signature.union(MagicSignature::top());
            },
            Keyword::Icase => {
                p.signature = p.signature.union(MagicSignature::icase());
            },
            Keyword::Exclude => {
                p.signature = p.signature.union(MagicSignature::exclude());
            },
            Keyword::Attr => {},
            Keyword::Literal => match p.search_mode {
                SearchMode::PathAwareGlob => {
                    return Err(Error::IncompatibleSearchModes);
                },
                _ => {
                    p.search_mode = SearchMode::Literal;
                },
            },
            Keyword::Glob => match p.search_mode {
                SearchMode::Literal => {
                    return Err(Error::IncompatibleSearchModes);
                },
                _ => {
                    p.search_mode = SearchMode::PathAwareGlob;
                },
            },
            Keyword::AttrList => {
                proof {
                    lemma_attr_colon_len();
                }
                if p.attributes.len() == 0 {
                    assert(p.attributes.deep_view().len() == 0);
                    match parse_attributes(slice_subrange(keyword, 5, keyword.len())) {
                        Ok(list) => {
                            p.attributes = list;
                        },
                        Err(e) => {
                            return Err(e);
                        },
                    }
                } else {
                    assert(p.attributes.deep_view().len() != 0);
                    return Err(Error::MultipleAttributeSpecifications);
                }
            },
            Keyword::Prefix => {},
            Keyword::Unknown => {
                return Err(Error::InvalidKeyword { found_keyword: slice_to_vec(keyword) });
            },
        }
        k += 1;
    }
    Ok(p)
}

impl Pattern {
    /// Parses a pathspec.
    pub fn from_bytes(input: &[u8]) -> (r: Result<Pattern, Error>)
        ensures
            match r {
                Ok(p) => p.signature.wf() && pathspec(input@) == Ok::<PatternView, ErrorView>(p@),
                Err(e) => pathspec(input@) == Err::<PatternView, ErrorView>(e@),
            },
    {
        if input.len() == 0 {
            return Err(Error::EmptyString);
        }
        let mut signature = MagicSignature::empty();
        let mut search_mode = SearchMode::ShellGlob;
        let mut attributes: Vec<(Vec<u8>, State)> = Vec::new();
        assert(attributes.deep_view() =~= Seq::empty());
        let mut cursor: usize = 0;
        if input[0] == COLON {
            cursor = 1;
            let short = parse_short_keywords(input, &mut cursor)?;
            signature = signature.union(short);
            proof {
                lemma_short_run(input@, 1);
            }
            if cursor < input.len() && input[cursor] == OPEN_PAREN {
                cursor += 1;
                let long = parse_long_keywords(input, &mut cursor)?;
                search_mode = long.search_mode;
                attributes = long.attributes;
                signature = signature.union(long.signature);
            }
        } else {
            assert(input@.subrange(0, input.len() as int) =~= input@);
        }
        let path = slice_to_vec(slice_subrange(input, cursor, input.len()));
        Ok(Pattern { path, signature, search_mode, attributes })
    }
}

/// Why a pathspec was refused.
#[derive(Clone, Debug, PartialEq, Eq, Hash)]
pub enum Error {
    /// The input has no bytes at all.
    EmptyString,
    /// A long keyword that is not known.
    InvalidKeyword { found_keyword: Vec<u8> },
    /// A short keyword that is reserved but has no meaning yet.
    Unimplemented { found_short_keyword: Vec<u8> },
    /// A long signature was opened with `(` and there is no `)` in the input.
    MissingClosingParenthesis { pathspec: Vec<u8> },
    /// An attribute name with bytes outside `[-._A-Za-z0-9]`, or one that
    /// starts with `-`.
    InvalidAttribute { attribute: Vec<u8> },
    /// `attr:` with nothing behind it.
    EmptyAttribute,
    /// Both `literal` and `glob` were given.
    IncompatibleSearchModes,
    /// More than one `attr:` keyword that lists attributes.
    MultipleAttributeSpecifications,
}

/// The mathematical value of an [`Error`].
pub enum ErrorView {
    EmptyString,
    InvalidKeyword { found_keyword: Seq<u8> },
    Unimplemented { found_short_keyword: Seq<u8> },
    MissingClosingParenthesis { pathspec: Seq<u8> },
    InvalidAttribute { attribute: Seq<u8> },
    EmptyAttribute,
    IncompatibleSearchModes,
    MultipleAttributeSpecifications,
}

impl View for Error {
    type V = ErrorView;

    open spec fn view(&self) -> ErrorView {
        match self {
            Error::EmptyString => ErrorView::EmptyString,
            Error::InvalidKeyword { found_keyword } => ErrorView::InvalidKeyword {
                found_keyword: found_keyword@,
            },
            Error::Unimplemented { found_short_keyword } => ErrorView::Unimplemented {
                found_short_keyword: found_short_keyword@,
            },
            Error::MissingClosingParenthesis { pathspec } => ErrorView::MissingClosingParenthesis {
                pathspec: pathspec@,
            },
            Error::InvalidAttribute { attribute } => ErrorView::InvalidAttribute {
                attribute: attribute@,
            },
            Error::EmptyAttribute => ErrorView::EmptyAttribute,
            Error::IncompatibleSearchModes => ErrorView::IncompatibleSearchModes,
            Error::MultipleAttributeSpecifications => ErrorView::MultipleAttributeSpecifications,
        }
    }
}

} // verus!
