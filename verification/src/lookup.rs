//! Typed lookup: a raw value of the document, read as the kind of value
//! that the caller asks for.

use vstd::prelude::*;

use crate::boolean::{boolean, Boolean, BooleanView};
use crate::color::{color, Color, ColorView};
use crate::file::{optional_slice_view, File};
use crate::integer::{factor, fits, integer, Integer};
use crate::path::Path;
use crate::value;
use crate::value::{needs_no_copy, normalize, unquoted, Bytes};

verus! {

/// The kinds of typed value.
#[derive(Clone, Copy, Debug, PartialEq, Eq, Hash)]
pub enum Kind {
    Boolean,
    Integer,
    Color,
    String,
    Path,
}

/// A typed value.
#[derive(Clone, Debug, PartialEq, Eq)]
pub enum Value<'a> {
    Boolean(Boolean<'a>),
    Integer(Integer),
    Color(Color),
    String(Bytes<'a>),
    Path(Path<'a>),
}

/// The mathematical value of a [`Value`].
pub enum ValueView {
    Boolean(BooleanView),
    Integer(Integer),
    Color(ColorView),
    String(Seq<u8>),
    Path(Seq<u8>),
}

impl<'a> View for Value<'a> {
    type V = ValueView;

    open spec fn view(&self) -> ValueView {
        match self {
            Value::Boolean(b) => ValueView::Boolean(b@),
            Value::Integer(i) => ValueView::Integer(*i),
            Value::Color(c) => ValueView::Color(c@),
            Value::String(s) => ValueView::String(s@),
            Value::Path(p) => ValueView::Path(p@),
        }
    }
}

impl<'a> Value<'a> {
    /// The value holds bytes of the document itself.
    pub open spec fn is_borrowed(self) -> bool {
        match self {
            Value::Boolean(b) => match b.text() {
                Some(text) => text is Borrowed,
                None => false,
            },
            Value::String(s) => s is Borrowed,
            Value::Path(p) => p.value is Borrowed,
            _ => false,
        }
    }
}

/// Why a lookup gave no typed value.
#[derive(Clone, Copy, Debug, PartialEq, Eq)]
pub enum Error {
    /// No section of that name holds an entry under that key.
    NotFound,
    /// There is a raw value, and it is no value of the kind asked for.
    Decode(value::Error),
}

/// The value of kind `kind` that `text` writes, where `text` has no quotes
/// and no escapes left.
pub open spec fn typed(kind: Kind, text: Seq<u8>) -> Result<ValueView, value::Error> {
    match kind {
        Kind::Boolean => match boolean(Some(text)) {
            Ok(b) => Ok(ValueView::Boolean(b)),
            Err(e) => Err(e),
        },
        Kind::Integer => match integer(text) {
            Ok(i) => Ok(ValueView::Integer(i)),
            Err(e) => Err(e),
        },
        Kind::Color => match color(text) {
            Ok(c) => Ok(ValueView::Color(c)),
            Err(e) => Err(e),
        },
        Kind::String => Ok(ValueView::String(text)),
        Kind::Path => Ok(ValueView::Path(text)),
    }
}

/// The value of kind `kind` that the raw value `raw` stands for. A key
/// without a value is the implicit true as a boolean, and the empty text as
/// any other kind. A raw value is freed of its quotes and escapes first.
pub open spec fn decoded(kind: Kind, raw: Option<Seq<u8>>) -> Result<ValueView, value::Error> {
    match raw {
        None => match kind {
            Kind::Boolean => match boolean(None) {
                Ok(b) => Ok(ValueView::Boolean(b)),
                Err(e) => Err(e),
            },
            _ => typed(kind, Seq::empty()),
        },
        Some(raw) => match unquoted(raw) {
            None => Err(value::Error::MalformedEscape),
            Some(text) => typed(kind, text),
        },
    }
}

/// A value of kind `kind` holds text: a boolean the word it was read from,
/// a string and a path themselves.
pub open spec fn holds_text(kind: Kind) -> bool {
    kind is Boolean || kind is String || kind is Path
}

/// A value of kind `kind` that is read from `raw` holds bytes of `raw`
/// itself: the kind holds text, and the text of `raw` is a part of `raw`.
pub open spec fn borrows(kind: Kind, raw: Option<Seq<u8>>) -> bool {
    match raw {
        Some(raw) => holds_text(kind) && needs_no_copy(raw),
        None => false,
    }
}

/// The values of kind `kind` that the first `n` of the raw values `raws`
/// stand for, or the failure of the first that is none.
pub open spec fn decoded_upto(kind: Kind, raws: Seq<Option<Seq<u8>>>, n: int) -> Result<
    Seq<ValueView>,
    value::Error,
>
    decreases n,
{
    if n <= 0 {
        Ok(Seq::empty())
    } else {
        match decoded_upto(kind, raws, n - 1) {
            Err(e) => Err(e),
            Ok(before) => match decoded(kind, raws[n - 1]) {
                Ok(v) => Ok(before.push(v)),
                Err(e) => Err(e),
            },
        }
    }
}

/// The values of kind `kind` that the raw values `raws` stand for.
pub open spec fn decoded_all(kind: Kind, raws: Seq<Option<Seq<u8>>>) -> Result<
    Seq<ValueView>,
    value::Error,
> {
    decoded_upto(kind, raws, raws.len() as int)
}

/// What a lookup of kind `kind` makes of what was found.
pub open spec fn looked_up(kind: Kind, found: Option<Option<Seq<u8>>>) -> Result<ValueView, Error> {
    match found {
        None => Err(Error::NotFound),
        Some(raw) => match decoded(kind, raw) {
            Ok(v) => Ok(v),
            Err(e) => Err(Error::Decode(e)),
        },
    }
}

/// The mathematical values of a list of values.
pub open spec fn values_view(values: Seq<Value<'_>>) -> Seq<ValueView> {
    values.map_values(|v: Value<'_>| v@)
}

/// The string values that a list of texts stands for.
pub open spec fn texts_view(texts: Seq<Bytes<'_>>) -> Seq<ValueView> {
    texts.map_values(|t: Bytes<'_>| ValueView::String(t@))
}

/// Reads text without quotes as a value of kind `kind`.
pub fn decode_text<'a>(kind: Kind, text: Bytes<'a>) -> (r: Result<Value<'a>, value::Error>)
    ensures
        match r {
            Ok(v) => typed(kind, text@) == Ok::<ValueView, value::Error>(v@) && (v.is_borrowed()
                <==> holds_text(kind) && text is Borrowed),
            Err(e) => typed(kind, text@) == Err::<ValueView, value::Error>(e),
        },
{
    match kind {
        Kind::Boolean => match Boolean::decode(Some(text)) {
            Ok(b) => Ok(Value::Boolean(b)),
            Err(e) => Err(e),
        },
        Kind::Integer => match Integer::decode(text.as_slice()) {
            Ok(i) => Ok(Value::Integer(i)),
            Err(e) => Err(e),
        },
        Kind::Color => match Color::decode(text.as_slice()) {
            Ok(c) => Ok(Value::Color(c)),
            Err(e) => Err(e),
        },
        Kind::String => Ok(Value::String(text)),
        Kind::Path => Ok(Value::Path(Path::decode(text))),
    }
}

/// The text of a raw value: what is left of it without quotes and escapes,
/// and the empty text for a key without a value. `None` where an escape is
/// malformed.
pub open spec fn text_of(raw: Option<Seq<u8>>) -> Option<Seq<u8>> {
    match raw {
        Some(raw) => unquoted(raw),
        None => Some(Seq::empty()),
    }
}

/// Removes the quotes and escapes of a raw value; a key without a value
/// gives the empty text. The text is a part of the raw value where this
/// needs no change.
pub fn unquote<'a>(raw: Option<&'a [u8]>) -> (r: Result<Bytes<'a>, value::Error>)
    ensures
        match r {
            Ok(text) => text_of(optional_slice_view(raw)) == Some(text@) && (text is Borrowed)
                == borrows(Kind::String, optional_slice_view(raw)),
            Err(e) => text_of(optional_slice_view(raw)) is None && e
                == value::Error::MalformedEscape,
        },
{
    match raw {
        Some(raw) => normalize(raw),
        None => Ok(Bytes::Owned(Vec::new())),
    }
}

/// Reads a raw value as a value of kind `kind`. A value that holds text
/// holds bytes of the raw value itself where these need no change.
pub fn decode<'a>(kind: Kind, raw: Option<&'a [u8]>) -> (r: Result<Value<'a>, value::Error>)
    ensures
        match r {
            Ok(v) => decoded(kind, optional_slice_view(raw)) == Ok::<ValueView, value::Error>(v@)
                && v.is_borrowed() == borrows(kind, optional_slice_view(raw)),
            Err(e) => decoded(kind, optional_slice_view(raw)) == Err::<ValueView, value::Error>(e),
        },
{
    match (kind, raw) {
        (Kind::Boolean, None) => match Boolean::decode(None) {
            Ok(b) => Ok(Value::Boolean(b)),
            Err(e) => Err(e),
        },
        _ => match unquote(raw) {
            Ok(text) => decode_text(kind, text),
            Err(e) => Err(e),
        },
    }
}

impl File {
    /// The value of kind `kind` under `key` in the sections named `section`
    /// and `subsection`: the value that was declared last.
    pub fn value<'a>(
        &'a self,
        kind: Kind,
        section: &[u8],
        subsection: Option<&[u8]>,
        key: &[u8],
    ) -> (r: Result<Value<'a>, Error>)
        ensures
            ({
                let found = self@.value(section@, optional_slice_view(subsection), key@);
                match r {
                    Ok(v) => looked_up(kind, found) == Ok::<ValueView, Error>(v@) && v.is_borrowed()
                        == borrows(kind, found->0),
                    Err(e) => looked_up(kind, found) == Err::<ValueView, Error>(e),
                }
            }),
    {
        match self.raw_value(section, subsection, key) {
            None => Err(Error::NotFound),
            Some(raw) => match decode(kind, raw) {
                Ok(v) => Ok(v),
                Err(e) => Err(Error::Decode(e)),
            },
        }
    }

    /// As [`File::value`], with `None` where nothing was found.
    pub fn try_value<'a>(
        &'a self,
        kind: Kind,
        section: &[u8],
        subsection: Option<&[u8]>,
        key: &[u8],
    ) -> (r: Option<Result<Value<'a>, value::Error>>)
        ensures
            match self@.value(section@, optional_slice_view(subsection), key@) {
                None => r is None,
                Some(raw) => match r {
                    Some(Ok(v)) => decoded(kind, raw) == Ok::<ValueView, value::Error>(v@)
                        && v.is_borrowed() == borrows(kind, raw),
                    Some(Err(e)) => decoded(kind, raw) == Err::<ValueView, value::Error>(e),
                    None => false,
                },
            },
    {
        match self.raw_value(section, subsection, key) {
            None => None,
            Some(raw) => Some(decode(kind, raw)),
        }
    }

    /// Every value of kind `kind` under `key` in the sections named `section`
    /// and `subsection`, in the order of declaration. Nothing found is
    /// [`Error::NotFound`]; the first raw value that is no value of that kind
    /// fails the lookup.
    pub fn multi_value<'a>(
        &'a self,
        kind: Kind,
        section: &[u8],
        subsection: Option<&[u8]>,
        key: &[u8],
    ) -> (r: Result<Vec<Value<'a>>, Error>)
        ensures
            ({
                let raws = self@.values(section@, optional_slice_view(subsection), key@);
                if raws.len() == 0 {
                    r matches Err(Error::NotFound)
                } else {
                    match r {
                        Ok(list) => decoded_all(kind, raws) == Ok::<Seq<ValueView>, value::Error>(
                            values_view(list@),
                        ) && forall|i: int|
                            0 <= i < list.len() ==> (#[trigger] list[i]).is_borrowed() == borrows(
                                kind,
                                raws[i],
                            ),
                        Err(Error::Decode(e)) => decoded_all(kind, raws) == Err::<
                            Seq<ValueView>,
                            value::Error,
                        >(e),
                        Err(Error::NotFound) => false,
                    }
                }
            }),
    {
        let raws = self.raw_values(section, subsection, key);
        if raws.len() == 0 {
            return Err(Error::NotFound);
        }
        let ghost all = self@.values(section@, optional_slice_view(subsection), key@);
        let mut out: Vec<Value<'a>> = Vec::new();
        let mut i: usize = 0;
        assert(values_view(out@) =~= Seq::empty());
        while i < raws.len()
            invariant
                i <= raws.len(),
                out.len() == i,
                all == crate::file::raw_values_view(raws@),
                all == self@.values(section@, optional_slice_view(subsection), key@),
                raws.len() > 0,
                decoded_upto(kind, all, i as int) == Ok::<Seq<ValueView>, value::Error>(
                    values_view(out@),
                ),
                forall|k: int|
                    0 <= k < i ==> (#[trigger] out[k]).is_borrowed() == borrows(kind, all[k]),
            decreases raws.len() - i,
        {
            let ghost before = out@;
            let raw = raws[i];
            assert(all[i as int] == optional_slice_view(raw));
            let one = decode(kind, raw);
            proof {
                lemma_decoded_step(kind, all, i as int);
            }
            match one {
                Ok(v) => {
                    out.push(v);
                    assert(values_view(out@) =~= values_view(before).push(v@));
                },
                Err(e) => {
                    proof {
                        lemma_failure_stays(kind, all, i + 1, all.len() as int);
                    }
                    return Err(Error::Decode(e));
                },
            }
            i += 1;
        }
        Ok(out)
    }

    /// The truth value under `key`, where there is one.
    pub fn boolean(&self, section: &[u8], subsection: Option<&[u8]>, key: &[u8]) -> (r: Option<
        Result<bool, value::Error>,
    >)
        ensures
            match self@.value(section@, optional_slice_view(subsection), key@) {
                None => r is None,
                Some(raw) => match decoded(Kind::Boolean, raw) {
                    Ok(v) => r == Some(Ok::<bool, value::Error>(v->Boolean_0.truth())),
                    Err(e) => r == Some(Err::<bool, value::Error>(e)),
                },
            },
    {
        match self.raw_value(section, subsection, key) {
            None => None,
            Some(None) => Some(Ok(true)),
            Some(raw) => match unquote(raw) {
                Ok(text) => match Boolean::decode(Some(text)) {
                    Ok(b) => Some(Ok(b.is_true())),
                    Err(e) => Some(Err(e)),
                },
                Err(e) => Some(Err(e)),
            },
        }
    }

    /// The integer under `key`, scaled by its suffix, where there is one.
    /// A number that leaves 64 bits by the scaling is an overflow.
    pub fn integer(&self, section: &[u8], subsection: Option<&[u8]>, key: &[u8]) -> (r: Option<
        Result<i64, value::Error>,
    >)
        ensures
            match self@.value(section@, optional_slice_view(subsection), key@) {
                None => r is None,
                Some(raw) => match decoded(Kind::Integer, raw) {
                    Ok(v) => {
                        let scaled = v->Integer_0.value * factor(v->Integer_0.suffix);
                        if fits(scaled) {
                            r == Some(Ok::<i64, value::Error>(scaled as i64))
                        } else {
                            r == Some(Err::<i64, value::Error>(value::Error::IntegerOverflow))
                        }
                    },
                    Err(e) => r == Some(Err::<i64, value::Error>(e)),
                },
            },
    {
        match self.raw_value(section, subsection, key) {
            None => None,
            Some(raw) => match unquote(raw) {
                Ok(text) => match Integer::decode(text.as_slice()) {
                    Ok(i) => match i.to_decimal() {
                        Some(v) => Some(Ok(v)),
                        None => Some(Err(value::Error::IntegerOverflow)),
                    },
                    Err(e) => Some(Err(e)),
                },
                Err(e) => Some(Err(e)),
            },
        }
    }

    /// The text under `key`, without quotes and escapes, where there is one.
    /// It is a part of the document where the raw value needs no change.
    pub fn string<'a>(&'a self, section: &[u8], subsection: Option<&[u8]>, key: &[u8]) -> (r:
        Option<Result<Bytes<'a>, value::Error>>)
        ensures
            match self@.value(section@, optional_slice_view(subsection), key@) {
                None => r is None,
                Some(raw) => match r {
                    Some(Ok(text)) => decoded(Kind::String, raw) == Ok::<ValueView, value::Error>(
                        ValueView::String(text@),
                    ) && (text is Borrowed) == borrows(Kind::String, raw),
                    Some(Err(e)) => decoded(Kind::String, raw) == Err::<ValueView, value::Error>(e),
                    None => false,
                },
            },
    {
        match self.raw_value(section, subsection, key) {
            None => None,
            Some(raw) => Some(unquote(raw)),
        }
    }

    /// Every text under `key`, in the order of declaration, where there is
    /// one; the first raw value with a malformed escape fails them all.
    pub fn strings<'a>(&'a self, section: &[u8], subsection: Option<&[u8]>, key: &[u8]) -> (r:
        Option<Result<Vec<Bytes<'a>>, value::Error>>)
        ensures
            ({
                let raws = self@.values(section@, optional_slice_view(subsection), key@);
                if raws.len() == 0 {
                    r is None
                } else {
                    match r {
                        Some(Ok(list)) => decoded_all(Kind::String, raws) == Ok::<
                            Seq<ValueView>,
                            value::Error,
                        >(texts_view(list@)) && forall|i: int|
                            0 <= i < list.len() ==> (#[trigger] list[i] is Borrowed) == borrows(
                                Kind::String,
                                raws[i],
                            ),
                        Some(Err(e)) => decoded_all(Kind::String, raws) == Err::<
                            Seq<ValueView>,
                            value::Error,
                        >(e),
                        None => false,
                    }
                }
            }),
    {
        let raws = self.raw_values(section, subsection, key);
        if raws.len() == 0 {
            return None;
        }
        let ghost all = self@.values(section@, optional_slice_view(subsection), key@);
        let mut out: Vec<Bytes<'a>> = Vec::new();
        let mut i: usize = 0;
        assert(texts_view(out@) =~= Seq::empty());
        while i < raws.len()
            invariant
                i <= raws.len(),
                out.len() == i,
                all == crate::file::raw_values_view(raws@),
                all == self@.values(section@, optional_slice_view(subsection), key@),
                raws.len() > 0,
                decoded_upto(Kind::String, all, i as int) == Ok::<Seq<ValueView>, value::Error>(
                    texts_view(out@),
                ),
                forall|k: int|
                    0 <= k < i ==> (#[trigger] out[k] is Borrowed) == borrows(Kind::String, all[k]),
            decreases raws.len() - i,
        {
            let ghost before = out@;
            let raw = raws[i];
            assert(all[i as int] == optional_slice_view(raw));
            let one = unquote(raw);
            proof {
                lemma_decoded_step(Kind::String, all, i as int);
            }
            match one {
                Ok(text) => {
                    out.push(text);
                    assert(texts_view(out@) =~= texts_view(before).push(ValueView::String(text@)));
                },
                Err(e) => {
                    proof {
                        lemma_failure_stays(Kind::String, all, i + 1, all.len() as int);
                    }
                    return Some(Err(e));
                },
            }
            i += 1;
        }
        Some(Ok(out))
    }

    /// The path under `key`, as it was written, where there is one. Nothing
    /// in it is resolved.
    pub fn path<'a>(&'a self, section: &[u8], subsection: Option<&[u8]>, key: &[u8]) -> (r: Option<
        Result<Path<'a>, value::Error>,
    >)
        ensures
            match self@.value(section@, optional_slice_view(subsection), key@) {
                None => r is None,
                Some(raw) => match r {
                    Some(Ok(path)) => decoded(Kind::Path, raw) == Ok::<ValueView, value::Error>(
                        ValueView::Path(path@),
                    ) && (path.value is Borrowed) == borrows(Kind::Path, raw),
                    Some(Err(e)) => decoded(Kind::Path, raw) == Err::<ValueView, value::Error>(e),
                    None => false,
                },
            },
    {
        match self.raw_value(section, subsection, key) {
            None => None,
            Some(raw) => match unquote(raw) {
                Ok(text) => Some(Ok(Path::decode(text))),
                Err(e) => Some(Err(e)),
            },
        }
    }
}

/// One more raw value: the values so far and its own, or its failure.
proof fn lemma_decoded_step(kind: Kind, raws: Seq<Option<Seq<u8>>>, i: int)
    requires
        0 <= i,
        decoded_upto(kind, raws, i) is Ok,
    ensures
        decoded_upto(kind, raws, i + 1) == match decoded(kind, raws[i]) {
            Ok(v) => Ok::<Seq<ValueView>, value::Error>(decoded_upto(kind, raws, i)->Ok_0.push(v)),
            Err(e) => Err::<Seq<ValueView>, value::Error>(e),
        },
{
}

/// Once a raw value has failed, the list has failed, however long it is.
proof fn lemma_failure_stays(kind: Kind, raws: Seq<Option<Seq<u8>>>, m: int, n: int)
    requires
        0 <= m <= n,
        decoded_upto(kind, raws, m) is Err,
    ensures
        decoded_upto(kind, raws, n) == decoded_upto(kind, raws, m),
    decreases n - m,
{
    if m < n {
        lemma_failure_stays(kind, raws, m, n - 1);
    }
}

/// What is absent is not found, whatever kind is asked for: an absent key
/// never comes out as a value that could not be read.
pub proof fn lemma_absent_is_not_found(kind: Kind)
    ensures
        looked_up(kind, None) == Err::<ValueView, Error>(Error::NotFound),
{
}

/// A path leaves the lookup as it was written: where the raw value is
/// plain, the path is the raw value, byte for byte.
pub proof fn lemma_path_is_verbatim(raw: Seq<u8>)
    requires
        crate::value::is_plain(raw),
    ensures
        decoded(Kind::Path, Some(raw)) == Ok::<ValueView, value::Error>(ValueView::Path(raw)),
        decoded(Kind::String, Some(raw)) == Ok::<ValueView, value::Error>(ValueView::String(raw)),
{
    assert(raw.subrange(0, raw.len() as int) =~= raw);
    crate::value::lemma_plain_is_unquoted(raw, 0, raw.len() as int);
    assert(raw + Seq::<u8>::empty() =~= raw);
}

} // verus!
