//! Boolean values: the words for true and false, and the key that stands
//! alone.

use vstd::prelude::*;
use vstd::slice::slice_to_vec;
use vstd::string::StringSliceAdditionalSpecFns;

use crate::bytes::{eq_ignore_case, equal_ignore_case};
use crate::value::{Bytes, Error};

verus! {

/// The two ways of being true.
#[derive(Clone, Debug, PartialEq, Eq)]
pub enum True<'a> {
    /// A word for true was written; this is the word.
    Explicit(Bytes<'a>),
    /// The key stands alone, without `=` and without a value.
    Implicit,
}

/// A boolean value, with the text that it was read from.
#[derive(Clone, Debug, PartialEq, Eq)]
pub enum Boolean<'a> {
    True(True<'a>),
    /// A word for false was written, or an empty value; this is the text.
    False(Bytes<'a>),
}

/// The mathematical value of a [`True`].
pub enum TrueView {
    Explicit(Seq<u8>),
    Implicit,
}

/// The mathematical value of a [`Boolean`].
pub enum BooleanView {
    True(TrueView),
    False(Seq<u8>),
}

impl<'a> View for True<'a> {
    type V = TrueView;

    open spec fn view(&self) -> TrueView {
        match self {
            True::Explicit(text) => TrueView::Explicit(text@),
            True::Implicit => TrueView::Implicit,
        }
    }
}

impl<'a> View for Boolean<'a> {
    type V = BooleanView;

    open spec fn view(&self) -> BooleanView {
        match self {
            Boolean::True(t) => BooleanView::True(t@),
            Boolean::False(text) => BooleanView::False(text@),
        }
    }
}

/// The words for true: `yes`, `on`, `true` and `one`, in any case.
pub open spec fn is_true_word(text: Seq<u8>) -> bool {
    ||| eq_ignore_case(text, "yes".spec_bytes())
    ||| eq_ignore_case(text, "on".spec_bytes())
    ||| eq_ignore_case(text, "true".spec_bytes())
    ||| eq_ignore_case(text, "one".spec_bytes())
}

/// The words for false: `no`, `off`, `false` and `zero`, in any case, and
/// the empty value.
pub open spec fn is_false_word(text: Seq<u8>) -> bool {
    ||| text.len() == 0
    ||| eq_ignore_case(text, "no".spec_bytes())
    ||| eq_ignore_case(text, "off".spec_bytes())
    ||| eq_ignore_case(text, "false".spec_bytes())
    ||| eq_ignore_case(text, "zero".spec_bytes())
}

/// The boolean that `text` stands for; `None` is the key without a value.
pub open spec fn boolean(text: Option<Seq<u8>>) -> Result<BooleanView, Error> {
    match text {
        None => Ok(BooleanView::True(TrueView::Implicit)),
        Some(text) => if is_true_word(text) {
            Ok(BooleanView::True(TrueView::Explicit(text)))
        } else if is_false_word(text) {
            Ok(BooleanView::False(text))
        } else {
            Err(Error::InvalidBoolean)
        },
    }
}

/// The bytes behind optional text.
pub open spec fn optional_bytes_view(text: Option<Bytes<'_>>) -> Option<Seq<u8>> {
    match text {
        Some(text) => Some(text@),
        None => None,
    }
}

impl BooleanView {
    /// The truth value, whichever way it was written.
    pub open spec fn truth(self) -> bool {
        self is True
    }
}

impl<'a> Boolean<'a> {
    /// The text that the boolean was read from, if it was read from any.
    pub open spec fn text(self) -> Option<Bytes<'a>> {
        match self {
            Boolean::True(True::Explicit(text)) => Some(text),
            Boolean::True(True::Implicit) => None,
            Boolean::False(text) => Some(text),
        }
    }
}

fn true_word(text: &[u8]) -> (r: bool)
    ensures
        r == is_true_word(text@),
{
    equal_ignore_case(text, "yes".as_bytes()) || equal_ignore_case(text, "on".as_bytes())
        || equal_ignore_case(text, "true".as_bytes()) || equal_ignore_case(text, "one".as_bytes())
}

fn false_word(text: &[u8]) -> (r: bool)
    ensures
        r == is_false_word(text@),
{
    text.len() == 0 || equal_ignore_case(text, "no".as_bytes()) || equal_ignore_case(
        text,
        "off".as_bytes(),
    ) || equal_ignore_case(text, "false".as_bytes()) || equal_ignore_case(text, "zero".as_bytes())
}

impl<'a> Boolean<'a> {
    /// Reads a boolean from text without quotes; `None` is the key without
    /// a value.
    pub fn decode(text: Option<Bytes<'a>>) -> (r: Result<Boolean<'a>, Error>)
        ensures
            match r {
                Ok(b) => boolean(optional_bytes_view(text)) == Ok::<BooleanView, Error>(b@)
                    && b.text() == text,
                Err(e) => boolean(optional_bytes_view(text)) == Err::<BooleanView, Error>(e),
            },
    {
        match text {
            None => Ok(Boolean::True(True::Implicit)),
            Some(text) => {
                if true_word(text.as_slice()) {
                    Ok(Boolean::True(True::Explicit(text)))
                } else if false_word(text.as_slice()) {
                    Ok(Boolean::False(text))
                } else {
                    Err(Error::InvalidBoolean)
                }
            },
        }
    }

    /// The truth value, whichever way it was written.
    pub fn is_true(&self) -> (r: bool)
        ensures
            r == self@.truth(),
    {
        match self {
            Boolean::True(_) => true,
            Boolean::False(_) => false,
        }
    }

    /// True for the key that stands alone.
    pub fn is_implicit(&self) -> (r: bool)
        ensures
            r == (self@ == BooleanView::True(TrueView::Implicit)),
    {
        match self {
            Boolean::True(True::Implicit) => true,
            _ => false,
        }
    }
}

/// The words that a boolean may be written with. The words of git are in
/// [`Vocabulary::git`]; a document in another dialect brings its own.
#[derive(Clone, Debug, PartialEq, Eq)]
pub struct Vocabulary {
    /// The words for true.
    pub truthy: Vec<Vec<u8>>,
    /// The words for false.
    pub falsy: Vec<Vec<u8>>,
}

/// The mathematical value of a [`Vocabulary`].
pub struct VocabularyView {
    pub truthy: Seq<Seq<u8>>,
    pub falsy: Seq<Seq<u8>>,
}

/// The byte strings that a list of words holds.
pub open spec fn words_view(words: Seq<Vec<u8>>) -> Seq<Seq<u8>> {
    words.map_values(|w: Vec<u8>| w@)
}

impl View for Vocabulary {
    type V = VocabularyView;

    open spec fn view(&self) -> VocabularyView {
        VocabularyView { truthy: words_view(self.truthy@), falsy: words_view(self.falsy@) }
    }
}

/// `text` is one of `words`, up to the case of its letters.
pub open spec fn is_word_of(words: Seq<Seq<u8>>, text: Seq<u8>) -> bool {
    exists|i: int| 0 <= i < words.len() && eq_ignore_case(text, #[trigger] words[i])
}

/// The boolean that `text` stands for where the words are those of
/// `vocabulary`. A word for true is looked for first.
pub open spec fn boolean_with(vocabulary: VocabularyView, text: Option<Seq<u8>>) -> Result<
    BooleanView,
    Error,
> {
    match text {
        None => Ok(BooleanView::True(TrueView::Implicit)),
        Some(text) => if is_word_of(vocabulary.truthy, text) {
            Ok(BooleanView::True(TrueView::Explicit(text)))
        } else if is_word_of(vocabulary.falsy, text) {
            Ok(BooleanView::False(text))
        } else {
            Err(Error::InvalidBoolean)
        },
    }
}

impl VocabularyView {
    /// The words of git.
    pub open spec fn git() -> VocabularyView {
        VocabularyView {
            truthy: seq![
                "yes".spec_bytes(),
                "on".spec_bytes(),
                "true".spec_bytes(),
                "one".spec_bytes(),
            ],
            falsy: seq![
                Seq::empty(),
                "no".spec_bytes(),
                "off".spec_bytes(),
                "false".spec_bytes(),
                "zero".spec_bytes(),
            ],
        }
    }
}

fn word_of(words: &Vec<Vec<u8>>, text: &[u8]) -> (r: bool)
    ensures
        r == is_word_of(words_view(words@), text@),
{
    let mut i: usize = 0;
    while i < words.len()
        invariant
            i <= words.len(),
            forall|k: int| 0 <= k < i ==> !eq_ignore_case(text@, #[trigger] words_view(words@)[k]),
        decreases words.len() - i,
    {
        assert(words_view(words@)[i as int] == words[i as int]@);
        if equal_ignore_case(text, words[i].as_slice()) {
            return true;
        }
        i += 1;
    }
    false
}

impl Vocabulary {
    /// The words of git.
    pub fn git() -> (r: Vocabulary)
        ensures
            r@ == VocabularyView::git(),
    {
        let mut truthy: Vec<Vec<u8>> = Vec::new();
        truthy.push(slice_to_vec("yes".as_bytes()));
        truthy.push(slice_to_vec("on".as_bytes()));
        truthy.push(slice_to_vec("true".as_bytes()));
        truthy.push(slice_to_vec("one".as_bytes()));
        let mut falsy: Vec<Vec<u8>> = Vec::new();
        falsy.push(Vec::new());
        falsy.push(slice_to_vec("no".as_bytes()));
        falsy.push(slice_to_vec("off".as_bytes()));
        falsy.push(slice_to_vec("false".as_bytes()));
        falsy.push(slice_to_vec("zero".as_bytes()));
        let r = Vocabulary { truthy, falsy };
        assert(r@.truthy =~= VocabularyView::git().truthy);
        assert(r@.falsy =~= VocabularyView::git().falsy);
        r
    }
}

impl<'a> Boolean<'a> {
    /// Reads a boolean from text without quotes, with the words of
    /// `vocabulary`; `None` is the key without a value.
    pub fn decode_with(vocabulary: &Vocabulary, text: Option<Bytes<'a>>) -> (r: Result<
        Boolean<'a>,
        Error,
    >)
        ensures
            match r {
                Ok(b) => boolean_with(vocabulary@, optional_bytes_view(text)) == Ok::<
                    BooleanView,
                    Error,
                >(b@) && b.text() == text,
                Err(e) => boolean_with(vocabulary@, optional_bytes_view(text)) == Err::<
                    BooleanView,
                    Error,
                >(e),
            },
    {
        match text {
            None => Ok(Boolean::True(True::Implicit)),
            Some(text) => {
                if word_of(&vocabulary.truthy, text.as_slice()) {
                    Ok(Boolean::True(True::Explicit(text)))
                } else if word_of(&vocabulary.falsy, text.as_slice()) {
                    Ok(Boolean::False(text))
                } else {
                    Err(Error::InvalidBoolean)
                }
            },
        }
    }
}

/// With the words of git, reading by vocabulary is reading as such.
pub proof fn lemma_git_vocabulary(text: Option<Seq<u8>>)
    ensures
        boolean_with(VocabularyView::git(), text) == boolean(text),
{
    let v = VocabularyView::git();
    match text {
        None => {},
        Some(text) => {
            if is_true_word(text) {
                assert(v.truthy[0] == "yes".spec_bytes());
                assert(v.truthy[1] == "on".spec_bytes());
                assert(v.truthy[2] == "true".spec_bytes());
                assert(v.truthy[3] == "one".spec_bytes());
            }
            if is_false_word(text) {
                assert(v.falsy[0] == Seq::<u8>::empty());
                assert(v.falsy[1] == "no".spec_bytes());
                assert(v.falsy[2] == "off".spec_bytes());
                assert(v.falsy[3] == "false".spec_bytes());
                assert(v.falsy[4] == "zero".spec_bytes());
                if text.len() == 0 {
                    assert(eq_ignore_case(text, v.falsy[0]));
                }
            }
        },
    }
}

/// A key that stands alone and a word for true are both true, and they
/// are told apart: the one is implicit, the other holds its word.
pub proof fn lemma_implicit_and_explicit_true(word: Seq<u8>)
    requires
        is_true_word(word),
    ensures
        boolean(None) == Ok::<BooleanView, Error>(BooleanView::True(TrueView::Implicit)),
        boolean(Some(word)) == Ok::<BooleanView, Error>(
            BooleanView::True(TrueView::Explicit(word)),
        ),
        boolean(None)->Ok_0.truth(),
        boolean(Some(word))->Ok_0.truth(),
        boolean(None) != boolean(Some(word)),
{
}

/// No text is a word for true and a word for false at once.
pub proof fn lemma_true_and_false_words_differ(text: Seq<u8>)
    ensures
        !(is_true_word(text) && is_false_word(text)),
{
    reveal_strlit("yes");
    reveal_strlit("on");
    reveal_strlit("true");
    reveal_strlit("one");
    reveal_strlit("no");
    reveal_strlit("off");
    reveal_strlit("false");
    reveal_strlit("zero");
    vstd::string::is_ascii_spec_bytes("yes");
    vstd::string::is_ascii_spec_bytes("on");
    vstd::string::is_ascii_spec_bytes("true");
    vstd::string::is_ascii_spec_bytes("one");
    vstd::string::is_ascii_spec_bytes("no");
    vstd::string::is_ascii_spec_bytes("off");
    vstd::string::is_ascii_spec_bytes("false");
    vstd::string::is_ascii_spec_bytes("zero");
    if is_true_word(text) && is_false_word(text) {
        assert(text.len() == 2 || text.len() == 3 || text.len() == 4 || text.len() == 5);
        if text.len() == 2 {
            assert(crate::bytes::lower(text[1]) == 'n' as u8);
            assert(crate::bytes::lower(text[1]) == 'o' as u8);
        } else if text.len() == 3 {
            assert(crate::bytes::lower(text[1]) == 'f' as u8);
            assert(crate::bytes::lower(text[1]) == 'e' as u8 || crate::bytes::lower(text[1])
                == 'n' as u8);
        } else if text.len() == 4 {
            assert(crate::bytes::lower(text[0]) == 't' as u8);
            assert(crate::bytes::lower(text[0]) == 'z' as u8);
        }
    }
}

} // verus!
