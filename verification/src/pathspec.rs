//! Pathspecs: a path pattern with an optional magic signature in front of it,
//! either in short form (`:/`, `:!`) or in long form (`:(top,icase)`).

use vstd::prelude::*;

pub mod attributes;
pub mod parse;

verus! {

/// What a [`MagicSignature`] stands for: one boolean per known keyword.
pub struct Flags {
    pub top: bool,
    pub icase: bool,
    pub exclude: bool,
}

impl Flags {
    /// No keyword at all.
    pub open spec fn none() -> Flags {
        Flags { top: false, icase: false, exclude: false }
    }

    /// The keywords of either side.
    pub open spec fn or(self, other: Flags) -> Flags {
        Flags {
            top: self.top || other.top,
            icase: self.icase || other.icase,
            exclude: self.exclude || other.exclude,
        }
    }

    /// Every keyword of `self` is one of `other`.
    pub open spec fn within(self, other: Flags) -> bool {
        &&& self.top ==> other.top
        &&& self.icase ==> other.icase
        &&& self.exclude ==> other.exclude
    }
}

/// Bit of the `top` keyword: match from the root of the repository.
pub const TOP: u32 = 1;

/// Bit of the `icase` keyword: match without regard to case.
pub const ICASE: u32 = 2;

/// Bit of the `exclude` keyword: remove the matches from the result.
pub const EXCLUDE: u32 = 4;

/// The set of magic keywords of a pathspec, one bit per keyword.
#[derive(Clone, Copy, Debug, PartialEq, Eq, Hash)]
pub struct MagicSignature {
    pub bits: u32,
}

impl View for MagicSignature {
    type V = Flags;

    open spec fn view(&self) -> Flags {
        Flags {
            top: self.bits & TOP != 0,
            icase: self.bits & ICASE != 0,
            exclude: self.bits & EXCLUDE != 0,
        }
    }
}

impl MagicSignature {
    /// Only bits of known keywords are set.
    pub open spec fn wf(self) -> bool {
        self.bits <= 7
    }

    /// The signature without any keyword.
    pub fn empty() -> (r: MagicSignature)
        ensures
            r.wf(),
            r@ == Flags::none(),
    {
        let r = MagicSignature { bits: 0 };
        assert(0u32 & 1 == 0 && 0u32 & 2 == 0 && 0u32 & 4 == 0) by (bit_vector);
        r
    }

    /// The signature of `top` alone.
    pub fn top() -> (r: MagicSignature)
        ensures
            r.wf(),
            r@ == (Flags { top: true, icase: false, exclude: false }),
    {
        assert(1u32 & 1 != 0 && 1u32 & 2 == 0 && 1u32 & 4 == 0) by (bit_vector);
        MagicSignature { bits: TOP }
    }

    /// The signature of `icase` alone.
    pub fn icase() -> (r: MagicSignature)
        ensures
            r.wf(),
            r@ == (Flags { top: false, icase: true, exclude: false }),
    {
        assert(2u32 & 1 == 0 && 2u32 & 2 != 0 && 2u32 & 4 == 0) by (bit_vector);
        MagicSignature { bits: ICASE }
    }

    /// The signature of `exclude` alone.
    pub fn exclude() -> (r: MagicSignature)
        ensures
            r.wf(),
            r@ == (Flags { top: false, icase: false, exclude: true }),
    {
        assert(4u32 & 1 == 0 && 4u32 & 2 == 0 && 4u32 & 4 != 0) by (bit_vector);
        MagicSignature { bits: EXCLUDE }
    }

    /// The keywords of `self` and those of `other`.
    pub fn union(self, other: MagicSignature) -> (r: MagicSignature)
        ensures
            r@ == self@.or(other@),
            self.wf() && other.wf() ==> r.wf(),
    {
        let a = self.bits;
        let b = other.bits;
        assert(((a | b) & 1 != 0) == (a & 1 != 0 || b & 1 != 0)) by (bit_vector);
        assert(((a | b) & 2 != 0) == (a & 2 != 0 || b & 2 != 0)) by (bit_vector);
        assert(((a | b) & 4 != 0) == (a & 4 != 0 || b & 4 != 0)) by (bit_vector);
        assert(a <= 7 && b <= 7 ==> (a | b) <= 7) by (bit_vector);
        MagicSignature { bits: a | b }
    }

    /// True when every keyword of `other` is one of `self`.
    pub fn contains(self, other: MagicSignature) -> (r: bool)
        ensures
            r == (self.bits & other.bits == other.bits),
            other.wf() ==> r == other@.within(self@),
    {
        let a = self.bits;
        let b = other.bits;
        assert(b <= 7 ==> ((a & b == b) == ((b & 1 != 0 ==> a & 1 != 0) && (b & 2 != 0 ==> a & 2
            != 0) && (b & 4 != 0 ==> a & 4 != 0)))) by (bit_vector);
        a & b == b
    }

    /// True when no keyword is set.
    pub fn is_empty(self) -> (r: bool)
        ensures
            r == (self.bits == 0),
            self.wf() ==> r == (self@ == Flags::none()),
    {
        let a = self.bits;
        assert(a <= 7 ==> ((a == 0) == (a & 1 == 0 && a & 2 == 0 && a & 4 == 0))) by (bit_vector);
        a == 0
    }

    /// Two well-formed signatures with the same keywords have the same bits.
    pub proof fn lemma_view_determines_bits(self, other: MagicSignature)
        requires
            self.wf(),
            other.wf(),
            self@ == other@,
        ensures
            self == other,
    {
        let a = self.bits;
        let b = other.bits;
        assert(a <= 7 && b <= 7 && ((a & 1 != 0) == (b & 1 != 0)) && ((a & 2 != 0) == (b & 2 != 0))
            && ((a & 4 != 0) == (b & 4 != 0)) ==> a == b) by (bit_vector);
    }
}

/// How the path of a pathspec is matched.
#[derive(Clone, Copy, Debug, PartialEq, Eq, Hash)]
pub enum SearchMode {
    /// Shell wildcards; the default.
    ShellGlob,
    /// The path is taken byte for byte.
    Literal,
    /// Wildcards that know of directory separators.
    PathAwareGlob,
}

/// The state that a pathspec asks of an attribute.
#[derive(Clone, Debug, PartialEq, Eq, Hash)]
pub enum State {
    /// The attribute is listed by its name alone.
    IsSet,
    /// The name was prefixed with `-`.
    Unset,
    /// The attribute is followed by `=` and this value, which may be empty.
    Value(Vec<u8>),
    /// The name was prefixed with `!`.
    Unspecified,
}

/// The mathematical value of a [`State`].
pub enum StateView {
    IsSet,
    Unset,
    Value(Seq<u8>),
    Unspecified,
}

impl DeepView for State {
    type V = StateView;

    open spec fn deep_view(&self) -> StateView {
        match self {
            State::IsSet => StateView::IsSet,
            State::Unset => StateView::Unset,
            State::Value(v) => StateView::Value(v@),
            State::Unspecified => StateView::Unspecified,
        }
    }
}

/// A parsed pathspec.
#[derive(Clone, Debug, PartialEq, Eq, Hash)]
pub struct Pattern {
    /// The path part, with the magic signature removed.
    pub path: Vec<u8>,
    /// The magic keywords that apply.
    pub signature: MagicSignature,
    /// How the path is matched.
    pub search_mode: SearchMode,
    /// The attributes that a path must have, each with its state.
    pub attributes: Vec<(Vec<u8>, State)>,
}

/// The mathematical value of a [`Pattern`].
pub struct PatternView {
    pub path: Seq<u8>,
    pub signature: Flags,
    pub search_mode: SearchMode,
    pub attributes: Seq<(Seq<u8>, StateView)>,
}

impl View for Pattern {
    type V = PatternView;

    open spec fn view(&self) -> PatternView {
        PatternView {
            path: self.path@,
            signature: self.signature@,
            search_mode: self.search_mode,
            attributes: self.attributes.deep_view(),
        }
    }
}

impl PatternView {
    /// The pattern before anything was parsed: no path, no keyword, shell
    /// wildcards, no attribute.
    pub open spec fn blank() -> PatternView {
        PatternView {
            path: Seq::empty(),
            signature: Flags::none(),
            search_mode: SearchMode::ShellGlob,
            attributes: Seq::empty(),
        }
    }
}

} // verus!
