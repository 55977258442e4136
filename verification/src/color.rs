//! Color values: up to two colors, the foreground before the background,
//! and the attributes behind them.

use vstd::prelude::*;
use vstd::slice::slice_subrange;
use vstd::string::StringSliceAdditionalSpecFns;

use crate::bytes::{
    equal, has_prefix, lowercase, slices_view, split_words, starts_with, to_lowercase, words, HASH,
};
use crate::integer::{digits_value, is_digits, read_digits, Digits};
use crate::value::Error;

verus! {

/// A color.
#[derive(Clone, Copy, Debug, PartialEq, Eq, Hash)]
pub enum Name {
    Normal,
    Default,
    Black,
    BrightBlack,
    Red,
    BrightRed,
    Green,
    BrightGreen,
    Yellow,
    BrightYellow,
    Blue,
    BrightBlue,
    Magenta,
    BrightMagenta,
    Cyan,
    BrightCyan,
    White,
    BrightWhite,
    /// One of the 256 colors of a terminal, by its number.
    Ansi(u8),
    /// Red, green and blue.
    Rgb(u8, u8, u8),
}

/// A way of drawing text, or the end of one.
#[derive(Clone, Copy, Debug, PartialEq, Eq, Hash)]
pub enum Attribute {
    Reset,
    Bold,
    NoBold,
    Dim,
    NoDim,
    Italic,
    NoItalic,
    Ul,
    NoUl,
    Blink,
    NoBlink,
    Reverse,
    NoReverse,
    Strike,
    NoStrike,
}

/// A color value.
#[derive(Clone, Debug, PartialEq, Eq, Hash)]
pub struct Color {
    /// The first color that was named.
    pub foreground: Option<Name>,
    /// The second color that was named.
    pub background: Option<Name>,
    /// The attributes in the order in which they were written.
    pub attributes: Vec<Attribute>,
}

/// The mathematical value of a [`Color`].
pub struct ColorView {
    pub foreground: Option<Name>,
    pub background: Option<Name>,
    pub attributes: Seq<Attribute>,
}

impl View for Color {
    type V = ColorView;

    open spec fn view(&self) -> ColorView {
        ColorView {
            foreground: self.foreground,
            background: self.background,
            attributes: self.attributes@,
        }
    }
}

impl ColorView {
    /// No color and no attribute.
    pub open spec fn blank() -> ColorView {
        ColorView { foreground: None, background: None, attributes: Seq::empty() }
    }
}

/// The value of a hexadecimal digit in lower case.
pub open spec fn hex_digit(b: u8) -> Option<u8> {
    if '0' as u8 <= b <= '9' as u8 {
        Some((b - '0' as u8) as u8)
    } else if 'a' as u8 <= b <= 'f' as u8 {
        Some((b - 'a' as u8 + 10) as u8)
    } else {
        None
    }
}

/// The byte that two hexadecimal digits write.
pub open spec fn hex_pair(high: u8, low: u8) -> Option<u8> {
    match (hex_digit(high), hex_digit(low)) {
        (Some(h), Some(l)) => Some((16 * h + l) as u8),
        _ => None,
    }
}

/// The color that `#` and six hexadecimal digits write.
pub open spec fn rgb_of(w: Seq<u8>) -> Option<Name> {
    if w.len() == 7 && w[0] == HASH {
        match (hex_pair(w[1], w[2]), hex_pair(w[3], w[4]), hex_pair(w[5], w[6])) {
            (Some(r), Some(g), Some(b)) => Some(Name::Rgb(r, g, b)),
            _ => None,
        }
    } else {
        None
    }
}

/// The color that a word in lower case names: one of the words, a decimal
/// number up to 255, or `#` and six hexadecimal digits.
pub open spec fn named_color(w: Seq<u8>) -> Option<Name> {
    if w == "normal".spec_bytes() {
        Some(Name::Normal)
    } else if w == "default".spec_bytes() {
        Some(Name::Default)
    } else if w == "black".spec_bytes() {
        Some(Name::Black)
    } else if w == "brightblack".spec_bytes() {
        Some(Name::BrightBlack)
    } else if w == "red".spec_bytes() {
        Some(Name::Red)
    } else if w == "brightred".spec_bytes() {
        Some(Name::BrightRed)
    } else if w == "green".spec_bytes() {
        Some(Name::Green)
    } else if w == "brightgreen".spec_bytes() {
        Some(Name::BrightGreen)
    } else if w == "yellow".spec_bytes() {
        Some(Name::Yellow)
    } else if w == "brightyellow".spec_bytes() {
        Some(Name::BrightYellow)
    } else if w == "blue".spec_bytes() {
        Some(Name::Blue)
    } else if w == "brightblue".spec_bytes() {
        Some(Name::BrightBlue)
    } else if w == "magenta".spec_bytes() {
        Some(Name::Magenta)
    } else if w == "brightmagenta".spec_bytes() {
        Some(Name::BrightMagenta)
    } else if w == "cyan".spec_bytes() {
        Some(Name::Cyan)
    } else if w == "brightcyan".spec_bytes() {
        Some(Name::BrightCyan)
    } else if w == "white".spec_bytes() {
        Some(Name::White)
    } else if w == "brightwhite".spec_bytes() {
        Some(Name::BrightWhite)
    } else if is_digits(w) {
        if digits_value(w) <= 255 {
            Some(Name::Ansi(digits_value(w) as u8))
        } else {
            None
        }
    } else {
        rgb_of(w)
    }
}

/// The color that the word `w` names, in any case.
pub open spec fn name_of(w: Seq<u8>) -> Option<Name> {
    named_color(lowercase(w))
}

/// The attribute that a word in lower case sets.
pub open spec fn set_attribute(w: Seq<u8>) -> Option<Attribute> {
    if w == "bold".spec_bytes() {
        Some(Attribute::Bold)
    } else if w == "dim".spec_bytes() {
        Some(Attribute::Dim)
    } else if w == "italic".spec_bytes() {
        Some(Attribute::Italic)
    } else if w == "ul".spec_bytes() {
        Some(Attribute::Ul)
    } else if w == "blink".spec_bytes() {
        Some(Attribute::Blink)
    } else if w == "reverse".spec_bytes() {
        Some(Attribute::Reverse)
    } else if w == "strike".spec_bytes() {
        Some(Attribute::Strike)
    } else {
        None
    }
}

/// The attribute that ends `a`.
pub open spec fn negated(a: Option<Attribute>) -> Option<Attribute> {
    match a {
        Some(Attribute::Bold) => Some(Attribute::NoBold),
        Some(Attribute::Dim) => Some(Attribute::NoDim),
        Some(Attribute::Italic) => Some(Attribute::NoItalic),
        Some(Attribute::Ul) => Some(Attribute::NoUl),
        Some(Attribute::Blink) => Some(Attribute::NoBlink),
        Some(Attribute::Reverse) => Some(Attribute::NoReverse),
        Some(Attribute::Strike) => Some(Attribute::NoStrike),
        _ => None,
    }
}

/// The attribute that a word in lower case writes: `reset`, one of the
/// words that set an attribute, or such a word behind `no` or `no-`.
pub open spec fn written_attribute(w: Seq<u8>) -> Option<Attribute> {
    if w == "reset".spec_bytes() {
        Some(Attribute::Reset)
    } else if has_prefix(w, "no-".spec_bytes()) {
        negated(set_attribute(w.subrange(3, w.len() as int)))
    } else if has_prefix(w, "no".spec_bytes()) {
        negated(set_attribute(w.subrange(2, w.len() as int)))
    } else {
        set_attribute(w)
    }
}

/// The attribute that the word `w` writes, in any case.
pub open spec fn attribute_of(w: Seq<u8>) -> Option<Attribute> {
    written_attribute(lowercase(w))
}

/// The color value `c` after the word `w`. A color is the foreground where
/// there is none yet, the background where there is a foreground only; a
/// third color is refused, and so is a color behind an attribute. An
/// attribute is added to the attributes.
pub open spec fn with_word(c: ColorView, w: Seq<u8>) -> Result<ColorView, Error> {
    match name_of(w) {
        Some(name) => if c.attributes.len() > 0 {
            Err(Error::InvalidColor)
        } else if c.foreground is None {
            Ok(ColorView { foreground: Some(name), ..c })
        } else if c.background is None {
            Ok(ColorView { background: Some(name), ..c })
        } else {
            Err(Error::TooManyColors)
        },
        None => match attribute_of(w) {
            Some(a) => Ok(ColorView { attributes: c.attributes.push(a), ..c }),
            None => Err(Error::InvalidColor),
        },
    }
}

/// The color value `c` after the words `ws`, up to the first that fails.
pub open spec fn with_words(c: ColorView, ws: Seq<Seq<u8>>) -> Result<ColorView, Error>
    decreases ws.len(),
{
    if ws.len() == 0 {
        Ok(c)
    } else {
        match with_word(c, ws[0]) {
            Ok(next) => with_words(next, ws.drop_first()),
            Err(e) => Err(e),
        }
    }
}

/// The color value that `text` writes.
pub open spec fn color(text: Seq<u8>) -> Result<ColorView, Error> {
    with_words(ColorView::blank(), words(text))
}

fn read_hex_digit(b: u8) -> (r: Option<u8>)
    ensures
        r == hex_digit(b),
{
    if b >= '0' as u8 && b <= '9' as u8 {
        Some(b - '0' as u8)
    } else if b >= 'a' as u8 && b <= 'f' as u8 {
        Some(b - 'a' as u8 + 10)
    } else {
        None
    }
}

fn read_hex_pair(high: u8, low: u8) -> (r: Option<u8>)
    ensures
        r == hex_pair(high, low),
{
    match (read_hex_digit(high), read_hex_digit(low)) {
        (Some(h), Some(l)) => Some(16 * h + l),
        _ => None,
    }
}

fn read_rgb(w: &[u8]) -> (r: Option<Name>)
    ensures
        r == rgb_of(w@),
{
    if w.len() == 7 && w[0] == HASH {
        match (read_hex_pair(w[1], w[2]), read_hex_pair(w[3], w[4]), read_hex_pair(w[5], w[6])) {
            (Some(r), Some(g), Some(b)) => Some(Name::Rgb(r, g, b)),
            _ => None,
        }
    } else {
        None
    }
}

fn read_named_color(w: &[u8]) -> (r: Option<Name>)
    ensures
        r == named_color(w@),
{
    if equal(w, "normal".as_bytes()) {
        Some(Name::Normal)
    } else if equal(w, "default".as_bytes()) {
        Some(Name::Default)
    } else if equal(w, "black".as_bytes()) {
        Some(Name::Black)
    } else if equal(w, "brightblack".as_bytes()) {
        Some(Name::BrightBlack)
    } else if equal(w, "red".as_bytes()) {
        Some(Name::Red)
    } else if equal(w, "brightred".as_bytes()) {
        Some(Name::BrightRed)
    } else if equal(w, "green".as_bytes()) {
        Some(Name::Green)
    } else if equal(w, "brightgreen".as_bytes()) {
        Some(Name::BrightGreen)
    } else if equal(w, "yellow".as_bytes()) {
        Some(Name::Yellow)
    } else if equal(w, "brightyellow".as_bytes()) {
        Some(Name::BrightYellow)
    } else if equal(w, "blue".as_bytes()) {
        Some(Name::Blue)
    } else if equal(w, "brightblue".as_bytes()) {
        Some(Name::BrightBlue)
    } else if equal(w, "magenta".as_bytes()) {
        Some(Name::Magenta)
    } else if equal(w, "brightmagenta".as_bytes()) {
        Some(Name::BrightMagenta)
    } else if equal(w, "cyan".as_bytes()) {
        Some(Name::Cyan)
    } else if equal(w, "brightcyan".as_bytes()) {
        Some(Name::BrightCyan)
    } else if equal(w, "white".as_bytes()) {
        Some(Name::White)
    } else if equal(w, "brightwhite".as_bytes()) {
        Some(Name::BrightWhite)
    } else {
        match read_digits(w) {
            Digits::Number(n) => if n <= 255 {
                Some(Name::Ansi(n as u8))
            } else {
                None
            },
            Digits::TooLarge => None,
            Digits::NotANumber => read_rgb(w),
        }
    }
}

fn read_set_attribute(w: &[u8]) -> (r: Option<Attribute>)
    ensures
        r == set_attribute(w@),
{
    if equal(w, "bold".as_bytes()) {
        Some(Attribute::Bold)
    } else if equal(w, "dim".as_bytes()) {
        Some(Attribute::Dim)
    } else if equal(w, "italic".as_bytes()) {
        Some(Attribute::Italic)
    } else if equal(w, "ul".as_bytes()) {
        Some(Attribute::Ul)
    } else if equal(w, "blink".as_bytes()) {
        Some(Attribute::Blink)
    } else if equal(w, "reverse".as_bytes()) {
        Some(Attribute::Reverse)
    } else if equal(w, "strike".as_bytes()) {
        Some(Attribute::Strike)
    } else {
        None
    }
}

fn negate(a: Option<Attribute>) -> (r: Option<Attribute>)
    ensures
        r == negated(a),
{
    match a {
        Some(Attribute::Bold) => Some(Attribute::NoBold),
        Some(Attribute::Dim) => Some(Attribute::NoDim),
        Some(Attribute::Italic) => Some(Attribute::NoItalic),
        Some(Attribute::Ul) => Some(Attribute::NoUl),
        Some(Attribute::Blink) => Some(Attribute::NoBlink),
        Some(Attribute::Reverse) => Some(Attribute::NoReverse),
        Some(Attribute::Strike) => Some(Attribute::NoStrike),
        _ => None,
    }
}

fn read_written_attribute(w: &[u8]) -> (r: Option<Attribute>)
    ensures
        r == written_attribute(w@),
{
    proof {
        reveal_strlit("no-");
        reveal_strlit("no");
        vstd::string::is_ascii_spec_bytes("no-");
        vstd::string::is_ascii_spec_bytes("no");
    }
    if equal(w, "reset".as_bytes()) {
        Some(Attribute::Reset)
    } else if starts_with(w, "no-".as_bytes()) {
        negate(read_set_attribute(slice_subrange(w, 3, w.len())))
    } else if starts_with(w, "no".as_bytes()) {
        negate(read_set_attribute(slice_subrange(w, 2, w.len())))
    } else {
        read_set_attribute(w)
    }
}

impl Name {
    /// The color that the word `w` names.
    pub fn decode(w: &[u8]) -> (r: Option<Name>)
        ensures
            r == name_of(w@),
    {
        let lowered = to_lowercase(w);
        read_named_color(lowered.as_slice())
    }
}

impl Attribute {
    /// The attribute that the word `w` writes.
    pub fn decode(w: &[u8]) -> (r: Option<Attribute>)
        ensures
            r == attribute_of(w@),
    {
        let lowered = to_lowercase(w);
        read_written_attribute(lowered.as_slice())
    }
}

impl Color {
    /// Reads a color value from text without quotes.
    pub fn decode(text: &[u8]) -> (r: Result<Color, Error>)
        ensures
            match r {
                Ok(c) => color(text@) == Ok::<ColorView, Error>(c@),
                Err(e) => color(text@) == Err::<ColorView, Error>(e),
            },
    {
        let tokens = split_words(text);
        let ghost ws = slices_view(tokens@);
        let mut c = Color { foreground: None, background: None, attributes: Vec::new() };
        let mut k: usize = 0;
        assert(ws.subrange(0, ws.len() as int) =~= ws);
        while k < tokens.len()
            invariant
                k <= tokens.len(),
                ws == slices_view(tokens@),
                ws == words(text@),
                with_words(c@, ws.subrange(k as int, ws.len() as int)) == color(text@),
            decreases tokens.len() - k,
        {
            let token = tokens[k];
            proof {
                let rest = ws.subrange(k as int, ws.len() as int);
                assert(rest[0] == token@);
                assert(rest.drop_first() =~= ws.subrange(k + 1, ws.len() as int));
            }
            match Name::decode(token) {
                Some(name) => {
                    if c.attributes.len() > 0 {
                        return Err(Error::InvalidColor);
                    } else if c.foreground.is_none() {
                        c.foreground = Some(name);
                    } else if c.background.is_none() {
                        c.background = Some(name);
                    } else {
                        return Err(Error::TooManyColors);
                    }
                },
                None => match Attribute::decode(token) {
                    Some(a) => {
                        c.attributes.push(a);
                    },
                    None => {
                        return Err(Error::InvalidColor);
                    },
                },
            }
            k += 1;
        }
        Ok(c)
    }
}

} // verus!
