//! The reading of a document's text: bytes in, lexical events out.
//!
//! ```text
//! document   := section*
//! section    := "[" name subsection? "]" entry*
//! subsection := blanks '"' label '"'
//! entry      := blanks key (blanks "=" blanks value)? end of line
//! ```
//!
//! A `#` or `;` begins a comment that runs to the end of its line. A value
//! runs to the end of its line, or to a comment that begins outside quotes;
//! a backslash at the end of a line carries it over into the next line.

use vstd::prelude::*;
use vstd::slice::{slice_subrange, slice_to_vec};

use crate::bytes::{
    BACKSLASH, CARRIAGE_RETURN, CLOSE_BRACKET, DOT, EQUALS, HASH, MINUS, NEWLINE, OPEN_BRACKET,
    QUOTE, SEMICOLON, SPACE, TAB,
};
use crate::events::{
    built, events_view, is_alpha, is_key_byte, is_section_byte, Error, Event, EventView,
};
use crate::file::{File, FileView};
use crate::value::escaped;

verus! {

/// The classes of bytes that runs are made of.
#[derive(Clone, Copy, Debug, PartialEq, Eq)]
pub enum Class {
    /// Space, tab and carriage return.
    Blank,
    /// The bytes of a section's name.
    Name,
    /// The bytes of a key.
    Key,
    /// Every byte but the line feed.
    Line,
}

/// The byte `b` belongs to the class `c`.
pub open spec fn in_class(c: Class, b: u8) -> bool {
    match c {
        Class::Blank => b == SPACE || b == TAB || b == CARRIAGE_RETURN,
        Class::Name => is_section_byte(b),
        Class::Key => is_key_byte(b),
        Class::Line => b != NEWLINE,
    }
}

/// Where the run of bytes of the class `c` that begins at `i` ends: the
/// first index from `i` on whose byte is not of the class, or the end.
pub open spec fn run_end(input: Seq<u8>, c: Class, i: int) -> int
    decreases input.len() - i,
{
    if 0 <= i < input.len() && in_class(c, input[i]) {
        run_end(input, c, i + 1)
    } else {
        i
    }
}

/// A run lies inside the text, holds bytes of its class only, and ends
/// before a byte of another class.
pub proof fn lemma_run_end(input: Seq<u8>, c: Class, i: int)
    requires
        0 <= i <= input.len(),
    ensures
        i <= run_end(input, c, i) <= input.len(),
        forall|k: int| i <= k < run_end(input, c, i) ==> in_class(c, #[trigger] input[k]),
        run_end(input, c, i) < input.len() ==> !in_class(c, input[run_end(input, c, i)]),
    decreases input.len() - i,
{
    if i < input.len() && in_class(c, input[i]) {
        lemma_run_end(input, c, i + 1);
    }
}

/// `bytes` in front of the label that `rest` found.
pub open spec fn prepend_label(bytes: Seq<u8>, rest: Option<(Seq<u8>, int)>) -> Option<
    (Seq<u8>, int),
> {
    match rest {
        Some((text, close)) => Some((bytes + text, close)),
        None => None,
    }
}

/// The label of a subsection that begins at `i`, behind the opening quote,
/// and the index of the quote that closes it. A backslash gives the byte
/// behind it its plain meaning. `None` where the line or the text ends
/// before the label does.
pub open spec fn label(input: Seq<u8>, i: int) -> Option<(Seq<u8>, int)>
    decreases input.len() - i,
{
    if i < 0 || i >= input.len() || input[i] == NEWLINE {
        None
    } else if input[i] == QUOTE {
        Some((Seq::empty(), i))
    } else if input[i] == BACKSLASH {
        if i + 1 < input.len() && input[i + 1] != NEWLINE {
            prepend_label(seq![input[i + 1]], label(input, i + 2))
        } else {
            None
        }
    } else {
        prepend_label(seq![input[i]], label(input, i + 1))
    }
}

/// The index of the quote that closes the label that `found` holds.
pub open spec fn close_of(found: Option<(Seq<u8>, int)>) -> int {
    match found {
        Some((_, close)) => close,
        None => 0,
    }
}

/// The index behind the events that `found` holds.
pub open spec fn next_of(found: Result<(Seq<EventView>, int), Error>) -> int {
    match found {
        Ok((_, next)) => next,
        Err(_) => 0,
    }
}

/// The closing quote of a label stands inside the text, at or behind the
/// place where the label begins.
pub proof fn lemma_label(input: Seq<u8>, i: int)
    requires
        0 <= i,
        label(input, i) is Some,
    ensures
        i <= close_of(label(input, i)) < input.len(),
    decreases input.len() - i,
{
    if input[i] == QUOTE {
    } else if input[i] == BACKSLASH {
        lemma_label(input, i + 2);
    } else {
        lemma_label(input, i + 1);
    }
}

/// The header that begins with the `[` at `i`, and the index behind its `]`.
pub open spec fn header(input: Seq<u8>, i: int) -> Result<(EventView, int), Error> {
    let name_end = run_end(input, Class::Name, i + 1);
    let name = input.subrange(i + 1, name_end);
    if name_end == i + 1 {
        Err(Error::MalformedHeader)
    } else if name_end < input.len() && input[name_end] == CLOSE_BRACKET {
        Ok((EventView::SectionHeader { name, subsection: None }, name_end + 1))
    } else {
        let quote = run_end(input, Class::Blank, name_end);
        if quote > name_end && quote < input.len() && input[quote] == QUOTE {
            match label(input, quote + 1) {
                Some((text, close)) => if close + 1 < input.len() && input[close + 1]
                    == CLOSE_BRACKET {
                    Ok((EventView::SectionHeader { name, subsection: Some(text) }, close + 2))
                } else {
                    Err(Error::MalformedHeader)
                },
                None => Err(Error::UnterminatedQuote),
            }
        } else {
            Err(Error::MalformedHeader)
        }
    }
}

/// The events `events` in front of what `rest` found.
pub open spec fn prepend(events: Seq<EventView>, rest: Result<(Seq<EventView>, int), Error>)
    -> Result<(Seq<EventView>, int), Error> {
    match rest {
        Ok((more, next)) => Ok((events + more, next)),
        Err(e) => Err(e),
    }
}

/// Where the text from `from` up to `to` ends once the blanks at its end
/// are taken off.
pub open spec fn trimmed_end(input: Seq<u8>, from: int, to: int) -> int
    decreases to - from,
{
    if from < to && 0 < to <= input.len() && in_class(Class::Blank, input[to - 1]) {
        trimmed_end(input, from, to - 1)
    } else {
        to
    }
}

/// The events of the value whose current part began at `from`, read on from
/// `i`, and the index behind the value. `quoted` says whether `i` stands
/// between quotes, `continued` whether a part of the value went before. The
/// value ends at the end of its line, or at a `#` or `;` outside quotes; the
/// blanks before that end are no part of it. A backslash before the end of
/// a line ends a part; any other backslash must begin an escape.
pub open spec fn value_from(input: Seq<u8>, from: int, i: int, quoted: bool, continued: bool)
    -> Result<(Seq<EventView>, int), Error>
    decreases input.len() - i,
{
    if i < 0 || i >= input.len() || input[i] == NEWLINE || (!quoted && (input[i] == HASH
        || input[i] == SEMICOLON)) {
        if quoted {
            Err(Error::UnterminatedQuote)
        } else {
            let end = trimmed_end(input, from, i);
            let text = input.subrange(from, end);
            let last = if continued {
                EventView::ValueDone(text)
            } else {
                EventView::Value(text)
            };
            if end < i {
                Ok((seq![last].push(EventView::Whitespace(input.subrange(end, i))), i))
            } else {
                Ok((seq![last], i))
            }
        }
    } else if input[i] == QUOTE {
        value_from(input, from, i + 1, !quoted, continued)
    } else if input[i] == BACKSLASH {
        if i + 1 >= input.len() {
            Err(Error::InvalidEscape)
        } else if input[i + 1] == NEWLINE {
            prepend(
                seq![EventView::ValueNotDone(input.subrange(from, i))].push(
                    EventView::Newline(seq![NEWLINE]),
                ),
                value_from(input, i + 2, i + 2, quoted, true),
            )
        } else if escaped(input[i + 1]) is Some {
            value_from(input, from, i + 2, quoted, continued)
        } else {
            Err(Error::InvalidEscape)
        }
    } else {
        value_from(input, from, i + 1, quoted, continued)
    }
}

/// The events of the value that begins at `start`.
pub open spec fn value(input: Seq<u8>, start: int) -> Result<(Seq<EventView>, int), Error> {
    value_from(input, start, start, false, false)
}

/// A value ends inside the text, at or behind the place where it is read.
pub proof fn lemma_value_from(input: Seq<u8>, from: int, i: int, quoted: bool, continued: bool)
    requires
        0 <= i <= input.len(),
        value_from(input, from, i, quoted, continued) is Ok,
    ensures
        i <= next_of(value_from(input, from, i, quoted, continued)) <= input.len(),
    decreases input.len() - i,
{
    if i >= input.len() || input[i] == NEWLINE || (!quoted && (input[i] == HASH || input[i]
        == SEMICOLON)) {
    } else if input[i] == QUOTE {
        lemma_value_from(input, from, i + 1, !quoted, continued);
    } else if input[i] == BACKSLASH {
        if input[i + 1] == NEWLINE {
            lemma_value_from(input, i + 2, i + 2, quoted, true);
        } else {
            lemma_value_from(input, from, i + 2, quoted, continued);
        }
    } else {
        lemma_value_from(input, from, i + 1, quoted, continued);
    }
}

/// The events of the entry whose key begins at `i`, and the index behind
/// the entry. Behind the key and its blanks stands `=` and the value, or
/// the end of the line, a comment or the end of the text.
pub open spec fn entry(input: Seq<u8>, i: int) -> Result<(Seq<EventView>, int), Error> {
    let key_end = run_end(input, Class::Key, i);
    let after_key = run_end(input, Class::Blank, key_end);
    let key = seq![EventView::SectionKey(input.subrange(i, key_end))];
    let events = if after_key > key_end {
        key.push(EventView::Whitespace(input.subrange(key_end, after_key)))
    } else {
        key
    };
    if after_key < input.len() && input[after_key] == EQUALS {
        let start = run_end(input, Class::Blank, after_key + 1);
        let separated = events.push(EventView::KeyValueSeparator);
        prepend(
            if start > after_key + 1 {
                separated.push(EventView::Whitespace(input.subrange(after_key + 1, start)))
            } else {
                separated
            },
            value(input, start),
        )
    } else if after_key >= input.len() || input[after_key] == NEWLINE || input[after_key] == HASH
        || input[after_key] == SEMICOLON {
        Ok((events, after_key))
    } else {
        Err(Error::UnexpectedByte)
    }
}

/// The events that begin at `i`, and the index behind them: the end of a
/// line, a run of blanks, a comment, a header or an entry.
pub open spec fn token(input: Seq<u8>, i: int) -> Result<(Seq<EventView>, int), Error> {
    let b = input[i];
    if b == NEWLINE {
        Ok((seq![EventView::Newline(seq![NEWLINE])], i + 1))
    } else if in_class(Class::Blank, b) {
        let end = run_end(input, Class::Blank, i);
        Ok((seq![EventView::Whitespace(input.subrange(i, end))], end))
    } else if b == HASH || b == SEMICOLON {
        let end = run_end(input, Class::Line, i);
        Ok((seq![EventView::Comment(input.subrange(i, end))], end))
    } else if b == OPEN_BRACKET {
        match header(input, i) {
            Ok((event, next)) => Ok((seq![event], next)),
            Err(e) => Err(e),
        }
    } else if is_alpha(b) {
        entry(input, i)
    } else {
        Err(Error::UnexpectedByte)
    }
}

/// What begins at `i` ends behind `i`, inside the text.
pub proof fn lemma_token_advances(input: Seq<u8>, i: int)
    requires
        0 <= i < input.len(),
        token(input, i) is Ok,
    ensures
        i < next_of(token(input, i)) <= input.len(),
{
    let b = input[i];
    lemma_run_end(input, Class::Blank, i + 1);
    lemma_run_end(input, Class::Line, i + 1);
    lemma_run_end(input, Class::Name, i + 1);
    lemma_run_end(input, Class::Key, i + 1);
    if b == NEWLINE {
    } else if in_class(Class::Blank, b) {
    } else if b == HASH || b == SEMICOLON {
    } else if b == OPEN_BRACKET {
        let name_end = run_end(input, Class::Name, i + 1);
        lemma_run_end(input, Class::Blank, name_end);
        let quote = run_end(input, Class::Blank, name_end);
        if !(name_end < input.len() && input[name_end] == CLOSE_BRACKET) {
            lemma_label(input, quote + 1);
        }
    } else if is_alpha(b) {
        let key_end = run_end(input, Class::Key, i);
        lemma_run_end(input, Class::Blank, key_end);
        let after_key = run_end(input, Class::Blank, key_end);
        if after_key < input.len() && input[after_key] == EQUALS {
            lemma_run_end(input, Class::Blank, after_key + 1);
            let start = run_end(input, Class::Blank, after_key + 1);
            lemma_value_from(input, start, start, false, false);
        }
    }
}

/// The events `events` in front of those that `rest` found.
pub open spec fn prepend_events(events: Seq<EventView>, rest: Result<Seq<EventView>, Error>)
    -> Result<Seq<EventView>, Error> {
    match rest {
        Ok(more) => Ok(events + more),
        Err(e) => Err(e),
    }
}

/// The events of the text from `i` on.
pub open spec fn lexed_from(input: Seq<u8>, i: int) -> Result<Seq<EventView>, Error>
    decreases input.len() - i,
{
    if i < 0 || i >= input.len() {
        Ok(Seq::empty())
    } else {
        match token(input, i) {
            Err(e) => Err(e),
            Ok((events, next)) => {
                proof {
                    lemma_token_advances(input, i);
                }
                prepend_events(events, lexed_from(input, next))
            },
        }
    }
}

/// The events of the text `input`.
pub open spec fn lexed(input: Seq<u8>) -> Result<Seq<EventView>, Error> {
    lexed_from(input, 0)
}

/// The document that the text `input` describes.
pub open spec fn parsed(input: Seq<u8>) -> Result<FileView, Error> {
    match lexed(input) {
        Ok(events) => built(events),
        Err(e) => Err(e),
    }
}

/// What a reader that adds events to `after` and returns an index has to
/// have done, where `found` is what it had to find.
pub open spec fn emitted(
    found: Result<(Seq<EventView>, int), Error>,
    before: Seq<Event>,
    after: Seq<Event>,
    r: Result<usize, Error>,
) -> bool {
    match found {
        Ok((events, next)) => r == Ok::<usize, Error>(next as usize) && 0 <= next <= usize::MAX
            && events_view(after) == events_view(before) + events,
        Err(e) => r == Err::<usize, Error>(e),
    }
}

fn of_class(c: Class, b: u8) -> (r: bool)
    ensures
        r == in_class(c, b),
{
    match c {
        Class::Blank => b == SPACE || b == TAB || b == CARRIAGE_RETURN,
        Class::Name => (b >= 'a' as u8 && b <= 'z' as u8) || (b >= 'A' as u8 && b <= 'Z' as u8)
            || (b >= '0' as u8 && b <= '9' as u8) || b == MINUS || b == DOT,
        Class::Key => (b >= 'a' as u8 && b <= 'z' as u8) || (b >= 'A' as u8 && b <= 'Z' as u8)
            || (b >= '0' as u8 && b <= '9' as u8) || b == MINUS,
        Class::Line => b != NEWLINE,
    }
}

/// The end of the run of bytes of the class `c` that begins at `i`.
pub fn scan(input: &[u8], c: Class, i: usize) -> (r: usize)
    requires
        i <= input.len(),
    ensures
        r == run_end(input@, c, i as int),
        i <= r <= input.len(),
{
    let mut k: usize = i;
    while k < input.len() && of_class(c, input[k])
        invariant
            i <= k <= input.len(),
            run_end(input@, c, i as int) == run_end(input@, c, k as int),
        decreases input.len() - k,
    {
        k += 1;
    }
    k
}

fn emit(out: &mut Vec<Event>, e: Event)
    ensures
        events_view(final(out)@) == events_view(old(out)@).push(e@),
{
    out.push(e);
    assert(events_view(out@) =~= events_view(old(out)@).push(e@));
}

/// Reads the label of a subsection from `i` on, behind its opening quote.
pub fn read_label(input: &[u8], i: usize) -> (r: Option<(Vec<u8>, usize)>)
    requires
        i <= input.len(),
    ensures
        match r {
            Some((text, close)) => label(input@, i as int) == Some((text@, close as int)),
            None => label(input@, i as int) is None,
        },
{
    let mut text: Vec<u8> = Vec::new();
    let mut k: usize = i;
    assert(prepend_label(text@, label(input@, k as int)) == label(input@, i as int)) by {
        match label(input@, k as int) {
            Some((rest, close)) => {
                assert(text@ + rest =~= rest);
            },
            None => {},
        }
    }
    while k < input.len()
        invariant
            i <= k <= input.len(),
            prepend_label(text@, label(input@, k as int)) == label(input@, i as int),
        decreases input.len() - k,
    {
        let b = input[k];
        let ghost before = text@;
        if b == NEWLINE {
            return None;
        } else if b == QUOTE {
            assert(text@ + Seq::<u8>::empty() =~= text@);
            return Some((text, k));
        } else if b == BACKSLASH {
            if k + 1 < input.len() && input[k + 1] != NEWLINE {
                let c = input[k + 1];
                text.push(c);
                proof {
                    match label(input@, k + 2) {
                        Some((rest, close)) => {
                            assert(before + (seq![c] + rest) =~= before.push(c) + rest);
                        },
                        None => {},
                    }
                }
                k += 2;
            } else {
                return None;
            }
        } else {
            text.push(b);
            proof {
                match label(input@, k + 1) {
                    Some((rest, close)) => {
                        assert(before + (seq![b] + rest) =~= before.push(b) + rest);
                    },
                    None => {},
                }
            }
            k += 1;
        }
    }
    None
}

fn lex_header(input: &[u8], i: usize, out: &mut Vec<Event>) -> (r: Result<usize, Error>)
    requires
        i < input.len(),
    ensures
        emitted(
            match header(input@, i as int) {
                Ok((event, next)) => Ok((seq![event], next)),
                Err(e) => Err(e),
            },
            old(out)@,
            final(out)@,
            r,
        ),
{
    let name_end = scan(input, Class::Name, i + 1);
    if name_end == i + 1 {
        return Err(Error::MalformedHeader);
    }
    let name = slice_to_vec(slice_subrange(input, i + 1, name_end));
    if name_end < input.len() && input[name_end] == CLOSE_BRACKET {
        emit(out, Event::SectionHeader { name, subsection: None });
        assert(events_view(out@) =~= events_view(old(out)@) + seq![
            EventView::SectionHeader { name: name@, subsection: None },
        ]);
        return Ok(name_end + 1);
    }
    let quote = scan(input, Class::Blank, name_end);
    if quote > name_end && quote < input.len() && input[quote] == QUOTE {
        proof {
            if label(input@, quote + 1) is Some {
                lemma_label(input@, quote + 1);
            }
        }
        match read_label(input, quote + 1) {
            Some((text, close)) => {
                if close + 1 < input.len() && input[close + 1] == CLOSE_BRACKET {
                    emit(out, Event::SectionHeader { name, subsection: Some(text) });
                    assert(events_view(out@) =~= events_view(old(out)@) + seq![
                        EventView::SectionHeader { name: name@, subsection: Some(text@) },
                    ]);
                    Ok(close + 2)
                } else {
                    Err(Error::MalformedHeader)
                }
            },
            None => Err(Error::UnterminatedQuote),
        }
    } else {
        Err(Error::MalformedHeader)
    }
}

fn trim_end(input: &[u8], from: usize, to: usize) -> (r: usize)
    requires
        from <= to <= input.len(),
    ensures
        r == trimmed_end(input@, from as int, to as int),
        from <= r <= to,
{
    let mut k: usize = to;
    while k > from && of_class(Class::Blank, input[k - 1])
        invariant
            from <= k <= to,
            to <= input.len(),
            trimmed_end(input@, from as int, to as int) == trimmed_end(
                input@,
                from as int,
                k as int,
            ),
        decreases k,
    {
        k -= 1;
    }
    k
}

fn lex_value(input: &[u8], start: usize, out: &mut Vec<Event>) -> (r: Result<usize, Error>)
    requires
        start <= input.len(),
    ensures
        emitted(value(input@, start as int), old(out)@, final(out)@, r),
{
    let n = input.len();
    let ghost goal = value(input@, start as int);
    let ghost done: Seq<EventView> = Seq::empty();
    let mut from: usize = start;
    let mut i: usize = start;
    let mut quoted = false;
    let mut continued = false;
    assert(prepend(done, value_from(input@, from as int, i as int, quoted, continued)) == goal) by {
        match goal {
            Ok((more, next)) => {
                assert(done + more =~= more);
            },
            Err(_) => {},
        }
    }
    assert(events_view(out@) =~= events_view(old(out)@) + done);
    loop
        invariant
            n == input.len(),
            start <= from <= i <= n,
            goal == value(input@, start as int),
            events_view(out@) == events_view(old(out)@) + done,
            prepend(done, value_from(input@, from as int, i as int, quoted, continued)) == goal,
        decreases n - i,
    {
        if i >= n || input[i] == NEWLINE || (!quoted && (input[i] == HASH || input[i]
            == SEMICOLON)) {
            if quoted {
                return Err(Error::UnterminatedQuote);
            }
            let end = trim_end(input, from, i);
            let text = slice_to_vec(slice_subrange(input, from, end));
            let last = if continued {
                Event::ValueDone(text)
            } else {
                Event::Value(text)
            };
            emit(out, last);
            if end < i {
                let blanks = slice_to_vec(slice_subrange(input, end, i));
                emit(out, Event::Whitespace(blanks));
                assert(events_view(out@) =~= events_view(old(out)@) + (done + seq![last@].push(
                    EventView::Whitespace(blanks@),
                )));
            } else {
                assert(events_view(out@) =~= events_view(old(out)@) + (done + seq![last@]));
            }
            return Ok(i);
        }
        let b = input[i];
        if b == QUOTE {
            quoted = !quoted;
            i += 1;
        } else if b == BACKSLASH {
            if i + 1 >= n {
                return Err(Error::InvalidEscape);
            }
            let c = input[i + 1];
            if c == NEWLINE {
                let part = slice_to_vec(slice_subrange(input, from, i));
                let mut line: Vec<u8> = Vec::new();
                line.push(NEWLINE);
                assert(line@ =~= seq![NEWLINE]);
                emit(out, Event::ValueNotDone(part));
                emit(out, Event::Newline(line));
                proof {
                    let added = seq![EventView::ValueNotDone(part@)].push(
                        EventView::Newline(seq![NEWLINE]),
                    );
                    match value_from(input@, i + 2, i + 2, quoted, true) {
                        Ok((more, next)) => {
                            assert(done + (added + more) =~= (done + added) + more);
                        },
                        Err(_) => {},
                    }
                    assert(events_view(out@) =~= events_view(old(out)@) + (done + added));
                    done = done + added;
                }
                from = i + 2;
                i += 2;
                continued = true;
            } else if c == 'n' as u8 || c == 't' as u8 || c == 'b' as u8 || c == BACKSLASH || c
                == QUOTE {
                i += 2;
            } else {
                return Err(Error::InvalidEscape);
            }
        } else {
            i += 1;
        }
    }
}

fn lex_entry(input: &[u8], i: usize, out: &mut Vec<Event>) -> (r: Result<usize, Error>)
    requires
        i < input.len(),
    ensures
        emitted(entry(input@, i as int), old(out)@, final(out)@, r),
{
    let n = input.len();
    let key_end = scan(input, Class::Key, i);
    let after_key = scan(input, Class::Blank, key_end);
    let key = slice_to_vec(slice_subrange(input, i, key_end));
    let ghost first = seq![EventView::SectionKey(key@)];
    emit(out, Event::SectionKey(key));
    let ghost events = first;
    if after_key > key_end {
        let blanks = slice_to_vec(slice_subrange(input, key_end, after_key));
        emit(out, Event::Whitespace(blanks));
        proof {
            events = first.push(EventView::Whitespace(blanks@));
        }
    }
    assert(events_view(out@) =~= events_view(old(out)@) + events);
    if after_key < n && input[after_key] == EQUALS {
        let start = scan(input, Class::Blank, after_key + 1);
        emit(out, Event::KeyValueSeparator);
        let ghost separated = events.push(EventView::KeyValueSeparator);
        let ghost front = separated;
        if start > after_key + 1 {
            let blanks = slice_to_vec(slice_subrange(input, after_key + 1, start));
            emit(out, Event::Whitespace(blanks));
            proof {
                front = separated.push(EventView::Whitespace(blanks@));
            }
        }
        assert(events_view(out@) =~= events_view(old(out)@) + front);
        let r = lex_value(input, start, out);
        proof {
            match value(input@, start as int) {
                Ok((more, next)) => {
                    assert(events_view(old(out)@) + (front + more) =~= (events_view(old(out)@)
                        + front) + more);
                },
                Err(_) => {},
            }
        }
        r
    } else if after_key >= n || input[after_key] == NEWLINE || input[after_key] == HASH
        || input[after_key] == SEMICOLON {
        Ok(after_key)
    } else {
        Err(Error::UnexpectedByte)
    }
}

fn lex_token(input: &[u8], i: usize, out: &mut Vec<Event>) -> (r: Result<usize, Error>)
    requires
        i < input.len(),
    ensures
        emitted(token(input@, i as int), old(out)@, final(out)@, r),
{
    let b = input[i];
    if b == NEWLINE {
        let mut line: Vec<u8> = Vec::new();
        line.push(NEWLINE);
        assert(line@ =~= seq![NEWLINE]);
        emit(out, Event::Newline(line));
        assert(events_view(out@) =~= events_view(old(out)@) + seq![
            EventView::Newline(seq![NEWLINE]),
        ]);
        Ok(i + 1)
    } else if of_class(Class::Blank, b) {
        let end = scan(input, Class::Blank, i);
        let blanks = slice_to_vec(slice_subrange(input, i, end));
        emit(out, Event::Whitespace(blanks));
        assert(events_view(out@) =~= events_view(old(out)@) + seq![EventView::Whitespace(blanks@)]);
        Ok(end)
    } else if b == HASH || b == SEMICOLON {
        let end = scan(input, Class::Line, i);
        let text = slice_to_vec(slice_subrange(input, i, end));
        emit(out, Event::Comment(text));
        assert(events_view(out@) =~= events_view(old(out)@) + seq![EventView::Comment(text@)]);
        Ok(end)
    } else if b == OPEN_BRACKET {
        lex_header(input, i, out)
    } else if (b >= 'a' as u8 && b <= 'z' as u8) || (b >= 'A' as u8 && b <= 'Z' as u8) {
        lex_entry(input, i, out)
    } else {
        Err(Error::UnexpectedByte)
    }
}

/// Reads the text of a document into its events.
pub fn from_bytes(input: &[u8]) -> (r: Result<Vec<Event>, Error>)
    ensures
        match r {
            Ok(events) => lexed(input@) == Ok::<Seq<EventView>, Error>(events_view(events@)),
            Err(e) => lexed(input@) == Err::<Seq<EventView>, Error>(e),
        },
{
    let mut out: Vec<Event> = Vec::new();
    let mut i: usize = 0;
    assert(events_view(out@) =~= Seq::empty());
    assert(prepend_events(events_view(out@), lexed_from(input@, 0)) == lexed(input@)) by {
        match lexed_from(input@, 0) {
            Ok(more) => {
                assert(events_view(out@) + more =~= more);
            },
            Err(_) => {},
        }
    }
    while i < input.len()
        invariant
            i <= input.len(),
            prepend_events(events_view(out@), lexed_from(input@, i as int)) == lexed(input@),
        decreases input.len() - i,
    {
        let ghost before = events_view(out@);
        proof {
            if token(input@, i as int) is Ok {
                lemma_token_advances(input@, i as int);
            }
        }
        match lex_token(input, i, &mut out) {
            Ok(next) => {
                proof {
                    let events = token(input@, i as int)->Ok_0.0;
                    match lexed_from(input@, next as int) {
                        Ok(more) => {
                            assert(before + (events + more) =~= (before + events) + more);
                        },
                        Err(_) => {},
                    }
                }
                i = next;
            },
            Err(e) => {
                return Err(e);
            },
        }
    }
    assert(events_view(out@) + Seq::<EventView>::empty() =~= events_view(out@));
    Ok(out)
}

impl File {
    /// Reads the text of a document. Nothing is built of a text that fails.
    pub fn from_bytes(input: &[u8]) -> (r: Result<File, Error>)
        ensures
            match r {
                Ok(file) => parsed(input@) == Ok::<FileView, Error>(file@) && file@.wf(),
                Err(e) => parsed(input@) == Err::<FileView, Error>(e),
            },
    {
        match from_bytes(input) {
            Ok(events) => File::from_events(events.as_slice()),
            Err(e) => Err(e),
        }
    }
}

} // verus!
