//! The lexical events that a document is made of, and the building of the
//! document from them.

use vstd::prelude::*;
use vstd::slice::slice_to_vec;

use crate::bytes::{append, DOT, MINUS};
use crate::file::{Entry, EntryView, File, FileView, Section, SectionView};

verus! {

/// One lexical event.
#[derive(Clone, Debug, PartialEq, Eq)]
pub enum Event {
    /// A comment, from its `#` or `;` to the end of the line.
    Comment(Vec<u8>),
    /// A section header: the name, and the label between the quotes.
    SectionHeader { name: Vec<u8>, subsection: Option<Vec<u8>> },
    /// The key of an entry.
    SectionKey(Vec<u8>),
    /// A value that stands on one line.
    Value(Vec<u8>),
    /// The end of a line.
    Newline(Vec<u8>),
    /// A part of a value that goes on in the next line.
    ValueNotDone(Vec<u8>),
    /// The last part of a value that began in an earlier line.
    ValueDone(Vec<u8>),
    /// Blanks between the other events.
    Whitespace(Vec<u8>),
    /// The `=` between a key and its value.
    KeyValueSeparator,
}

/// The mathematical value of an [`Event`].
pub enum EventView {
    Comment(Seq<u8>),
    SectionHeader { name: Seq<u8>, subsection: Option<Seq<u8>> },
    SectionKey(Seq<u8>),
    Value(Seq<u8>),
    Newline(Seq<u8>),
    ValueNotDone(Seq<u8>),
    ValueDone(Seq<u8>),
    Whitespace(Seq<u8>),
    KeyValueSeparator,
}

impl View for Event {
    type V = EventView;

    open spec fn view(&self) -> EventView {
        match self {
            Event::Comment(text) => EventView::Comment(text@),
            Event::SectionHeader { name, subsection } => EventView::SectionHeader {
                name: name@,
                subsection: crate::file::optional_view(*subsection),
            },
            Event::SectionKey(key) => EventView::SectionKey(key@),
            Event::Value(v) => EventView::Value(v@),
            Event::Newline(v) => EventView::Newline(v@),
            Event::ValueNotDone(v) => EventView::ValueNotDone(v@),
            Event::ValueDone(v) => EventView::ValueDone(v@),
            Event::Whitespace(v) => EventView::Whitespace(v@),
            Event::KeyValueSeparator => EventView::KeyValueSeparator,
        }
    }
}

/// The mathematical values of a list of events.
pub open spec fn events_view(events: Seq<Event>) -> Seq<EventView> {
    events.map_values(|e: Event| e@)
}

/// Why a sequence of events is no document.
#[derive(Clone, Copy, Debug, PartialEq, Eq, Structural)]
pub enum Error {
    /// A section name that is empty or holds a byte other than a letter, a
    /// digit, `-` and `.`.
    MalformedHeader,
    /// A key that is empty, does not begin with a letter, or holds a byte
    /// other than a letter, a digit and `-`.
    MalformedKey,
    /// A key, a separator or a value before the first section header.
    OutsideSection,
    /// A separator or a value without a key before it, a separator inside a
    /// value, or the last part of a value that has no first part.
    MisplacedValue,
    /// A value that was begun and not done when the next key, the next
    /// header or the end came.
    UnfinishedValue,
    /// A quote that is still open where its line or the text ends.
    UnterminatedQuote,
    /// A backslash in a value that is followed by nothing, or by a byte
    /// other than `n`, `t`, `b`, `\`, `"` and the end of the line.
    InvalidEscape,
    /// A byte with which nothing can begin, or an entry that goes on behind
    /// its key with something other than `=`.
    UnexpectedByte,
}

/// `b` is an ASCII letter.
pub open spec fn is_alpha(b: u8) -> bool {
    ('a' as u8 <= b <= 'z' as u8) || ('A' as u8 <= b <= 'Z' as u8)
}

/// `b` is an ASCII letter or a decimal digit.
pub open spec fn is_alphanumeric(b: u8) -> bool {
    is_alpha(b) || ('0' as u8 <= b <= '9' as u8)
}

/// `b` may stand in the name of a section.
pub open spec fn is_section_byte(b: u8) -> bool {
    is_alphanumeric(b) || b == MINUS || b == DOT
}

/// `b` may stand in a key.
pub open spec fn is_key_byte(b: u8) -> bool {
    is_alphanumeric(b) || b == MINUS
}

/// `name` can be the name of a section.
pub open spec fn is_section_name(name: Seq<u8>) -> bool {
    name.len() > 0 && forall|i: int| 0 <= i < name.len() ==> is_section_byte(#[trigger] name[i])
}

/// `key` can be a key.
pub open spec fn is_key(key: Seq<u8>) -> bool {
    &&& key.len() > 0
    &&& is_alpha(key[0])
    &&& forall|i: int| 0 <= i < key.len() ==> is_key_byte(#[trigger] key[i])
}

/// Every section has a name that can be one, and every entry a key that can
/// be one.
pub open spec fn sections_wf(sections: Seq<SectionView>) -> bool {
    forall|i: int|
        0 <= i < sections.len() ==> {
            &&& is_section_name(#[trigger] sections[i].name)
            &&& forall|j: int|
                0 <= j < sections[i].entries.len() ==> is_key(#[trigger] sections[i].entries[j].key)
        }
}

impl FileView {
    /// Every section has a name that can be one, and every entry a key that
    /// can be one.
    pub open spec fn wf(self) -> bool {
        sections_wf(self.sections)
    }
}

/// A document while it is built.
pub struct BuilderView {
    /// The sections that are complete.
    pub sections: Seq<SectionView>,
    /// The section that the events fill, once there was a header.
    pub current: Option<SectionView>,
    /// The key whose value has not come yet.
    pub key: Option<Seq<u8>>,
    /// The parts so far of a value that goes over several lines.
    pub partial: Option<Seq<u8>>,
}

impl BuilderView {
    /// Before the first event.
    pub open spec fn start() -> BuilderView {
        BuilderView { sections: Seq::empty(), current: None, key: None, partial: None }
    }

    /// The section that is filled, with an entry for the key that waits: a
    /// key to which no value came stands alone.
    pub open spec fn flushed(self) -> Option<SectionView> {
        match (self.current, self.key) {
            (Some(s), Some(key)) => Some(
                SectionView { entries: s.entries.push(EntryView { key, value: None }), ..s },
            ),
            _ => self.current,
        }
    }

    /// The sections, the one that is filled among them.
    pub open spec fn all_sections(self) -> Seq<SectionView> {
        match self.flushed() {
            Some(s) => self.sections.push(s),
            None => self.sections,
        }
    }

    /// The entry for the key that waits, with the value `value`.
    pub open spec fn with_value(self, value: Seq<u8>) -> BuilderView {
        BuilderView {
            current: Some(
                SectionView {
                    entries: self.current->0.entries.push(
                        EntryView { key: self.key->0, value: Some(value) },
                    ),
                    ..self.current->0
                },
            ),
            key: None,
            partial: None,
            ..self
        }
    }

    /// Why a separator or a part of a value cannot stand here, if it cannot.
    pub open spec fn value_refused(self) -> Option<Error> {
        if self.current is None {
            Some(Error::OutsideSection)
        } else if self.key is None {
            Some(Error::MisplacedValue)
        } else {
            None
        }
    }

    /// The builder after the event `e`.
    pub open spec fn step(self, e: EventView) -> Result<BuilderView, Error> {
        match e {
            EventView::Comment(_) | EventView::Newline(_) | EventView::Whitespace(_) => Ok(self),
            EventView::SectionHeader { name, subsection } => if self.partial is Some {
                Err(Error::UnfinishedValue)
            } else if !is_section_name(name) {
                Err(Error::MalformedHeader)
            } else {
                Ok(
                    BuilderView {
                        sections: self.all_sections(),
                        current: Some(SectionView { name, subsection, entries: Seq::empty() }),
                        key: None,
                        partial: None,
                    },
                )
            },
            EventView::SectionKey(key) => if self.partial is Some {
                Err(Error::UnfinishedValue)
            } else if self.current is None {
                Err(Error::OutsideSection)
            } else if !is_key(key) {
                Err(Error::MalformedKey)
            } else {
                Ok(BuilderView { current: self.flushed(), key: Some(key), ..self })
            },
            EventView::KeyValueSeparator => match self.value_refused() {
                Some(e) => Err(e),
                None => if self.partial is Some {
                    Err(Error::MisplacedValue)
                } else {
                    Ok(self)
                },
            },
            EventView::Value(v) => match self.value_refused() {
                Some(e) => Err(e),
                None => if self.partial is Some {
                    Err(Error::UnfinishedValue)
                } else {
                    Ok(self.with_value(v))
                },
            },
            EventView::ValueNotDone(v) => match self.value_refused() {
                Some(e) => Err(e),
                None => Ok(
                    BuilderView {
                        partial: Some(
                            match self.partial {
                                Some(p) => p + v,
                                None => v,
                            },
                        ),
                        ..self
                    },
                ),
            },
            EventView::ValueDone(v) => match self.value_refused() {
                Some(e) => Err(e),
                None => match self.partial {
                    Some(p) => Ok(self.with_value(p + v)),
                    None => Err(Error::MisplacedValue),
                },
            },
        }
    }

    /// The builder after the first `n` of the events `events`.
    pub open spec fn after(events: Seq<EventView>, n: int) -> Result<BuilderView, Error>
        decreases n,
    {
        if n <= 0 {
            Ok(BuilderView::start())
        } else {
            match BuilderView::after(events, n - 1) {
                Ok(b) => b.step(events[n - 1]),
                Err(e) => Err(e),
            }
        }
    }

    /// The document, once all events are in.
    pub open spec fn finish(self) -> Result<FileView, Error> {
        if self.partial is Some {
            Err(Error::UnfinishedValue)
        } else {
            Ok(FileView { sections: self.all_sections() })
        }
    }

    /// Every name and key so far can be one.
    pub open spec fn wf(self) -> bool {
        &&& sections_wf(self.sections)
        &&& self.current matches Some(s) ==> sections_wf(seq![s])
        &&& self.key matches Some(k) ==> is_key(k)
        &&& self.key is Some ==> self.current is Some
        &&& self.partial is Some ==> self.key is Some
    }
}

/// The document that the events `events` describe: sections in the order of
/// their headers, each with the entries between its header and the next. An
/// entry's value is the value event behind its key, or the parts of the
/// value put together; a key that no value follows stands alone.
pub open spec fn built(events: Seq<EventView>) -> Result<FileView, Error> {
    match BuilderView::after(events, events.len() as int) {
        Ok(b) => b.finish(),
        Err(e) => Err(e),
    }
}

/// A step keeps names and keys in order.
pub proof fn lemma_step_keeps_wf(b: BuilderView, e: EventView)
    requires
        b.wf(),
        b.step(e) is Ok,
    ensures
        b.step(e)->Ok_0.wf(),
        sections_wf(b.all_sections()),
{
    lemma_all_sections_wf(b);
    let next = b.step(e)->Ok_0;
    match e {
        EventView::SectionHeader { name, subsection } => {
            let s = SectionView { name, subsection, entries: Seq::empty() };
            assert(seq![s][0] == s);
        },
        EventView::SectionKey(key) => {
            let s = b.flushed()->0;
            assert(seq![s][0] == s);
            assert(seq![b.current->0][0] == b.current->0);
        },
        EventView::Value(v) => {
            let s = next.current->0;
            assert(seq![s][0] == s);
            assert(seq![b.current->0][0] == b.current->0);
        },
        EventView::ValueDone(v) => {
            let s = next.current->0;
            assert(seq![s][0] == s);
            assert(seq![b.current->0][0] == b.current->0);
        },
        _ => {},
    }
}

/// The sections of a builder that is in order are in order.
pub proof fn lemma_all_sections_wf(b: BuilderView)
    requires
        b.wf(),
    ensures
        sections_wf(b.all_sections()),
{
    match b.flushed() {
        Some(s) => {
            assert(seq![b.current->0][0] == b.current->0);
            let all = b.sections.push(s);
            assert forall|i: int| 0 <= i < all.len() implies {
                &&& is_section_name(#[trigger] all[i].name)
                &&& forall|j: int|
                    0 <= j < all[i].entries.len() ==> is_key(#[trigger] all[i].entries[j].key)
            } by {
                if i < b.sections.len() {
                    assert(all[i] == b.sections[i]);
                }
            }
        },
        None => {},
    }
}

/// Every document that is built has names and keys that can be such.
pub proof fn lemma_built_is_wf(events: Seq<EventView>)
    requires
        built(events) is Ok,
    ensures
        built(events)->Ok_0.wf(),
{
    lemma_after_is_wf(events, events.len() as int);
    lemma_all_sections_wf(BuilderView::after(events, events.len() as int)->Ok_0);
}

proof fn lemma_after_is_wf(events: Seq<EventView>, n: int)
    requires
        BuilderView::after(events, n) is Ok,
    ensures
        BuilderView::after(events, n)->Ok_0.wf(),
    decreases n,
{
    if n > 0 {
        lemma_after_is_wf(events, n - 1);
        lemma_step_keeps_wf(BuilderView::after(events, n - 1)->Ok_0, events[n - 1]);
    }
}

/// A document while it is built from events.
pub struct Builder {
    sections: Vec<Section>,
    current: Option<Section>,
    key: Option<Vec<u8>>,
    partial: Option<Vec<u8>>,
}

impl View for Builder {
    type V = BuilderView;

    closed spec fn view(&self) -> BuilderView {
        BuilderView {
            sections: self.sections@.map_values(|s: Section| s@),
            current: match self.current {
                Some(s) => Some(s@),
                None => None,
            },
            key: crate::file::optional_view(self.key),
            partial: crate::file::optional_view(self.partial),
        }
    }
}

fn alpha(b: u8) -> (r: bool)
    ensures
        r == is_alpha(b),
{
    (b >= 'a' as u8 && b <= 'z' as u8) || (b >= 'A' as u8 && b <= 'Z' as u8)
}

fn alphanumeric(b: u8) -> (r: bool)
    ensures
        r == is_alphanumeric(b),
{
    alpha(b) || (b >= '0' as u8 && b <= '9' as u8)
}

/// True when `name` can be the name of a section.
pub fn section_name(name: &[u8]) -> (r: bool)
    ensures
        r == is_section_name(name@),
{
    if name.len() == 0 {
        return false;
    }
    let mut i: usize = 0;
    while i < name.len()
        invariant
            i <= name.len(),
            forall|k: int| 0 <= k < i ==> is_section_byte(#[trigger] name[k]),
        decreases name.len() - i,
    {
        let b = name[i];
        if !(alphanumeric(b) || b == MINUS || b == DOT) {
            return false;
        }
        i += 1;
    }
    true
}

/// True when `key` can be a key.
pub fn key_name(key: &[u8]) -> (r: bool)
    ensures
        r == is_key(key@),
{
    if key.len() == 0 || !alpha(key[0]) {
        return false;
    }
    let mut i: usize = 0;
    while i < key.len()
        invariant
            i <= key.len(),
            forall|k: int| 0 <= k < i ==> is_key_byte(#[trigger] key[k]),
        decreases key.len() - i,
    {
        let b = key[i];
        if !(alphanumeric(b) || b == MINUS) {
            return false;
        }
        i += 1;
    }
    true
}

fn copy_optional(v: &Option<Vec<u8>>) -> (r: Option<Vec<u8>>)
    ensures
        crate::file::optional_view(r) == crate::file::optional_view(*v),
{
    match v {
        Some(v) => Some(slice_to_vec(v.as_slice())),
        None => None,
    }
}

impl Builder {
    /// The builder before the first event.
    pub fn new() -> (r: Builder)
        ensures
            r@ == BuilderView::start(),
    {
        let r = Builder { sections: Vec::new(), current: None, key: None, partial: None };
        assert(r@.sections =~= Seq::empty());
        r
    }

    /// Gives the key that waits its entry, without a value.
    fn flush(&mut self)
        ensures
            final(self)@ == (BuilderView { current: old(self)@.flushed(), key: None, ..old(self)@ }),
    {
        match self.key.take() {
            Some(key) => match self.current.take() {
                Some(s) => {
                    let mut s = s;
                    let ghost before = s@;
                    s.entries.push(Entry { key, value: None });
                    assert(s@.entries =~= before.entries.push(EntryView { key: key@, value: None }));
                    self.current = Some(s);
                },
                None => {},
            },
            None => {},
        }
    }

    /// Closes the section that is filled.
    fn close(&mut self)
        ensures
            final(self)@ == (BuilderView {
                sections: old(self)@.all_sections(),
                current: None,
                key: None,
                ..old(self)@
            }),
    {
        self.flush();
        match self.current.take() {
            Some(s) => {
                let ghost before = self.sections@;
                self.sections.push(s);
                assert(self.sections@.map_values(|s: Section| s@) =~= before.map_values(
                    |s: Section| s@,
                ).push(s@));
            },
            None => {},
        }
    }

    /// Gives the key that waits its entry, with the value `value`.
    fn add_value(&mut self, value: Vec<u8>)
        requires
            old(self)@.current is Some,
            old(self)@.key is Some,
        ensures
            final(self)@ == old(self)@.with_value(value@),
    {
        self.partial = None;
        match self.key.take() {
            Some(key) => match self.current.take() {
                Some(s) => {
                    let mut s = s;
                    let ghost before = s@;
                    s.entries.push(Entry { key, value: Some(value) });
                    assert(s@.entries =~= before.entries.push(
                        EntryView { key: key@, value: Some(value@) },
                    ));
                    self.current = Some(s);
                },
                None => {},
            },
            None => {},
        }
    }

    fn refuse_value(&self) -> (r: Option<Error>)
        ensures
            r == self@.value_refused(),
    {
        if self.current.is_none() {
            Some(Error::OutsideSection)
        } else if self.key.is_none() {
            Some(Error::MisplacedValue)
        } else {
            None
        }
    }

    /// Takes the next event. After a failure the builder is of no use.
    pub fn push(&mut self, event: &Event) -> (r: Result<(), Error>)
        ensures
            match r {
                Ok(_) => old(self)@.step(event@) == Ok::<BuilderView, Error>(final(self)@),
                Err(e) => old(self)@.step(event@) == Err::<BuilderView, Error>(e),
            },
    {
        match event {
            Event::Comment(_) | Event::Newline(_) | Event::Whitespace(_) => Ok(()),
            Event::SectionHeader { name, subsection } => {
                if self.partial.is_some() {
                    return Err(Error::UnfinishedValue);
                }
                if !section_name(name.as_slice()) {
                    return Err(Error::MalformedHeader);
                }
                self.close();
                self.current = Some(
                    Section {
                        name: slice_to_vec(name.as_slice()),
                        subsection: copy_optional(subsection),
                        entries: Vec::new(),
                    },
                );
                assert(self.current->0@.entries =~= Seq::empty());
                Ok(())
            },
            Event::SectionKey(key) => {
                if self.partial.is_some() {
                    return Err(Error::UnfinishedValue);
                }
                if self.current.is_none() {
                    return Err(Error::OutsideSection);
                }
                if !key_name(key.as_slice()) {
                    return Err(Error::MalformedKey);
                }
                self.flush();
                self.key = Some(slice_to_vec(key.as_slice()));
                Ok(())
            },
            Event::KeyValueSeparator => {
                match self.refuse_value() {
                    Some(e) => Err(e),
                    None => if self.partial.is_some() {
                        Err(Error::MisplacedValue)
                    } else {
                        Ok(())
                    },
                }
            },
            Event::Value(v) => {
                match self.refuse_value() {
                    Some(e) => Err(e),
                    None => if self.partial.is_some() {
                        Err(Error::UnfinishedValue)
                    } else {
                        self.add_value(slice_to_vec(v.as_slice()));
                        Ok(())
                    },
                }
            },
            Event::ValueNotDone(v) => {
                match self.refuse_value() {
                    Some(e) => Err(e),
                    None => {
                        let mut text = match self.partial.take() {
                            Some(p) => p,
                            None => Vec::new(),
                        };
                        append(&mut text, v.as_slice());
                        assert(old(self)@.partial is None ==> text@ =~= v@);
                        self.partial = Some(text);
                        Ok(())
                    },
                }
            },
            Event::ValueDone(v) => {
                match self.refuse_value() {
                    Some(e) => Err(e),
                    None => match self.partial.take() {
                        Some(p) => {
                            let mut text = p;
                            append(&mut text, v.as_slice());
                            self.add_value(text);
                            Ok(())
                        },
                        None => Err(Error::MisplacedValue),
                    },
                }
            },
        }
    }

    /// The document, once all events are in.
    pub fn finish(self) -> (r: Result<File, Error>)
        ensures
            match r {
                Ok(file) => self@.finish() == Ok::<FileView, Error>(file@),
                Err(e) => self@.finish() == Err::<FileView, Error>(e),
            },
    {
        let mut b = self;
        if b.partial.is_some() {
            return Err(Error::UnfinishedValue);
        }
        b.close();
        Ok(File { sections: b.sections })
    }
}

impl File {
    /// Builds the document that the events describe.
    pub fn from_events(events: &[Event]) -> (r: Result<File, Error>)
        ensures
            match r {
                Ok(file) => built(events_view(events@)) == Ok::<FileView, Error>(file@)
                    && file@.wf(),
                Err(e) => built(events_view(events@)) == Err::<FileView, Error>(e),
            },
    {
        let ghost all = events_view(events@);
        let mut b = Builder::new();
        let mut i: usize = 0;
        while i < events.len()
            invariant
                i <= events.len(),
                all == events_view(events@),
                BuilderView::after(all, i as int) == Ok::<BuilderView, Error>(b@),
            decreases events.len() - i,
        {
            let event = &events[i];
            assert(all[i as int] == event@);
            match b.push(event) {
                Ok(_) => {},
                Err(e) => {
                    proof {
                        lemma_failure_stays(all, i + 1, all.len() as int);
                    }
                    return Err(e);
                },
            }
            i += 1;
        }
        proof {
            if built(all) is Ok {
                lemma_built_is_wf(all);
            }
        }
        b.finish()
    }
}

/// Once an event was refused, the sequence is refused, however it goes on.
proof fn lemma_failure_stays(events: Seq<EventView>, m: int, n: int)
    requires
        0 <= m <= n,
        BuilderView::after(events, m) is Err,
    ensures
        BuilderView::after(events, n) == BuilderView::after(events, m),
    decreases n - m,
{
    if m < n {
        lemma_failure_stays(events, m, n - 1);
    }
}

} // verus!
