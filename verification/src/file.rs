//! The document: sections in the order of their declaration, each with its
//! entries, and the lookup of raw values in it.

use vstd::prelude::*;

use crate::bytes::{eq_ignore_case, equal, equal_ignore_case, lemma_eq_ignore_case_transitive};

verus! {

/// One `key` or `key = value` line of a section.
#[derive(Clone, Debug, PartialEq, Eq)]
pub struct Entry {
    /// The key, in the case in which it was written.
    pub key: Vec<u8>,
    /// The raw value; `None` for a key that stands alone.
    pub value: Option<Vec<u8>>,
}

/// A section: its header and the entries below it.
#[derive(Clone, Debug, PartialEq, Eq)]
pub struct Section {
    /// The name, in the case in which it was written.
    pub name: Vec<u8>,
    /// The label between the quotes of the header, byte for byte.
    pub subsection: Option<Vec<u8>>,
    /// The entries in the order of their declaration.
    pub entries: Vec<Entry>,
}

/// A whole document. Sections with the same header stay apart.
#[derive(Clone, Debug, PartialEq, Eq)]
pub struct File {
    /// The sections in the order of their declaration.
    pub sections: Vec<Section>,
}

/// The mathematical value of an [`Entry`].
pub struct EntryView {
    pub key: Seq<u8>,
    pub value: Option<Seq<u8>>,
}

/// The mathematical value of a [`Section`].
pub struct SectionView {
    pub name: Seq<u8>,
    pub subsection: Option<Seq<u8>>,
    pub entries: Seq<EntryView>,
}

/// The mathematical value of a [`File`].
pub struct FileView {
    pub sections: Seq<SectionView>,
}

/// The bytes behind an optional byte string.
pub open spec fn optional_view(v: Option<Vec<u8>>) -> Option<Seq<u8>> {
    match v {
        Some(v) => Some(v@),
        None => None,
    }
}

/// The bytes behind an optional slice.
pub open spec fn optional_slice_view(v: Option<&[u8]>) -> Option<Seq<u8>> {
    match v {
        Some(v) => Some(v@),
        None => None,
    }
}

/// The values behind a list of optional slices.
pub open spec fn raw_values_view(v: Seq<Option<&[u8]>>) -> Seq<Option<Seq<u8>>> {
    v.map_values(|o: Option<&[u8]>| optional_slice_view(o))
}

impl View for Entry {
    type V = EntryView;

    open spec fn view(&self) -> EntryView {
        EntryView { key: self.key@, value: optional_view(self.value) }
    }
}

impl View for Section {
    type V = SectionView;

    open spec fn view(&self) -> SectionView {
        SectionView {
            name: self.name@,
            subsection: optional_view(self.subsection),
            entries: self.entries@.map_values(|e: Entry| e@),
        }
    }
}

impl View for File {
    type V = FileView;

    open spec fn view(&self) -> FileView {
        FileView { sections: self.sections@.map_values(|s: Section| s@) }
    }
}

impl SectionView {
    /// The section is one of those that `name` and `subsection` ask for: the
    /// name up to the case of its letters, the subsection byte for byte.
    pub open spec fn is_named(self, name: Seq<u8>, subsection: Option<Seq<u8>>) -> bool {
        eq_ignore_case(self.name, name) && self.subsection == subsection
    }

    /// The values of the first `n` entries whose key is `key` up to the case
    /// of its letters, in the order of their declaration.
    pub open spec fn values_upto(self, key: Seq<u8>, n: int) -> Seq<Option<Seq<u8>>>
        decreases n,
    {
        if n <= 0 {
            Seq::empty()
        } else {
            let before = self.values_upto(key, n - 1);
            if eq_ignore_case(self.entries[n - 1].key, key) {
                before.push(self.entries[n - 1].value)
            } else {
                before
            }
        }
    }

    /// The values of all entries of the section under `key`.
    pub open spec fn values(self, key: Seq<u8>) -> Seq<Option<Seq<u8>>> {
        self.values_upto(key, self.entries.len() as int)
    }
}

impl FileView {
    /// The values under `key` in the first `n` sections, as far as these are
    /// named `name` and `subsection`, in the order of their declaration.
    pub open spec fn values_upto(
        self,
        name: Seq<u8>,
        subsection: Option<Seq<u8>>,
        key: Seq<u8>,
        n: int,
    ) -> Seq<Option<Seq<u8>>>
        decreases n,
    {
        if n <= 0 {
            Seq::empty()
        } else {
            let before = self.values_upto(name, subsection, key, n - 1);
            if self.sections[n - 1].is_named(name, subsection) {
                before + self.sections[n - 1].values(key)
            } else {
                before
            }
        }
    }

    /// Every value under `key` in the sections named `name` and
    /// `subsection`, earliest first: such sections read as one.
    pub open spec fn values(self, name: Seq<u8>, subsection: Option<Seq<u8>>, key: Seq<u8>) -> Seq<
        Option<Seq<u8>>,
    > {
        self.values_upto(name, subsection, key, self.sections.len() as int)
    }

    /// The document with the section `later` declared behind its own.
    pub open spec fn with_section(self, later: SectionView) -> FileView {
        FileView { sections: self.sections.push(later) }
    }

    /// The value that counts: the one declared last. `None` where there is
    /// none; `Some(None)` for a key that stands alone.
    pub open spec fn value(self, name: Seq<u8>, subsection: Option<Seq<u8>>, key: Seq<u8>) -> Option<
        Option<Seq<u8>>,
    > {
        let all = self.values(name, subsection, key);
        if all.len() == 0 {
            None
        } else {
            Some(all.last())
        }
    }
}

impl Section {
    /// True when the section is one of those that `name` and `subsection`
    /// ask for.
    pub fn is_named(&self, name: &[u8], subsection: Option<&[u8]>) -> (r: bool)
        ensures
            r == self@.is_named(name@, optional_slice_view(subsection)),
    {
        if !equal_ignore_case(self.name.as_slice(), name) {
            return false;
        }
        match (&self.subsection, subsection) {
            (None, None) => true,
            (Some(mine), Some(theirs)) => equal(mine.as_slice(), theirs),
            _ => false,
        }
    }

    /// The raw value of the last entry under `key`.
    pub fn raw_value<'a>(&'a self, key: &[u8]) -> (r: Option<Option<&'a [u8]>>)
        ensures
            match r {
                None => self@.values(key@).len() == 0,
                Some(v) => self@.values(key@).len() > 0 && self@.values(key@).last()
                    == optional_slice_view(v),
            },
    {
        let mut i: usize = self.entries.len();
        while i > 0
            invariant
                i <= self.entries.len(),
                self@.values(key@) == self@.values_upto(key@, i as int),
            decreases i,
        {
            i -= 1;
            let entry = &self.entries[i];
            assert(self@.entries[i as int] == entry@);
            if equal_ignore_case(entry.key.as_slice(), key) {
                return Some(
                    match &entry.value {
                        Some(v) => Some(v.as_slice()),
                        None => None,
                    },
                );
            }
        }
        None
    }

    /// Appends the raw values of the entries under `key` to `out`.
    pub fn push_raw_values<'a>(&'a self, key: &[u8], out: &mut Vec<Option<&'a [u8]>>)
        ensures
            raw_values_view(final(out)@) == raw_values_view(old(out)@) + self@.values(key@),
    {
        let mut i: usize = 0;
        assert(raw_values_view(out@) + self@.values_upto(key@, 0) =~= raw_values_view(out@));
        while i < self.entries.len()
            invariant
                i <= self.entries.len(),
                raw_values_view(out@) == raw_values_view(old(out)@) + self@.values_upto(
                    key@,
                    i as int,
                ),
            decreases self.entries.len() - i,
        {
            let entry = &self.entries[i];
            assert(self@.entries[i as int] == entry@);
            if equal_ignore_case(entry.key.as_slice(), key) {
                let ghost before = out@;
                let v: Option<&'a [u8]> = match &entry.value {
                    Some(v) => Some(v.as_slice()),
                    None => None,
                };
                out.push(v);
                assert(raw_values_view(out@) =~= raw_values_view(before).push(
                    optional_slice_view(v),
                ));
                assert(raw_values_view(old(out)@) + self@.values_upto(key@, i as int).push(
                    entry@.value,
                ) =~= (raw_values_view(old(out)@) + self@.values_upto(key@, i as int)).push(
                    entry@.value,
                ));
            }
            i += 1;
        }
    }
}

impl File {
    /// The raw value that counts for `key` in the sections named `section`
    /// and `subsection`. The sections are gone through from the last to the
    /// first, and one that lacks the key hands over to the one before it.
    pub fn raw_value<'a>(&'a self, section: &[u8], subsection: Option<&[u8]>, key: &[u8]) -> (r:
        Option<Option<&'a [u8]>>)
        ensures
            match r {
                None => self@.value(section@, optional_slice_view(subsection), key@) is None,
                Some(v) => self@.value(section@, optional_slice_view(subsection), key@) == Some(
                    optional_slice_view(v),
                ),
            },
    {
        let ghost sub = optional_slice_view(subsection);
        let mut i: usize = self.sections.len();
        while i > 0
            invariant
                i <= self.sections.len(),
                sub == optional_slice_view(subsection),
                self@.values(section@, sub, key@) == self@.values_upto(
                    section@,
                    sub,
                    key@,
                    i as int,
                ),
            decreases i,
        {
            i -= 1;
            let s = &self.sections[i];
            assert(self@.sections[i as int] == s@);
            if s.is_named(section, subsection) {
                match s.raw_value(key) {
                    Some(v) => {
                        return Some(v);
                    },
                    None => {
                        assert(self@.values_upto(section@, sub, key@, i as int) + s@.values(key@)
                            =~= self@.values_upto(section@, sub, key@, i as int));
                    },
                }
            }
        }
        None
    }

    /// Every raw value under `key` in the sections named `section` and
    /// `subsection`, in the order of declaration.
    pub fn raw_values<'a>(&'a self, section: &[u8], subsection: Option<&[u8]>, key: &[u8]) -> (r:
        Vec<Option<&'a [u8]>>)
        ensures
            raw_values_view(r@) == self@.values(section@, optional_slice_view(subsection), key@),
    {
        let ghost sub = optional_slice_view(subsection);
        let mut out: Vec<Option<&'a [u8]>> = Vec::new();
        let mut i: usize = 0;
        assert(raw_values_view(out@) =~= Seq::empty());
        while i < self.sections.len()
            invariant
                i <= self.sections.len(),
                sub == optional_slice_view(subsection),
                raw_values_view(out@) == self@.values_upto(section@, sub, key@, i as int),
            decreases self.sections.len() - i,
        {
            let s = &self.sections[i];
            assert(self@.sections[i as int] == s@);
            if s.is_named(section, subsection) {
                s.push_raw_values(key, &mut out);
            }
            i += 1;
        }
        out
    }
}

/// A section that is declared later and holds the key decides the value:
/// its last entry under the key counts, whatever stands before it.
pub proof fn lemma_later_section_with_key_wins(
    file: FileView,
    later: SectionView,
    name: Seq<u8>,
    subsection: Option<Seq<u8>>,
    key: Seq<u8>,
)
    requires
        later.is_named(name, subsection),
        later.values(key).len() > 0,
    ensures
        file.with_section(later).values(name, subsection, key) == file.values(
            name,
            subsection,
            key,
        ) + later.values(key),
        file.with_section(later).value(name, subsection, key) == Some(later.values(key).last()),
{
    lemma_values_of_earlier_sections(file, later, name, subsection, key, file.sections.len() as int);
}

/// A section that is declared later and lacks the key, or has another name,
/// hands the lookup over to the sections before it: nothing changes.
pub proof fn lemma_later_section_without_key_falls_through(
    file: FileView,
    later: SectionView,
    name: Seq<u8>,
    subsection: Option<Seq<u8>>,
    key: Seq<u8>,
)
    requires
        !later.is_named(name, subsection) || later.values(key).len() == 0,
    ensures
        file.with_section(later).values(name, subsection, key) == file.values(
            name,
            subsection,
            key,
        ),
        file.with_section(later).value(name, subsection, key) == file.value(
            name,
            subsection,
            key,
        ),
{
    lemma_values_of_earlier_sections(file, later, name, subsection, key, file.sections.len() as int);
    if later.is_named(name, subsection) {
        assert(file.values(name, subsection, key) + later.values(key) =~= file.values(
            name,
            subsection,
            key,
        ));
    }
}

proof fn lemma_values_of_earlier_sections(
    file: FileView,
    later: SectionView,
    name: Seq<u8>,
    subsection: Option<Seq<u8>>,
    key: Seq<u8>,
    n: int,
)
    requires
        n <= file.sections.len(),
    ensures
        file.with_section(later).values_upto(name, subsection, key, n) == file.values_upto(
            name,
            subsection,
            key,
            n,
        ),
    decreases n,
{
    if n > 0 {
        lemma_values_of_earlier_sections(file, later, name, subsection, key, n - 1);
    }
}

/// Lookup does not see the case of the letters of a section's name or of a
/// key: names that differ in case alone find the same values.
pub proof fn lemma_lookup_ignores_case(
    file: FileView,
    name: Seq<u8>,
    other_name: Seq<u8>,
    subsection: Option<Seq<u8>>,
    key: Seq<u8>,
    other_key: Seq<u8>,
)
    requires
        eq_ignore_case(name, other_name),
        eq_ignore_case(key, other_key),
    ensures
        file.values(name, subsection, key) == file.values(other_name, subsection, other_key),
        file.value(name, subsection, key) == file.value(other_name, subsection, other_key),
{
    lemma_values_upto_ignore_case(
        file,
        name,
        other_name,
        subsection,
        key,
        other_key,
        file.sections.len() as int,
    );
}

proof fn lemma_section_values_ignore_case(
    section: SectionView,
    key: Seq<u8>,
    other_key: Seq<u8>,
    n: int,
)
    requires
        eq_ignore_case(key, other_key),
        n <= section.entries.len(),
    ensures
        section.values_upto(key, n) == section.values_upto(other_key, n),
    decreases n,
{
    if n > 0 {
        lemma_section_values_ignore_case(section, key, other_key, n - 1);
        lemma_eq_ignore_case_transitive(section.entries[n - 1].key, key, other_key);
        lemma_eq_ignore_case_transitive(section.entries[n - 1].key, other_key, key);
    }
}

proof fn lemma_values_upto_ignore_case(
    file: FileView,
    name: Seq<u8>,
    other_name: Seq<u8>,
    subsection: Option<Seq<u8>>,
    key: Seq<u8>,
    other_key: Seq<u8>,
    n: int,
)
    requires
        eq_ignore_case(name, other_name),
        eq_ignore_case(key, other_key),
        n <= file.sections.len(),
    ensures
        file.values_upto(name, subsection, key, n) == file.values_upto(
            other_name,
            subsection,
            other_key,
            n,
        ),
    decreases n,
{
    if n > 0 {
        lemma_values_upto_ignore_case(file, name, other_name, subsection, key, other_key, n - 1);
        let s = file.sections[n - 1];
        lemma_eq_ignore_case_transitive(s.name, name, other_name);
        lemma_eq_ignore_case_transitive(s.name, other_name, name);
        lemma_section_values_ignore_case(s, key, other_key, s.entries.len() as int);
    }
}

/// Where no section named `name` and `subsection` holds an entry under
/// `key`, there is no value: neither one nor many.
pub proof fn lemma_absent_key_has_no_value(
    file: FileView,
    name: Seq<u8>,
    subsection: Option<Seq<u8>>,
    key: Seq<u8>,
)
    requires
        forall|i: int, j: int|
            0 <= i < file.sections.len() && file.sections[i].is_named(name, subsection) && 0 <= j
                < file.sections[i].entries.len() ==> !eq_ignore_case(
                #[trigger] file.sections[i].entries[j].key,
                key,
            ),
    ensures
        file.values(name, subsection, key).len() == 0,
        file.value(name, subsection, key) is None,
{
    lemma_absent_upto(file, name, subsection, key, file.sections.len() as int);
}

proof fn lemma_absent_in_section(section: SectionView, key: Seq<u8>, n: int)
    requires
        n <= section.entries.len(),
        forall|j: int|
            0 <= j < section.entries.len() ==> !eq_ignore_case(
                #[trigger] section.entries[j].key,
                key,
            ),
    ensures
        section.values_upto(key, n).len() == 0,
    decreases n,
{
    if n > 0 {
        lemma_absent_in_section(section, key, n - 1);
    }
}

proof fn lemma_absent_upto(
    file: FileView,
    name: Seq<u8>,
    subsection: Option<Seq<u8>>,
    key: Seq<u8>,
    n: int,
)
    requires
        n <= file.sections.len(),
        forall|i: int, j: int|
            0 <= i < file.sections.len() && file.sections[i].is_named(name, subsection) && 0 <= j
                < file.sections[i].entries.len() ==> !eq_ignore_case(
                #[trigger] file.sections[i].entries[j].key,
                key,
            ),
    ensures
        file.values_upto(name, subsection, key, n).len() == 0,
    decreases n,
{
    if n > 0 {
        lemma_absent_upto(file, name, subsection, key, n - 1);
        let s = file.sections[n - 1];
        if s.is_named(name, subsection) {
            lemma_absent_in_section(s, key, s.entries.len() as int);
        }
    }
}

/// A value is found exactly where some section named `name` and
/// `subsection` holds an entry under `key`.
pub proof fn lemma_present_key_has_value(
    file: FileView,
    name: Seq<u8>,
    subsection: Option<Seq<u8>>,
    key: Seq<u8>,
    i: int,
    j: int,
)
    requires
        0 <= i < file.sections.len(),
        file.sections[i].is_named(name, subsection),
        0 <= j < file.sections[i].entries.len(),
        eq_ignore_case(file.sections[i].entries[j].key, key),
    ensures
        file.values(name, subsection, key).len() > 0,
        file.value(name, subsection, key) is Some,
{
    lemma_section_values_grow(file.sections[i], key, j + 1, file.sections[i].entries.len() as int);
    lemma_values_grow(file, name, subsection, key, i + 1, file.sections.len() as int);
}

proof fn lemma_section_values_grow(section: SectionView, key: Seq<u8>, m: int, n: int)
    requires
        0 <= m <= n,
    ensures
        section.values_upto(key, m).len() <= section.values_upto(key, n).len(),
    decreases n - m,
{
    if m < n {
        lemma_section_values_grow(section, key, m, n - 1);
    }
}

proof fn lemma_values_grow(
    file: FileView,
    name: Seq<u8>,
    subsection: Option<Seq<u8>>,
    key: Seq<u8>,
    m: int,
    n: int,
)
    requires
        0 <= m <= n,
    ensures
        file.values_upto(name, subsection, key, m).len() <= file.values_upto(
            name,
            subsection,
            key,
            n,
        ).len(),
    decreases n - m,
{
    if m < n {
        lemma_values_grow(file, name, subsection, key, m, n - 1);
    }
}

} // verus!
