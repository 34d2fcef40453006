use crate::clustering::Embedding;
use crate::feeds::{Entry, Field, FieldName, LanguageCode, Translation};
use crate::id::Id;
use crate::md5_hash::Md5Hash;
use crate::persisted::Persisted;
use vstd::prelude::*;

verus! {

/// An entry row as values: feed, link, publication time.
pub type EntryRow = (u32, Seq<char>, i64);

/// A field row as values: entry, kind, language, fingerprint.
pub type FieldRow = (u32, FieldName, LanguageCode, Seq<u8>);

/// A text value row as values: fingerprint, text.
pub type TextRow = (Seq<u8>, Seq<char>);

/// An embedding row as values: fingerprint, components, size.
pub type EmbeddingRow = (Seq<u8>, Seq<u32>, u32);

/// The content of a store: its four tables, row `i` of each having id `i + 1`.
pub struct StoreView {
    pub entries: Seq<EntryRow>,
    pub fields: Seq<FieldRow>,
    pub texts: Seq<TextRow>,
    pub embeddings: Seq<EmbeddingRow>,
}

pub open spec fn entry_row(e: Entry) -> EntryRow {
    (e.feed_id.spec_value(), e.href@, e.published_at)
}

pub open spec fn field_row(f: Field) -> FieldRow {
    (f.entry_id.spec_value(), f.name, f.lang_code, f.md5_hash@)
}

pub open spec fn text_row(t: Translation) -> TextRow {
    (t.md5_hash@, t.value@)
}

pub open spec fn embedding_row(e: Embedding) -> EmbeddingRow {
    (e.md5_hash@, e.value@, e.size)
}

/// Whether some entry row has link `href`.
pub open spec fn has_entry(s: StoreView, href: Seq<char>) -> bool {
    exists|i: int| 0 <= i < s.entries.len() && (#[trigger] s.entries[i]).1 == href
}

/// Whether some field row has the key `(entry, name, lang)`.
pub open spec fn has_field(s: StoreView, entry: u32, name: FieldName, lang: LanguageCode) -> bool {
    exists|i: int|
        0 <= i < s.fields.len() && (#[trigger] s.fields[i]).0 == entry && s.fields[i].1 == name
            && s.fields[i].2 == lang
}

/// Whether some field row has key `(entry, name, lang)` and points at `h`.
pub open spec fn field_points(s: StoreView, entry: u32, name: FieldName, lang: LanguageCode, h: Seq<u8>) -> bool {
    exists|i: int|
        0 <= i < s.fields.len() && (#[trigger] s.fields[i]) == (entry, name, lang, h)
}

/// Whether some text value row has fingerprint `h`.
pub open spec fn has_text(s: StoreView, h: Seq<u8>) -> bool {
    exists|i: int| 0 <= i < s.texts.len() && (#[trigger] s.texts[i]).0 == h
}

/// Whether some embedding row has fingerprint `h`.
pub open spec fn has_embedding(s: StoreView, h: Seq<u8>) -> bool {
    exists|i: int| 0 <= i < s.embeddings.len() && (#[trigger] s.embeddings[i]).0 == h
}

/// The store's invariant: each natural key names at most one row, every
/// field belongs to a stored entry, and every embedding has the text value it
/// was computed from.
pub open spec fn store_wf(s: StoreView) -> bool {
    &&& forall|i: int, j: int|
        0 <= i < j < s.entries.len() ==> (#[trigger] s.entries[i]).1 != (#[trigger] s.entries[j]).1
    &&& forall|i: int, j: int|
        0 <= i < j < s.fields.len() ==> !((#[trigger] s.fields[i]).0 == (#[trigger] s.fields[j]).0
            && s.fields[i].1 == s.fields[j].1 && s.fields[i].2 == s.fields[j].2)
    &&& forall|i: int, j: int|
        0 <= i < j < s.texts.len() ==> (#[trigger] s.texts[i]).0 != (#[trigger] s.texts[j]).0
    &&& forall|i: int, j: int|
        0 <= i < j < s.embeddings.len() ==> (#[trigger] s.embeddings[i]).0 != (#[trigger] s.embeddings[j]).0
    &&& forall|i: int| 0 <= i < s.embeddings.len() ==> has_text(s, (#[trigger] s.embeddings[i]).0)
    &&& forall|i: int| 0 <= i < s.fields.len() ==> 1 <= (#[trigger] s.fields[i]).0 <= s.entries.len()
}

/// What inserting text value `t` into `s` gives, with the id of the row that
/// holds `t`'s fingerprint and whether that row is new: where the fingerprint
/// is stored already nothing changes, else `t` is appended.
pub open spec fn text_inserted(s: StoreView, t: TextRow, s2: StoreView, id: u32, was_new: bool) -> bool {
    &&& was_new == !has_text(s, t.0)
    &&& was_new ==> s2 == StoreView { texts: s.texts.push(t), ..s }
    &&& !was_new ==> s2 == s
    &&& 1 <= id <= s2.texts.len()
    &&& s2.texts[id - 1].0 == t.0
}

/// What inserting entry `e` gives: unchanged where its link is stored
/// already, else `e` appended.
pub open spec fn entry_inserted(s: StoreView, e: EntryRow, s2: StoreView, id: u32, was_new: bool) -> bool {
    &&& was_new == !has_entry(s, e.1)
    &&& was_new ==> s2 == StoreView { entries: s.entries.push(e), ..s }
    &&& !was_new ==> s2 == s
    &&& 1 <= id <= s2.entries.len()
    &&& s2.entries[id - 1].1 == e.1
}

/// What inserting field `f` gives: unchanged where its key (entry, kind,
/// language) is stored already, else `f` appended.
pub open spec fn field_inserted(s: StoreView, f: FieldRow, s2: StoreView, id: u32, was_new: bool) -> bool {
    &&& was_new == !has_field(s, f.0, f.1, f.2)
    &&& was_new ==> s2 == StoreView { fields: s.fields.push(f), ..s }
    &&& !was_new ==> s2 == s
    &&& 1 <= id <= s2.fields.len()
    &&& s2.fields[id - 1].0 == f.0 && s2.fields[id - 1].1 == f.1 && s2.fields[id - 1].2 == f.2
}

/// What inserting embedding `e` gives: unchanged where its fingerprint is
/// stored already, else `e` appended.
pub open spec fn embedding_inserted(s: StoreView, e: EmbeddingRow, s2: StoreView, id: u32, was_new: bool) -> bool {
    &&& was_new == !has_embedding(s, e.0)
    &&& was_new ==> s2 == StoreView { embeddings: s.embeddings.push(e), ..s }
    &&& !was_new ==> s2 == s
    &&& 1 <= id <= s2.embeddings.len()
    &&& s2.embeddings[id - 1].0 == e.0
}

/// Whether `s2` holds every row of `s` at the same place (and maybe more).
pub open spec fn grows(s: StoreView, s2: StoreView) -> bool {
    &&& s.entries.len() <= s2.entries.len()
    &&& s.fields.len() <= s2.fields.len()
    &&& s.texts.len() <= s2.texts.len()
    &&& s.embeddings.len() <= s2.embeddings.len()
    &&& forall|i: int| 0 <= i < s.entries.len() ==> #[trigger] s2.entries[i] == s.entries[i]
    &&& forall|i: int| 0 <= i < s.fields.len() ==> #[trigger] s2.fields[i] == s.fields[i]
    &&& forall|i: int| 0 <= i < s.texts.len() ==> #[trigger] s2.texts[i] == s.texts[i]
    &&& forall|i: int| 0 <= i < s.embeddings.len() ==> #[trigger] s2.embeddings[i] == s.embeddings[i]
}

/// What is stored stays stored as a store grows.
pub proof fn lemma_grows_keeps(s: StoreView, s2: StoreView)
    requires
        grows(s, s2),
    ensures
        forall|href: Seq<char>| has_entry(s, href) ==> #[trigger] has_entry(s2, href),
        forall|e: u32, n: FieldName, l: LanguageCode| has_field(s, e, n, l) ==> #[trigger] has_field(s2, e, n, l),
        forall|h: Seq<u8>| has_text(s, h) ==> #[trigger] has_text(s2, h),
        forall|h: Seq<u8>| has_embedding(s, h) ==> #[trigger] has_embedding(s2, h),
        forall|e: u32, n: FieldName, l: LanguageCode, h: Seq<u8>|
            field_points(s, e, n, l, h) ==> #[trigger] field_points(s2, e, n, l, h),
        forall|t: TextRow| s.texts.contains(t) ==> #[trigger] s2.texts.contains(t),
{
    assert forall|e: u32, n: FieldName, l: LanguageCode, h: Seq<u8>|
        field_points(s, e, n, l, h) implies #[trigger] field_points(s2, e, n, l, h) by {
        let i = choose|i: int| 0 <= i < s.fields.len() && (#[trigger] s.fields[i]) == (e, n, l, h);
        assert(s2.fields[i] == s.fields[i]);
    }
    assert forall|t: TextRow| s.texts.contains(t) implies #[trigger] s2.texts.contains(t) by {
        let i = choose|i: int| 0 <= i < s.texts.len() && s.texts[i] == t;
        assert(s2.texts[i] == s.texts[i]);
    }
    assert forall|href: Seq<char>| has_entry(s, href) implies #[trigger] has_entry(s2, href) by {
        let i = choose|i: int| 0 <= i < s.entries.len() && (#[trigger] s.entries[i]).1 == href;
        assert(s2.entries[i] == s.entries[i]);
    }
    assert forall|e: u32, n: FieldName, l: LanguageCode| has_field(s, e, n, l) implies #[trigger] has_field(s2, e, n, l) by {
        let i = choose|i: int| 0 <= i < s.fields.len() && (#[trigger] s.fields[i]).0 == e && s.fields[i].1 == n && s.fields[i].2 == l;
        assert(s2.fields[i] == s.fields[i]);
    }
    assert forall|h: Seq<u8>| has_text(s, h) implies #[trigger] has_text(s2, h) by {
        let i = choose|i: int| 0 <= i < s.texts.len() && (#[trigger] s.texts[i]).0 == h;
        assert(s2.texts[i] == s.texts[i]);
    }
    assert forall|h: Seq<u8>| has_embedding(s, h) implies #[trigger] has_embedding(s2, h) by {
        let i = choose|i: int| 0 <= i < s.embeddings.len() && (#[trigger] s.embeddings[i]).0 == h;
        assert(s2.embeddings[i] == s.embeddings[i]);
    }
}

/// Whether field row `i` is of kind `name` in language `lang`, and its entry
/// was published in `[from, to)`.
pub open spec fn field_in_period(s: StoreView, i: int, name: FieldName, lang: LanguageCode, from: i64, to: i64) -> bool {
    let f = s.fields[i];
    &&& f.1 == name
    &&& f.2 == lang
    &&& 1 <= f.0 <= s.entries.len()
    &&& from <= s.entries[f.0 - 1].2 < to
}

/// Whether some field of kind `name` in language `lang`, of an entry
/// published in `[from, to)`, points at `h`.
pub open spec fn referenced_in_period(s: StoreView, h: Seq<u8>, name: FieldName, lang: LanguageCode, from: i64, to: i64) -> bool {
    exists|i: int| 0 <= i < s.fields.len() && (#[trigger] s.fields[i]).3 == h && field_in_period(s, i, name, lang, from, to)
}

/// A fingerprint whose text value is not stored: a broken store.
pub struct MissingText {
    pub md5_hash: Md5Hash,
}

/// Content-addressed storage of feed entries, their text fields, the text
/// values the fields point at, and the embeddings of those texts.
pub struct Client {
    entries: Vec<Persisted<Entry>>,
    fields: Vec<Persisted<Field>>,
    texts: Vec<Persisted<Translation>>,
    embeddings: Vec<Persisted<Embedding>>,
}

impl View for Client {
    type V = StoreView;

    closed spec fn view(&self) -> StoreView {
        StoreView {
            entries: self.entries@.map_values(|p: Persisted<Entry>| entry_row(p.value)),
            fields: self.fields@.map_values(|p: Persisted<Field>| field_row(p.value)),
            texts: self.texts@.map_values(|p: Persisted<Translation>| text_row(p.value)),
            embeddings: self.embeddings@.map_values(|p: Persisted<Embedding>| embedding_row(p.value)),
        }
    }
}

impl Client {
    /// Row `i` of each table has id `i + 1`.
    pub closed spec fn ids_wf(&self) -> bool {
        &&& forall|i: int| 0 <= i < self.entries@.len() ==> (#[trigger] self.entries@[i]).id.spec_value() == i + 1
        &&& forall|i: int| 0 <= i < self.fields@.len() ==> (#[trigger] self.fields@[i]).id.spec_value() == i + 1
        &&& forall|i: int| 0 <= i < self.texts@.len() ==> (#[trigger] self.texts@[i]).id.spec_value() == i + 1
        &&& forall|i: int| 0 <= i < self.embeddings@.len() ==> (#[trigger] self.embeddings@[i]).id.spec_value() == i + 1
    }

    pub open spec fn wf(&self) -> bool {
        self.ids_wf() && store_wf(self@)
    }

    pub fn new() -> (r: Client)
        ensures
            r.wf(),
            r@.entries.len() == 0,
            r@.fields.len() == 0,
            r@.texts.len() == 0,
            r@.embeddings.len() == 0,
    {
        let r = Client { entries: Vec::new(), fields: Vec::new(), texts: Vec::new(), embeddings: Vec::new() };
        assert(r@.entries =~= Seq::<EntryRow>::empty());
        r
    }

    pub fn entry_count(&self) -> (r: usize)
        ensures
            r == self@.entries.len(),
    {
        self.entries.len()
    }

    pub fn field_count(&self) -> (r: usize)
        ensures
            r == self@.fields.len(),
    {
        self.fields.len()
    }

    pub fn text_count(&self) -> (r: usize)
        ensures
            r == self@.texts.len(),
    {
        self.texts.len()
    }

    pub fn embedding_count(&self) -> (r: usize)
        ensures
            r == self@.embeddings.len(),
    {
        self.embeddings.len()
    }

    /// The position of the text value with fingerprint `h`, if stored.
    fn text_position(&self, h: &Md5Hash) -> (r: Option<usize>)
        ensures
            r matches Some(i) ==> i < self@.texts.len() && self@.texts[i as int].0 == h@,
            r is None ==> !has_text(self@, h@),
    {
        let mut i: usize = 0;
        while i < self.texts.len()
            invariant
                i <= self.texts@.len(),
                forall|k: int| 0 <= k < i ==> (#[trigger] self@.texts[k]).0 != h@,
            decreases self.texts@.len() - i,
        {
            if self.texts[i].value.md5_hash.same(h) {
                return Some(i);
            }
            i = i + 1;
        }
        None
    }

    /// The position of the entry with link `e.href`, if stored.
    fn entry_position(&self, e: &Entry) -> (r: Option<usize>)
        ensures
            r matches Some(i) ==> i < self@.entries.len() && self@.entries[i as int].1 == e.href@,
            r is None ==> !has_entry(self@, e.href@),
    {
        let mut i: usize = 0;
        while i < self.entries.len()
            invariant
                i <= self.entries@.len(),
                forall|k: int| 0 <= k < i ==> (#[trigger] self@.entries[k]).1 != e.href@,
            decreases self.entries@.len() - i,
        {
            if self.entries[i].value.href.same(&e.href) {
                return Some(i);
            }
            i = i + 1;
        }
        None
    }

    /// The position of the field with key `(entry_id, name, lang)`, if stored.
    fn field_position(&self, entry_id: Id<Entry>, name: FieldName, lang: LanguageCode) -> (r: Option<usize>)
        ensures
            r matches Some(i) ==> i < self@.fields.len() && self@.fields[i as int].0 == entry_id.spec_value()
                && self@.fields[i as int].1 == name && self@.fields[i as int].2 == lang,
            r is None ==> !has_field(self@, entry_id.spec_value(), name, lang),
    {
        let mut i: usize = 0;
        while i < self.fields.len()
            invariant
                i <= self.fields@.len(),
                forall|k: int|
                    0 <= k < i ==> !((#[trigger] self@.fields[k]).0 == entry_id.spec_value() && self@.fields[k].1 == name
                        && self@.fields[k].2 == lang),
            decreases self.fields@.len() - i,
        {
            let f = &self.fields[i].value;
            if f.entry_id.same(&entry_id) && f.name == name && f.lang_code == lang {
                return Some(i);
            }
            i = i + 1;
        }
        None
    }

    /// The position of the embedding with fingerprint `h`, if stored.
    fn embedding_position(&self, h: &Md5Hash) -> (r: Option<usize>)
        ensures
            r matches Some(i) ==> i < self@.embeddings.len() && self@.embeddings[i as int].0 == h@,
            r is None ==> !has_embedding(self@, h@),
    {
        let mut i: usize = 0;
        while i < self.embeddings.len()
            invariant
                i <= self.embeddings@.len(),
                forall|k: int| 0 <= k < i ==> (#[trigger] self@.embeddings[k]).0 != h@,
            decreases self.embeddings@.len() - i,
        {
            if self.embeddings[i].value.md5_hash.same(h) {
                return Some(i);
            }
            i = i + 1;
        }
        None
    }

    /// Stores the entry unless its link is stored already; gives the id of
    /// the row holding the link and whether it is new.
    pub fn insert_entry(&mut self, e: Entry, now: i64) -> (r: (Id<Entry>, bool))
        requires
            old(self).wf(),
            old(self)@.entries.len() < u32::MAX,
        ensures
            final(self).wf(),
            entry_inserted(old(self)@, entry_row(e), final(self)@, r.0.spec_value(), r.1),
            grows(old(self)@, final(self)@),
    {
        match self.entry_position(&e) {
            Some(i) => (self.entries[i].id, false),
            None => {
                let id = Id::new((self.entries.len() + 1) as u32);
                let ghost before = self@;
                self.entries.push(Persisted { id, created_at: now, value: e });
                assert(self@.entries =~= before.entries.push(entry_row(e)));
                assert(self@.texts =~= before.texts);
                assert(self@.fields =~= before.fields);
                assert(self@.embeddings =~= before.embeddings);
                (id, true)
            },
        }
    }

    /// Stores the field unless its key (entry, kind, language) is stored
    /// already; gives the id of the row holding the key and whether it is new.
    /// The field's entry must be stored.
    pub fn insert_field(&mut self, f: Field, now: i64) -> (r: (Id<Field>, bool))
        requires
            old(self).wf(),
            old(self)@.fields.len() < u32::MAX,
            1 <= f.entry_id.spec_value() <= old(self)@.entries.len(),
        ensures
            final(self).wf(),
            field_inserted(old(self)@, field_row(f), final(self)@, r.0.spec_value(), r.1),
            grows(old(self)@, final(self)@),
    {
        match self.field_position(f.entry_id, f.name, f.lang_code) {
            Some(i) => (self.fields[i].id, false),
            None => {
                let id = Id::new((self.fields.len() + 1) as u32);
                let ghost before = self@;
                self.fields.push(Persisted { id, created_at: now, value: f });
                assert(self@.fields =~= before.fields.push(field_row(f)));
                assert(self@.texts =~= before.texts);
                assert(self@.entries =~= before.entries);
                assert(self@.embeddings =~= before.embeddings);
                (id, true)
            },
        }
    }

    /// Stores the embedding unless its fingerprint is stored already; gives
    /// the id of the row holding the fingerprint and whether it is new. An
    /// embedding whose text value is not stored is refused.
    pub fn insert_embeddig(&mut self, e: Embedding, now: i64) -> (r: Result<(Id<Embedding>, bool), MissingText>)
        requires
            old(self).wf(),
            old(self)@.embeddings.len() < u32::MAX,
        ensures
            final(self).wf(),
            r is Err <==> !has_text(old(self)@, e.md5_hash@),
            r is Err ==> final(self)@ == old(self)@,
            r matches Ok(p) ==> embedding_inserted(old(self)@, embedding_row(e), final(self)@, p.0.spec_value(), p.1),
            grows(old(self)@, final(self)@),
    {
        if self.text_position(&e.md5_hash).is_none() {
            return Err(MissingText { md5_hash: e.md5_hash });
        }
        match self.embedding_position(&e.md5_hash) {
            Some(i) => Ok((self.embeddings[i].id, false)),
            None => {
                let id = Id::new((self.embeddings.len() + 1) as u32);
                let ghost before = self@;
                self.embeddings.push(Persisted { id, created_at: now, value: e });
                assert(self@.embeddings =~= before.embeddings.push(embedding_row(e)));
                assert(self@.texts =~= before.texts);
                assert(self@.entries =~= before.entries);
                assert(self@.fields =~= before.fields);
                Ok((id, true))
            },
        }
    }

    /// The entry with id `id`, if stored.
    pub fn find_entry_by_id(&self, id: Id<Entry>) -> (r: Option<&Persisted<Entry>>)
        requires
            self.wf(),
        ensures
            r is Some <==> 1 <= id.spec_value() <= self@.entries.len(),
            r matches Some(p) ==> p.id.spec_value() == id.spec_value() && entry_row(p.value) == self@.entries[id.spec_value() - 1],
    {
        let v = id.value();
        if v == 0 || v as usize > self.entries.len() {
            return None;
        }
        Some(&self.entries[(v - 1) as usize])
    }

    /// The embedding with id `id`, if stored.
    pub fn find_embedding_by_id(&self, id: Id<Embedding>) -> (r: Option<&Persisted<Embedding>>)
        requires
            self.wf(),
        ensures
            r is Some <==> 1 <= id.spec_value() <= self@.embeddings.len(),
            r matches Some(p) ==> p.id.spec_value() == id.spec_value() && embedding_row(p.value) == self@.embeddings[id.spec_value() - 1],
    {
        let v = id.value();
        if v == 0 || v as usize > self.embeddings.len() {
            return None;
        }
        Some(&self.embeddings[(v - 1) as usize])
    }

    /// The text value with fingerprint `h`, if stored.
    pub fn find_translation_by_md5_hash(&self, h: &Md5Hash) -> (r: Option<&Persisted<Translation>>)
        requires
            self.wf(),
        ensures
            r is None <==> !has_text(self@, h@),
            r matches Some(p) ==> p.value.md5_hash@ == h@ && 1 <= p.id.spec_value() <= self@.texts.len()
                && self@.texts[p.id.spec_value() - 1] == text_row(p.value),
    {
        match self.text_position(h) {
            Some(i) => Some(&self.texts[i]),
            None => None,
        }
    }

    /// The field with key `(entry_id, name, lang)`, if stored.
    pub fn find_field_by_entry_id_name_lang_code(
        &self,
        entry_id: Id<Entry>,
        name: FieldName,
        lang: LanguageCode,
    ) -> (r: Option<&Persisted<Field>>)
        requires
            self.wf(),
        ensures
            r is None <==> !has_field(self@, entry_id.spec_value(), name, lang),
            r matches Some(p) ==> p.value.entry_id.spec_value() == entry_id.spec_value() && p.value.name == name && p.value.lang_code == lang
                && 1 <= p.id.spec_value() <= self@.fields.len()
                && self@.fields[p.id.spec_value() - 1] == field_row(p.value),
    {
        match self.field_position(entry_id, name, lang) {
            Some(i) => Some(&self.fields[i]),
            None => None,
        }
    }

    /// Every field whose text has fingerprint `h`, in the order stored.
    pub fn list_fields_by_md5_hash(&self, h: &Md5Hash) -> (r: Vec<Persisted<Field>>)
        requires
            self.wf(),
        ensures
            forall|k: int|
                0 <= k < r@.len() ==> (#[trigger] r@[k]).value.md5_hash@ == h@ && 1 <= r@[k].id.spec_value()
                    <= self@.fields.len() && self@.fields[r@[k].id.spec_value() - 1] == field_row(r@[k].value),
            forall|i: int|
                0 <= i < self@.fields.len() && (#[trigger] self@.fields[i]).3 == h@ ==> exists|k: int|
                    0 <= k < r@.len() && r@[k].id.spec_value() == i + 1,
            forall|k1: int, k2: int| 0 <= k1 < k2 < r@.len() ==> (#[trigger] r@[k1]).id.spec_value() < (#[trigger] r@[k2]).id.spec_value(),
    {
        let mut out: Vec<Persisted<Field>> = Vec::new();
        let mut i: usize = 0;
        while i < self.fields.len()
            invariant
                self.wf(),
                i <= self.fields@.len(),
                forall|k: int|
                    0 <= k < out@.len() ==> (#[trigger] out@[k]).value.md5_hash@ == h@ && 1 <= out@[k].id.spec_value()
                        <= self@.fields.len() && self@.fields[out@[k].id.spec_value() - 1] == field_row(out@[k].value),
                forall|k: int| 0 <= k < out@.len() ==> (#[trigger] out@[k]).id.spec_value() <= i,
                forall|k1: int, k2: int| 0 <= k1 < k2 < out@.len() ==> (#[trigger] out@[k1]).id.spec_value() < (#[trigger] out@[k2]).id.spec_value(),
                forall|q: int|
                    0 <= q < i && (#[trigger] self@.fields[q]).3 == h@ ==> exists|k: int|
                        0 <= k < out@.len() && out@[k].id.spec_value() == q + 1,
            decreases self.fields@.len() - i,
        {
            let p = &self.fields[i];
            let ghost before = out@;
            if p.value.md5_hash.same(h) {
                out.push(Persisted { id: p.id, created_at: p.created_at, value: p.value });
                assert(out@[out@.len() - 1].id.spec_value() == i + 1);
            }
            assert forall|q: int|
                0 <= q < i + 1 && (#[trigger] self@.fields[q]).3 == h@ implies exists|k: int|
                    0 <= k < out@.len() && out@[k].id.spec_value() == q + 1 by {
                if q < i {
                    let k = choose|k: int| 0 <= k < before.len() && before[k].id.spec_value() == q + 1;
                    assert(out@[k] == before[k]);
                } else {
                    assert(out@[out@.len() - 1].id.spec_value() == q + 1);
                }
            }
            i = i + 1;
        }
        out
    }

    /// Whether a field of kind `name` in `lang`, of an entry published in
    /// `[from, to)`, points at `h`.
    fn is_referenced_in_period(&self, h: &Md5Hash, name: FieldName, lang: LanguageCode, from: i64, to: i64) -> (r: bool)
        requires
            self.wf(),
        ensures
            r == referenced_in_period(self@, h@, name, lang, from, to),
    {
        let mut i: usize = 0;
        while i < self.fields.len()
            invariant
                self.wf(),
                i <= self.fields@.len(),
                forall|q: int| 0 <= q < i ==> !((#[trigger] self@.fields[q]).3 == h@ && field_in_period(self@, q, name, lang, from, to)),
            decreases self.fields@.len() - i,
        {
            let f = &self.fields[i].value;
            if f.md5_hash.same(h) && f.name == name && f.lang_code == lang {
                let e = f.entry_id.value();
                if e >= 1 && (e as usize) <= self.entries.len() {
                    let at = self.entries[(e - 1) as usize].value.published_at;
                    if from <= at && at < to {
                        assert(field_in_period(self@, i as int, name, lang, from, to));
                        return true;
                    }
                }
            }
            i = i + 1;
        }
        false
    }

    /// The text values that a field of kind `name` in `lang`, of an entry
    /// published in `[from, to)`, points at and that have no embedding yet;
    /// each once.
    pub fn list_translations_without_embeddings_by_lang_code_field_name_date(
        &self,
        lang: LanguageCode,
        name: FieldName,
        from: i64,
        to: i64,
    ) -> (r: Vec<Translation>)
        requires
            self.wf(),
        ensures
            forall|k: int| 0 <= k < r@.len() ==> self@.texts.contains(text_row(#[trigger] r@[k])),
            forall|k: int| 0 <= k < r@.len() ==> !has_embedding(self@, (#[trigger] r@[k]).md5_hash@),
            forall|k: int| 0 <= k < r@.len() ==> referenced_in_period(self@, (#[trigger] r@[k]).md5_hash@, name, lang, from, to),
            forall|k1: int, k2: int| 0 <= k1 < k2 < r@.len() ==> (#[trigger] r@[k1]).md5_hash@ != (#[trigger] r@[k2]).md5_hash@,
            forall|i: int|
                0 <= i < self@.texts.len() && !has_embedding(self@, (#[trigger] self@.texts[i]).0)
                    && referenced_in_period(self@, self@.texts[i].0, name, lang, from, to) ==> exists|k: int|
                    0 <= k < r@.len() && r@[k].md5_hash@ == self@.texts[i].0,
    {
        let mut out: Vec<Translation> = Vec::new();
        let ghost mut idx: Seq<int> = Seq::empty();
        let mut i: usize = 0;
        while i < self.texts.len()
            invariant
                self.wf(),
                i <= self.texts@.len(),
                idx.len() == out@.len(),
                forall|k: int| 0 <= k < out@.len() ==> 0 <= #[trigger] idx[k] < i,
                forall|k: int| 0 <= k < out@.len() ==> self@.texts[idx[k]] == text_row(#[trigger] out@[k]),
                forall|k1: int, k2: int| 0 <= k1 < k2 < out@.len() ==> #[trigger] idx[k1] < #[trigger] idx[k2],
                forall|k: int| 0 <= k < out@.len() ==> !has_embedding(self@, (#[trigger] out@[k]).md5_hash@),
                forall|k: int| 0 <= k < out@.len() ==> referenced_in_period(self@, (#[trigger] out@[k]).md5_hash@, name, lang, from, to),
                forall|q: int|
                    0 <= q < i && !has_embedding(self@, (#[trigger] self@.texts[q]).0)
                        && referenced_in_period(self@, self@.texts[q].0, name, lang, from, to) ==> exists|k: int|
                        0 <= k < out@.len() && idx[k] == q,
            decreases self.texts@.len() - i,
        {
            let t = &self.texts[i].value;
            if self.embedding_position(&t.md5_hash).is_none()
                && self.is_referenced_in_period(&t.md5_hash, name, lang, from, to) {
                let c = t.clone();
                let ghost before = idx;
                out.push(c);
                proof {
                    idx = idx.push(i as int);
                    assert forall|q: int|
                        0 <= q < i && !has_embedding(self@, (#[trigger] self@.texts[q]).0)
                            && referenced_in_period(self@, self@.texts[q].0, name, lang, from, to) implies exists|k: int|
                            0 <= k < out@.len() && idx[k] == q by {
                        let k = choose|k: int| 0 <= k < before.len() && before[k] == q;
                        assert(idx[k] == q);
                    }
                    assert(idx[out@.len() - 1] == i);
                }
            }
            i = i + 1;
        }
        proof {
            assert forall|k: int| 0 <= k < out@.len() implies self@.texts.contains(text_row(#[trigger] out@[k])) by {
                assert(self@.texts[idx[k]] == text_row(out@[k]));
            }
            assert forall|k1: int, k2: int| 0 <= k1 < k2 < out@.len() implies (#[trigger] out@[k1]).md5_hash@ != (#[trigger] out@[k2]).md5_hash@ by {
                assert(idx[k1] < idx[k2]);
                assert(self@.texts[idx[k1]] == text_row(out@[k1]));
                assert(self@.texts[idx[k2]] == text_row(out@[k2]));
            }
            assert forall|q: int|
                0 <= q < self@.texts.len() && !has_embedding(self@, (#[trigger] self@.texts[q]).0)
                    && referenced_in_period(self@, self@.texts[q].0, name, lang, from, to) implies exists|k: int|
                    0 <= k < out@.len() && out@[k].md5_hash@ == self@.texts[q].0 by {
                let k = choose|k: int| 0 <= k < out@.len() && idx[k] == q;
                assert(self@.texts[idx[k]] == text_row(out@[k]));
            }
        }
        out
    }

    /// The embeddings of the texts that a field of kind `name` in `lang`, of
    /// an entry published in `[from, to)`, points at; each once, in the
    /// order stored.
    pub fn list_embeddings_by_field_name_lang_code_date(
        &self,
        name: FieldName,
        lang: LanguageCode,
        from: i64,
        to: i64,
    ) -> (r: Vec<Persisted<Embedding>>)
        requires
            self.wf(),
        ensures
            forall|k: int|
                0 <= k < r@.len() ==> 1 <= (#[trigger] r@[k]).id.spec_value() <= self@.embeddings.len()
                    && self@.embeddings[r@[k].id.spec_value() - 1] == embedding_row(r@[k].value),
            forall|k: int| 0 <= k < r@.len() ==> referenced_in_period(self@, (#[trigger] r@[k]).value.md5_hash@, name, lang, from, to),
            forall|k1: int, k2: int| 0 <= k1 < k2 < r@.len() ==> (#[trigger] r@[k1]).id.spec_value() < (#[trigger] r@[k2]).id.spec_value(),
            forall|i: int|
                0 <= i < self@.embeddings.len() && referenced_in_period(self@, (#[trigger] self@.embeddings[i]).0, name, lang, from, to)
                    ==> exists|k: int| 0 <= k < r@.len() && r@[k].id.spec_value() == i + 1,
    {
        let mut out: Vec<Persisted<Embedding>> = Vec::new();
        let mut i: usize = 0;
        while i < self.embeddings.len()
            invariant
                self.wf(),
                i <= self.embeddings@.len(),
                forall|k: int|
                    0 <= k < out@.len() ==> 1 <= (#[trigger] out@[k]).id.spec_value() <= i
                        && self@.embeddings[out@[k].id.spec_value() - 1] == embedding_row(out@[k].value),
                forall|k: int| 0 <= k < out@.len() ==> referenced_in_period(self@, (#[trigger] out@[k]).value.md5_hash@, name, lang, from, to),
                forall|k1: int, k2: int| 0 <= k1 < k2 < out@.len() ==> (#[trigger] out@[k1]).id.spec_value() < (#[trigger] out@[k2]).id.spec_value(),
                forall|q: int|
                    0 <= q < i && referenced_in_period(self@, (#[trigger] self@.embeddings[q]).0, name, lang, from, to)
                        ==> exists|k: int| 0 <= k < out@.len() && out@[k].id.spec_value() == q + 1,
            decreases self.embeddings@.len() - i,
        {
            let p = &self.embeddings[i];
            if self.is_referenced_in_period(&p.value.md5_hash, name, lang, from, to) {
                let ghost before = out@;
                out.push(Persisted { id: p.id, created_at: p.created_at, value: p.value.clone() });
                proof {
                    assert(out@[out@.len() - 1].id.spec_value() == i + 1);
                    assert forall|q: int|
                        0 <= q < i && referenced_in_period(self@, (#[trigger] self@.embeddings[q]).0, name, lang, from, to)
                            implies exists|k: int| 0 <= k < out@.len() && out@[k].id.spec_value() == q + 1 by {
                        let k = choose|k: int| 0 <= k < before.len() && before[k].id.spec_value() == q + 1;
                        assert(out@[k] == before[k]);
                    }
                }
            }
            i = i + 1;
        }
        out
    }

    /// Stores the text value unless its fingerprint is stored already; gives
    /// the id of the row holding the fingerprint and whether it is new.
    pub fn insert_translation(&mut self, t: Translation, now: i64) -> (r: (Id<Translation>, bool))
        requires
            old(self).wf(),
            old(self)@.texts.len() < u32::MAX,
        ensures
            final(self).wf(),
            text_inserted(old(self)@, text_row(t), final(self)@, r.0.spec_value(), r.1),
            grows(old(self)@, final(self)@),
    {
        match self.text_position(&t.md5_hash) {
            Some(i) => (self.texts[i].id, false),
            None => {
                let id = Id::new((self.texts.len() + 1) as u32);
                let ghost before = self@;
                self.texts.push(Persisted { id, created_at: now, value: t });
                assert(self@.texts =~= before.texts.push(text_row(t)));
                assert(self@.entries =~= before.entries);
                assert(self@.fields =~= before.fields);
                assert(self@.embeddings =~= before.embeddings);
                assert forall|i: int| 0 <= i < self@.embeddings.len() implies has_text(self@, (#[trigger] self@.embeddings[i]).0) by {
                    let k = choose|k: int| 0 <= k < before.texts.len() && (#[trigger] before.texts[k]).0 == before.embeddings[i].0;
                    assert(self@.texts[k].0 == self@.embeddings[i].0);
                }
                (id, true)
            },
        }
    }
}

/// Inserting the same text value twice stores one row for its fingerprint,
/// and both inserts give the same id; the second changes nothing.
pub proof fn lemma_insert_text_idempotent(
    s0: StoreView,
    t: TextRow,
    s1: StoreView,
    id1: u32,
    new1: bool,
    s2: StoreView,
    id2: u32,
    new2: bool,
)
    requires
        store_wf(s0),
        store_wf(s1),
        text_inserted(s0, t, s1, id1, new1),
        text_inserted(s1, t, s2, id2, new2),
    ensures
        !new2,
        s2 == s1,
        id1 == id2,
        exists|i: int| 0 <= i < s2.texts.len() && s2.texts[i].0 == t.0,
        forall|i: int, j: int|
            0 <= i < s2.texts.len() && 0 <= j < s2.texts.len() && s2.texts[i].0 == t.0
                && s2.texts[j].0 == t.0 ==> i == j,
{
    assert(s1.texts[id1 - 1].0 == t.0);
    assert(has_text(s1, t.0));
    assert forall|i: int, j: int|
        0 <= i < s2.texts.len() && 0 <= j < s2.texts.len() && s2.texts[i].0 == t.0
            && s2.texts[j].0 == t.0 implies i == j by {
        if i < j {
            assert(s1.texts[i].0 != s1.texts[j].0);
        } else if j < i {
            assert(s1.texts[j].0 != s1.texts[i].0);
        }
    }
    assert(id1 - 1 == id2 - 1);
}

} // verus!
