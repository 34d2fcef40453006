use crate::feeds::{CrawlError, Entry, Field, FieldText, Translation};
use crate::id::Id;
use crate::md5_hash::{compute, md5_of_text};
use crate::db::{entry_row, field_points, grows, has_entry, has_field, has_text, lemma_grows_keeps, store_wf, Client, FieldRow, StoreView, TextRow};
use crate::feeds::{FieldName, LanguageCode};
use vstd::prelude::*;

verus! {

/// One entry of a feed with the text attributes extracted from it.
pub type CrawledEntry = (Entry, Vec<FieldText>);

/// What crawling one feed gave: its entries, or why there are none.
pub type CrawlResult = Result<Vec<CrawledEntry>, CrawlError>;

/// Whether no attribute before the `k`-th has its kind and language.
pub open spec fn first_key(fs: Seq<FieldText>, k: int) -> bool {
    forall|j: int| 0 <= j < k ==> !((#[trigger] fs[j]).0 == fs[k].0 && fs[j].1 == fs[k].1)
}

/// Whether no attribute before the `k`-th has a text of the same fingerprint.
pub open spec fn first_print(fs: Seq<FieldText>, k: int) -> bool {
    forall|j: int| 0 <= j < k ==> md5_of_text((#[trigger] fs[j]).2@) != md5_of_text(fs[k].2@)
}

/// Whether field row `row` is the field of entry `id` for one of the first
/// `n` attributes, pointing at its text's fingerprint.
pub open spec fn field_of(fs: Seq<FieldText>, n: int, id: u32, row: FieldRow) -> bool {
    exists|k: int| 0 <= k < n && row == (id, (#[trigger] fs[k]).0, fs[k].1, md5_of_text(fs[k].2@))
}

/// Whether text value row `row` is the text of one of the first `n`
/// attributes, with its fingerprint.
pub open spec fn text_of(fs: Seq<FieldText>, n: int, row: TextRow) -> bool {
    exists|k: int| 0 <= k < n && row == (md5_of_text((#[trigger] fs[k]).2@), fs[k].2@)
}

/// Whether the attributes of entry `id` are stored: a field for each kind
/// and language, pointing at the fingerprint of the first text given for
/// it, and a text value for every fingerprint.
pub open spec fn fields_stored(s: StoreView, id: u32, fs: Seq<FieldText>) -> bool {
    &&& forall|k: int|
        0 <= k < fs.len() && first_key(fs, k) ==> field_points(s, id, (#[trigger] fs[k]).0, fs[k].1, md5_of_text(fs[k].2@))
    &&& forall|k: int|
        0 <= k < fs.len() ==> has_field(s, id, (#[trigger] fs[k]).0, fs[k].1) && has_text(s, md5_of_text(fs[k].2@))
}

/// Whether every row that `s2` adds to `s` comes from the attributes `fs`
/// of entry `id`.
pub open spec fn added_from(s: StoreView, s2: StoreView, id: u32, fs: Seq<FieldText>) -> bool {
    &&& forall|i: int| s.fields.len() <= i < s2.fields.len() ==> field_of(fs, fs.len() as int, id, #[trigger] s2.fields[i])
    &&& forall|i: int| s.texts.len() <= i < s2.texts.len() ==> text_of(fs, fs.len() as int, #[trigger] s2.texts[i])
}

proof fn lemma_key_absent(start: StoreView, s: StoreView, id: u32, fs: Seq<FieldText>, k: int)
    requires
        store_wf(start),
        id == start.entries.len() + 1,
        grows(start, s),
        0 <= k < fs.len(),
        first_key(fs, k),
        forall|i: int| start.fields.len() <= i < s.fields.len() ==> field_of(fs, k, id, #[trigger] s.fields[i]),
    ensures
        !has_field(s, id, fs[k].0, fs[k].1),
{
    if has_field(s, id, fs[k].0, fs[k].1) {
        let i = choose|i: int| 0 <= i < s.fields.len() && (#[trigger] s.fields[i]).0 == id && s.fields[i].1 == fs[k].0 && s.fields[i].2 == fs[k].1;
        if i < start.fields.len() {
            assert(s.fields[i] == start.fields[i]);
        } else {
            assert(field_of(fs, k, id, s.fields[i]));
            let j = choose|j: int| 0 <= j < k && s.fields[i] == (id, (#[trigger] fs[j]).0, fs[j].1, md5_of_text(fs[j].2@));
            assert(fs[j].0 == fs[k].0 && fs[j].1 == fs[k].1);
        }
    }
}

proof fn lemma_print_absent(start: StoreView, s: StoreView, fs: Seq<FieldText>, k: int)
    requires
        grows(start, s),
        0 <= k < fs.len(),
        first_print(fs, k),
        !has_text(start, md5_of_text(fs[k].2@)),
        forall|i: int| start.texts.len() <= i < s.texts.len() ==> text_of(fs, k, #[trigger] s.texts[i]),
    ensures
        !has_text(s, md5_of_text(fs[k].2@)),
{
    let h = md5_of_text(fs[k].2@);
    if has_text(s, h) {
        let i = choose|i: int| 0 <= i < s.texts.len() && (#[trigger] s.texts[i]).0 == h;
        if i < start.texts.len() {
            assert(s.texts[i] == start.texts[i]);
        } else {
            assert(text_of(fs, k, s.texts[i]));
            let j = choose|j: int| 0 <= j < k && s.texts[i] == (md5_of_text((#[trigger] fs[j]).2@), fs[j].2@);
        }
    }
}

/// Whether `(b, j)` names an entry of a feed that was crawled successfully.
pub open spec fn is_crawled(crawled: Seq<CrawlResult>, b: int, j: int) -> bool {
    0 <= b < crawled.len() && crawled[b] is Ok && 0 <= j < crawled[b]->Ok_0@.len()
}

/// The `j`-th entry of the `b`-th feed.
pub open spec fn crawled_at(crawled: Seq<CrawlResult>, b: int, j: int) -> CrawledEntry {
    crawled[b]->Ok_0@[j]
}

/// Whether entry row `i` of `s` is a crawled entry, stored with its attributes.
pub open spec fn entry_from_crawl(s: StoreView, crawled: Seq<CrawlResult>, i: int) -> bool {
    exists|b: int, j: int|
        is_crawled(crawled, b, j) && s.entries[i] == entry_row((#[trigger] crawled_at(crawled, b, j)).0)
            && fields_stored(s, (i + 1) as u32, crawled_at(crawled, b, j).1@)
}

/// Whether field row `row` is an attribute of a crawled entry, held by that
/// entry's row in `s`.
pub open spec fn field_from_crawl(s: StoreView, crawled: Seq<CrawlResult>, row: FieldRow) -> bool {
    exists|b: int, j: int|
        is_crawled(crawled, b, j) && 1 <= row.0 <= s.entries.len() && s.entries[row.0 - 1] == entry_row(
            (#[trigger] crawled_at(crawled, b, j)).0,
        ) && field_of(crawled_at(crawled, b, j).1@, crawled_at(crawled, b, j).1@.len() as int, row.0, row)
}

/// Whether text value row `row` is the text of an attribute of a crawled entry.
pub open spec fn text_from_crawl(crawled: Seq<CrawlResult>, row: TextRow) -> bool {
    exists|b: int, j: int|
        is_crawled(crawled, b, j) && text_of(
            (#[trigger] crawled_at(crawled, b, j)).1@,
            crawled_at(crawled, b, j).1@.len() as int,
            row,
        )
}

/// Whether everything `s2` adds to `s` comes from the feeds crawled
/// successfully: each new entry with its attributes, each new field and
/// text value from one of them; no embedding is added.
pub open spec fn added_from_crawl(s: StoreView, s2: StoreView, crawled: Seq<CrawlResult>) -> bool {
    &&& forall|i: int| s.entries.len() <= i < s2.entries.len() ==> #[trigger] entry_from_crawl(s2, crawled, i)
    &&& forall|i: int| s.fields.len() <= i < s2.fields.len() ==> field_from_crawl(s2, crawled, #[trigger] s2.fields[i])
    &&& forall|i: int| s.texts.len() <= i < s2.texts.len() ==> text_from_crawl(crawled, #[trigger] s2.texts[i])
    &&& s2.embeddings == s.embeddings
}

proof fn lemma_fields_stored_grows(s: StoreView, s2: StoreView, id: u32, fs: Seq<FieldText>)
    requires
        grows(s, s2),
        fields_stored(s, id, fs),
    ensures
        fields_stored(s2, id, fs),
{
    lemma_grows_keeps(s, s2);
    assert forall|k: int| 0 <= k < fs.len() && first_key(fs, k) implies field_points(s2, id, (#[trigger] fs[k]).0, fs[k].1, md5_of_text(fs[k].2@)) by {
        assert(field_points(s, id, fs[k].0, fs[k].1, md5_of_text(fs[k].2@)));
    }
    assert forall|k: int| 0 <= k < fs.len() implies has_field(s2, id, (#[trigger] fs[k]).0, fs[k].1) && has_text(s2, md5_of_text(fs[k].2@)) by {
        assert(has_field(s, id, fs[k].0, fs[k].1));
        assert(has_text(s, md5_of_text(fs[k].2@)));
    }
}

/// One entry's ingestion keeps everything added traceable to the crawl.
proof fn lemma_added_step(start: StoreView, s0: StoreView, s1: StoreView, crawled: Seq<CrawlResult>, b: int, j: int, new_id: Option<u32>)
    requires
        added_from_crawl(start, s0, crawled),
        grows(start, s0),
        grows(s0, s1),
        is_crawled(crawled, b, j),
        s1.embeddings == s0.embeddings,
        new_id is None ==> s1 == s0,
        new_id matches Some(id) ==> {
            &&& id == s0.entries.len() + 1
            &&& s1.entries == s0.entries.push(entry_row(crawled_at(crawled, b, j).0))
            &&& fields_stored(s1, id, crawled_at(crawled, b, j).1@)
            &&& added_from(s0, s1, id, crawled_at(crawled, b, j).1@)
        },
    ensures
        added_from_crawl(start, s1, crawled),
{
    if let Some(id) = new_id {
        let fs = crawled_at(crawled, b, j).1@;
        assert forall|i: int| start.entries.len() <= i < s1.entries.len() implies #[trigger] entry_from_crawl(s1, crawled, i) by {
            if i < s0.entries.len() {
                assert(entry_from_crawl(s0, crawled, i));
                let (b2, j2) = choose|b2: int, j2: int|
                    is_crawled(crawled, b2, j2) && s0.entries[i] == entry_row((#[trigger] crawled_at(crawled, b2, j2)).0)
                        && fields_stored(s0, (i + 1) as u32, crawled_at(crawled, b2, j2).1@);
                lemma_fields_stored_grows(s0, s1, (i + 1) as u32, crawled_at(crawled, b2, j2).1@);
                assert(s1.entries[i] == s0.entries[i]);
            } else {
                assert(s1.entries[i] == entry_row(crawled_at(crawled, b, j).0));
                assert((i + 1) as u32 == id);
            }
        }
        assert forall|i: int| start.fields.len() <= i < s1.fields.len() implies field_from_crawl(s1, crawled, #[trigger] s1.fields[i]) by {
            if i < s0.fields.len() {
                assert(s1.fields[i] == s0.fields[i]);
                assert(field_from_crawl(s0, crawled, s0.fields[i]));
                let row = s0.fields[i];
                let (b2, j2) = choose|b2: int, j2: int|
                    is_crawled(crawled, b2, j2) && 1 <= row.0 <= s0.entries.len() && s0.entries[row.0 - 1] == entry_row(
                        (#[trigger] crawled_at(crawled, b2, j2)).0,
                    ) && field_of(crawled_at(crawled, b2, j2).1@, crawled_at(crawled, b2, j2).1@.len() as int, row.0, row);
                assert(s1.entries[row.0 - 1] == s0.entries[row.0 - 1]);
            } else {
                let row = s1.fields[i];
                assert(field_of(fs, fs.len() as int, id, row));
                let k = choose|k: int| 0 <= k < fs.len() && row == (id, (#[trigger] fs[k]).0, fs[k].1, md5_of_text(fs[k].2@));
                assert(row.0 == id);
                assert(s1.entries[id - 1] == entry_row(crawled_at(crawled, b, j).0));
            }
        }
        assert forall|i: int| start.texts.len() <= i < s1.texts.len() implies text_from_crawl(crawled, #[trigger] s1.texts[i]) by {
            if i < s0.texts.len() {
                assert(s1.texts[i] == s0.texts[i]);
            } else {
                assert(text_of(fs, fs.len() as int, s1.texts[i]));
                assert(crawled_at(crawled, b, j).1@ == fs);
            }
        }
    }
}

/// A table of the store cannot take more rows.
pub struct StoreFull;

/// Whether the store has room for one more entry with `n` fields.
pub open spec fn has_room(s: crate::db::StoreView, n: nat) -> bool {
    &&& s.entries.len() + 1 < u32::MAX
    &&& s.fields.len() + n < u32::MAX
    &&& s.texts.len() + n < u32::MAX
}

/// Whether every entry of every feed that was crawled successfully is stored.
pub open spec fn all_ingested(s: crate::db::StoreView, crawled: Seq<CrawlResult>) -> bool {
    forall|b: int, j: int|
        0 <= b < crawled.len() && (#[trigger] crawled[b]) is Ok && 0 <= j < crawled[b]->Ok_0@.len() ==> has_entry(
            s,
            (#[trigger] crawled[b]->Ok_0@[j]).0.href@,
        )
}

impl Client {
    /// Stores a crawled entry. An entry whose link is stored already was
    /// processed before: nothing changes and `None` comes back. Otherwise the
    /// entry is stored, and for each attribute its field and its text value,
    /// each unless already present; the new entry's id comes back.
    #[verifier::rlimit(100)]
    #[verifier::spinoff_prover]
    pub fn ingest_entry(&mut self, entry: &Entry, fields: &Vec<FieldText>, now: i64) -> (r: Option<Id<Entry>>)
        requires
            old(self).wf(),
            old(self)@.entries.len() + 1 < u32::MAX,
            old(self)@.fields.len() + fields@.len() < u32::MAX,
            old(self)@.texts.len() + fields@.len() < u32::MAX,
        ensures
            final(self).wf(),
            grows(old(self)@, final(self)@),
            r is None <==> has_entry(old(self)@, entry.href@),
            r is None ==> final(self)@ == old(self)@,
            final(self)@.entries.len() <= old(self)@.entries.len() + 1,
            final(self)@.fields.len() <= old(self)@.fields.len() + fields@.len(),
            final(self)@.texts.len() <= old(self)@.texts.len() + fields@.len(),
            final(self)@.embeddings == old(self)@.embeddings,
            r matches Some(id) ==> {
                &&& id.spec_value() == old(self)@.entries.len() + 1
                &&& final(self)@.entries == old(self)@.entries.push(entry_row(*entry))
                &&& fields_stored(final(self)@, id.spec_value(), fields@)
                &&& added_from(old(self)@, final(self)@, id.spec_value(), fields@)
                &&& forall|k: int|
                    0 <= k < fields@.len() && first_print(fields@, k) && !has_text(old(self)@, md5_of_text((#[trigger] fields@[k]).2@))
                        ==> final(self)@.texts.contains((md5_of_text(fields@[k].2@), fields@[k].2@))
            },
    {
        let ghost start = self@;
        let (id, was_new) = self.insert_entry(entry.clone(), now);
        if !was_new {
            return None;
        }
        let ghost after_entry = self@;
        let mut k: usize = 0;
        while k < fields.len()
            invariant
                self.wf(),
                k <= fields@.len(),
                grows(start, self@),
                self@.entries == after_entry.entries,
                self@.entries == start.entries.push(entry_row(*entry)),
                self@.embeddings == start.embeddings,
                id.spec_value() == start.entries.len() + 1,
                self@.fields.len() <= start.fields.len() + k,
                self@.texts.len() <= start.texts.len() + k,
                start.fields.len() + fields@.len() < u32::MAX,
                start.texts.len() + fields@.len() < u32::MAX,
                store_wf(start),
                forall|j: int|
                    0 <= j < k ==> has_field(self@, id.spec_value(), (#[trigger] fields@[j]).0, fields@[j].1)
                        && has_text(self@, md5_of_text(fields@[j].2@)),
                forall|j: int|
                    0 <= j < k && first_key(fields@, j) ==> field_points(self@, id.spec_value(), (#[trigger] fields@[j]).0, fields@[j].1, md5_of_text(fields@[j].2@)),
                forall|j: int|
                    0 <= j < k && first_print(fields@, j) && !has_text(start, md5_of_text((#[trigger] fields@[j]).2@))
                        ==> self@.texts.contains((md5_of_text(fields@[j].2@), fields@[j].2@)),
                forall|i: int| start.fields.len() <= i < self@.fields.len() ==> field_of(fields@, k as int, id.spec_value(), #[trigger] self@.fields[i]),
                forall|i: int| start.texts.len() <= i < self@.texts.len() ==> text_of(fields@, k as int, #[trigger] self@.texts[i]),
            decreases fields@.len() - k,
        {
            let (name, lang, text) = &fields[k];
            let h = compute(text.as_str());
            let ghost s0 = self@;
            let ghost fk = fields@[k as int];
            let ghost kk = k as int;
            proof {
                assert forall|i: int| start.fields.len() <= i < s0.fields.len() implies field_of(fields@, kk, id.spec_value(), #[trigger] s0.fields[i]) by {}
                if first_key(fields@, kk) {
                    lemma_key_absent(start, s0, id.spec_value(), fields@, kk);
                }
                if first_print(fields@, kk) && !has_text(start, md5_of_text(fk.2@)) {
                    lemma_print_absent(start, s0, fields@, kk);
                }
            }
            self.insert_field(Field { entry_id: id, name: *name, lang_code: *lang, md5_hash: h }, now);
            let ghost s1 = self@;
            self.insert_translation(Translation { md5_hash: h, value: text.clone() }, now);
            proof {
                lemma_grows_keeps(s0, s1);
                lemma_grows_keeps(s1, self@);
                let s2 = self@;
                assert(grows(s0, s2));
                assert(grows(start, s2));
                assert(has_field(s2, id.spec_value(), fk.0, fk.1));
                assert(has_text(s2, md5_of_text(fk.2@)));
                let frow: FieldRow = (id.spec_value(), fk.0, fk.1, md5_of_text(fk.2@));
                let trow: TextRow = (md5_of_text(fk.2@), fk.2@);
                if first_key(fields@, kk) {
                    assert(s1.fields[s0.fields.len() as int] == frow);
                    assert(s2.fields[s0.fields.len() as int] == frow);
                }
                if first_print(fields@, kk) && !has_text(start, md5_of_text(fk.2@)) {
                    assert(s2.texts[s1.texts.len() as int] == trow);
                }
                assert forall|i: int| start.fields.len() <= i < s2.fields.len() implies field_of(fields@, kk + 1, id.spec_value(), #[trigger] s2.fields[i]) by {
                    if i < s0.fields.len() {
                        assert(s2.fields[i] == s0.fields[i]);
                        assert(field_of(fields@, kk, id.spec_value(), s0.fields[i]));
                        let j = choose|j: int| 0 <= j < kk && s0.fields[i] == (id.spec_value(), (#[trigger] fields@[j]).0, fields@[j].1, md5_of_text(fields@[j].2@));
                    } else {
                        assert(s2.fields[i] == frow);
                        assert(fields@[kk] == fk);
                    }
                }
                assert forall|i: int| start.texts.len() <= i < s2.texts.len() implies text_of(fields@, kk + 1, #[trigger] s2.texts[i]) by {
                    if i < s0.texts.len() {
                        assert(s2.texts[i] == s0.texts[i]);
                        assert(text_of(fields@, kk, s0.texts[i]));
                        let j = choose|j: int| 0 <= j < kk && s0.texts[i] == (md5_of_text((#[trigger] fields@[j]).2@), fields@[j].2@);
                    } else {
                        assert(s2.texts[i] == trow);
                        assert(fields@[kk] == fk);
                    }
                }
            }
            k = k + 1;
        }
        proof {
            lemma_grows_keeps(start, self@);
        }
        Some(id)
    }
}

impl Client {
    /// Stores the entries of every feed that was crawled successfully; a feed
    /// that failed is skipped and does not keep the others out. Fails only
    /// when a table is full, having stored what came before.
    pub fn ingest(&mut self, crawled: &Vec<CrawlResult>, now: i64) -> (r: Result<(), StoreFull>)
        requires
            old(self).wf(),
        ensures
            final(self).wf(),
            grows(old(self)@, final(self)@),
            r is Ok ==> all_ingested(final(self)@, crawled@),
            added_from_crawl(old(self)@, final(self)@, crawled@),
            r is Err ==> exists|b: int, j: int|
                0 <= b < crawled@.len() && (#[trigger] crawled@[b]) is Ok && 0 <= j < crawled@[b]->Ok_0@.len()
                    && !has_room(final(self)@, (#[trigger] crawled@[b]->Ok_0@[j]).1@.len()),
    {
        let ghost start = self@;
        let mut b: usize = 0;
        while b < crawled.len()
            invariant
                self.wf(),
                b <= crawled@.len(),
                grows(start, self@),
                start == old(self)@,
                store_wf(start),
                added_from_crawl(start, self@, crawled@),
                all_ingested(self@, crawled@.subrange(0, b as int)),
            decreases crawled@.len() - b,
        {
            let ghost batch_start = self@;
            if let Ok(entries) = &crawled[b] {
                let mut j: usize = 0;
                while j < entries.len()
                    invariant
                        self.wf(),
                        j <= entries@.len(),
                        b < crawled@.len(),
                        crawled@[b as int] is Ok,
                        entries@ == crawled@[b as int]->Ok_0@,
                        grows(start, self@),
                        start == old(self)@,
                        grows(batch_start, self@),
                        added_from_crawl(start, self@, crawled@),
                        forall|q: int| 0 <= q < j ==> has_entry(self@, (#[trigger] entries@[q]).0.href@),
                    decreases entries@.len() - j,
                {
                    let (entry, fields) = &entries[j];
                    let limit = u32::MAX as usize;
                    if self.entry_count() >= limit - 1 || self.field_count() >= limit
                        || fields.len() >= limit - self.field_count() || self.text_count() >= limit
                        || fields.len() >= limit - self.text_count() {
                        assert(grows(start, self@));
                        assert(!has_room(self@, crawled@[b as int]->Ok_0@[j as int].1@.len()));
                        return Err(StoreFull);
                    }
                    let ghost s0 = self@;
                    let r = self.ingest_entry(entry, fields, now);
                    proof {
                        assert(crawled_at(crawled@, b as int, j as int) == entries@[j as int]);
                        let new_id = match r {
                            Some(id) => Some(id.spec_value()),
                            None => None::<u32>,
                        };
                        lemma_added_step(start, s0, self@, crawled@, b as int, j as int, new_id);
                        lemma_grows_keeps(s0, self@);
                        if r is Some {
                            assert(self@.entries[s0.entries.len() as int] == entry_row(*entry));
                        }
                        assert(has_entry(self@, entries@[j as int].0.href@));
                    }
                    j = j + 1;
                }
            }
            proof {
                lemma_grows_keeps(batch_start, self@);
                assert forall|c: int, q: int|
                    0 <= c < b + 1 && (#[trigger] crawled@.subrange(0, b + 1)[c]) is Ok && 0 <= q
                        < crawled@.subrange(0, b + 1)[c]->Ok_0@.len() implies has_entry(
                    self@,
                    (#[trigger] crawled@.subrange(0, b + 1)[c]->Ok_0@[q]).0.href@,
                ) by {
                    if c < b {
                        assert(crawled@.subrange(0, b as int)[c] == crawled@.subrange(0, b + 1)[c]);
                        assert(has_entry(batch_start, crawled@.subrange(0, b as int)[c]->Ok_0@[q].0.href@));
                    }
                }
            }
            b = b + 1;
        }
        assert(crawled@.subrange(0, b as int) =~= crawled@);
        Ok(())
    }
}

} // verus!
