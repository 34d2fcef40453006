use crate::clustering::Embedding;
use crate::feeds::{Field, FieldName, LanguageCode, Translation};
use crate::id::Id;
use crate::md5_hash::{compute, md5_of_text, Md5Hash};
use crate::db::{field_points, field_row, grows, has_field, has_text, lemma_grows_keeps, store_wf, text_row, Client, StoreView};
use vstd::prelude::*;

verus! {

/// Whether field row `f` is the counterpart in `target`, pointing at `h`,
/// of one of the fields `fs`.
pub open spec fn counterpart_of(fs: Seq<Field>, target: LanguageCode, h: Seq<u8>, f: crate::db::FieldRow) -> bool {
    exists|k: int| 0 <= k < fs.len() && f == ((#[trigger] fs[k]).entry_id.spec_value(), fs[k].name, target, h)
}

/// What storing the translation `t`, with fingerprint `h`, of the fields
/// `fs` into language `target` gives: the text value `(h, t)` is added
/// unless `h` is stored, each field that had no counterpart in `target` now
/// has one pointing at `h`, and nothing else is added.
pub open spec fn translation_recorded(
    s: StoreView,
    fs: Seq<Field>,
    target: LanguageCode,
    h: Seq<u8>,
    t: Seq<char>,
    s2: StoreView,
) -> bool {
    &&& grows(s, s2)
    &&& has_text(s2, h)
    &&& !has_text(s, h) ==> s2.texts == s.texts.push((h, t))
    &&& has_text(s, h) ==> s2.texts == s.texts
    &&& s2.entries == s.entries
    &&& s2.embeddings == s.embeddings
    &&& forall|i: int| s.fields.len() <= i < s2.fields.len() ==> counterpart_of(fs, target, h, #[trigger] s2.fields[i])
    &&& forall|k: int| 0 <= k < fs.len() ==> has_field(s2, (#[trigger] fs[k]).entry_id.spec_value(), fs[k].name, target)
    &&& forall|k: int|
        0 <= k < fs.len() && !has_field(s, (#[trigger] fs[k]).entry_id.spec_value(), fs[k].name, target)
            ==> field_points(s2, fs[k].entry_id.spec_value(), fs[k].name, target, h)
}

/// A source text to translate once, and the fields that share it.
pub type TranslationJob = (Translation, Vec<Field>);

/// The store contradicts itself: a row that must exist does not.
pub enum ConsistencyError {
    MissingEmbedding(Id<Embedding>),
    MissingText(Md5Hash),
}

/// The fields of a list of jobs, as rows.
pub open spec fn job_fields(jobs: Seq<TranslationJob>, j: int) -> Seq<Field> {
    jobs[j].1@
}

/// Whether entry `e` has a field in language `l` pointing at `h`.
pub open spec fn shares_text(s: StoreView, e: u32, l: LanguageCode, h: Seq<u8>) -> bool {
    exists|i: int| 0 <= i < s.fields.len() && (#[trigger] s.fields[i]).0 == e && s.fields[i].2 == l && s.fields[i].3 == h
}

/// Whether some job holds the field of entry `e` in language `l`.
pub open spec fn covered(jobs: Seq<TranslationJob>, e: u32, l: LanguageCode) -> bool {
    exists|j: int, q: int|
        0 <= j < jobs.len() && 0 <= q < job_fields(jobs, j).len() && (#[trigger] job_fields(jobs, j)[q]).entry_id.spec_value() == e
            && job_fields(jobs, j)[q].lang_code == l
}

/// Whether the entry of field row `g` has a field `name` in `g`'s language
/// and none in `target`: the row's entry needs a translation.
pub open spec fn needs_translation(s: StoreView, e: u32, l: LanguageCode, name: FieldName, target: LanguageCode) -> bool {
    has_field(s, e, name, l) && !has_field(s, e, name, target)
}

proof fn lemma_covered_grows(before: Seq<TranslationJob>, after: Seq<TranslationJob>, e: u32, l: LanguageCode)
    requires
        covered(before, e, l),
        before.len() <= after.len(),
        forall|j: int| 0 <= j < before.len() ==> job_fields(before, j).len() <= #[trigger] job_fields(after, j).len(),
        forall|j: int, q: int|
            0 <= j < before.len() && 0 <= q < job_fields(before, j).len() ==> #[trigger] job_fields(after, j)[q] == job_fields(before, j)[q],
    ensures
        covered(after, e, l),
{
    let (j, q) = choose|j: int, q: int|
        0 <= j < before.len() && 0 <= q < job_fields(before, j).len() && (#[trigger] job_fields(before, j)[q]).entry_id.spec_value() == e
            && job_fields(before, j)[q].lang_code == l;
    assert(job_fields(after, j)[q] == job_fields(before, j)[q]);
}

impl Client {
    /// The source index of `h` among the jobs, if any.
    fn job_position(jobs: &Vec<TranslationJob>, h: &Md5Hash) -> (r: Option<usize>)
        ensures
            r matches Some(j) ==> j < jobs@.len() && jobs@[j as int].0.md5_hash@ == h@,
            r is None ==> forall|j: int| 0 <= j < jobs@.len() ==> (#[trigger] jobs@[j]).0.md5_hash@ != h@,
    {
        let mut j: usize = 0;
        while j < jobs.len()
            invariant
                j <= jobs@.len(),
                forall|q: int| 0 <= q < j ==> (#[trigger] jobs@[q]).0.md5_hash@ != h@,
            decreases jobs@.len() - j,
        {
            if jobs[j].0.md5_hash.same(h) {
                return Some(j);
            }
            j = j + 1;
        }
        None
    }

    /// The translations that the representative of a cluster needs: every
    /// entry that shares the embedding's text gets its field `name` in
    /// `target` unless it has one. The fields to translate are grouped by
    /// their source text, so that each distinct text is translated once.
    pub fn plan_translations(&self, embedding_id: Id<Embedding>, name: FieldName, target: LanguageCode) -> (r: Result<
        Vec<TranslationJob>,
        ConsistencyError,
    >)
        requires
            self.wf(),
        ensures
            r matches Err(ConsistencyError::MissingEmbedding(_)) <==> !(1 <= embedding_id.spec_value() <= self@.embeddings.len()),
            r matches Err(ConsistencyError::MissingText(h)) ==> !has_text(self@, h@)
                && exists|i: int| 0 <= i < self@.fields.len() && (#[trigger] self@.fields[i]).3 == h@,
            r matches Ok(jobs) ==> {
                &&& forall|j: int| 0 <= j < jobs@.len() ==> (#[trigger] job_fields(jobs@, j)).len() > 0
                &&& forall|j: int, q: int|
                    0 <= j < jobs@.len() && 0 <= q < job_fields(jobs@, j).len() ==> shares_text(
                        self@,
                        (#[trigger] job_fields(jobs@, j)[q]).entry_id.spec_value(),
                        job_fields(jobs@, j)[q].lang_code,
                        self@.embeddings[embedding_id.spec_value() - 1].0,
                    )
                &&& (forall|i: int|
                    0 <= i < self@.fields.len() && (#[trigger] self@.fields[i]).3 == self@.embeddings[embedding_id.spec_value() - 1].0
                        ==> has_field(self@, self@.fields[i].0, name, target)) ==> jobs@.len() == 0
                &&& forall|j: int| 0 <= j < jobs@.len() ==> self@.texts.contains(text_row(#[trigger] jobs@[j].0))
                &&& forall|j1: int, j2: int|
                    0 <= j1 < j2 < jobs@.len() ==> (#[trigger] jobs@[j1]).0.md5_hash@ != (#[trigger] jobs@[j2]).0.md5_hash@
                &&& forall|j: int, q: int|
                    0 <= j < jobs@.len() && 0 <= q < job_fields(jobs@, j).len() ==> {
                        let f = #[trigger] job_fields(jobs@, j)[q];
                        &&& self@.fields.contains(field_row(f))
                        &&& f.name == name
                        &&& f.md5_hash@ == jobs@[j].0.md5_hash@
                        &&& !has_field(self@, f.entry_id.spec_value(), name, target)
                    }
                &&& forall|i: int|
                    0 <= i < self@.fields.len() && (#[trigger] self@.fields[i]).3 == self@.embeddings[embedding_id.spec_value() - 1].0
                        && needs_translation(self@, self@.fields[i].0, self@.fields[i].2, name, target)
                        ==> covered(jobs@, self@.fields[i].0, self@.fields[i].2)
            },
    {
        let emb = match self.find_embedding_by_id(embedding_id) {
            Some(e) => e,
            None => {
                return Err(ConsistencyError::MissingEmbedding(embedding_id));
            },
        };
        let ghost emb_h = self@.embeddings[embedding_id.spec_value() - 1].0;
        let shared = self.list_fields_by_md5_hash(&emb.value.md5_hash);
        let mut jobs: Vec<TranslationJob> = Vec::new();
        let mut k: usize = 0;
        while k < shared.len()
            invariant
                self.wf(),
                k <= shared@.len(),
                1 <= embedding_id.spec_value() <= self@.embeddings.len(),
                emb_h == self@.embeddings[embedding_id.spec_value() - 1].0,
                emb.value.md5_hash@ == emb_h,
                forall|q: int|
                    0 <= q < shared@.len() ==> (#[trigger] shared@[q]).value.md5_hash@ == emb_h && 1 <= shared@[q].id.spec_value()
                        <= self@.fields.len() && self@.fields[shared@[q].id.spec_value() - 1] == field_row(shared@[q].value),
                forall|j: int| 0 <= j < jobs@.len() ==> (#[trigger] job_fields(jobs@, j)).len() > 0,
                forall|j: int, q: int|
                    0 <= j < jobs@.len() && 0 <= q < job_fields(jobs@, j).len() ==> shares_text(
                        self@,
                        (#[trigger] job_fields(jobs@, j)[q]).entry_id.spec_value(),
                        job_fields(jobs@, j)[q].lang_code,
                        emb_h,
                    ),
                forall|p: int|
                    0 <= p < k && needs_translation(
                        self@,
                        (#[trigger] shared@[p]).value.entry_id.spec_value(),
                        shared@[p].value.lang_code,
                        name,
                        target,
                    ) ==> covered(jobs@, shared@[p].value.entry_id.spec_value(), shared@[p].value.lang_code),
                forall|j: int| 0 <= j < jobs@.len() ==> self@.texts.contains(text_row(#[trigger] jobs@[j].0)),
                forall|j1: int, j2: int|
                    0 <= j1 < j2 < jobs@.len() ==> (#[trigger] jobs@[j1]).0.md5_hash@ != (#[trigger] jobs@[j2]).0.md5_hash@,
                forall|j: int, q: int|
                    0 <= j < jobs@.len() && 0 <= q < job_fields(jobs@, j).len() ==> {
                        let f = #[trigger] job_fields(jobs@, j)[q];
                        &&& self@.fields.contains(field_row(f))
                        &&& f.name == name
                        &&& f.md5_hash@ == jobs@[j].0.md5_hash@
                        &&& !has_field(self@, f.entry_id.spec_value(), name, target)
                    },
            decreases shared@.len() - k,
        {
            let g = shared[k].value;
            let ghost jobs_before = jobs@;
            let in_source = self.find_field_by_entry_id_name_lang_code(g.entry_id, name, g.lang_code);
            let translated = self.find_field_by_entry_id_name_lang_code(g.entry_id, name, target);
            if let (Some(o), None) = (in_source, translated) {
                proof {
                    assert(self@.fields[o.id.spec_value() - 1] == field_row(o.value));
                }
                let ghost o_index = o.id.spec_value() - 1;
                let o = o.value;
                proof {
                    let gi = shared@[k as int].id.spec_value() - 1;
                    assert(g == shared@[k as int].value);
                    assert(self@.fields[gi] == field_row(g));
                    assert(shares_text(self@, o.entry_id.spec_value(), o.lang_code, emb_h));
                }
                match Self::job_position(&jobs, &o.md5_hash) {
                    Some(j) => {
                        let mut fs = jobs[j].1.clone();
                        assert(fs@ =~= jobs@[j as int].1@);
                        fs.push(o);
                        let job = (jobs[j].0.clone(), fs);
                        let ghost before = jobs@;
                        jobs.set(j, job);
                        assert(job_fields(jobs@, j as int)[job_fields(jobs@, j as int).len() - 1] == o);
                        assert forall|j2: int, q: int|
                            0 <= j2 < jobs@.len() && 0 <= q < job_fields(jobs@, j2).len() implies {
                                let f = #[trigger] job_fields(jobs@, j2)[q];
                                &&& self@.fields.contains(field_row(f))
                                &&& f.name == name
                                &&& f.md5_hash@ == jobs@[j2].0.md5_hash@
                                &&& !has_field(self@, f.entry_id.spec_value(), name, target)
                            } by {
                            if j2 != j || q < before[j2].1@.len() {
                                assert(job_fields(jobs@, j2)[q] == job_fields(before, j2)[q]);
                            }
                        }
                        assert forall|j2: int, q: int|
                            0 <= j2 < jobs@.len() && 0 <= q < job_fields(jobs@, j2).len() implies shares_text(
                                self@,
                                (#[trigger] job_fields(jobs@, j2)[q]).entry_id.spec_value(),
                                job_fields(jobs@, j2)[q].lang_code,
                                emb_h,
                            ) by {
                            if j2 != j || q < before[j2].1@.len() {
                                assert(job_fields(jobs@, j2)[q] == job_fields(before, j2)[q]);
                            }
                        }
                        assert forall|j2: int| 0 <= j2 < jobs@.len() implies (#[trigger] job_fields(jobs@, j2)).len() > 0 by {
                            if j2 != j {
                                assert(job_fields(jobs@, j2) == job_fields(before, j2));
                            }
                        }
                    },
                    None => {
                        let text = match self.find_translation_by_md5_hash(&o.md5_hash) {
                            Some(t) => t.value.clone(),
                            None => {
                                proof {
                                    assert(self@.fields[o_index].3 == o.md5_hash@);
                                }
                                return Err(ConsistencyError::MissingText(o.md5_hash));
                            },
                        };
                        let mut fs: Vec<Field> = Vec::new();
                        fs.push(o);
                        let ghost before = jobs@;
                        jobs.push((text, fs));
                        assert(job_fields(jobs@, jobs@.len() - 1)[0] == o);
                        assert forall|j2: int, q: int|
                            0 <= j2 < jobs@.len() && 0 <= q < job_fields(jobs@, j2).len() implies shares_text(
                                self@,
                                (#[trigger] job_fields(jobs@, j2)[q]).entry_id.spec_value(),
                                job_fields(jobs@, j2)[q].lang_code,
                                emb_h,
                            ) by {
                            if j2 < before.len() {
                                assert(job_fields(jobs@, j2) == job_fields(before, j2));
                            }
                        }
                        assert forall|j2: int| 0 <= j2 < jobs@.len() implies (#[trigger] job_fields(jobs@, j2)).len() > 0 by {
                            if j2 < before.len() {
                                assert(job_fields(jobs@, j2) == job_fields(before, j2));
                            }
                        }
                    },
                }
            }
            proof {
                assert forall|p: int|
                    0 <= p < k + 1 && needs_translation(
                        self@,
                        (#[trigger] shared@[p]).value.entry_id.spec_value(),
                        shared@[p].value.lang_code,
                        name,
                        target,
                    ) implies covered(jobs@, shared@[p].value.entry_id.spec_value(), shared@[p].value.lang_code) by {
                    if p < k {
                        lemma_covered_grows(jobs_before, jobs@, shared@[p].value.entry_id.spec_value(), shared@[p].value.lang_code);
                    }
                }
            }
            k = k + 1;
        }
        proof {
            assert forall|i: int|
                0 <= i < self@.fields.len() && (#[trigger] self@.fields[i]).3 == self@.embeddings[embedding_id.spec_value() - 1].0
                    && needs_translation(self@, self@.fields[i].0, self@.fields[i].2, name, target)
                    implies covered(jobs@, self@.fields[i].0, self@.fields[i].2) by {
                let p = choose|p: int| 0 <= p < shared@.len() && shared@[p].id.spec_value() == i + 1;
                assert(self@.fields[shared@[p].id.spec_value() - 1] == field_row(shared@[p].value));
            }
        }
        proof {
            if jobs@.len() > 0 && (forall|i: int|
                0 <= i < self@.fields.len() && (#[trigger] self@.fields[i]).3 == emb_h
                    ==> has_field(self@, self@.fields[i].0, name, target)) {
                let f = job_fields(jobs@, 0)[0];
                assert(shares_text(self@, f.entry_id.spec_value(), f.lang_code, emb_h));
                let i = choose|i: int| 0 <= i < self@.fields.len() && (#[trigger] self@.fields[i]).0 == f.entry_id.spec_value()
                    && self@.fields[i].2 == f.lang_code && self@.fields[i].3 == emb_h;
                assert(has_field(self@, self@.fields[i].0, name, target));
            }
        }
        Ok(jobs)
    }

    /// Stores the translation `translated` (into `target`) of the text that
    /// the fields `fs` share: one text value, and for each field its
    /// counterpart in `target` unless it has one.
    pub fn record_translation(&mut self, fs: &Vec<Field>, translated: &str, target: LanguageCode, now: i64) -> (r: Id<Translation>)
        requires
            old(self).wf(),
            old(self)@.texts.len() + 1 < u32::MAX,
            old(self)@.fields.len() + fs@.len() < u32::MAX,
            forall|k: int| 0 <= k < fs@.len() ==> 1 <= (#[trigger] fs@[k]).entry_id.spec_value() <= old(self)@.entries.len(),
        ensures
            final(self).wf(),
            translation_recorded(old(self)@, fs@, target, md5_of_text(translated@), translated@, final(self)@),
            final(self)@.texts[r.spec_value() - 1].0 == md5_of_text(translated@),
            1 <= r.spec_value() <= final(self)@.texts.len(),
    {
        let ghost start = self@;
        let h = compute(translated);
        let (id, _) = self.insert_translation(Translation { md5_hash: h, value: translated.to_owned() }, now);
        let ghost after_text = self@;
        assert(!has_text(start, h@) ==> after_text.texts == start.texts.push((h@, translated@)));
        assert(has_text(start, h@) ==> after_text.texts == start.texts);
        let mut k: usize = 0;
        while k < fs.len()
            invariant
                self.wf(),
                k <= fs@.len(),
                start == old(self)@,
                grows(start, self@),
                grows(after_text, self@),
                self@.texts == after_text.texts,
                self@.entries == start.entries,
                self@.embeddings == start.embeddings,
                !has_text(start, h@) ==> after_text.texts == start.texts.push((h@, translated@)),
                has_text(start, h@) ==> after_text.texts == start.texts,
                forall|q: int| 0 <= q < fs@.len() ==> 1 <= (#[trigger] fs@[q]).entry_id.spec_value() <= start.entries.len(),
                after_text.fields == start.fields,
                has_text(after_text, h@),
                1 <= id.spec_value() <= after_text.texts.len(),
                after_text.texts[id.spec_value() - 1].0 == h@,
                h@ == md5_of_text(translated@),
                self@.fields.len() <= start.fields.len() + k,
                start.fields.len() + fs@.len() < u32::MAX,
                forall|i: int| start.fields.len() <= i < self@.fields.len() ==> (#[trigger] self@.fields[i]).2 == target && self@.fields[i].3 == h@,
                forall|i: int|
                    start.fields.len() <= i < self@.fields.len() ==> counterpart_of(fs@.subrange(0, k as int), target, h@, #[trigger] self@.fields[i]),
                forall|j: int| 0 <= j < k ==> has_field(self@, (#[trigger] fs@[j]).entry_id.spec_value(), fs@[j].name, target),
                forall|j: int|
                    0 <= j < k && !has_field(start, (#[trigger] fs@[j]).entry_id.spec_value(), fs@[j].name, target)
                        ==> field_points(self@, fs@[j].entry_id.spec_value(), fs@[j].name, target, h@),
            decreases fs@.len() - k,
        {
            let f = fs[k];
            let ghost s0 = self@;
            assert(fs@[k as int] == f);
            let (fid, _) = self.insert_field(Field { entry_id: f.entry_id, name: f.name, lang_code: target, md5_hash: h }, now);
            proof {
                lemma_grows_keeps(s0, self@);
                let s1 = self@;
                let e = f.entry_id.spec_value();
                assert forall|i: int|
                    start.fields.len() <= i < s1.fields.len() implies counterpart_of(fs@.subrange(0, k + 1), target, h@, #[trigger] s1.fields[i]) by {
                    let sub = fs@.subrange(0, k + 1);
                    if i < s0.fields.len() {
                        assert(s1.fields[i] == s0.fields[i]);
                        let j = choose|j: int| 0 <= j < k && s0.fields[i] == ((#[trigger] fs@.subrange(0, k as int)[j]).entry_id.spec_value(), fs@.subrange(0, k as int)[j].name, target, h@);
                        assert(sub[j] == fs@.subrange(0, k as int)[j]);
                    } else {
                        assert(sub[k as int] == fs@[k as int]);
                        assert(s1.fields[i] == (sub[k as int].entry_id.spec_value(), sub[k as int].name, target, h@));
                    }
                }
                assert forall|j: int|
                    0 <= j < k && !has_field(start, (#[trigger] fs@[j]).entry_id.spec_value(), fs@[j].name, target)
                        implies field_points(s1, fs@[j].entry_id.spec_value(), fs@[j].name, target, h@) by {
                    let i = choose|i: int| 0 <= i < s0.fields.len() && (#[trigger] s0.fields[i]) == (fs@[j].entry_id.spec_value(), fs@[j].name, target, h@);
                    assert(s1.fields[i] == s0.fields[i]);
                }
                if !has_field(start, e, f.name, target) {
                    let i = fid.spec_value() - 1;
                    assert(s1.fields[i].0 == e && s1.fields[i].1 == f.name && s1.fields[i].2 == target);
                    if i < start.fields.len() {
                        assert(start.fields[i] == s1.fields[i]);
                        assert(has_field(start, e, f.name, target));
                    }
                    assert(s1.fields[i].3 == h@);
                    assert(s1.fields[i] == (e, f.name, target, h@));
                }
                assert(has_field(s1, e, f.name, target));
            }
            k = k + 1;
        }
        proof {
            lemma_grows_keeps(after_text, self@);
            assert(grows(start, self@));
            assert(has_text(self@, h@));
            assert(self@.entries == start.entries);
            assert(fs@.subrange(0, k as int) =~= fs@);
            assert(translation_recorded(start, fs@, target, h@, translated@, self@));
        }
        id
    }
}

/// Two fields whose source texts are identical, translated together: one
/// text value holds the translation, and the target-language field of each
/// points at it.
pub proof fn lemma_fan_in_translation(
    s: StoreView,
    fs: Seq<Field>,
    target: LanguageCode,
    h: Seq<u8>,
    t: Seq<char>,
    s2: StoreView,
    a: int,
    b: int,
)
    requires
        store_wf(s2),
        translation_recorded(s, fs, target, h, t, s2),
        0 <= a < fs.len(),
        0 <= b < fs.len(),
        fs[a].md5_hash@ == fs[b].md5_hash@,
        !has_field(s, fs[a].entry_id.spec_value(), fs[a].name, target),
        !has_field(s, fs[b].entry_id.spec_value(), fs[b].name, target),
    ensures
        exists|i: int| 0 <= i < s2.texts.len() && s2.texts[i].0 == h,
        forall|i: int, j: int|
            0 <= i < s2.texts.len() && 0 <= j < s2.texts.len() && s2.texts[i].0 == h && s2.texts[j].0 == h ==> i == j,
        field_points(s2, fs[a].entry_id.spec_value(), fs[a].name, target, h),
        field_points(s2, fs[b].entry_id.spec_value(), fs[b].name, target, h),
{
    assert(fs[a] == fs[a]);
    assert(fs[b] == fs[b]);
    assert forall|i: int, j: int|
        0 <= i < s2.texts.len() && 0 <= j < s2.texts.len() && s2.texts[i].0 == h && s2.texts[j].0 == h implies i == j by {
        if i < j {
            assert(s2.texts[i].0 != s2.texts[j].0);
        } else if j < i {
            assert(s2.texts[j].0 != s2.texts[i].0);
        }
    }
}

} // verus!
