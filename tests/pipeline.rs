use svergie::clustering::{group_labels, Embedding, GridSearch, SCALE, SCORE_FLOOR};
use svergie::feeds::{CrawlError, Entry, Feed, FieldName, FieldText, LanguageCode, Translation};
use svergie::id::Id;
use svergie::ingest::CrawlResult;
use svergie::md5_hash::compute;
use svergie::report::{assemble_groups, new_report};
use svergie::db::Client;
use svergie::url::Url;

fn entry(feed: u32, href: &str, at: i64) -> Entry {
    let feed_id: Id<Feed> = Id::new(feed);
    Entry { feed_id, href: Url::parse(href).ok().unwrap(), published_at: at }
}

fn description(text: &str) -> Vec<FieldText> {
    vec![(FieldName::Description, LanguageCode::SV, text.to_string())]
}

#[test]
fn inserting_a_text_twice_keeps_one_row() {
    let mut store = Client::new();
    let t = Translation { md5_hash: compute("Regn i Stockholm"), value: "Regn i Stockholm".to_string() };
    let (id1, new1) = store.insert_translation(t.clone(), 10);
    let (id2, new2) = store.insert_translation(t, 11);
    assert!(new1);
    assert!(!new2);
    assert!(id1 == id2);
    assert_eq!(store.text_count(), 1);
    let row = store.find_translation_by_md5_hash(&compute("Regn i Stockholm")).unwrap();
    assert_eq!(row.value.value, "Regn i Stockholm");
    assert_eq!(row.created_at, 10);
}

#[test]
fn inserting_an_entry_twice_keeps_one_row() {
    let mut store = Client::new();
    let (a, new_a) = store.insert_entry(entry(1, "https://www.svt.se/a", 100), 1);
    let (b, new_b) = store.insert_entry(entry(2, "https://www.svt.se/a", 200), 2);
    assert!(new_a && !new_b);
    assert!(a == b);
    assert_eq!(store.entry_count(), 1);
    assert_eq!(store.find_entry_by_id(a).unwrap().value.published_at, 100);
    assert!(store.find_entry_by_id(Id::new(2)).is_none());
}

#[test]
fn identical_descriptions_share_one_text_and_one_embedding() {
    let mut store = Client::new();
    let text = "Samma text i två flöden";
    let a = store.ingest_entry(&entry(1, "https://www.svt.se/x", 100), &description(text), 1).unwrap();
    let b = store.ingest_entry(&entry(3, "https://www.svd.se/y", 120), &description(text), 2).unwrap();
    assert!(a != b);
    assert_eq!(store.field_count(), 2);
    assert_eq!(store.text_count(), 1);
    assert_eq!(store.find_translation_by_md5_hash(&compute(text)).unwrap().value.value, text);
    for id in [a, b] {
        let f = store.find_field_by_entry_id_name_lang_code(id, FieldName::Description, LanguageCode::SV).unwrap();
        assert!(f.value.md5_hash.same(&compute(text)));
    }
    let h = compute(text);
    let e = Embedding { md5_hash: h, value: vec![1, 2], size: 2 };
    let (e1, new1) = store.insert_embeddig(e.clone(), 3).ok().unwrap();
    let (e2, new2) = store.insert_embeddig(e, 4).ok().unwrap();
    assert!(new1 && !new2 && e1 == e2);
    assert_eq!(store.embedding_count(), 1);
    assert_eq!(store.list_fields_by_md5_hash(&h).len(), 2);
}

#[test]
fn an_entry_seen_before_is_not_processed_again() {
    let mut store = Client::new();
    assert!(store.ingest_entry(&entry(1, "https://www.svt.se/x", 100), &description("first"), 1).is_some());
    assert!(store.ingest_entry(&entry(1, "https://www.svt.se/x", 100), &description("second"), 2).is_none());
    assert_eq!(store.text_count(), 1);
    assert!(store.find_translation_by_md5_hash(&compute("second")).is_none());
}

#[test]
fn embedding_without_text_is_refused() {
    let mut store = Client::new();
    let e = Embedding { md5_hash: compute("nowhere"), value: vec![1], size: 1 };
    assert!(store.insert_embeddig(e, 1).is_err());
    assert_eq!(store.embedding_count(), 0);
}

#[test]
fn a_failed_feed_does_not_keep_others_out() {
    let mut store = Client::new();
    let crawled: Vec<CrawlResult> = vec![
        Err(CrawlError::Parse("malformed feed".to_string())),
        Ok(vec![(entry(2, "https://www.dn.se/1", 100), description("ett"))]),
        Ok(vec![
            (entry(3, "https://www.svd.se/1", 100), description("två")),
            (entry(3, "https://www.svd.se/2", 100), description("tre")),
        ]),
    ];
    assert!(store.ingest(&crawled, 5).is_ok());
    assert_eq!(store.entry_count(), 3);
    assert_eq!(store.field_count(), 3);
    assert_eq!(store.text_count(), 3);
    assert_eq!(store.find_translation_by_md5_hash(&compute("två")).unwrap().value.value, "två");
    assert_eq!(store.find_entry_by_id(Id::new(3)).unwrap().value.href.as_str(), "https://www.svd.se/2");
}

#[test]
fn shared_source_text_is_translated_once() {
    let mut store = Client::new();
    let text = "Regeringen presenterar budgeten";
    let a = store.ingest_entry(&entry(1, "https://www.svt.se/b1", 100), &description(text), 1).unwrap();
    let b = store.ingest_entry(&entry(4, "https://www.aftonbladet.se/b2", 100), &description(text), 1).unwrap();
    let (emb, _) = store.insert_embeddig(Embedding { md5_hash: compute(text), value: vec![0], size: 1 }, 2).ok().unwrap();
    let jobs = store.plan_translations(emb, FieldName::Description, LanguageCode::EN).ok().unwrap();
    assert_eq!(jobs.len(), 1);
    assert_eq!(jobs[0].0.value, text);
    assert_eq!(jobs[0].1.len(), 2);
    let texts_before = store.text_count();
    store.record_translation(&jobs[0].1, "The government presents the budget", LanguageCode::EN, 3);
    assert_eq!(store.text_count(), texts_before + 1);
    let h = compute("The government presents the budget");
    for id in [a, b] {
        let f = store.find_field_by_entry_id_name_lang_code(id, FieldName::Description, LanguageCode::EN).unwrap();
        assert!(f.value.md5_hash.same(&h));
    }
    let again = store.plan_translations(emb, FieldName::Description, LanguageCode::EN).ok().unwrap();
    assert_eq!(again.len(), 0);
    let ids: Vec<u32> = store.list_fields_by_md5_hash(&compute(text)).iter().map(|f| f.id.value()).collect();
    assert_eq!(ids, vec![1, 2]);
}

#[test]
fn translation_plan_needs_an_existing_embedding() {
    let store = Client::new();
    assert!(store.plan_translations(Id::new(1), FieldName::Title, LanguageCode::EN).is_err());
}

#[test]
fn day_queries_follow_publication_time() {
    let mut store = Client::new();
    store.ingest_entry(&entry(1, "https://www.svt.se/today", 1_000), &description("i dag"), 1);
    store.ingest_entry(&entry(1, "https://www.svt.se/old", 10), &description("i går"), 1);
    let pending = store.list_translations_without_embeddings_by_lang_code_field_name_date(LanguageCode::SV, FieldName::Description, 500, 2_000);
    assert_eq!(pending.len(), 1);
    assert_eq!(pending[0].value, "i dag");
    store.insert_embeddig(Embedding { md5_hash: pending[0].md5_hash, value: vec![7, 8], size: 2 }, 2).ok().unwrap();
    let done = store.list_translations_without_embeddings_by_lang_code_field_name_date(LanguageCode::SV, FieldName::Description, 500, 2_000);
    assert_eq!(done.len(), 0);
    let day = store.list_embeddings_by_field_name_lang_code_date(FieldName::Description, LanguageCode::SV, 500, 2_000);
    assert_eq!(day.len(), 1);
    assert_eq!(day[0].value.value, vec![7, 8]);
    assert_eq!(store.list_embeddings_by_field_name_lang_code_date(FieldName::Title, LanguageCode::SV, 500, 2_000).len(), 0);
}

#[test]
fn labels_group_into_clusters() {
    let labels = vec![Some(1), None, Some(0), Some(1), None, Some(0)];
    assert_eq!(group_labels(&labels), vec![vec![0, 3], vec![2, 5]]);
    assert_eq!(group_labels(&labels), group_labels(&labels));
    assert_eq!(group_labels(&vec![None, None]), Vec::<Vec<usize>>::new());
}

#[test]
fn three_close_points_form_one_cluster() {
    // Points 0, 1, 2 lie within 0.08 of each other; 3 and 4 are more than 2
    // apart from everything.
    let mut search = GridSearch::new(5, 2, 50_000, 1_000_000, 50);
    let mut tried = 0;
    while let Some(t) = search.next_threshold() {
        assert!((50_000..=1_000_000).contains(&t));
        let labels = if t >= 80_000 {
            vec![Some(0), Some(0), Some(0), None, None]
        } else {
            vec![None, None, None, None, None]
        };
        search.record(group_labels(&labels), 870_000);
        tried += 1;
    }
    assert_eq!(tried, 50);
    let outcome = search.finish();
    assert_eq!(outcome.clusters, vec![vec![0, 1, 2]]);
    assert_eq!(outcome.threshold, 88_000);
    assert_eq!(outcome.score, 870_000);
    let ids: Vec<Id<Embedding>> = (1..=5).map(Id::new).collect();
    let groups = assemble_groups(Id::new(9), &ids, &outcome.clusters, &vec![1]);
    assert_eq!(groups.len(), 1);
    let members: Vec<u32> = groups[0].embedding_ids.iter().map(|i| i.value()).collect();
    assert_eq!(members, vec![1, 2, 3]);
    assert_eq!(groups[0].center_embedding_id.value(), 2);
    assert!(members.contains(&groups[0].center_embedding_id.value()));
    assert_eq!(groups[0].report_id.value(), 9);
}

#[test]
fn too_few_points_give_an_empty_report() {
    let search = GridSearch::new(1, 3, 900_000, 1_100_000, 50);
    assert!(search.is_done());
    assert_eq!(search.next_threshold(), None);
    let outcome = search.finish();
    assert!(outcome.clusters.is_empty());
    assert_eq!(outcome.threshold, 900_000);
    assert_eq!(outcome.score, SCORE_FLOOR);
    let report = new_report(&outcome, 1, 3072);
    assert_eq!(report.score, SCORE_FLOOR);
    assert_eq!(report.min_points, 3);
    assert_eq!(report.rows, 1);
    assert_eq!(report.dimentions, 3072);
    let groups = assemble_groups(Id::new(1), &vec![Id::new(1)], &outcome.clusters, &Vec::new());
    assert!(groups.is_empty());
}

#[test]
fn search_stops_when_clusters_start_to_disappear() {
    let mut search = GridSearch::new(6, 2, 0, 1_000_000, 10);
    let two = vec![vec![0, 1], vec![2, 3]];
    let one = vec![vec![0, 1, 2, 3]];
    search.record(two.clone(), 500_000);
    assert!(!search.is_done());
    search.record(one, 900_000);
    assert!(search.is_done());
    let outcome = search.finish();
    assert_eq!(outcome.clusters, two);
    assert_eq!(outcome.threshold, 0);
    assert_eq!(outcome.score, 500_000);
}

#[test]
fn a_single_cluster_of_everything_scores_the_floor() {
    let mut search = GridSearch::new(3, 2, 0, 900, 3);
    assert_eq!(search.next_threshold(), Some(0));
    search.record(vec![vec![0, 1, 2]], SCALE as i64);
    assert_eq!(search.next_threshold(), Some(300));
    search.record(vec![vec![0, 1]], 400_000);
    assert_eq!(search.next_threshold(), Some(600));
    search.record(vec![vec![0, 1]], 300_000);
    assert!(search.is_done());
    let outcome = search.finish();
    assert_eq!(outcome.clusters, vec![vec![0, 1]]);
    assert_eq!(outcome.threshold, 300);
    assert_eq!(outcome.score, 400_000);
}
