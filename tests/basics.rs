use svergie::clustering::Embedding;
use svergie::feeds::{FieldName, LanguageCode};
use svergie::id::Id;
use svergie::md5_hash::{compute, Md5Hash};
use svergie::openai::{is_transient, ErrorResponse, SERVICE_UNAVAILABLE};
use svergie::persisted::Persisted;
use svergie::report::{check_dimensions, embedding_ids, flatten};
use svergie::text::{is_whitespace, remove_empty_lines};
use svergie::url::Url;

#[test]
fn remove_empty_lines_trims_and_drops_blank_lines() {
    let s = "  first line  \n\n\t \n second\r\n   \nthird";
    assert_eq!(remove_empty_lines(s), "first line\nsecond\nthird");
}

#[test]
fn remove_empty_lines_of_blank_text_is_empty() {
    assert_eq!(remove_empty_lines(""), "");
    assert_eq!(remove_empty_lines(" \n \r\n\t"), "");
}

#[test]
fn remove_empty_lines_keeps_inner_spaces() {
    assert_eq!(remove_empty_lines("a  b\u{3000}\n\u{a0}c d"), "a  b\nc d");
}

#[test]
fn whitespace_matches_std() {
    for c in ['\t', '\n', ' ', '\u{85}', '\u{a0}', '\u{2003}', '\u{3000}', 'a', '0', '_', '\u{200b}'] {
        assert_eq!(is_whitespace(c), c.is_whitespace());
    }
}

#[test]
fn field_names_round_trip() {
    for n in [FieldName::Title, FieldName::Description, FieldName::Content] {
        assert_eq!(FieldName::from_str(n.as_str()).ok(), Some(n));
    }
    assert_eq!(FieldName::Description.as_str(), "description");
    match FieldName::from_str("summary") {
        Err(e) => assert_eq!(e.name, "summary"),
        Ok(_) => panic!("unexpected field name"),
    }
}

#[test]
fn language_codes_round_trip() {
    assert_eq!(LanguageCode::from_str("en").ok(), Some(LanguageCode::EN));
    assert_eq!(LanguageCode::from_str("sv").ok(), Some(LanguageCode::SV));
    assert_eq!(LanguageCode::SV.as_str(), "sv");
    match LanguageCode::from_str("SV") {
        Err(e) => assert_eq!(e.code, "SV"),
        Ok(_) => panic!("unexpected language code"),
    }
}

#[test]
fn md5_of_known_text() {
    let h = compute("hello");
    let expected: Vec<u8> = vec![
        0x5d, 0x41, 0x40, 0x2a, 0xbc, 0x4b, 0x2a, 0x76, 0xb9, 0x71, 0x9d, 0x91, 0x10, 0x17, 0xc5, 0x92,
    ];
    assert_eq!(h.to_vec(), expected);
    assert!(h.same(&compute("hello")));
    assert!(!h.same(&compute("hello ")));
}

#[test]
fn md5_from_stored_bytes() {
    let h = compute("text");
    let back = Md5Hash::from_bytes(&h.to_vec()).ok().unwrap();
    assert!(back.same(&h));
    match Md5Hash::from_bytes(&[1, 2, 3]) {
        Err(e) => assert_eq!(e.len, 3),
        Ok(_) => panic!("short fingerprint accepted"),
    }
}

#[test]
fn url_parse_normalizes() {
    let u = Url::parse("HTTPS://Example.COM").ok().unwrap();
    assert_eq!(u.as_str(), "https://example.com/");
    assert_eq!(u.to_text(), "https://example.com/");
    assert!(Url::parse("not a url").is_err());
    let v = Url::parse("https://example.com/").ok().unwrap();
    assert!(u.same(&v));
}

#[test]
fn ids_compare_by_number() {
    let a: Id<Embedding> = Id::from(7);
    let b: Id<Embedding> = Id::new(7);
    assert!(a == b);
    assert!(a.same(&b));
    assert_eq!(a.value(), 7);
    assert!(a != Id::new(8));
}

fn embedding(text: &str, value: Vec<u32>) -> Persisted<Embedding> {
    let size = value.len() as u32;
    Persisted { id: Id::new(1), created_at: 0, value: Embedding { md5_hash: compute(text), value, size } }
}

#[test]
fn dimensions_must_agree() {
    let es = vec![embedding("a", vec![1, 2, 3]), embedding("b", vec![4, 5, 6])];
    assert_eq!(check_dimensions(&es).ok(), Some(3));
    assert_eq!(flatten(&es), vec![1, 2, 3, 4, 5, 6]);
    let bad = vec![embedding("a", vec![1, 2, 3]), embedding("b", vec![4, 5])];
    match check_dimensions(&bad) {
        Err(e) => assert_eq!(e.index, 1),
        Ok(_) => panic!("mismatch accepted"),
    }
    assert_eq!(check_dimensions(&Vec::new()).ok(), Some(0));
    let ids: Vec<u32> = embedding_ids(&es).iter().map(|i| i.value()).collect();
    assert_eq!(ids, vec![1, 1]);
}

#[test]
fn only_listed_statuses_are_retried() {
    let codes = vec![SERVICE_UNAVAILABLE];
    assert!(is_transient(503, &codes));
    assert!(!is_transient(500, &codes));
    assert!(!is_transient(503, &Vec::new()));
    let e = ErrorResponse { message: "rate limited".to_string() };
    assert_eq!(e.message(), "rate limited");
}
