use svergie::feeds::{Feed, FieldName, LanguageCode};
use svergie::id::Id;
use svergie::scrape::{html2text, parse_article, parse_entry, skip_first_trimmed, ArticleItem, BodyStyle, EntryError, FeedItem};

fn item() -> FeedItem {
    FeedItem {
        title: Some("Rubrik".to_string()),
        summary: Some(" Rad ett \n\n  rad två ".to_string()),
        content_body: Some("<p> Första </p><p></p><p>Andra</p><p>Sista</p>".to_string()),
        link: Some("https://www.svt.se/nyheter/1".to_string()),
        updated: None,
        published: Some(1_700_000_000),
    }
}

fn feed() -> Id<Feed> {
    Id::new(1)
}

#[test]
fn paragraphs_become_lines() {
    assert_eq!(html2text("<p> a </p><div>x</div><p>\n</p><p>b</p><p>c</p>", false), "a\nb\nc");
    assert_eq!(html2text("<p> a </p><p>b</p><p>c</p>", true), "a\nb");
    assert_eq!(html2text("<div>no paragraphs</div>", true), "");
    assert_eq!(html2text("<p><b>bold</b> text</p><p>plain</p>", false), "plain");
}

#[test]
fn first_character_is_skipped() {
    assert_eq!(skip_first_trimmed("- Nyhet i korthet "), "Nyhet i korthet");
    assert_eq!(skip_first_trimmed(""), "");
}

#[test]
fn summary_lines_become_a_description() {
    let (entry, fields) = parse_entry(&item(), feed(), BodyStyle::SummaryLines).ok().unwrap();
    assert_eq!(entry.href.as_str(), "https://www.svt.se/nyheter/1");
    assert_eq!(entry.published_at, 1_700_000_000);
    assert_eq!(fields.len(), 2);
    assert_eq!(fields[0], (FieldName::Title, LanguageCode::SV, "Rubrik".to_string()));
    assert_eq!(fields[1], (FieldName::Description, LanguageCode::SV, "Rad ett\nrad två".to_string()));
}

#[test]
fn content_paragraphs_drop_the_last() {
    let (_, fields) = parse_entry(&item(), feed(), BodyStyle::ContentParagraphs).ok().unwrap();
    assert_eq!(fields[1], (FieldName::Content, LanguageCode::SV, "Första\nAndra".to_string()));
    let mut it = item();
    it.updated = Some(5);
    let (entry, _) = parse_entry(&it, feed(), BodyStyle::SummaryAfterFirst).ok().unwrap();
    assert_eq!(entry.published_at, 5);
}

#[test]
fn missing_parts_are_reported_in_order() {
    let mut it = item();
    it.title = None;
    it.link = None;
    assert_eq!(parse_entry(&it, feed(), BodyStyle::SummaryLines).err(), Some(EntryError::NoTitle));
    let mut it = item();
    it.summary = None;
    assert_eq!(parse_entry(&it, feed(), BodyStyle::SummaryLines).err(), Some(EntryError::NoContent));
    assert_eq!(parse_entry(&it, feed(), BodyStyle::SummaryParagraphs).err(), Some(EntryError::NoDescription));
    let mut it = item();
    it.link = Some("relative/path".to_string());
    assert_eq!(parse_entry(&it, feed(), BodyStyle::SummaryLines).err(), Some(EntryError::NoLink));
    let mut it = item();
    it.published = None;
    assert_eq!(parse_entry(&it, feed(), BodyStyle::SummaryLines).err(), Some(EntryError::NoDate));
}

#[test]
fn live_blog_articles_are_parsed() {
    let article = ArticleItem {
        title: Some("Direkt".to_string()),
        paragraphs: Some(vec![Some("Ett".to_string()), None, Some("Två".to_string())]),
        link_path: Some("/direkt/123".to_string()),
        datetime: Some("2024-02-29T10:01:20+01:00".to_string()),
    };
    let (entry, fields) = parse_article(&article, Id::new(2)).ok().unwrap();
    assert_eq!(entry.href.as_str(), "https://www.dn.se/direkt/123");
    assert_eq!(entry.published_at, 1_709_197_280);
    assert_eq!(fields[1], (FieldName::Description, LanguageCode::SV, "Ett\nTvå".to_string()));
    let bad_date = ArticleItem { datetime: Some("yesterday".to_string()), ..article };
    assert_eq!(parse_article(&bad_date, Id::new(2)).err(), Some(EntryError::NoDate));
}
