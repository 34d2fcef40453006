use crate::feeds::{Entry, Feed, FieldName, FieldText, LanguageCode};
use crate::id::Id;
use crate::ingest::CrawledEntry;
use crate::text::{chars_of, join_line, push_range, remove_empty_lines, trim, trimmed_bounds, without_empty_lines};
use crate::url::{parsed_url, Url};
use select::document::Document;
use select::predicate::Name;
use vstd::prelude::*;

verus! {

/// The `<p>` elements of an HTML document, in document order, each with the
/// text of its first child where that child is a text node.
pub uninterp spec fn paragraph_texts(html: Seq<char>) -> Seq<Option<Seq<char>>>;

/// The instant an RFC 3339 date and time names, in seconds since the Unix
/// epoch, or nothing where the text is not such a date.
pub uninterp spec fn rfc3339_seconds(s: Seq<char>) -> Option<i64>;

pub open spec fn opt_text(o: Option<String>) -> Option<Seq<char>> {
    match o {
        Some(s) => Some(s@),
        None => None,
    }
}

/// Relies on select's `Document::from`, `find(Name("p"))`, `first_child` and
/// `as_text`: the paragraphs of the document and the text that starts each.
#[verifier::external_body]
fn paragraphs(html: &str) -> (r: Vec<Option<String>>)
    ensures
        r@.len() == paragraph_texts(html@).len(),
        forall|i: int| 0 <= i < r@.len() ==> opt_text(#[trigger] r@[i]) == paragraph_texts(html@)[i],
{
    Document::from(html).find(Name("p")).map(
        |node| node.first_child().and_then(|child| child.as_text()).map(|t| t.to_string()),
    ).collect()
}

/// Relies on chrono's `DateTime::parse_from_rfc3339` and `timestamp`.
#[verifier::external_body]
fn parse_rfc3339(s: &str) -> (r: Option<i64>)
    ensures
        r == rfc3339_seconds(s@),
{
    chrono::DateTime::parse_from_rfc3339(s).ok().map(|d| d.timestamp())
}

/// The paragraph texts, trimmed, without those left empty.
pub open spec fn kept_paragraphs(ps: Seq<Option<Seq<char>>>) -> Seq<Seq<char>>
    decreases ps.len(),
{
    if ps.len() == 0 {
        Seq::empty()
    } else {
        let rest = kept_paragraphs(ps.drop_last());
        match ps.last() {
            Some(t) => if trim(t).len() > 0 {
                rest.push(trim(t))
            } else {
                rest
            },
            None => rest,
        }
    }
}

/// Lines joined by `'\n'`, empty ones left out.
pub open spec fn join_all(ls: Seq<Seq<char>>) -> Seq<char>
    decreases ls.len(),
{
    if ls.len() == 0 {
        Seq::empty()
    } else {
        join_line(join_all(ls.drop_last()), ls.last())
    }
}

/// The text of an HTML body: its paragraphs, trimmed, the empty ones left
/// out, joined by `'\n'`; without the last one where `drop_last` is set.
pub open spec fn html_text(html: Seq<char>, drop_last: bool) -> Seq<char> {
    let k = kept_paragraphs(paragraph_texts(html));
    join_all(if drop_last && k.len() > 0 { k.drop_last() } else { k })
}

/// The trimmed text, as a new string.
fn trimmed(s: &str) -> (r: String)
    ensures
        r@ == trim(s@),
{
    let v = chars_of(s);
    let (a, b) = trimmed_bounds(&v, 0, v.len());
    let mut out = String::new();
    push_range(&mut out, &v, a, b);
    assert(v@.subrange(0, v@.len() as int) =~= s@);
    assert(out@ =~= v@.subrange(a as int, b as int));
    out
}

/// The text of an HTML body (see `html_text`).
pub fn html2text(html: &str, drop_last: bool) -> (r: String)
    ensures
        r@ == html_text(html@, drop_last),
{
    let ps = paragraphs(html);
    let ghost pv = paragraph_texts(html@);
    let mut parts: Vec<String> = Vec::new();
    let mut i: usize = 0;
    while i < ps.len()
        invariant
            i <= ps@.len(),
            ps@.len() == pv.len(),
            forall|q: int| 0 <= q < ps@.len() ==> opt_text(#[trigger] ps@[q]) == pv[q],
            parts@.map_values(|s: String| s@) == kept_paragraphs(pv.subrange(0, i as int)),
            forall|q: int| 0 <= q < parts@.len() ==> (#[trigger] parts@[q])@.len() > 0,
        decreases ps@.len() - i,
    {
        let ghost before = parts@.map_values(|s: String| s@);
        assert(pv.subrange(0, i + 1).drop_last() =~= pv.subrange(0, i as int));
        if let Some(t) = &ps[i] {
            assert(opt_text(ps@[i as int]) == pv[i as int]);
            let part = trimmed(t.as_str());
            if !part.as_str().is_empty() {
                parts.push(part);
                assert(parts@.map_values(|s: String| s@) =~= before.push(trim(t@)));
            }
        }
        i = i + 1;
    }
    assert(pv.subrange(0, i as int) =~= pv);
    let ghost k = parts@.map_values(|s: String| s@);
    let mut n = parts.len();
    if drop_last && n > 0 {
        n = n - 1;
    }
    let ghost chosen = if drop_last && k.len() > 0 { k.drop_last() } else { k };
    assert(chosen =~= k.subrange(0, n as int));
    let mut out = String::new();
    let mut j: usize = 0;
    while j < n
        invariant
            j <= n <= parts@.len(),
            k == parts@.map_values(|s: String| s@),
            forall|q: int| 0 <= q < parts@.len() ==> (#[trigger] parts@[q])@.len() > 0,
            out@ == join_all(k.subrange(0, j as int)),
            j > 0 ==> out@.len() > 0,
        decreases n - j,
    {
        proof {
            reveal_strlit("\n");
        }
        assert(k.subrange(0, j + 1).drop_last() =~= k.subrange(0, j as int));
        assert(k[j as int] == parts@[j as int]@);
        if j > 0 {
            out.append("\n");
        }
        out.append(parts[j].as_str());
        j = j + 1;
    }
    out
}

/// Everything but the first character of a text (nothing of an empty one).
pub open spec fn after_first(s: Seq<char>) -> Seq<char> {
    if s.len() == 0 {
        s
    } else {
        s.drop_first()
    }
}

/// The text without its first character, trimmed.
pub fn skip_first_trimmed(s: &str) -> (r: String)
    ensures
        r@ == trim(after_first(s@)),
{
    let v = chars_of(s);
    let lo: usize = if v.len() > 0 { 1 } else { 0 };
    let (a, b) = trimmed_bounds(&v, lo, v.len());
    let mut out = String::new();
    push_range(&mut out, &v, a, b);
    assert(v@.subrange(lo as int, v@.len() as int) =~= after_first(s@));
    assert(out@ =~= v@.subrange(a as int, b as int));
    out
}

/// What an RSS or Atom item offers, as plain values.
pub struct FeedItem {
    pub title: Option<String>,
    pub summary: Option<String>,
    /// The body of the item's content.
    pub content_body: Option<String>,
    /// The target of the item's first link.
    pub link: Option<String>,
    /// Last modification, in seconds since the Unix epoch.
    pub updated: Option<i64>,
    /// Publication, in seconds since the Unix epoch.
    pub published: Option<i64>,
}

/// Where a feed's items carry their body text, and how it is cleaned.
#[derive(Clone, Copy, PartialEq, Eq, Structural)]
pub enum BodyStyle {
    /// The summary, each line trimmed and empty lines dropped: a description.
    SummaryLines,
    /// The summary without its first character, trimmed: a description.
    SummaryAfterFirst,
    /// The paragraphs of the content's HTML body but the last: the content.
    ContentParagraphs,
    /// The paragraphs of the summary's HTML: a description.
    SummaryParagraphs,
}

/// Why an item cannot become an entry.
#[derive(Clone, Copy, Debug, PartialEq, Eq, Structural)]
pub enum EntryError {
    NoTitle,
    NoContent,
    NoDescription,
    NoLink,
    NoDate,
}

/// The text the body comes from in this style, if the item has it.
pub open spec fn body_source(item: FeedItem, style: BodyStyle) -> Option<String> {
    match style {
        BodyStyle::ContentParagraphs => item.content_body,
        _ => item.summary,
    }
}

/// The field kind the body becomes.
pub open spec fn body_kind(style: BodyStyle) -> FieldName {
    match style {
        BodyStyle::ContentParagraphs => FieldName::Content,
        _ => FieldName::Description,
    }
}

/// The error when the body is missing.
pub open spec fn body_missing(style: BodyStyle) -> EntryError {
    match style {
        BodyStyle::SummaryLines | BodyStyle::ContentParagraphs => EntryError::NoContent,
        _ => EntryError::NoDescription,
    }
}

/// The cleaned body text.
pub open spec fn body_text(src: Seq<char>, style: BodyStyle) -> Seq<char> {
    match style {
        BodyStyle::SummaryLines => without_empty_lines(src),
        BodyStyle::SummaryAfterFirst => trim(after_first(src)),
        BodyStyle::ContentParagraphs => html_text(src, true),
        BodyStyle::SummaryParagraphs => html_text(src, false),
    }
}

/// Whether the item's link is present and a valid URL.
pub open spec fn link_ok(item: FeedItem) -> bool {
    item.link is Some && parsed_url(item.link->0@) is Some
}

/// The entry time of an item: its last modification, else its publication.
pub open spec fn item_time(item: FeedItem) -> Option<i64> {
    if item.updated is Some {
        item.updated
    } else {
        item.published
    }
}

/// Turns a feed item into an entry of feed `feed_id` with two Swedish
/// fields: the title, and the body cleaned as `style` says. The title is
/// checked first, then the body, the link and the time.
pub fn parse_entry(item: &FeedItem, feed_id: Id<Feed>, style: BodyStyle) -> (r: Result<CrawledEntry, EntryError>)
    ensures
        r is Ok <==> item.title is Some && body_source(*item, style) is Some && link_ok(*item) && item_time(*item) is Some,
        r == Err::<CrawledEntry, EntryError>(EntryError::NoTitle) <==> item.title is None,
        r == Err::<CrawledEntry, EntryError>(body_missing(style)) <==> item.title is Some && body_source(*item, style) is None,
        r == Err::<CrawledEntry, EntryError>(EntryError::NoLink) <==> item.title is Some && body_source(*item, style) is Some
            && !link_ok(*item),
        r == Err::<CrawledEntry, EntryError>(EntryError::NoDate) <==> item.title is Some && body_source(*item, style) is Some
            && link_ok(*item) && item_time(*item) is None,
        r matches Ok((e, fs)) ==> {
            &&& e.feed_id == feed_id
            &&& Some(e.href@) == parsed_url(item.link->0@)
            &&& Some(e.published_at) == item_time(*item)
            &&& fs@.len() == 2
            &&& fs@[0].0 == FieldName::Title && fs@[0].1 == LanguageCode::SV && fs@[0].2@ == item.title->0@
            &&& fs@[1].0 == body_kind(style) && fs@[1].1 == LanguageCode::SV
            &&& fs@[1].2@ == body_text(body_source(*item, style)->0@, style)
        },
{
    let title = match &item.title {
        Some(t) => t.clone(),
        None => {
            return Err(EntryError::NoTitle);
        },
    };
    let source = match style {
        BodyStyle::ContentParagraphs => &item.content_body,
        _ => &item.summary,
    };
    let body = match source {
        Some(src) => match style {
            BodyStyle::SummaryLines => (FieldName::Description, remove_empty_lines(src.as_str())),
            BodyStyle::SummaryAfterFirst => (FieldName::Description, skip_first_trimmed(src.as_str())),
            BodyStyle::ContentParagraphs => (FieldName::Content, html2text(src.as_str(), true)),
            BodyStyle::SummaryParagraphs => (FieldName::Description, html2text(src.as_str(), false)),
        },
        None => {
            return Err(
                match style {
                    BodyStyle::SummaryLines | BodyStyle::ContentParagraphs => EntryError::NoContent,
                    _ => EntryError::NoDescription,
                },
            );
        },
    };
    let href = match &item.link {
        Some(l) => match Url::parse(l.as_str()) {
            Ok(u) => u,
            Err(_) => {
                return Err(EntryError::NoLink);
            },
        },
        None => {
            return Err(EntryError::NoLink);
        },
    };
    let published_at = match item.updated {
        Some(t) => t,
        None => match item.published {
            Some(t) => t,
            None => {
                return Err(EntryError::NoDate);
            },
        },
    };
    let mut fields: Vec<FieldText> = Vec::new();
    fields.push((FieldName::Title, LanguageCode::SV, title));
    fields.push((body.0, LanguageCode::SV, body.1));
    Ok((Entry { feed_id, href, published_at }, fields))
}

/// What a live-blog article of Dagens Nyheter offers, as plain values.
pub struct ArticleItem {
    /// The text that starts the article's heading.
    pub title: Option<String>,
    /// The text that starts each child of the article's content block, if
    /// the article has one.
    pub paragraphs: Option<Vec<Option<String>>>,
    /// The site-relative link of the article's share button.
    pub link_path: Option<String>,
    /// The `datetime` of its update time, else of its publication time.
    pub datetime: Option<String>,
}

/// The texts present, joined by `'\n'` (empty ones included).
pub open spec fn joined_present(ps: Seq<Option<String>>) -> Seq<char>
    decreases ps.len(),
{
    if ps.len() == 0 {
        Seq::empty()
    } else {
        let rest = joined_present(ps.drop_last());
        match ps.last() {
            Some(t) => if present_count(ps.drop_last()) == 0 {
                t@
            } else {
                rest + seq!['\n'] + t@
            },
            None => rest,
        }
    }
}

/// How many texts are present.
pub open spec fn present_count(ps: Seq<Option<String>>) -> nat
    decreases ps.len(),
{
    if ps.len() == 0 {
        0
    } else {
        present_count(ps.drop_last()) + if ps.last() is Some { 1nat } else { 0nat }
    }
}

/// The site the article links are relative to.
pub open spec fn dn_site() -> Seq<char> {
    "https://www.dn.se"@
}

/// The texts present, joined by newlines.
fn join_present(ps: &Vec<Option<String>>) -> (r: String)
    ensures
        r@ == joined_present(ps@),
{
    let mut out = String::new();
    let mut i: usize = 0;
    let mut any = false;
    while i < ps.len()
        invariant
            i <= ps@.len(),
            out@ == joined_present(ps@.subrange(0, i as int)),
            any == (present_count(ps@.subrange(0, i as int)) > 0),
            !any ==> out@ == Seq::<char>::empty(),
        decreases ps@.len() - i,
    {
        proof {
            reveal_strlit("\n");
        }
        assert(ps@.subrange(0, i + 1).drop_last() =~= ps@.subrange(0, i as int));
        assert(ps@.subrange(0, i + 1).last() == ps@[i as int]);
        if let Some(t) = &ps[i] {
            if any {
                out.append("\n");
            }
            out.append(t.as_str());
            assert(out@ =~= joined_present(ps@.subrange(0, i + 1)));
            any = true;
        }
        i = i + 1;
    }
    assert(ps@.subrange(0, i as int) =~= ps@);
    out
}

/// Turns a live-blog article into an entry of feed `feed_id` with a Swedish
/// title and description. The title is checked first, then the content, the
/// link (made absolute on the site) and the time.
pub fn parse_article(item: &ArticleItem, feed_id: Id<Feed>) -> (r: Result<CrawledEntry, EntryError>)
    ensures
        r is Ok <==> item.title is Some && item.paragraphs is Some && item.link_path is Some
            && parsed_url(dn_site() + item.link_path->0@) is Some && item.datetime is Some
            && rfc3339_seconds(item.datetime->0@) is Some,
        r == Err::<CrawledEntry, EntryError>(EntryError::NoTitle) <==> item.title is None,
        r == Err::<CrawledEntry, EntryError>(EntryError::NoContent) <==> item.title is Some && item.paragraphs is None,
        r == Err::<CrawledEntry, EntryError>(EntryError::NoLink) <==> item.title is Some && item.paragraphs is Some
            && (item.link_path is None || parsed_url(dn_site() + item.link_path->0@) is None),
        r == Err::<CrawledEntry, EntryError>(EntryError::NoDate) <==> item.title is Some && item.paragraphs is Some
            && item.link_path is Some && parsed_url(dn_site() + item.link_path->0@) is Some
            && (item.datetime is None || rfc3339_seconds(item.datetime->0@) is None),
        r matches Ok((e, fs)) ==> {
            &&& e.feed_id == feed_id
            &&& Some(e.href@) == parsed_url(dn_site() + item.link_path->0@)
            &&& Some(e.published_at) == rfc3339_seconds(item.datetime->0@)
            &&& fs@.len() == 2
            &&& fs@[0].0 == FieldName::Title && fs@[0].1 == LanguageCode::SV && fs@[0].2@ == item.title->0@
            &&& fs@[1].0 == FieldName::Description && fs@[1].1 == LanguageCode::SV
            &&& fs@[1].2@ == joined_present(item.paragraphs->0@)
        },
{
    let title = match &item.title {
        Some(t) => t.clone(),
        None => {
            return Err(EntryError::NoTitle);
        },
    };
    let description = match &item.paragraphs {
        Some(ps) => join_present(ps),
        None => {
            return Err(EntryError::NoContent);
        },
    };
    let href = match &item.link_path {
        Some(path) => {
            let mut full = "https://www.dn.se".to_owned();
            full.append(path.as_str());
            match Url::parse(full.as_str()) {
                Ok(u) => u,
                Err(_) => {
                    return Err(EntryError::NoLink);
                },
            }
        },
        None => {
            return Err(EntryError::NoLink);
        },
    };
    let published_at = match &item.datetime {
        Some(d) => match parse_rfc3339(d.as_str()) {
            Some(t) => t,
            None => {
                return Err(EntryError::NoDate);
            },
        },
        None => {
            return Err(EntryError::NoDate);
        },
    };
    let mut fields: Vec<FieldText> = Vec::new();
    fields.push((FieldName::Title, LanguageCode::SV, title));
    fields.push((FieldName::Description, LanguageCode::SV, description));
    Ok((Entry { feed_id, href, published_at }, fields))
}

} // verus!
