use crate::id::Id;
use crate::md5_hash::Md5Hash;
use crate::url::Url;
use vstd::prelude::*;

verus! {

/// A news source.
pub struct Feed {
    pub title: String,
}

/// One published item of one feed; unique by its link.
pub struct Entry {
    pub feed_id: Id<Feed>,
    pub href: Url,
    /// Publication time, in seconds since the Unix epoch (UTC).
    pub published_at: i64,
}

impl Clone for Entry {
    fn clone(&self) -> (r: Self)
        ensures
            r.feed_id == self.feed_id,
            r.href@ == self.href@,
            r.published_at == self.published_at,
    {
        Entry { feed_id: self.feed_id, href: self.href.clone(), published_at: self.published_at }
    }
}

/// The kind of a text attribute of an entry.
#[derive(Clone, Copy, Debug, PartialEq, Eq, Structural)]
pub enum FieldName {
    Title,
    Description,
    Content,
}

/// A text that names no field kind.
pub struct InvalidFieldName {
    pub name: String,
}

/// The language of a text.
#[derive(Clone, Copy, Debug, PartialEq, Eq, Structural)]
pub enum LanguageCode {
    EN,
    SV,
}

/// A text that names no language.
pub struct InvalidLanguageCode {
    pub code: String,
}

/// The stored name of a field kind.
pub open spec fn field_name_text(n: FieldName) -> Seq<char> {
    match n {
        FieldName::Title => "title"@,
        FieldName::Description => "description"@,
        FieldName::Content => "content"@,
    }
}

/// The stored code of a language.
pub open spec fn language_code_text(c: LanguageCode) -> Seq<char> {
    match c {
        LanguageCode::EN => "en"@,
        LanguageCode::SV => "sv"@,
    }
}

/// Whether two texts are equal.
fn text_is(s: &str, t: &str) -> (r: bool)
    ensures
        r == (s@ == t@),
{
    s.to_owned() == t.to_owned()
}

impl FieldName {
    pub fn as_str(&self) -> (r: &'static str)
        ensures
            r@ == field_name_text(*self),
    {
        match self {
            FieldName::Title => "title",
            FieldName::Description => "description",
            FieldName::Content => "content",
        }
    }

    /// Reads a field kind from its stored name.
    pub fn from_str(s: &str) -> (r: Result<FieldName, InvalidFieldName>)
        ensures
            r matches Ok(n) ==> s@ == field_name_text(n),
            r is Err ==> forall|n: FieldName| s@ != field_name_text(n),
            r matches Err(e) ==> e.name@ == s@,
    {
        proof {
            reveal_strlit("title");
            reveal_strlit("description");
            reveal_strlit("content");
        }
        if text_is(s, "title") {
            Ok(FieldName::Title)
        } else if text_is(s, "description") {
            Ok(FieldName::Description)
        } else if text_is(s, "content") {
            Ok(FieldName::Content)
        } else {
            Err(InvalidFieldName { name: s.to_owned() })
        }
    }
}

impl LanguageCode {
    pub fn as_str(&self) -> (r: &'static str)
        ensures
            r@ == language_code_text(*self),
    {
        match self {
            LanguageCode::EN => "en",
            LanguageCode::SV => "sv",
        }
    }

    /// Reads a language from its stored code.
    pub fn from_str(s: &str) -> (r: Result<LanguageCode, InvalidLanguageCode>)
        ensures
            r matches Ok(c) ==> s@ == language_code_text(c),
            r is Err ==> forall|c: LanguageCode| s@ != language_code_text(c),
            r matches Err(e) ==> e.code@ == s@,
    {
        proof {
            reveal_strlit("en");
            reveal_strlit("sv");
        }
        if text_is(s, "en") {
            Ok(LanguageCode::EN)
        } else if text_is(s, "sv") {
            Ok(LanguageCode::SV)
        } else {
            Err(InvalidLanguageCode { code: s.to_owned() })
        }
    }
}

/// One text attribute of one entry in one language; it holds the
/// fingerprint of its text, not the text itself.
#[derive(Clone, Copy)]
pub struct Field {
    pub entry_id: Id<Entry>,
    pub name: FieldName,
    pub lang_code: LanguageCode,
    pub md5_hash: Md5Hash,
}

/// A content-addressed text value: the text and its fingerprint.
pub struct Translation {
    pub md5_hash: Md5Hash,
    pub value: String,
}

impl Clone for Translation {
    fn clone(&self) -> (r: Self)
        ensures
            r.md5_hash == self.md5_hash,
            r.value@ == self.value@,
    {
        Translation { md5_hash: self.md5_hash, value: self.value.clone() }
    }
}

/// A text attribute as a scraper extracts it: kind, language, text.
pub type FieldText = (FieldName, LanguageCode, String);

/// Why a feed gave no entries this time.
pub enum CrawlError {
    /// The feed could not be fetched.
    Fetch(String),
    /// The feed could not be parsed.
    Parse(String),
}

} // verus!
