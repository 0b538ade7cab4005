use vstd::prelude::*;

use crate::image::append_chars;
use crate::models::{ClipboardRecord, ContentType, Theme};
use crate::settings::str_equals;
use crate::text::{chars_of, string_from_chars};

verus! {

/// The word a content type is stored as.
pub open spec fn content_type_word(t: ContentType) -> Seq<char> {
    match t {
        ContentType::Text => "text"@,
        ContentType::Image => "image"@,
        ContentType::Html => "html"@,
        ContentType::Link => "link"@,
    }
}

/// The word a content type is stored as.
pub fn content_type_token(t: ContentType) -> (r: &'static str)
    ensures
        r@ == content_type_word(t),
{
    match t {
        ContentType::Text => "text",
        ContentType::Image => "image",
        ContentType::Html => "html",
        ContentType::Link => "link",
    }
}

/// The content type stored as `word`, if it is one.
pub open spec fn content_type_of_word(word: Seq<char>) -> Option<ContentType> {
    if word == "text"@ {
        Some(ContentType::Text)
    } else if word == "image"@ {
        Some(ContentType::Image)
    } else if word == "html"@ {
        Some(ContentType::Html)
    } else if word == "link"@ {
        Some(ContentType::Link)
    } else {
        None
    }
}

/// Reads a stored content type; an unknown word is refused with its name.
pub fn parse_content_type(word: &str) -> (r: Result<ContentType, String>)
    ensures
        match content_type_of_word(word@) {
            Some(t) => r == Ok::<ContentType, String>(t),
            None => r matches Err(m) && m@ == "invalid value for record::ContentType: "@ + word@,
        },
{
    if str_equals(word, "text") {
        Ok(ContentType::Text)
    } else if str_equals(word, "image") {
        Ok(ContentType::Image)
    } else if str_equals(word, "html") {
        Ok(ContentType::Html)
    } else if str_equals(word, "link") {
        Ok(ContentType::Link)
    } else {
        let mut msg = chars_of("invalid value for record::ContentType: ");
        append_chars(&mut msg, &chars_of(word));
        Err(string_from_chars(msg.as_slice()))
    }
}

/// Storing a content type and reading it back gives it again.
pub proof fn content_type_word_round_trip(t: ContentType)
    ensures
        content_type_of_word(content_type_word(t)) == Some(t),
{
    reveal_strlit("text");
    reveal_strlit("image");
    reveal_strlit("html");
    reveal_strlit("link");
    assert("image"@[0] != "text"@[0]);
    assert("html"@[0] != "text"@[0] && "html"@[0] != "image"@[0]);
    assert("link"@[0] != "text"@[0] && "link"@[0] != "image"@[0] && "link"@[0] != "html"@[0]);
}

/// The theme stored as `word`, if it is one.
pub open spec fn theme_of_word(word: Seq<char>) -> Option<Theme> {
    if word == "light"@ {
        Some(Theme::Light)
    } else if word == "dark"@ {
        Some(Theme::Dark)
    } else if word == "system"@ {
        Some(Theme::System)
    } else {
        None
    }
}

/// Reads a stored theme; an unknown word is refused with its name.
pub fn parse_theme(word: &str) -> (r: Result<Theme, String>)
    ensures
        match theme_of_word(word@) {
            Some(t) => r == Ok::<Theme, String>(t),
            None => r matches Err(m) && m@ == "invalid value for settings::Theme: "@ + word@,
        },
{
    if str_equals(word, "light") {
        Ok(Theme::Light)
    } else if str_equals(word, "dark") {
        Ok(Theme::Dark)
    } else if str_equals(word, "system") {
        Ok(Theme::System)
    } else {
        let mut msg = chars_of("invalid value for settings::Theme: ");
        append_chars(&mut msg, &chars_of(word));
        Err(string_from_chars(msg.as_slice()))
    }
}

/// Builds a record from the columns of a history row: id, content-type
/// word, content, image bytes, favourite and pinned flags (set when
/// positive), creation time. An unknown content type is refused.
pub fn map_record_row(
    id: i64,
    content_type: &str,
    content: String,
    image_data: Option<Vec<u8>>,
    is_favorite: i32,
    is_pinned: i32,
    created_at: String,
) -> (r: Result<ClipboardRecord, String>)
    ensures
        match content_type_of_word(content_type@) {
            Some(t) => r matches Ok(rec) && rec.id == id && rec.content_type == t && rec.content@ == content@
                && rec.image_data == image_data && rec.is_favorite == (is_favorite > 0) && rec.is_pinned == (is_pinned > 0)
                && rec.created_at@ == created_at@,
            None => r is Err,
        },
{
    let t = match parse_content_type(content_type) {
        Ok(t) => t,
        Err(e) => {
            return Err(e);
        },
    };
    Ok(ClipboardRecord {
        id,
        content_type: t,
        content,
        image_data,
        created_at,
        is_favorite: is_favorite > 0,
        is_pinned: is_pinned > 0,
    })
}

} // verus!
