//! What is stored for a message that a user posts.

use vstd::prelude::*;
use vstd::string::*;
use vstd::utf8::*;
use std::borrow::Cow;
use crate::error::ChatError;
use crate::escape::{escape, escape_text};
use crate::preprocessor::{preprocess_msg, sanitized};
use crate::text::decode;

verus! {

/// The two fields of a message that come from the user, as they are stored:
/// both are final HTML and are shown without further escaping.
#[derive(Debug, Clone, PartialEq, Eq)]
pub struct Prepared {
    pub user: String,
    pub content: String,
}

/// Prepares a posted message for storage: the user's name is escaped, the
/// body is read as UTF-8 and sanitised. A body that is not UTF-8 is refused.
pub fn prepare_message(user: &str, raw_body: &[u8]) -> (r: Result<Prepared, ChatError>)
    ensures
        r is Ok <==> valid_utf8(raw_body@),
        r matches Ok(p) ==> p.user@ == escape(user@) && p.content@ == sanitized(
            decode_utf8(raw_body@),
        ),
        r matches Err(e) ==> e == ChatError::InvalidUtf8,
{
    match decode(raw_body) {
        None => Err(ChatError::InvalidUtf8),
        Some(text) => {
            let content = match preprocess_msg(text) {
                Cow::Owned(owned) => owned,
                Cow::Borrowed(borrowed) => String::from_str(borrowed),
            };
            Ok(Prepared { user: escape_text(user), content })
        },
    }
}

} // verus!
