//! In-flight clipboard values, as handed from the change detector to
//! listeners.

use vstd::prelude::*;
use crate::text::{is_blank, is_blank_str};

verus! {

/// The kind of a captured value.  Only `Text` is populated by the capture
/// path; the other kinds are reserved slots of the persisted shape.
#[derive(Debug, Clone, Copy, PartialEq, Eq, Structural)]
pub enum ContentType {
    Text,
    Image,
    File,
    Html,
}

/// A clipboard value in flight.
#[derive(Debug)]
pub struct ClipboardContent {
    pub content_type: ContentType,
    pub text: Option<String>,
}

impl ClipboardContent {
    /// A value is empty when it carries no text, or only whitespace.
    pub open spec fn spec_is_empty(&self) -> bool {
        match self.text {
            Some(t) => is_blank(t@),
            None => true,
        }
    }

    /// Wraps a text value.
    pub fn new_text(text: String) -> (r: Self)
        ensures
            r.content_type == ContentType::Text,
            r.text == Some(text),
    {
        ClipboardContent { content_type: ContentType::Text, text: Some(text) }
    }

    /// Whether the value is empty or whitespace-only.
    pub fn is_empty(&self) -> (r: bool)
        ensures
            r == self.spec_is_empty(),
    {
        match &self.text {
            Some(t) => is_blank_str(t.as_str()),
            None => true,
        }
    }
}

} // verus!
