//! Data model of the content store: persisted rows, new-row requests and
//! search parameters, together with their mathematical views.

use vstd::prelude::*;
use vstd::string::StringExecFns;

verus! {

/// Spec view of an optional string.
pub open spec fn opt_view(o: Option<String>) -> Option<Seq<char>> {
    match o {
        Some(s) => Some(s@),
        None => None,
    }
}

/// Clones an optional string, preserving the value exactly.
pub fn clone_opt_string(o: &Option<String>) -> (r: Option<String>)
    ensures
        r == *o,
{
    match o {
        Some(s) => Some(s.clone()),
        None => None,
    }
}

/// One persisted clipboard row.
#[derive(Debug)]
pub struct ClipboardEntry {
    pub id: i64,
    pub content_type: String,
    pub text_content: Option<String>,
    pub file_path: Option<String>,
    pub metadata: Option<String>,
    pub created_at: i64,
    pub favorite: bool,
    pub source_app: Option<String>,
}

/// Mathematical view of a persisted row.
#[verifier::ext_equal]
pub ghost struct EntryModel {
    pub id: int,
    pub content_type: Seq<char>,
    pub text_content: Option<Seq<char>>,
    pub file_path: Option<Seq<char>>,
    pub metadata: Option<Seq<char>>,
    pub created_at: int,
    pub favorite: bool,
    pub source_app: Option<Seq<char>>,
}

impl View for ClipboardEntry {
    type V = EntryModel;

    open spec fn view(&self) -> EntryModel {
        EntryModel {
            id: self.id as int,
            content_type: self.content_type@,
            text_content: opt_view(self.text_content),
            file_path: opt_view(self.file_path),
            metadata: opt_view(self.metadata),
            created_at: self.created_at as int,
            favorite: self.favorite,
            source_app: opt_view(self.source_app),
        }
    }
}

impl Clone for ClipboardEntry {
    fn clone(&self) -> (res: Self)
        ensures
            res == *self,
    {
        ClipboardEntry {
            id: self.id,
            content_type: self.content_type.clone(),
            text_content: clone_opt_string(&self.text_content),
            file_path: clone_opt_string(&self.file_path),
            metadata: clone_opt_string(&self.metadata),
            created_at: self.created_at,
            favorite: self.favorite,
            source_app: clone_opt_string(&self.source_app),
        }
    }
}

/// A row to be written: everything of a row except the identity, timestamp
/// and favorite flag, which the store assigns.
#[derive(Debug)]
pub struct NewClipboardEntry {
    pub content_type: String,
    pub text_content: Option<String>,
    pub file_path: Option<String>,
    pub metadata: Option<String>,
    pub source_app: Option<String>,
}

/// Mathematical view of a new-row request.
#[verifier::ext_equal]
pub ghost struct NewEntryModel {
    pub content_type: Seq<char>,
    pub text_content: Option<Seq<char>>,
    pub file_path: Option<Seq<char>>,
    pub metadata: Option<Seq<char>>,
    pub source_app: Option<Seq<char>>,
}

impl View for NewClipboardEntry {
    type V = NewEntryModel;

    open spec fn view(&self) -> NewEntryModel {
        NewEntryModel {
            content_type: self.content_type@,
            text_content: opt_view(self.text_content),
            file_path: opt_view(self.file_path),
            metadata: opt_view(self.metadata),
            source_app: opt_view(self.source_app),
        }
    }
}

impl NewClipboardEntry {
    /// A plain text row request without a source application.
    pub fn new_text(content: String) -> (r: Self)
        ensures
            r@.content_type == "text"@,
            r.text_content == Some(content),
            r.file_path is None,
            r.metadata is None,
            r.source_app is None,
    {
        NewClipboardEntry {
            content_type: String::from_str("text"),
            text_content: Some(content),
            file_path: None,
            metadata: None,
            source_app: None,
        }
    }

    /// A plain text row request carrying the application that was foreground
    /// when the text was captured.
    pub fn new_text_with_source(content: String, source_app: Option<String>) -> (r: Self)
        ensures
            r@.content_type == "text"@,
            r.text_content == Some(content),
            r.file_path is None,
            r.metadata is None,
            r.source_app == source_app,
    {
        NewClipboardEntry {
            content_type: String::from_str("text"),
            text_content: Some(content),
            file_path: None,
            metadata: None,
            source_app,
        }
    }
}

/// Parameters of a history search.
#[derive(Debug)]
pub struct ClipboardSearchParams {
    pub query: Option<String>,
    pub content_type: Option<String>,
    pub favorites_only: bool,
    pub limit: i64,
    pub offset: i64,
}

/// Mathematical view of search parameters.
#[verifier::ext_equal]
pub ghost struct ParamsModel {
    pub query: Option<Seq<char>>,
    pub content_type: Option<Seq<char>>,
    pub favorites_only: bool,
    pub limit: int,
    pub offset: int,
}

impl View for ClipboardSearchParams {
    type V = ParamsModel;

    open spec fn view(&self) -> ParamsModel {
        ParamsModel {
            query: opt_view(self.query),
            content_type: opt_view(self.content_type),
            favorites_only: self.favorites_only,
            limit: self.limit as int,
            offset: self.offset as int,
        }
    }
}

impl Default for ClipboardSearchParams {
    /// No filters, the newest hundred rows.
    fn default() -> (r: Self)
        ensures
            r.query is None,
            r.content_type is None,
            r.favorites_only == false,
            r.limit == 100,
            r.offset == 0,
    {
        ClipboardSearchParams {
            query: None,
            content_type: None,
            favorites_only: false,
            limit: 100,
            offset: 0,
        }
    }
}

} // verus!
