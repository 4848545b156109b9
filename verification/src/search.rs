//! Full-text search over the archived messages.
use vstd::prelude::*;
use crate::text::{chars_of, collapse_whitespace, collapse_ws, string_of};

verus! {

#[derive(Debug, Clone, Copy, PartialEq, Eq)]
pub enum SearchBackend {
    PostgresTsvectorPlaceholder,
}

impl SearchBackend {
    pub fn as_str(self) -> (r: &'static str)
        ensures
            r@ == "postgres_tsvector_placeholder"@,
    {
        match self {
            SearchBackend::PostgresTsvectorPlaceholder => "postgres_tsvector_placeholder",
        }
    }
}

#[derive(Debug, Clone, Copy, PartialEq, Eq)]
pub enum SearchSort {
    Relevance,
    Date,
    Replies,
    Reactions,
    People,
}

#[derive(Debug, Clone, PartialEq, Eq)]
pub struct SearchFilters {
    pub channel_ids: Vec<String>,
    pub date_from: Option<String>,
    pub date_to: Option<String>,
}

impl Default for SearchFilters {
    fn default() -> (r: Self)
        ensures
            r.channel_ids@.len() == 0,
            r.date_from is None,
            r.date_to is None,
    {
        SearchFilters { channel_ids: Vec::new(), date_from: None, date_to: None }
    }
}

#[derive(Debug, Clone, PartialEq, Eq)]
pub struct SearchQuery {
    pub text: String,
    pub filters: SearchFilters,
    pub sort: SearchSort,
}

impl SearchQuery {
    /// A relevance-sorted query without filters for the normalized `text`.
    pub fn new(text: &str) -> (r: SearchQuery)
        ensures
            r.text@ == collapse_whitespace(text@),
            r.filters.channel_ids@.len() == 0,
            r.filters.date_from is None,
            r.filters.date_to is None,
            r.sort == SearchSort::Relevance,
    {
        SearchQuery {
            text: normalize_query_text(text),
            filters: SearchFilters::default(),
            sort: SearchSort::Relevance,
        }
    }
}

/// The words of `value` joined by single spaces.
pub fn normalize_query_text(value: &str) -> (r: String)
    ensures
        r@ == collapse_whitespace(value@),
{
    let cs = chars_of(value);
    string_of(&collapse_ws(&cs))
}

pub const SEARCH_DOCUMENTS_TABLE: &'static str = "search_documents";

pub fn search_documents_table() -> (r: &'static str)
    ensures
        r@ == SEARCH_DOCUMENTS_TABLE@,
{
    SEARCH_DOCUMENTS_TABLE
}

pub const SEARCH_RANK_EXPRESSION: &'static str = "ts_rank(document, websearch_to_tsquery('english', $1))";

pub fn search_rank_expression() -> (r: &'static str)
    ensures
        r@ == SEARCH_RANK_EXPRESSION@,
{
    SEARCH_RANK_EXPRESSION
}

pub const RANKED_SEARCH_QUERY: &'static str = r#"
SELECT channel_id,
       message_ts,
       title,
       body,
       ts_rank(document, websearch_to_tsquery('english', $1)) AS score
FROM search_documents
WHERE document @@ websearch_to_tsquery('english', $1)
  AND (coalesce(array_length($2::text[], 1), 0) = 0 OR channel_id = ANY($2))
  AND ($3::text IS NULL OR split_part(message_ts, '.', 1)::bigint >= split_part($3, '.', 1)::bigint)
  AND ($4::text IS NULL OR split_part(message_ts, '.', 1)::bigint <= split_part($4, '.', 1)::bigint)
ORDER BY score DESC,
         message_ts DESC
"#;

/// The ranked full-text query: `$1` is the query text, `$2` the channel filter,
/// `$3` and `$4` the date bounds.
pub fn ranked_search_query() -> (r: &'static str)
    ensures
        r@ == RANKED_SEARCH_QUERY@,
{
    RANKED_SEARCH_QUERY
}

} // verus!
