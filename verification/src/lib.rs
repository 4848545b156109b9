//! Arkivist: the verified core of a Slack archive — domain types, event
//! store indexes, queue endpoints, delivery signatures, search and the text
//! rules of the summary generator and the backfill jobs.
use vstd::prelude::*;

pub mod backfill;
pub mod domain;
pub mod generation;
pub mod language;
pub mod ordered;
pub mod prompt;
pub mod queue;
pub mod rows;
pub mod search;
pub mod search_index;
pub mod sql;
pub mod signature;
pub mod store;
pub mod summary_text;
pub mod text;
pub mod thread_card;
pub mod thread_summary;
pub mod views;
pub mod worker;
pub mod writes;
pub mod ts;

verus! {

} // verus!
