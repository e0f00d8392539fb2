//! The search service, as far as it goes: it keeps no index yet. Requests
//! to create or delete one are acknowledged, and every search comes back
//! from its one shard without a hit.

use vstd::prelude::*;
use crate::ack::{done, framed, not_yet, Ack, Unimplemented};
use crate::ident::random_token;

verus! {

/// The answer to a request to make a search index.
#[derive(Debug, PartialEq, Eq)]
pub struct CreateSearchIndexResponse {
    pub success: bool,
    pub message: String,
    /// A token that names the index: thirty-six characters.
    pub index_uuid: String,
}

/// What is known of a search index.
#[derive(Debug, PartialEq, Eq)]
pub struct SearchIndexInfo {
    pub name: String,
}

/// How the shards of an index fared with a search.
#[derive(Debug, PartialEq, Eq)]
pub struct SearchStatus {
    pub total_shards: u32,
    pub successful_shards: u32,
    pub failed_shards: u32,
    pub failures: Vec<String>,
}

/// One document that a search found.
#[derive(Debug, PartialEq, Eq)]
pub struct SearchHit {
    pub id: String,
}

/// The answer to a search. The best score among the hits is not held here:
/// without a hit there is none to hold.
#[derive(Debug, PartialEq, Eq)]
pub struct SearchResponse {
    pub status: Option<SearchStatus>,
    pub hits: Vec<SearchHit>,
    pub total_hits: u64,
    pub took_ms: u64,
    pub facets: Option<Vec<String>>,
}

/// A search that one shard answered, and that found nothing.
pub open spec fn no_hits(response: SearchResponse) -> bool {
    &&& response.status matches Some(status)
    &&& status.total_shards == 1
    &&& status.successful_shards == 1
    &&& status.failed_shards == 0
    &&& status.failures@.len() == 0
    &&& response.hits@.len() == 0
    &&& response.total_hits == 0
    &&& response.took_ms == 0
    &&& response.facets is None
}

/// The search service.
#[derive(Debug, Default)]
pub struct SearchServiceImpl {}

impl SearchServiceImpl {
    fn empty_result() -> (response: SearchResponse)
        ensures
            no_hits(response),
    {
        SearchResponse {
            status: Some(
                SearchStatus {
                    total_shards: 1,
                    successful_shards: 1,
                    failed_shards: 0,
                    failures: Vec::new(),
                },
            ),
            hits: Vec::new(),
            total_hits: 0,
            took_ms: 0,
            facets: None,
        }
    }

    /// Acknowledges the making of an index, and gives it a random token for
    /// a name. Which token is not determined.
    pub fn create_index(&self, index_name: &str) -> (response: CreateSearchIndexResponse)
        ensures
            response.success,
            response.message@ == "Search index '"@ + index_name@ + "' created"@,
            response.index_uuid@.len() == 36,
    {
        CreateSearchIndexResponse {
            success: true,
            message: framed("Search index '", index_name, "' created"),
            index_uuid: random_token(),
        }
    }

    pub fn delete_index(&self, index_name: &str) -> (response: Ack)
        ensures
            response.success,
            response.message@ == "Search index '"@ + index_name@ + "' deleted"@,
    {
        done(framed("Search index '", index_name, "' deleted"))
    }

    /// The search indexes: there are none.
    pub fn list_indexes(&self) -> (indexes: Vec<SearchIndexInfo>)
        ensures
            indexes@.len() == 0,
    {
        Vec::new()
    }

    /// The statistics of a search index: not served yet.
    pub fn get_index_stats(&self, index_name: &str) -> (answer: Unimplemented)
        ensures
            answer.message@ == "Search index stats not yet implemented"@,
    {
        not_yet("Search index stats not yet implemented")
    }

    /// Searches an index for text: nothing is found.
    pub fn search(&self, index_name: &str) -> (response: SearchResponse)
        ensures
            no_hits(response),
    {
        Self::empty_result()
    }

    /// Searches an index for the `k` nearest vectors: nothing is found.
    pub fn vector_search(&self, index_name: &str, k: u32) -> (response: SearchResponse)
        ensures
            no_hits(response),
    {
        Self::empty_result()
    }
}

} // verus!
