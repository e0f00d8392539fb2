//! The key-value data service, as far as it goes: it holds no documents
//! yet. Every key is missing, every write is acknowledged with the same
//! token, and a counter answers with the value it was to start from.

use vstd::prelude::*;
use vstd::string::StringExecFns;
use crate::ack::framed;

verus! {

/// Why a request on a key failed.
#[derive(Clone, Copy, Debug, PartialEq, Eq, Structural)]
pub enum ErrorCode {
    KeyNotFound,
}

/// A failed request on a key.
#[derive(Debug, PartialEq, Eq)]
pub struct KvError {
    pub code: ErrorCode,
    pub message: String,
}

/// What a write leaves behind: the token for compare-and-swap, the sequence
/// number and the partition of the document.
#[derive(Clone, Copy, Debug, PartialEq, Eq, Structural)]
pub struct SetResult {
    pub cas: u64,
    pub seq_no: u64,
    pub vbucket_id: u32,
}

/// What a counter holds after a request, and its token for compare-and-swap.
#[derive(Clone, Copy, Debug, PartialEq, Eq, Structural)]
pub struct CounterResult {
    pub value: u64,
    pub cas: u64,
}

/// The answer to a request for several keys: the documents found, each with
/// its key, and the keys for which there is none.
#[derive(Debug, PartialEq, Eq)]
pub struct GetMultiResponse {
    pub documents: Vec<(String, Vec<u8>)>,
    pub missing_keys: Vec<String>,
}

/// The message for a key without a document.
pub open spec fn key_not_found(key: Seq<char>) -> Seq<char> {
    "Key '"@ + key + "' not found"@
}

/// The key-value data service.
#[derive(Debug, Default)]
pub struct DataServiceImpl {}

impl DataServiceImpl {
    fn missing(key: &str) -> (error: KvError)
        ensures
            error.code == ErrorCode::KeyNotFound,
            error.message@ == key_not_found(key@),
    {
        KvError { code: ErrorCode::KeyNotFound, message: framed("Key '", key, "' not found") }
    }

    /// The document under a key: there is none.
    pub fn get(&self, key: &str) -> (result: Result<Vec<u8>, KvError>)
        ensures
            result matches Err(e) && e.code == ErrorCode::KeyNotFound && e.message@
                == key_not_found(key@),
    {
        Err(Self::missing(key))
    }

    /// Stores a document under a key. Nothing is kept; the write is
    /// acknowledged.
    pub fn set(&self, key: &str, value: &Vec<u8>) -> (result: Result<SetResult, KvError>)
        ensures
            result == Ok::<SetResult, KvError>(SetResult { cas: 1, seq_no: 1, vbucket_id: 0 }),
    {
        Ok(SetResult { cas: 1, seq_no: 1, vbucket_id: 0 })
    }

    /// Deletes the document under a key: there is none.
    pub fn delete(&self, key: &str) -> (result: Result<SetResult, KvError>)
        ensures
            result matches Err(e) && e.code == ErrorCode::KeyNotFound && e.message@
                == key_not_found(key@),
    {
        Err(Self::missing(key))
    }

    /// The documents under several keys: every key is missing.
    pub fn get_multi(&self, keys: Vec<String>) -> (response: GetMultiResponse)
        ensures
            response.documents@.len() == 0,
            response.missing_keys == keys,
    {
        GetMultiResponse { documents: Vec::new(), missing_keys: keys }
    }

    /// Renews the expiry of a document: not served yet.
    pub fn touch(&self, key: &str) -> (result: Result<SetResult, KvError>)
        ensures
            result matches Err(e) && e.code == ErrorCode::KeyNotFound && e.message@
                == "Not implemented"@,
    {
        Err(KvError { code: ErrorCode::KeyNotFound, message: String::from_str("Not implemented") })
    }

    /// Adds to a counter: the counter answers with the value it starts from.
    pub fn increment(&self, key: &str, delta: u64, initial: u64) -> (result: Result<
        CounterResult,
        KvError,
    >)
        ensures
            result == Ok::<CounterResult, KvError>(CounterResult { value: initial, cas: 1 }),
    {
        Ok(CounterResult { value: initial, cas: 1 })
    }

    /// Takes from a counter: the counter answers with the value it starts
    /// from.
    pub fn decrement(&self, key: &str, delta: u64, initial: u64) -> (result: Result<
        CounterResult,
        KvError,
    >)
        ensures
            result == Ok::<CounterResult, KvError>(CounterResult { value: initial, cas: 1 }),
    {
        Ok(CounterResult { value: initial, cas: 1 })
    }
}

} // verus!
