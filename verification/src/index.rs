//! The secondary index service, as far as it goes: it keeps no index yet.
//! Requests to create or drop one are acknowledged, a build reports at once
//! that it is complete, and scans find nothing.

use vstd::prelude::*;
use vstd::string::StringExecFns;
use crate::ack::{done, framed, not_yet, Ack, Unimplemented};
use crate::coordinator::{ReplyView, SourceReply};
use crate::frame::{rows_view, values_view, Value, ValueView};

verus! {

/// What is known of an index.
#[derive(Debug, PartialEq, Eq)]
pub struct IndexInfo {
    pub name: String,
}

/// The answer to a request to create an index.
#[derive(Debug, PartialEq, Eq)]
pub struct CreateIndexResponse {
    pub success: bool,
    pub message: String,
    pub index_info: Option<IndexInfo>,
}

/// The last word of a build.
#[derive(Debug, PartialEq, Eq)]
pub struct BuildComplete {
    pub index_name: String,
    pub total_docs: u64,
    pub duration_ms: u64,
}

/// One entry that a scan found: the key in the index and the document.
#[derive(Debug, PartialEq, Eq)]
pub struct ScanEntry {
    pub key: Vec<u8>,
    pub document_id: String,
}

/// The secondary index service.
#[derive(Debug, Default)]
pub struct IndexServiceImpl {}

impl IndexServiceImpl {
    pub fn create_index(&self, index_name: &str) -> (response: CreateIndexResponse)
        ensures
            response.success,
            response.message@ == "Index '"@ + index_name@ + "' creation initiated"@,
            response.index_info is None,
    {
        CreateIndexResponse {
            success: true,
            message: framed("Index '", index_name, "' creation initiated"),
            index_info: None,
        }
    }

    pub fn drop_index(&self, index_name: &str) -> (response: Ack)
        ensures
            response.success,
            response.message@ == "Index '"@ + index_name@ + "' dropped"@,
    {
        done(framed("Index '", index_name, "' dropped"))
    }

    /// The indexes of a bucket: there are none.
    pub fn list_indexes(&self, bucket: &str) -> (indexes: Vec<IndexInfo>)
        ensures
            indexes@.len() == 0,
    {
        Vec::new()
    }

    /// The statistics of an index: not served yet.
    pub fn get_index_stats(&self, index_name: &str) -> (answer: Unimplemented)
        ensures
            answer.message@ == "Index stats not yet implemented"@,
    {
        not_yet("Index stats not yet implemented")
    }

    /// Builds the indexes of a bucket. The events of the build, in order:
    /// one, which says that it is complete.
    pub fn build_index(&self, bucket: &str) -> (events: Vec<BuildComplete>)
        ensures
            events@.len() == 1,
            events@[0].index_name@ == "placeholder"@,
            events@[0].total_docs == 0,
            events@[0].duration_ms == 0,
    {
        let mut events: Vec<BuildComplete> = Vec::new();
        events.push(
            BuildComplete {
                index_name: String::from_str("placeholder"),
                total_docs: 0,
                duration_ms: 0,
            },
        );
        events
    }

    /// The entries of an index: there are none.
    pub fn scan(&self, index_name: &str) -> (entries: Vec<ScanEntry>)
        ensures
            entries@.len() == 0,
    {
        Vec::new()
    }

    /// The entries of an index within a range: there are none.
    pub fn range_scan(&self, index_name: &str) -> (entries: Vec<ScanEntry>)
        ensures
            entries@.len() == 0,
    {
        Vec::new()
    }
}

/// The names of fields, each by its view.
pub open spec fn names_view(names: Seq<String>) -> Seq<Seq<char>> {
    names.map_values(|n: String| n@)
}

/// The row that an entry of an index gives for the fields asked for: its
/// document for the field `id`, nothing for any other.
pub open spec fn entry_row_spec(document_id: Seq<char>, fields: Seq<Seq<char>>) -> Seq<ValueView> {
    Seq::new(
        fields.len(),
        |i: int|
            if fields[i] == "id"@ {
                ValueView::Text(document_id)
            } else {
                ValueView::Null
            },
    )
}

/// The rows that the entries of an index give for the fields asked for, in
/// the order of the entries.
pub open spec fn entry_rows_spec(entries: Seq<ScanEntry>, fields: Seq<Seq<char>>) -> Seq<
    Seq<ValueView>,
> {
    Seq::new(entries.len(), |i: int| entry_row_spec(entries[i].document_id@, fields))
}

/// The row that an entry gives for the fields asked for.
pub fn entry_row(entry: &ScanEntry, fields: &Vec<String>) -> (row: Vec<Value>)
    ensures
        values_view(row@) == entry_row_spec(entry.document_id@, names_view(fields@)),
{
    let id = String::from_str("id");
    let mut row: Vec<Value> = Vec::new();
    let mut i: usize = 0;
    while i < fields.len()
        invariant
            i <= fields.len(),
            row.len() == i,
            id@ == "id"@,
            forall|j: int|
                0 <= j < i ==> row[j]@ == entry_row_spec(
                    entry.document_id@,
                    names_view(fields@),
                )[j],
        decreases fields.len() - i,
    {
        if fields[i] == id {
            row.push(Value::Text(entry.document_id.clone()));
        } else {
            row.push(Value::Null);
        }
        i = i + 1;
    }
    assert(values_view(row@) =~= entry_row_spec(entry.document_id@, names_view(fields@)));
    row
}

/// What a scan of an index answers to an execution that asked for the
/// fields: the rows of its entries, and that no more follow.
pub fn scan_reply(entries: &Vec<ScanEntry>, fields: &Vec<String>) -> (reply: SourceReply)
    ensures
        reply@ == (ReplyView::Rows {
            rows: entry_rows_spec(entries@, names_view(fields@)),
            done: true,
        }),
{
    let mut rows: Vec<Vec<Value>> = Vec::new();
    let mut i: usize = 0;
    while i < entries.len()
        invariant
            i <= entries.len(),
            rows.len() == i,
            forall|j: int|
                0 <= j < i ==> values_view(rows[j]@) == entry_rows_spec(
                    entries@,
                    names_view(fields@),
                )[j],
        decreases entries.len() - i,
    {
        rows.push(entry_row(&entries[i], fields));
        i = i + 1;
    }
    assert(rows_view(rows@) =~= entry_rows_spec(entries@, names_view(fields@)));
    SourceReply::Rows { rows, done: true }
}

} // verus!
