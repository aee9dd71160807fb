//! The collection as a document: which of its parts are the entries, how
//! the entries become records, and how records are written out again.

use crate::json::{
    into_items, json_of, jsons_of, member, parse_json, parsed, pretty, take_member, write_pretty,
    Json,
};
use crate::loader::{beginning, parse_failure, LoadError, PREVIEW_CHARS};
use crate::record::{record_of, views, Record, RecordView};
use vstd::prelude::*;

verus! {

/// The entries of a collection. A collection is either the list of its
/// entries or an object whose member `data` is that list.
pub open spec fn entries_of(doc: Json) -> Option<Seq<Json>> {
    match doc {
        Json::List(items) => Some(items),
        _ => match member(doc, "data"@) {
            Some(Json::List(items)) => Some(items),
            _ => None,
        },
    }
}

/// The records that the entries are read as, in the same order.
pub open spec fn records_of(entries: Seq<Json>) -> Seq<RecordView> {
    entries.map_values(|entry: Json| record_of(entry))
}

/// The entries that the records hold, in the same order.
pub open spec fn entries_in(records: Seq<RecordView>) -> Seq<Json> {
    records.map_values(|r: RecordView| r.entry)
}

/// Why the records could not be written.
#[derive(Debug, Clone, Copy, PartialEq, Eq)]
pub enum WriteError {
    /// The records cannot be written as JSON.
    Encode,
}

/// Takes the entries out of a collection.
pub fn into_entries(doc: serde_json::Value) -> (entries: Option<Vec<serde_json::Value>>)
    ensures
        match entries {
            Some(items) => entries_of(json_of(doc)) == Some(jsons_of(items@)),
            None => entries_of(json_of(doc)) is None,
        },
{
    match into_items(doc) {
        Ok(items) => Some(items),
        Err(other) => match take_member(other, "data") {
            Some(inner) => match into_items(inner) {
                Ok(items) => Some(items),
                Err(_) => None,
            },
            None => None,
        },
    }
}

/// Reads each entry as a record.
pub fn read_entries(entries: Vec<serde_json::Value>) -> (records: Vec<Record>)
    ensures
        views(records@) == records_of(jsons_of(entries@)),
{
    let ghost given = jsons_of(entries@);
    let mut records: Vec<Record> = Vec::new();
    for entry in it: entries
        invariant
            given == jsons_of(entries@),
            it.seq() == entries@,
            views(records@) == records_of(given.take(it.index() as int)),
    {
        let ghost done = it.index() as int;
        assert(entry == entries@[done]);
        let ghost before = views(records@);
        let record = Record::from_entry(entry);
        assert(record@ == record_of(given[done]));
        records.push(record);
        assert(views(records@) =~= before.push(record@));
        assert(given.take(done + 1) =~= given.take(done).push(given[done]));
        assert(records_of(given.take(done).push(given[done])) =~= before.push(
            record_of(given[done]),
        ));
    }
    assert(given.take(entries@.len() as int) =~= given);
    records
}

/// What is said of a document that is no collection.
pub open spec fn no_collection() -> Seq<char> {
    "neither a list of entries nor an object with one in `data`"@
}

/// The records that a text is loaded as: the text is parsed as one JSON
/// document, and the entries of that collection are read one by one. Where
/// the text is no JSON document or the document no collection, the reason.
pub open spec fn loaded(text: Seq<char>) -> Result<Seq<RecordView>, Seq<char>> {
    match parsed(text) {
        Ok(doc) => match entries_of(doc) {
            Some(entries) => Ok(records_of(entries)),
            None => Err(no_collection()),
        },
        Err(complaint) => Err(complaint),
    }
}

/// Loads the records from the content of a file. Fails where the content is
/// no JSON document or the document no collection; the error then holds
/// the reason and the beginning of the content.
pub fn load_records(content: &str) -> (outcome: Result<Vec<Record>, LoadError>)
    ensures
        match loaded(content@) {
            Ok(records) => outcome is Ok && views(outcome->Ok_0@) == records,
            Err(why) => outcome matches Err(LoadError::Parse { reason, preview }) && reason@
                == why && preview@ == beginning(content@, PREVIEW_CHARS as int),
        },
{
    match parse_json(content) {
        Ok(doc) => match into_entries(doc) {
            Some(entries) => Ok(read_entries(entries)),
            None => {
                let reason = "neither a list of entries nor an object with one in `data`";
                Err(parse_failure(reason, content))
            },
        },
        Err(complaint) => Err(parse_failure(complaint.as_str(), content)),
    }
}

/// Writes the entries of the records, in their order and with every field
/// they were loaded with, as one indented JSON array.
pub fn render_records(records: Vec<Record>) -> (outcome: Result<String, WriteError>)
    ensures
        match pretty(entries_in(views(records@))) {
            Some(text) => outcome is Ok && outcome->Ok_0@ == text,
            None => outcome == Err::<String, WriteError>(WriteError::Encode),
        },
{
    let ghost given = entries_in(views(records@));
    let mut entries: Vec<serde_json::Value> = Vec::new();
    for record in it: records
        invariant
            given == entries_in(views(records@)),
            it.seq() == records@,
            jsons_of(entries@) == given.take(it.index() as int),
    {
        let ghost done = it.index() as int;
        let ghost before = jsons_of(entries@);
        assert(record == records@[done]);
        entries.push(record.entry);
        assert(jsons_of(entries@) =~= before.push(given[done]));
        assert(given.take(done + 1) =~= given.take(done).push(given[done]));
    }
    assert(given.take(records@.len() as int) =~= given);
    match write_pretty(&entries) {
        Some(text) => Ok(text),
        None => Err(WriteError::Encode),
    }
}

} // verus!
