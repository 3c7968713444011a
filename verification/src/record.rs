//! Compact wire shapes of the record endpoints: the serialized
//! record payload and the flattened request and response forms.

use vstd::prelude::*;
use crate::crypto::Key;

verus! {

/// A record already serialized for the backend; the core carries it
/// as an opaque payload.
#[derive(Debug)]
pub struct RecordJson(pub String);

/// Flattened record as it travels on the wire.
#[derive(Debug)]
pub struct Record {
    pub title: String,
    pub lang: String,
    pub content: String,
    pub saving_time_seconds: u64,
    pub expiration_seconds: u64,
}

/// Wire form of a save request.
#[derive(Debug)]
pub struct SaveRecordReq {
    pub title: String,
    pub lang: String,
    pub content: String,
    pub expiration_seconds: u64,
}

/// Wire form of a save response.
#[derive(Debug)]
pub struct SaveRecordRes {
    pub key: Key,
}

/// Wire form of a find response: the record fields beside the view
/// count after this read.
#[derive(Debug)]
pub struct FindRecordRes {
    pub title: String,
    pub lang: String,
    pub content: String,
    pub saving_time_seconds: u64,
    pub expiration_seconds: u64,
    pub view_count: u64,
}

impl FindRecordRes {
    /// Pairs a record with its observed view count, field for field.
    pub fn new(record: Record, view_count: u64) -> (r: FindRecordRes)
        ensures
            r.title@ == record.title@,
            r.lang@ == record.lang@,
            r.content@ == record.content@,
            r.saving_time_seconds == record.saving_time_seconds,
            r.expiration_seconds == record.expiration_seconds,
            r.view_count == view_count,
    {
        FindRecordRes {
            title: record.title,
            lang: record.lang,
            content: record.content,
            saving_time_seconds: record.saving_time_seconds,
            expiration_seconds: record.expiration_seconds,
            view_count,
        }
    }
}

} // verus!
