//! Request and response shapes of the record service, as plain
//! values. The JSON layer around the service converts to and from
//! these.

use vstd::prelude::*;
use crate::crypto::Key;
use crate::time::UnixTimestamp;

verus! {

/// Ghost image of a record: what the contracts say about one.
#[verifier::ext_equal]
pub ghost struct RecordView {
    pub title: Seq<char>,
    pub lang: Seq<char>,
    pub content: Seq<char>,
    pub expiration_seconds: u32,
    pub saving_time: u64,
}

/// A stored paste: immutable once saved.
#[derive(Debug)]
pub struct Record {
    pub title: String,
    pub lang: String,
    pub content: String,
    pub expiration_seconds: u32,
    pub saving_time: UnixTimestamp,
}

impl View for Record {
    type V = RecordView;

    open spec fn view(&self) -> RecordView {
        RecordView {
            title: self.title@,
            lang: self.lang@,
            content: self.content@,
            expiration_seconds: self.expiration_seconds,
            saving_time: self.saving_time.spec_seconds(),
        }
    }
}

impl Clone for Record {
    fn clone(&self) -> (r: Record)
        ensures
            r@ == self@,
    {
        Record {
            title: self.title.clone(),
            lang: self.lang.clone(),
            content: self.content.clone(),
            expiration_seconds: self.expiration_seconds,
            saving_time: self.saving_time,
        }
    }
}

/// What a save request carries.
#[derive(Debug)]
pub struct SaveRecordInput {
    pub title: String,
    pub lang: String,
    pub content: String,
    pub expiration_seconds: u32,
}

/// What a successful save returns: the fresh key.
#[derive(Debug)]
pub struct SaveRecordOutput {
    pub key: Key,
}

/// What a find request carries: the key string as the client sent
/// it, in any letter case.
#[derive(Debug)]
pub struct FindRecordInput {
    pub key: String,
}

/// What a successful find returns: the record and its view count
/// after this read.
#[derive(Debug)]
pub struct FindRecordOutput {
    pub record: Record,
    pub view_count: u64,
}

} // verus!
