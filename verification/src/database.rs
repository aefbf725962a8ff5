//! The store protocol: what to write for a document, given what the store
//! already holds under its key.
//!
//! The store itself lives outside this library. It is modelled here as a map
//! from normalised URL to document, and the decision made for each document
//! is proved to keep one record per key and to leave unchanged pages alone.

use crate::document::{Document, DocumentView};
use vstd::prelude::*;

verus! {

/// What the store is to do with a document.
#[derive(Debug, Clone, Copy, PartialEq, Eq, Structural)]
pub enum StoreAction {
    /// Nothing is stored under the document's key: insert it.
    Insert,
    /// The stored record has another fingerprint: replace it.
    Replace,
    /// The stored record has the same fingerprint: write nothing.
    Skip,
}

/// The contents of a store: at most one document under each normalised URL.
pub type Stored = Map<Seq<char>, DocumentView>;

/// The record stored under `key`, if there is one.
pub open spec fn lookup(store: Stored, key: Seq<char>) -> Option<DocumentView> {
    if store.dom().contains(key) {
        Some(store[key])
    } else {
        None
    }
}

/// What is to be done with `doc` when `existing` is stored under its key.
pub open spec fn upsert_action(existing: Option<DocumentView>, doc: DocumentView) -> StoreAction {
    match existing {
        None => StoreAction::Insert,
        Some(found) => if found.content_hash != doc.content_hash {
            StoreAction::Replace
        } else {
            StoreAction::Skip
        },
    }
}

/// The store after `doc` was saved.
pub open spec fn upserted(store: Stored, doc: DocumentView) -> Stored {
    match upsert_action(lookup(store, doc.normalized_url), doc) {
        StoreAction::Skip => store,
        _ => store.insert(doc.normalized_url, doc),
    }
}

/// Every record is stored under its own normalised URL.
pub open spec fn well_keyed(store: Stored) -> bool {
    forall|key: Seq<char>| #[trigger]
        store.dom().contains(key) ==> store[key].normalized_url == key
}

/// Decides what the store is to do with `doc`, given the record `existing`
/// that it holds under the normalised URL of `doc`.
pub fn save_action(existing: Option<&Document>, doc: &Document) -> (action: StoreAction)
    ensures
        action == upsert_action(
            match existing {
                Some(found) => Some(found@),
                None => None,
            },
            doc@,
        ),
{
    match existing {
        None => StoreAction::Insert,
        Some(found) => if found.content_hash == doc.content_hash {
            StoreAction::Skip
        } else {
            StoreAction::Replace
        },
    }
}

/// Whether an export that has written `written` records is to flush its
/// output now: after every hundredth record.
pub fn flush_due(written: usize) -> (due: bool)
    ensures
        due == (written % 100 == 0),
{
    written % 100 == 0
}

/// Saving a document leaves exactly one record under its key, the keys of all
/// other records untouched, and the store well keyed.
pub proof fn lemma_one_record_per_key(store: Stored, doc: DocumentView)
    requires
        well_keyed(store),
    ensures
        well_keyed(upserted(store, doc)),
        upserted(store, doc).dom() == store.dom().insert(doc.normalized_url),
        forall|key: Seq<char>|
            key != doc.normalized_url ==> lookup(upserted(store, doc), key) == lookup(store, key),
        lookup(upserted(store, doc), doc.normalized_url) is Some,
        lookup(upserted(store, doc), doc.normalized_url)->0.content_hash == doc.content_hash,
{
    assert(upserted(store, doc).dom() =~= store.dom().insert(doc.normalized_url));
}

/// Saving the same content twice writes once: the second save of a page with
/// the same key and fingerprint is skipped and leaves the store as it was.
pub proof fn lemma_recrawl_writes_nothing(store: Stored, doc: DocumentView, again: DocumentView)
    requires
        again.normalized_url == doc.normalized_url,
        again.content_hash == doc.content_hash,
    ensures
        upsert_action(lookup(upserted(store, doc), again.normalized_url), again)
            == StoreAction::Skip,
        upserted(upserted(store, doc), again) == upserted(store, doc),
{
}

} // verus!
