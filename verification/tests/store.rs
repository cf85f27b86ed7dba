use load_s3_agent::error::ErrorKind;
use load_s3_agent::index::{index_dataitem, TagIndex};
use load_s3_agent::paging::query_dataitems_by_tags;
use load_s3_agent::query::TagQueryPagination;
use load_s3_agent::store::{
    envelope_key, name_tagging, owns_bucket, private_key, private_store_step, raw_key, store_step,
    PrivateCommand, PrivateEvent, PrivateFailure, PrivateStage, StoreCommand, StoreEvent,
    StoreFailure, StoreStage, OBJECT_SIZE_LIMIT, PRESIGNED_URL_EXPIRY,
};
use load_s3_agent::tags::compose_tags;
use load_s3_agent::time::Timestamp;
use std::collections::BTreeMap;

/// A blob store in memory; writes under the keys in `failing` fail.
struct Blobs {
    held: BTreeMap<String, Vec<u8>>,
    failing: Vec<String>,
}

impl Blobs {
    fn put(&mut self, key: String, bytes: Vec<u8>) -> bool {
        if self.failing.contains(&key) {
            return false;
        }
        self.held.insert(key, bytes);
        true
    }
}

/// A stand-in for the envelope codec: tags and body, each length-prefixed.
fn seal(tags: &[(String, String)], body: &[u8]) -> Vec<u8> {
    let mut out = vec![tags.len() as u8];
    for (k, v) in tags {
        out.push(k.len() as u8);
        out.extend_from_slice(k.as_bytes());
        out.push(v.len() as u8);
        out.extend_from_slice(v.as_bytes());
    }
    out.extend_from_slice(body);
    out
}

fn unseal(bytes: &[u8]) -> (Vec<(String, String)>, Vec<u8>) {
    let mut tags = Vec::new();
    let mut at = 1;
    for _ in 0..bytes[0] {
        let k = bytes[at] as usize;
        let key = String::from_utf8(bytes[at + 1..at + 1 + k].to_vec()).unwrap();
        at += 1 + k;
        let v = bytes[at] as usize;
        let value = String::from_utf8(bytes[at + 1..at + 1 + v].to_vec()).unwrap();
        at += 1 + v;
        tags.push((key, value));
    }
    (tags, bytes[at..].to_vec())
}

/// Performs a store operation as the commands of `store_step` ask for it.
fn run_store(
    blobs: &mut Blobs,
    index: &mut TagIndex,
    index_works: bool,
    id: &str,
    body: &[u8],
    content_type: &str,
    tags: &[(String, String)],
) -> Result<(String, bool), StoreFailure> {
    let mut stage = StoreStage::Ready;
    let mut event = StoreEvent::Start;
    loop {
        let (next, command) = store_step(stage, event);
        stage = next;
        event = match command {
            StoreCommand::PutEnvelope => {
                if blobs.put(envelope_key("envelopes", id), seal(tags, body)) {
                    StoreEvent::WriteOk
                } else {
                    StoreEvent::WriteFailed
                }
            }
            StoreCommand::PutRaw => {
                if blobs.put(raw_key("raw", id), body.to_vec()) {
                    StoreEvent::WriteOk
                } else {
                    StoreEvent::WriteFailed
                }
            }
            StoreCommand::IndexTags => {
                if index_works {
                    index_dataitem(index, id, content_type, tags, Timestamp { secs: 1, nanos: 0 });
                    StoreEvent::IndexOk
                } else {
                    StoreEvent::IndexFailed
                }
            }
            StoreCommand::Finish { indexed } => return Ok((id.to_string(), indexed)),
            StoreCommand::Fail { failure } => return Err(failure),
        };
    }
}

fn tag(k: &str, v: &str) -> (String, String) {
    (k.to_string(), v.to_string())
}

#[test]
fn raw_write_failure_leaves_the_envelope_in_place() {
    let mut blobs = Blobs { held: BTreeMap::new(), failing: vec!["raw/item-1".to_string()] };
    let mut index = TagIndex::new();
    let tags = compose_tags(&[tag("type", "image")], "image/png", &Vec::new());
    let body = b"the body".to_vec();
    let outcome = run_store(&mut blobs, &mut index, true, "item-1", &body, "image/png", &tags);
    assert_eq!(outcome, Err(StoreFailure::RawWrite));
    assert_eq!(StoreFailure::RawWrite.kind(), ErrorKind::BackendError);
    // the raw copy cannot be resolved, the envelope can, with body and tags
    assert!(!blobs.held.contains_key("raw/item-1"));
    let envelope = blobs.held.get("envelopes/item-1.ans104").unwrap();
    assert_eq!(unseal(envelope), (tags, body));
    // the tags were not indexed
    assert_eq!(index.len(), 0);
}

#[test]
fn envelope_write_failure_stores_nothing() {
    let mut blobs =
        Blobs { held: BTreeMap::new(), failing: vec!["envelopes/item-1.ans104".to_string()] };
    let mut index = TagIndex::new();
    let outcome = run_store(&mut blobs, &mut index, true, "item-1", b"x", "a/b", &[tag("k", "v")]);
    assert_eq!(outcome, Err(StoreFailure::EnvelopeWrite));
    assert!(blobs.held.is_empty());
    assert_eq!(index.len(), 0);
}

#[test]
fn successful_store_writes_both_blobs_and_indexes() {
    let mut blobs = Blobs { held: BTreeMap::new(), failing: Vec::new() };
    let mut index = TagIndex::new();
    let tags = compose_tags(&[tag("type", "image")], "image/png", &Vec::new());
    let outcome = run_store(&mut blobs, &mut index, true, "item-1", b"body", "image/png", &tags);
    assert_eq!(outcome, Ok(("item-1".to_string(), true)));
    assert_eq!(blobs.held.get("raw/item-1"), Some(&b"body".to_vec()));
    assert!(blobs.held.contains_key("envelopes/item-1.ans104"));
    let page = query_dataitems_by_tags(
        &index,
        &[tag("type", "image")],
        &TagQueryPagination { first: 10, after: None },
    )
    .unwrap();
    assert_eq!(page.items.len(), 1);
    assert_eq!(page.items[0].dataitem_id, "item-1");
    assert_eq!(page.items[0].content_type, "image/png");
}

#[test]
fn index_failure_does_not_fail_the_store() {
    let mut blobs = Blobs { held: BTreeMap::new(), failing: Vec::new() };
    let mut index = TagIndex::new();
    let outcome = run_store(&mut blobs, &mut index, false, "item-1", b"body", "a/b", &[tag("k", "v")]);
    assert_eq!(outcome, Ok(("item-1".to_string(), false)));
    assert_eq!(blobs.held.len(), 2);
    assert_eq!(index.len(), 0);
}

#[test]
fn store_steps_follow_the_table() {
    assert_eq!(store_step(StoreStage::Ready, StoreEvent::Start), (StoreStage::EnvelopePending, StoreCommand::PutEnvelope));
    assert_eq!(store_step(StoreStage::EnvelopePending, StoreEvent::WriteOk), (StoreStage::RawPending, StoreCommand::PutRaw));
    assert_eq!(
        store_step(StoreStage::EnvelopePending, StoreEvent::WriteFailed),
        (StoreStage::Failed, StoreCommand::Fail { failure: StoreFailure::EnvelopeWrite })
    );
    assert_eq!(store_step(StoreStage::RawPending, StoreEvent::WriteOk), (StoreStage::IndexPending, StoreCommand::IndexTags));
    assert_eq!(
        store_step(StoreStage::RawPending, StoreEvent::WriteFailed),
        (StoreStage::Failed, StoreCommand::Fail { failure: StoreFailure::RawWrite })
    );
    assert_eq!(store_step(StoreStage::IndexPending, StoreEvent::IndexOk), (StoreStage::Stored, StoreCommand::Finish { indexed: true }));
    assert_eq!(
        store_step(StoreStage::IndexPending, StoreEvent::IndexFailed),
        (StoreStage::Stored, StoreCommand::Finish { indexed: false })
    );
    let out_of_turn = (StoreStage::Failed, StoreCommand::Fail { failure: StoreFailure::OutOfTurn });
    assert_eq!(store_step(StoreStage::Ready, StoreEvent::WriteOk), out_of_turn);
    assert_eq!(store_step(StoreStage::EnvelopePending, StoreEvent::IndexOk), out_of_turn);
    assert_eq!(store_step(StoreStage::RawPending, StoreEvent::Start), out_of_turn);
    assert_eq!(store_step(StoreStage::IndexPending, StoreEvent::WriteOk), out_of_turn);
    assert_eq!(store_step(StoreStage::Stored, StoreEvent::Start), out_of_turn);
    assert_eq!(store_step(StoreStage::Failed, StoreEvent::WriteOk), out_of_turn);
}

#[test]
fn keys_are_derived_from_the_item_id() {
    assert_eq!(envelope_key("dataitems", "abc"), "dataitems/abc.ans104");
    assert_eq!(raw_key("raw", "abc"), "raw/abc");
    assert_eq!(private_key("photos", "abc"), "photos/abc.ans104");
    assert_eq!(private_key("", "abc"), "abc.ans104");
    assert_eq!(name_tagging("my file"), "dataitem-name=my file");
    assert_eq!(name_tagging(""), "dataitem-name=");
    assert_eq!(PRESIGNED_URL_EXPIRY, 3600);
    assert_eq!(OBJECT_SIZE_LIMIT, 250 * 1024 * 1024);
}

#[test]
fn owner_is_the_one_the_authority_names() {
    assert!(owns_bucket(Some("my-bucket"), "my-bucket"));
    assert!(!owns_bucket(Some("other"), "my-bucket"));
    assert!(!owns_bucket(Some("My-Bucket"), "my-bucket"));
    assert!(!owns_bucket(None, "my-bucket"));
    assert!(!owns_bucket(None, ""));
}

#[test]
fn private_store_checks_the_owner_before_any_write() {
    assert_eq!(private_store_step(PrivateStage::Ready, PrivateEvent::Start, "n"), (PrivateStage::OwnerPending, PrivateCommand::CheckOwner));
    assert_eq!(
        private_store_step(PrivateStage::OwnerPending, PrivateEvent::OwnerAnswer { owner: false }, "n"),
        (PrivateStage::Failed, PrivateCommand::Fail { failure: PrivateFailure::NotOwner })
    );
    assert_eq!(
        private_store_step(PrivateStage::OwnerPending, PrivateEvent::OwnerUnknown, "n"),
        (PrivateStage::Failed, PrivateCommand::Fail { failure: PrivateFailure::OwnerCheck })
    );
    assert_eq!(
        private_store_step(PrivateStage::OwnerPending, PrivateEvent::OwnerAnswer { owner: true }, "n"),
        (PrivateStage::WritePending, PrivateCommand::PutEnvelope)
    );
    assert_eq!(
        private_store_step(PrivateStage::Ready, PrivateEvent::WriteOk, "n"),
        (PrivateStage::Failed, PrivateCommand::Fail { failure: PrivateFailure::OutOfTurn })
    );
    assert_eq!(PrivateFailure::NotOwner.kind(), ErrorKind::Unauthorized);
    assert_eq!(PrivateFailure::OwnerCheck.kind(), ErrorKind::BackendError);
    assert_eq!(PrivateFailure::Write.kind(), ErrorKind::BackendError);
}

#[test]
fn private_store_records_only_a_given_name() {
    assert_eq!(private_store_step(PrivateStage::WritePending, PrivateEvent::WriteOk, "photo"), (PrivateStage::NamePending, PrivateCommand::RecordName));
    assert_eq!(private_store_step(PrivateStage::WritePending, PrivateEvent::WriteOk, ""), (PrivateStage::Stored, PrivateCommand::Finish));
    assert_eq!(
        private_store_step(PrivateStage::WritePending, PrivateEvent::WriteFailed, "photo"),
        (PrivateStage::Failed, PrivateCommand::Fail { failure: PrivateFailure::Write })
    );
    assert_eq!(private_store_step(PrivateStage::NamePending, PrivateEvent::NameOk, "photo"), (PrivateStage::Stored, PrivateCommand::Finish));
    assert_eq!(
        private_store_step(PrivateStage::NamePending, PrivateEvent::NameFailed, "photo"),
        (PrivateStage::Failed, PrivateCommand::Fail { failure: PrivateFailure::Registry })
    );
}

#[test]
fn error_kinds_have_their_status() {
    assert_eq!(ErrorKind::InvalidInput.status(), 400);
    assert_eq!(ErrorKind::Unauthorized.status(), 401);
    assert_eq!(ErrorKind::BackendError.status(), 500);
    assert_eq!(ErrorKind::ConfigurationError.status(), 500);
}
