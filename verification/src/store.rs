//! The dual-write store: under which keys an item is kept, and in which
//! order the writes of a store operation are made.
//!
//! An item is kept twice: as its envelope and as its raw body. The two
//! writes are separate operations. The envelope is written first; an item
//! whose envelope is written exists, whether or not the raw body follows.
//! The tag index is written last, and its failure does not fail the store
//! operation. The caller performs each command and reports what came of it.

use crate::error::ErrorKind;
use vstd::prelude::*;
use vstd::string::StringExecFns;

verus! {

/// Seconds for which a retrieval URL is valid.
pub const PRESIGNED_URL_EXPIRY: u64 = 3600;

/// Largest body of an item, in bytes: 250 MiB.
pub const OBJECT_SIZE_LIMIT: usize = 262144000;

/// The key of the envelope of an item: `{dir}/{id}.ans104`.
pub open spec fn envelope_key_text(dir: Seq<char>, id: Seq<char>) -> Seq<char> {
    dir + "/"@ + id + ".ans104"@
}

/// The key of the raw body of an item: `{raw_dir}/{id}`.
pub open spec fn raw_key_text(raw_dir: Seq<char>, id: Seq<char>) -> Seq<char> {
    raw_dir + "/"@ + id
}

/// The key of the envelope of an item of a private collection:
/// `{folder}/{id}.ans104`, or `{id}.ans104` where no folder is named.
pub open spec fn private_key_text(folder: Seq<char>, id: Seq<char>) -> Seq<char> {
    if folder.len() > 0 {
        folder + "/"@ + id + ".ans104"@
    } else {
        id + ".ans104"@
    }
}

/// The tagging of the envelope of an item of a private collection:
/// `dataitem-name={name}`.
pub open spec fn name_tagging_text(name: Seq<char>) -> Seq<char> {
    "dataitem-name="@ + name
}

/// The key of the envelope of an item.
pub fn envelope_key(dir: &str, id: &str) -> (key: String)
    ensures
        key@ == envelope_key_text(dir@, id@),
{
    let mut key = String::new();
    key.append(dir);
    assert(key@ == dir@);
    key.append("/");
    key.append(id);
    key.append(".ans104");
    key
}

/// The key of the raw body of an item.
pub fn raw_key(raw_dir: &str, id: &str) -> (key: String)
    ensures
        key@ == raw_key_text(raw_dir@, id@),
{
    let mut key = String::new();
    key.append(raw_dir);
    assert(key@ == raw_dir@);
    key.append("/");
    key.append(id);
    key
}

/// The key of the envelope of an item of a private collection.
pub fn private_key(folder: &str, id: &str) -> (key: String)
    ensures
        key@ == private_key_text(folder@, id@),
{
    let mut key = String::new();
    if !folder.is_empty() {
        key.append(folder);
        assert(key@ == folder@);
        key.append("/");
        key.append(id);
    } else {
        key.append(id);
        assert(key@ == id@);
    }
    key.append(".ans104");
    key
}

/// The tagging of the envelope of an item of a private collection.
pub fn name_tagging(name: &str) -> (tagging: String)
    ensures
        tagging@ == name_tagging_text(name@),
{
    let mut tagging = String::new();
    tagging.append("dataitem-name=");
    assert(tagging@ == "dataitem-name="@);
    tagging.append(name);
    tagging
}

/// How far a store operation has come.
#[derive(Debug, Clone, Copy, PartialEq, Eq, Structural)]
pub enum StoreStage {
    /// Nothing was done yet.
    Ready,
    /// The envelope is being written.
    EnvelopePending,
    /// The envelope is written; the raw body is being written.
    RawPending,
    /// Both are written; the tags are being indexed.
    IndexPending,
    /// The item is stored.
    Stored,
    /// The operation has failed.
    Failed,
}

/// What came of the last command.
#[derive(Debug, Clone, Copy, PartialEq, Eq, Structural)]
pub enum StoreEvent {
    /// The operation begins.
    Start,
    /// The blob was written.
    WriteOk,
    /// The blob was not written.
    WriteFailed,
    /// The tags were indexed.
    IndexOk,
    /// The tags were not indexed.
    IndexFailed,
}

/// Why a store operation failed.
#[derive(Debug, Clone, Copy, PartialEq, Eq, Structural)]
pub enum StoreFailure {
    /// The envelope was not written: nothing of the item exists.
    EnvelopeWrite,
    /// The raw body was not written: the item exists in its envelope only.
    RawWrite,
    /// An event came that the stage does not expect.
    OutOfTurn,
}

impl StoreFailure {
    /// The kind of the failure.
    pub fn kind(&self) -> (kind: ErrorKind)
        ensures
            kind == ErrorKind::BackendError,
    {
        ErrorKind::BackendError
    }
}

/// What the caller is to do next.
#[derive(Debug, Clone, Copy, PartialEq, Eq, Structural)]
pub enum StoreCommand {
    /// Write the envelope under the envelope key, as `application/octet-stream`.
    PutEnvelope,
    /// Write the raw body under the raw key, with the item's content type.
    PutRaw,
    /// Index the item's tags.
    IndexTags,
    /// Answer with the item's id; `indexed` tells whether the tags were indexed.
    Finish { indexed: bool },
    /// Answer with the failure. Nothing that was written is taken back.
    Fail { failure: StoreFailure },
}

/// The stage and the command that follow an event.
pub open spec fn store_next(stage: StoreStage, event: StoreEvent) -> (StoreStage, StoreCommand) {
    match (stage, event) {
        (StoreStage::Ready, StoreEvent::Start) => (
            StoreStage::EnvelopePending,
            StoreCommand::PutEnvelope,
        ),
        (StoreStage::EnvelopePending, StoreEvent::WriteOk) => (
            StoreStage::RawPending,
            StoreCommand::PutRaw,
        ),
        (StoreStage::EnvelopePending, StoreEvent::WriteFailed) => (
            StoreStage::Failed,
            StoreCommand::Fail { failure: StoreFailure::EnvelopeWrite },
        ),
        (StoreStage::RawPending, StoreEvent::WriteOk) => (
            StoreStage::IndexPending,
            StoreCommand::IndexTags,
        ),
        (StoreStage::RawPending, StoreEvent::WriteFailed) => (
            StoreStage::Failed,
            StoreCommand::Fail { failure: StoreFailure::RawWrite },
        ),
        (StoreStage::IndexPending, StoreEvent::IndexOk) => (
            StoreStage::Stored,
            StoreCommand::Finish { indexed: true },
        ),
        (StoreStage::IndexPending, StoreEvent::IndexFailed) => (
            StoreStage::Stored,
            StoreCommand::Finish { indexed: false },
        ),
        _ => (StoreStage::Failed, StoreCommand::Fail { failure: StoreFailure::OutOfTurn }),
    }
}

/// Decides what follows an event of a store operation.
pub fn store_step(stage: StoreStage, event: StoreEvent) -> (r: (StoreStage, StoreCommand))
    ensures
        r == store_next(stage, event),
{
    match (stage, event) {
        (StoreStage::Ready, StoreEvent::Start) => (
            StoreStage::EnvelopePending,
            StoreCommand::PutEnvelope,
        ),
        (StoreStage::EnvelopePending, StoreEvent::WriteOk) => (
            StoreStage::RawPending,
            StoreCommand::PutRaw,
        ),
        (StoreStage::EnvelopePending, StoreEvent::WriteFailed) => (
            StoreStage::Failed,
            StoreCommand::Fail { failure: StoreFailure::EnvelopeWrite },
        ),
        (StoreStage::RawPending, StoreEvent::WriteOk) => (
            StoreStage::IndexPending,
            StoreCommand::IndexTags,
        ),
        (StoreStage::RawPending, StoreEvent::WriteFailed) => (
            StoreStage::Failed,
            StoreCommand::Fail { failure: StoreFailure::RawWrite },
        ),
        (StoreStage::IndexPending, StoreEvent::IndexOk) => (
            StoreStage::Stored,
            StoreCommand::Finish { indexed: true },
        ),
        (StoreStage::IndexPending, StoreEvent::IndexFailed) => (
            StoreStage::Stored,
            StoreCommand::Finish { indexed: false },
        ),
        _ => (StoreStage::Failed, StoreCommand::Fail { failure: StoreFailure::OutOfTurn }),
    }
}

/// The stage that a store operation has reached after the events.
pub open spec fn store_stage_after(events: Seq<StoreEvent>) -> StoreStage
    decreases events.len(),
{
    if events.len() == 0 {
        StoreStage::Ready
    } else {
        store_next(store_stage_after(events.drop_last()), events.last()).0
    }
}

/// The command that the last of the events is answered with.
pub open spec fn store_command_after(events: Seq<StoreEvent>) -> StoreCommand
    recommends
        events.len() > 0,
{
    store_next(store_stage_after(events.drop_last()), events.last()).1
}

/// The stage tells which events have led to it.
pub proof fn lemma_store_stage(events: Seq<StoreEvent>)
    ensures
        match store_stage_after(events) {
            StoreStage::Ready => events.len() == 0,
            StoreStage::EnvelopePending => events == seq![StoreEvent::Start],
            StoreStage::RawPending => events == seq![StoreEvent::Start, StoreEvent::WriteOk],
            StoreStage::IndexPending => events == seq![
                StoreEvent::Start,
                StoreEvent::WriteOk,
                StoreEvent::WriteOk,
            ],
            StoreStage::Stored => events.len() == 4 && events.take(3) == seq![
                StoreEvent::Start,
                StoreEvent::WriteOk,
                StoreEvent::WriteOk,
            ],
            StoreStage::Failed => events.len() > 0,
        },
    decreases events.len(),
{
    if events.len() > 0 {
        lemma_store_stage(events.drop_last());
        let front = events.drop_last();
        assert(events == front.push(events.last()));
        if store_stage_after(events) == StoreStage::Stored {
            assert(events.take(3) == front);
        }
    }
}

/// The order of the writes: the raw body is written only after the
/// envelope was written, the tags are indexed only after both blobs were
/// written, and the operation finishes only after both blobs were written
/// and the index was tried. `indexed` tells what came of the index.
pub proof fn law_store_order(events: Seq<StoreEvent>)
    requires
        events.len() > 0,
    ensures
        store_command_after(events) == StoreCommand::PutEnvelope ==> events == seq![
            StoreEvent::Start,
        ],
        store_command_after(events) == StoreCommand::PutRaw ==> events == seq![
            StoreEvent::Start,
            StoreEvent::WriteOk,
        ],
        store_command_after(events) == StoreCommand::IndexTags ==> events == seq![
            StoreEvent::Start,
            StoreEvent::WriteOk,
            StoreEvent::WriteOk,
        ],
        forall|indexed: bool|
            store_command_after(events) == (StoreCommand::Finish { indexed }) ==> events == seq![
                StoreEvent::Start,
                StoreEvent::WriteOk,
                StoreEvent::WriteOk,
                if indexed {
                    StoreEvent::IndexOk
                } else {
                    StoreEvent::IndexFailed
                },
            ],
{
    let front = events.drop_last();
    lemma_store_stage(front);
    assert(events == front.push(events.last()));
}

/// A failed write ends the operation: where the envelope is not written
/// the failure says so and nothing else was commanded; where the raw body
/// is not written the envelope was written before, and the failure names
/// the raw write.
pub proof fn law_store_failures(events: Seq<StoreEvent>)
    requires
        events.len() > 0,
    ensures
        store_command_after(events) == (StoreCommand::Fail {
            failure: StoreFailure::EnvelopeWrite,
        }) <==> events == seq![StoreEvent::Start, StoreEvent::WriteFailed],
        store_command_after(events) == (StoreCommand::Fail { failure: StoreFailure::RawWrite })
            <==> events == seq![StoreEvent::Start, StoreEvent::WriteOk, StoreEvent::WriteFailed],
{
    let front = events.drop_last();
    lemma_store_stage(front);
    assert(events == front.push(events.last()));
    let one = seq![StoreEvent::Start];
    let two = seq![StoreEvent::Start, StoreEvent::WriteOk];
    assert(one.drop_last() == Seq::<StoreEvent>::empty());
    assert(store_stage_after(one.drop_last()) == StoreStage::Ready);
    assert(store_stage_after(one) == StoreStage::EnvelopePending);
    assert(two.drop_last() == one);
    assert(store_stage_after(two) == StoreStage::RawPending);
    if events =~= seq![StoreEvent::Start, StoreEvent::WriteFailed] {
        assert(front =~= one);
    }
    if events =~= seq![StoreEvent::Start, StoreEvent::WriteOk, StoreEvent::WriteFailed] {
        assert(front =~= two);
    }
    if store_command_after(events) == (StoreCommand::Fail { failure: StoreFailure::EnvelopeWrite }) {
        assert(front == one);
        assert(events =~= seq![StoreEvent::Start, StoreEvent::WriteFailed]);
    }
    if store_command_after(events) == (StoreCommand::Fail { failure: StoreFailure::RawWrite }) {
        assert(front == two);
        assert(events =~= seq![StoreEvent::Start, StoreEvent::WriteOk, StoreEvent::WriteFailed]);
    }
}

/// Whether the authority's answer shows the caller as the owner of the
/// collection: the answer names a collection, and it is this one.
pub open spec fn shows_owner(reported: Option<Seq<char>>, bucket_name: Seq<char>) -> bool {
    reported == Some(bucket_name)
}

/// Whether the authority's answer shows the caller as the owner of the
/// collection.
pub fn owns_bucket(reported: Option<&str>, bucket_name: &str) -> (r: bool)
    ensures
        r == shows_owner(
            match reported {
                Some(name) => Some(name@),
                None => None,
            },
            bucket_name@,
        ),
{
    match reported {
        Some(name) => crate::text::str_eq(name, bucket_name),
        None => false,
    }
}

/// How far a store operation on a private collection has come.
#[derive(Debug, Clone, Copy, PartialEq, Eq, Structural)]
pub enum PrivateStage {
    /// Nothing was done yet.
    Ready,
    /// The authority is being asked whether the caller owns the collection.
    OwnerPending,
    /// The caller owns the collection; the envelope is being written.
    WritePending,
    /// The envelope is written; the item's name is being recorded.
    NamePending,
    /// The item is stored.
    Stored,
    /// The operation has failed.
    Failed,
}

/// What came of the last command of a store operation on a private collection.
#[derive(Debug, Clone, Copy, PartialEq, Eq, Structural)]
pub enum PrivateEvent {
    /// The operation begins.
    Start,
    /// The authority has answered: the caller owns the collection, or not.
    OwnerAnswer { owner: bool },
    /// The authority could not be asked.
    OwnerUnknown,
    /// The envelope was written.
    WriteOk,
    /// The envelope was not written.
    WriteFailed,
    /// The name was recorded.
    NameOk,
    /// The name was not recorded.
    NameFailed,
}

/// Why a store operation on a private collection failed.
#[derive(Debug, Clone, Copy, PartialEq, Eq, Structural)]
pub enum PrivateFailure {
    /// The caller does not own the collection.
    NotOwner,
    /// The authority could not be asked.
    OwnerCheck,
    /// The envelope was not written.
    Write,
    /// The envelope is written, but the name was not recorded.
    Registry,
    /// An event came that the stage does not expect.
    OutOfTurn,
}

impl PrivateFailure {
    /// The kind of the failure.
    pub fn kind(&self) -> (kind: ErrorKind)
        ensures
            kind == if *self == PrivateFailure::NotOwner {
                ErrorKind::Unauthorized
            } else {
                ErrorKind::BackendError
            },
    {
        match self {
            PrivateFailure::NotOwner => ErrorKind::Unauthorized,
            _ => ErrorKind::BackendError,
        }
    }
}

/// What the caller is to do next in a store operation on a private collection.
#[derive(Debug, Clone, Copy, PartialEq, Eq, Structural)]
pub enum PrivateCommand {
    /// Ask the authority whether the caller owns the collection.
    CheckOwner,
    /// Write the envelope under the private key, with the name tagging.
    PutEnvelope,
    /// Record the item's name in the registry of the collection, under the
    /// key of the envelope.
    RecordName,
    /// Answer with the item's id.
    Finish,
    /// Answer with the failure.
    Fail { failure: PrivateFailure },
}

/// The stage and the command that follow an event. `named` tells whether
/// the caller gave the item a name.
pub open spec fn private_next(stage: PrivateStage, event: PrivateEvent, named: bool) -> (
    PrivateStage,
    PrivateCommand,
) {
    match (stage, event) {
        (PrivateStage::Ready, PrivateEvent::Start) => (
            PrivateStage::OwnerPending,
            PrivateCommand::CheckOwner,
        ),
        (PrivateStage::OwnerPending, PrivateEvent::OwnerAnswer { owner }) => if owner {
            (PrivateStage::WritePending, PrivateCommand::PutEnvelope)
        } else {
            (PrivateStage::Failed, PrivateCommand::Fail { failure: PrivateFailure::NotOwner })
        },
        (PrivateStage::OwnerPending, PrivateEvent::OwnerUnknown) => (
            PrivateStage::Failed,
            PrivateCommand::Fail { failure: PrivateFailure::OwnerCheck },
        ),
        (PrivateStage::WritePending, PrivateEvent::WriteOk) => if named {
            (PrivateStage::NamePending, PrivateCommand::RecordName)
        } else {
            (PrivateStage::Stored, PrivateCommand::Finish)
        },
        (PrivateStage::WritePending, PrivateEvent::WriteFailed) => (
            PrivateStage::Failed,
            PrivateCommand::Fail { failure: PrivateFailure::Write },
        ),
        (PrivateStage::NamePending, PrivateEvent::NameOk) => (
            PrivateStage::Stored,
            PrivateCommand::Finish,
        ),
        (PrivateStage::NamePending, PrivateEvent::NameFailed) => (
            PrivateStage::Failed,
            PrivateCommand::Fail { failure: PrivateFailure::Registry },
        ),
        _ => (PrivateStage::Failed, PrivateCommand::Fail { failure: PrivateFailure::OutOfTurn }),
    }
}

/// Decides what follows an event of a store operation on a private
/// collection. `dataitem_name` is the name that the caller gave the item;
/// an empty one is not recorded.
pub fn private_store_step(stage: PrivateStage, event: PrivateEvent, dataitem_name: &str) -> (r: (
    PrivateStage,
    PrivateCommand,
))
    ensures
        r == private_next(stage, event, dataitem_name@.len() > 0),
{
    match (stage, event) {
        (PrivateStage::Ready, PrivateEvent::Start) => (
            PrivateStage::OwnerPending,
            PrivateCommand::CheckOwner,
        ),
        (PrivateStage::OwnerPending, PrivateEvent::OwnerAnswer { owner }) => if owner {
            (PrivateStage::WritePending, PrivateCommand::PutEnvelope)
        } else {
            (PrivateStage::Failed, PrivateCommand::Fail { failure: PrivateFailure::NotOwner })
        },
        (PrivateStage::OwnerPending, PrivateEvent::OwnerUnknown) => (
            PrivateStage::Failed,
            PrivateCommand::Fail { failure: PrivateFailure::OwnerCheck },
        ),
        (PrivateStage::WritePending, PrivateEvent::WriteOk) => if !dataitem_name.is_empty() {
            (PrivateStage::NamePending, PrivateCommand::RecordName)
        } else {
            (PrivateStage::Stored, PrivateCommand::Finish)
        },
        (PrivateStage::WritePending, PrivateEvent::WriteFailed) => (
            PrivateStage::Failed,
            PrivateCommand::Fail { failure: PrivateFailure::Write },
        ),
        (PrivateStage::NamePending, PrivateEvent::NameOk) => (
            PrivateStage::Stored,
            PrivateCommand::Finish,
        ),
        (PrivateStage::NamePending, PrivateEvent::NameFailed) => (
            PrivateStage::Failed,
            PrivateCommand::Fail { failure: PrivateFailure::Registry },
        ),
        _ => (PrivateStage::Failed, PrivateCommand::Fail { failure: PrivateFailure::OutOfTurn }),
    }
}

/// The stage that a store operation on a private collection has reached
/// after the events.
pub open spec fn private_stage_after(events: Seq<PrivateEvent>, named: bool) -> PrivateStage
    decreases events.len(),
{
    if events.len() == 0 {
        PrivateStage::Ready
    } else {
        private_next(private_stage_after(events.drop_last(), named), events.last(), named).0
    }
}

/// The command that the last of the events is answered with.
pub open spec fn private_command_after(events: Seq<PrivateEvent>, named: bool) -> PrivateCommand
    recommends
        events.len() > 0,
{
    private_next(private_stage_after(events.drop_last(), named), events.last(), named).1
}

/// A stage behind the ownership check is reached only where the authority
/// has shown the caller as the owner.
pub proof fn lemma_private_stage(events: Seq<PrivateEvent>, named: bool)
    ensures
        match private_stage_after(events, named) {
            PrivateStage::Ready => events.len() == 0,
            PrivateStage::OwnerPending => events == seq![PrivateEvent::Start],
            PrivateStage::Failed => events.len() > 0,
            _ => events.len() >= 2 && events[0] == PrivateEvent::Start && events[1] == (
                PrivateEvent::OwnerAnswer { owner: true }
            ),
        },
        private_stage_after(events, named) == PrivateStage::WritePending ==> events.len() == 2,
    decreases events.len(),
{
    if events.len() > 0 {
        lemma_private_stage(events.drop_last(), named);
        let front = events.drop_last();
        assert(events == front.push(events.last()));
    }
}

/// The ownership check comes before every write: the envelope is written,
/// and a name recorded, only in an operation whose second event is the
/// authority's answer that the caller owns the collection.
pub proof fn law_owner_checked_first(events: Seq<PrivateEvent>, named: bool)
    requires
        events.len() > 0,
        private_command_after(events, named) == PrivateCommand::PutEnvelope
            || private_command_after(events, named) == PrivateCommand::RecordName
            || private_command_after(events, named) == PrivateCommand::Finish,
    ensures
        events.len() >= 2,
        events[0] == PrivateEvent::Start,
        events[1] == (PrivateEvent::OwnerAnswer { owner: true }),
        private_command_after(events, named) == PrivateCommand::PutEnvelope ==> events.len() == 2,
{
    let front = events.drop_last();
    lemma_private_stage(front, named);
    assert(events == front.push(events.last()));
}

} // verus!
