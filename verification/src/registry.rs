//! The side registry: for each collection the names that callers gave to
//! its items.

use vstd::prelude::*;
use vstd::std_specs::iter::IteratorSpec;
use vstd::string::StringExecFns;

verus! {

/// An item of a collection and the name it goes by.
#[derive(Debug, Default, Clone, PartialEq, Eq)]
pub struct RegistryEntry {
    pub dataitem_id: String,
    pub dataitem_name: String,
}

/// The named items of one collection.
#[derive(Debug, Default, Clone, PartialEq, Eq)]
pub struct BucketRegistry {
    pub bucket_name: String,
    pub data: Vec<RegistryEntry>,
}

/// The entries as pairs of item id and name.
pub open spec fn entries(data: Seq<RegistryEntry>) -> Seq<(Seq<char>, Seq<char>)> {
    Seq::new(data.len(), |i: int| (data[i].dataitem_id@, data[i].dataitem_name@))
}

/// A registry as plain values.
pub struct RegistryView {
    pub bucket_name: Seq<char>,
    pub data: Seq<(Seq<char>, Seq<char>)>,
}

impl View for BucketRegistry {
    type V = RegistryView;

    open spec fn view(&self) -> RegistryView {
        RegistryView { bucket_name: self.bucket_name@, data: entries(self.data@) }
    }
}

/// Whether a character may not stand in a file name.
pub open spec fn is_unsafe_in_file_name(c: char) -> bool {
    c == '/' || c == '\\' || c == ':' || c == '*' || c == '?' || c == '"' || c == '<' || c == '>'
        || c == '|'
}

/// `name` with each character that may not stand in a file name replaced
/// by an underscore.
pub open spec fn sanitized(name: Seq<char>) -> Seq<char> {
    Seq::new(name.len(), |i: int| if is_unsafe_in_file_name(name[i]) { '_' } else { name[i] })
}

/// The name of the file that keeps the registry of a collection, relative
/// to the registry directory: the sanitized collection name and `.json`.
pub open spec fn bucket_file_name(bucket_name: Seq<char>) -> Seq<char> {
    sanitized(bucket_name) + ".json"@
}

/// The name of the file that keeps the registry of a collection, relative
/// to the registry directory.
pub fn get_bucket_file_path(bucket_name: &str) -> (path: String)
    ensures
        path@ == bucket_file_name(bucket_name@),
{
    let mut path = String::new();
    for c in it: bucket_name.chars()
        invariant
            it.seq() == bucket_name@,
            path@ == sanitized(bucket_name@).take(it.index()),
    {
        let ghost before = path@;
        let safe = if c == '/' || c == '\\' || c == ':' || c == '*' || c == '?' || c == '"' || c
            == '<' || c == '>' || c == '|' {
            '_'
        } else {
            c
        };
        path.push(safe);
        assert(path@ == sanitized(bucket_name@).take(it.index() + 1));
    }
    assert(sanitized(bucket_name@).take(bucket_name@.len() as int) == sanitized(bucket_name@));
    path.append(".json");
    path
}

/// The index of the first entry for `dataitem_id`, if there is one.
pub open spec fn position(data: Seq<(Seq<char>, Seq<char>)>, dataitem_id: Seq<char>) -> Option<int>
    decreases data.len(),
{
    if data.len() == 0 {
        None
    } else {
        match position(data.drop_last(), dataitem_id) {
            Some(i) => Some(i),
            None => if data.last().0 == dataitem_id {
                Some(data.len() - 1)
            } else {
                None
            },
        }
    }
}

/// The entries after `dataitem_id` was given the name `dataitem_name`: the
/// first entry for the item takes the name, and where there is none an
/// entry is appended.
pub open spec fn renamed(
    data: Seq<(Seq<char>, Seq<char>)>,
    dataitem_id: Seq<char>,
    dataitem_name: Seq<char>,
) -> Seq<(Seq<char>, Seq<char>)> {
    match position(data, dataitem_id) {
        Some(i) => data.update(i, (dataitem_id, dataitem_name)),
        None => data.push((dataitem_id, dataitem_name)),
    }
}

/// The position of the first entry for an item is within the list, holds
/// that item, and no earlier entry does.
pub proof fn lemma_position(data: Seq<(Seq<char>, Seq<char>)>, dataitem_id: Seq<char>)
    ensures
        match position(data, dataitem_id) {
            Some(i) => 0 <= i < data.len() && data[i].0 == dataitem_id && forall|j: int|
                0 <= j < i ==> (#[trigger] data[j]).0 != dataitem_id,
            None => forall|j: int| 0 <= j < data.len() ==> (#[trigger] data[j]).0 != dataitem_id,
        },
    decreases data.len(),
{
    if data.len() > 0 {
        lemma_position(data.drop_last(), dataitem_id);
        assert forall|j: int| 0 <= j < data.len() - 1 implies data.drop_last()[j] == data[j] by {}
        match position(data.drop_last(), dataitem_id) {
            Some(i) => {
                assert(data.drop_last()[i] == data[i]);
                assert forall|j: int| 0 <= j < i implies (#[trigger] data[j]).0 != dataitem_id by {
                    assert(data.drop_last()[j] == data[j]);
                }
            },
            None => {
                assert forall|j: int| 0 <= j < data.len() - 1 implies (#[trigger] data[j]).0
                    != dataitem_id by {
                    assert(data.drop_last()[j] == data[j]);
                }
            },
        }
    }
}

/// The first entry for an item is the one that no entry for it precedes.
pub proof fn lemma_position_is(data: Seq<(Seq<char>, Seq<char>)>, dataitem_id: Seq<char>, i: int)
    requires
        0 <= i < data.len(),
        data[i].0 == dataitem_id,
        forall|j: int| 0 <= j < i ==> (#[trigger] data[j]).0 != dataitem_id,
    ensures
        position(data, dataitem_id) == Some(i),
{
    lemma_position(data, dataitem_id);
}

/// Gives an item of the collection a name. An item that has an entry keeps
/// its place; a new item comes last.
pub fn set_dataitem_name(registry: &mut BucketRegistry, dataitem_id: &str, dataitem_name: &str)
    ensures
        final(registry)@.bucket_name == old(registry)@.bucket_name,
        final(registry)@.data == renamed(old(registry)@.data, dataitem_id@, dataitem_name@),
{
    let ghost before = entries(registry.data@);
    let entry = RegistryEntry {
        dataitem_id: dataitem_id.to_owned(),
        dataitem_name: dataitem_name.to_owned(),
    };
    let mut i: usize = 0;
    while i < registry.data.len()
        invariant
            i <= registry.data.len(),
            before == entries(registry.data@),
            before == old(registry)@.data,
            registry.bucket_name@ == old(registry).bucket_name@,
            entry.dataitem_id@ == dataitem_id@,
            entry.dataitem_name@ == dataitem_name@,
            forall|j: int| 0 <= j < i ==> (#[trigger] before[j]).0 != dataitem_id@,
        decreases registry.data.len() - i,
    {
        if crate::text::str_eq(registry.data[i].dataitem_id.as_str(), dataitem_id) {
            proof {
                assert(before[i as int].0 == dataitem_id@);
                lemma_position_is(before, dataitem_id@, i as int);
            }
            registry.data[i] = entry;
            assert(entries(registry.data@) == before.update(i as int, (dataitem_id@, dataitem_name@)));
            return ;
        }
        assert(before[i as int].0 != dataitem_id@);
        i = i + 1;
    }
    proof {
        lemma_position(before, dataitem_id@);
    }
    registry.data.push(entry);
    assert(entries(registry.data@) == before.push((dataitem_id@, dataitem_name@)));
}

/// The registry of a collection: the stored one, or an empty registry
/// under the collection's name where nothing was stored yet.
pub fn load_bucket_registry(bucket_name: &str, stored: Option<BucketRegistry>) -> (registry:
    BucketRegistry)
    ensures
        match stored {
            Some(s) => registry == s,
            None => registry@ == (RegistryView {
                bucket_name: bucket_name@,
                data: Seq::<(Seq<char>, Seq<char>)>::empty(),
            }),
        },
{
    match stored {
        Some(s) => s,
        None => {
            let registry = BucketRegistry { bucket_name: bucket_name.to_owned(), data: Vec::new() };
            assert(registry@.data == Seq::<(Seq<char>, Seq<char>)>::empty());
            registry
        },
    }
}

/// The entries of a collection: those of the stored registry, or none
/// where nothing was stored yet.
pub fn get_bucket_registry(bucket_name: &str, stored: Option<BucketRegistry>) -> (data: Vec<
    RegistryEntry,
>)
    ensures
        match stored {
            Some(s) => data == s.data,
            None => data@.len() == 0,
        },
{
    let registry = load_bucket_registry(bucket_name, stored);
    proof {
        if stored is None {
            assert(registry@.data.len() == 0);
        }
    }
    registry.data
}

} // verus!
