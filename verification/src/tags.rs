//! Tags: the size and emptiness rules, normalisation of tag lists, and the
//! composer that builds the canonical tag list of a new item.
//!
//! A tag is a pair of a key and a value. In contracts a tag stands as the
//! pair of the two views, and a list of tags as the sequence of such pairs.

use crate::text::{
    byte_len, lemma_trimmed_twice, lowercase, str_eq, to_lowercase, trim, trimmed,
};
use vstd::prelude::*;
use vstd::utf8::is_ascii_chars;

verus! {

/// Largest number of bytes of a tag's key, and of its value.
pub const MAX_TAG_BYTES: usize = 1024;

/// The views of a list of pairs of strings.
pub open spec fn pairs(v: Seq<(String, String)>) -> Seq<(Seq<char>, Seq<char>)> {
    Seq::new(v.len(), |i: int| (v[i].0@, v[i].1@))
}

/// The views of a list of strings.
pub open spec fn texts(v: Seq<String>) -> Seq<Seq<char>> {
    Seq::new(v.len(), |i: int| v[i]@)
}

/// A key or a value that may stand in a tag: not empty, at most 1024 bytes.
pub open spec fn acceptable_text(s: Seq<char>) -> bool {
    s.len() > 0 && byte_len(s) <= MAX_TAG_BYTES
}

/// A pair that may stand as a tag.
pub open spec fn acceptable(key: Seq<char>, value: Seq<char>) -> bool {
    acceptable_text(key) && acceptable_text(value)
}

/// A candidate with its key and its value trimmed.
pub open spec fn trimmed_pair(t: (Seq<char>, Seq<char>)) -> (Seq<char>, Seq<char>) {
    (trimmed(t.0), trimmed(t.1))
}

/// The normal form of a list of candidates: each candidate trimmed, those
/// that are not acceptable left out, and of equal pairs only the first kept.
pub open spec fn normalized(tags: Seq<(Seq<char>, Seq<char>)>) -> Seq<(Seq<char>, Seq<char>)>
    decreases tags.len(),
{
    if tags.len() == 0 {
        Seq::empty()
    } else {
        let before = normalized(tags.drop_last());
        let t = trimmed_pair(tags.last());
        if acceptable(t.0, t.1) && !before.contains(t) {
            before.push(t)
        } else {
            before
        }
    }
}

/// Whether a trimmed key or value may stand in a tag.
pub fn is_acceptable_text(s: &str) -> (r: bool)
    ensures
        r == acceptable_text(s@),
{
    let n = s.as_bytes().len();
    !s.is_empty() && n <= MAX_TAG_BYTES
}

/// Whether the list holds the pair of `key` and `value`.
pub fn contains_pair(list: &Vec<(String, String)>, key: &str, value: &str) -> (r: bool)
    ensures
        r == pairs(list@).contains((key@, value@)),
{
    let mut i: usize = 0;
    while i < list.len()
        invariant
            i <= list.len(),
            forall|j: int| 0 <= j < i ==> pairs(list@)[j] != (key@, value@),
        decreases list.len() - i,
    {
        if str_eq(list[i].0.as_str(), key) && str_eq(list[i].1.as_str(), value) {
            assert(pairs(list@)[i as int] == (key@, value@));
            return true;
        }
        i = i + 1;
    }
    false
}

/// Whether the list holds `name`.
pub fn contains_text(list: &Vec<String>, name: &str) -> (r: bool)
    ensures
        r == texts(list@).contains(name@),
{
    let mut i: usize = 0;
    while i < list.len()
        invariant
            i <= list.len(),
            forall|j: int| 0 <= j < i ==> texts(list@)[j] != name@,
        decreases list.len() - i,
    {
        if str_eq(list[i].as_str(), name) {
            assert(texts(list@)[i as int] == name@);
            return true;
        }
        i = i + 1;
    }
    false
}

/// Normalises a list of tag candidates: trims each key and value, drops the
/// candidates with an empty or oversized part, and keeps the first of equal
/// pairs. The order of the candidates is kept.
pub fn normalize_tags(tags: &[(String, String)]) -> (out: Vec<(String, String)>)
    ensures
        pairs(out@) == normalized(pairs(tags@)),
{
    let mut out: Vec<(String, String)> = Vec::new();
    let mut i: usize = 0;
    proof {
        assert(pairs(tags@).take(0) == Seq::<(Seq<char>, Seq<char>)>::empty());
        assert(pairs(out@) == Seq::<(Seq<char>, Seq<char>)>::empty());
    }
    while i < tags.len()
        invariant
            i <= tags.len(),
            pairs(out@) == normalized(pairs(tags@).take(i as int)),
        decreases tags.len() - i,
    {
        let key = trim(tags[i].0.as_str());
        let value = trim(tags[i].1.as_str());
        proof {
            let all = pairs(tags@);
            assert(all.take(i + 1).drop_last() == all.take(i as int));
            assert(all.take(i + 1).last() == (tags@[i as int].0@, tags@[i as int].1@));
        }
        if is_acceptable_text(key) && is_acceptable_text(value) {
            if !contains_pair(&out, key, value) {
                let ghost before = pairs(out@);
                out.push((key.to_owned(), value.to_owned()));
                assert(pairs(out@) == before.push((key@, value@)));
            }
        }
        i = i + 1;
    }
    proof {
        assert(pairs(tags@).take(tags.len() as int) == pairs(tags@));
    }
    out
}

/// Every pair of a normal form is an acceptable, trimmed candidate.
pub proof fn lemma_normalized_sound(tags: Seq<(Seq<char>, Seq<char>)>, i: int)
    requires
        0 <= i < normalized(tags).len(),
    ensures
        acceptable(normalized(tags)[i].0, normalized(tags)[i].1),
        exists|j: int| 0 <= j < tags.len() && normalized(tags)[i] == trimmed_pair(#[trigger] tags[j]),
    decreases tags.len(),
{
    if tags.len() > 0 {
        let before = normalized(tags.drop_last());
        if i < before.len() {
            lemma_normalized_sound(tags.drop_last(), i);
            let j = choose|j: int|
                0 <= j < tags.drop_last().len() && before[i] == trimmed_pair(
                    #[trigger] tags.drop_last()[j],
                );
            assert(tags[j] == tags.drop_last()[j]);
        } else {
            assert(normalized(tags)[i] == trimmed_pair(tags[tags.len() - 1]));
        }
    }
}

/// Every acceptable candidate stands, trimmed, in the normal form.
pub proof fn law_normalized_complete(tags: Seq<(Seq<char>, Seq<char>)>, j: int)
    requires
        0 <= j < tags.len(),
        acceptable(trimmed(tags[j].0), trimmed(tags[j].1)),
    ensures
        normalized(tags).contains(trimmed_pair(tags[j])),
    decreases tags.len(),
{
    let before = normalized(tags.drop_last());
    let t = trimmed_pair(tags.last());
    if j < tags.len() - 1 {
        law_normalized_complete(tags.drop_last(), j);
        assert(tags.drop_last()[j] == tags[j]);
        let k = choose|k: int| 0 <= k < before.len() && before[k] == trimmed_pair(tags[j]);
        assert(normalized(tags)[k] == trimmed_pair(tags[j]));
    } else if before.contains(t) {
    } else {
        assert(normalized(tags)[before.len() as int] == t);
    }
}

/// No pair stands twice in a normal form.
pub proof fn lemma_normalized_distinct(tags: Seq<(Seq<char>, Seq<char>)>)
    ensures
        normalized(tags).no_duplicates(),
    decreases tags.len(),
{
    if tags.len() > 0 {
        lemma_normalized_distinct(tags.drop_last());
    }
}

/// A list of acceptable, trimmed and pairwise different tags is its own
/// normal form.
pub proof fn lemma_normal_is_normalized(tags: Seq<(Seq<char>, Seq<char>)>)
    requires
        tags.no_duplicates(),
        forall|i: int|
            0 <= i < tags.len() ==> trimmed_pair(#[trigger] tags[i]) == tags[i] && acceptable(
                tags[i].0,
                tags[i].1,
            ),
    ensures
        normalized(tags) == tags,
    decreases tags.len(),
{
    if tags.len() > 0 {
        let front = tags.drop_last();
        assert forall|i: int| 0 <= i < front.len() implies trimmed_pair(#[trigger] front[i])
            == front[i] && acceptable(front[i].0, front[i].1) by {
            assert(front[i] == tags[i]);
        }
        lemma_normal_is_normalized(front);
        let last = tags[tags.len() - 1];
        if front.contains(last) {
            let k = choose|k: int| 0 <= k < front.len() && front[k] == last;
            assert(tags[k] == tags[tags.len() - 1]);
        }
        assert(front.push(last) == tags);
    }
}

/// Normalising is idempotent: the normal form of a normal form is the
/// normal form itself.
pub proof fn law_normalized_twice(tags: Seq<(Seq<char>, Seq<char>)>)
    ensures
        normalized(normalized(tags)) == normalized(tags),
{
    let normal = normalized(tags);
    lemma_normalized_distinct(tags);
    assert forall|i: int| 0 <= i < normal.len() implies trimmed_pair(#[trigger] normal[i])
        == normal[i] && acceptable(normal[i].0, normal[i].1) by {
        lemma_normalized_sound(tags, i);
        let j = choose|j: int| 0 <= j < tags.len() && normal[i] == trimmed_pair(#[trigger] tags[j]);
        lemma_trimmed_twice(tags[j].0);
        lemma_trimmed_twice(tags[j].1);
    }
    lemma_normal_is_normalized(normal);
}

/// The state of a composition: the tags chosen so far, the folded key under
/// which each of them is known, and whether a candidate has taken the first
/// slot.
pub struct Composition {
    pub tags: Seq<(Seq<char>, Seq<char>)>,
    pub folded: Seq<Seq<char>>,
    pub overridden: bool,
}

/// The composition before any candidate: the content-type tag with the
/// declared type, then the protocol marker.
pub open spec fn initial(declared: Seq<char>) -> Composition {
    Composition {
        tags: seq![("Content-Type"@, declared), ("Data-Protocol"@, "Load-S3"@)],
        folded: seq!["content-type"@, "data-protocol"@],
        overridden: false,
    }
}

/// The composition after one trimmed candidate, known under the folded key
/// `fold`. A candidate that is not acceptable changes nothing. The first
/// acceptable candidate whose folded key is `content-type` takes the first
/// slot, and later ones are dropped. Any other candidate is appended unless
/// its folded key is reserved or already present.
pub open spec fn accept(
    c: Composition,
    key: Seq<char>,
    value: Seq<char>,
    fold: Seq<char>,
    reserved: Seq<Seq<char>>,
) -> Composition {
    if !acceptable(key, value) {
        c
    } else if fold == "content-type"@ {
        if c.overridden {
            c
        } else {
            Composition { tags: c.tags.update(0, (key, value)), folded: c.folded, overridden: true }
        }
    } else if reserved.contains(fold) || c.folded.contains(fold) {
        c
    } else {
        Composition {
            tags: c.tags.push((key, value)),
            folded: c.folded.push(fold),
            overridden: c.overridden,
        }
    }
}

/// The composition after one raw candidate: the candidate is trimmed and
/// its key is folded to lowercase.
pub open spec fn offer(c: Composition, candidate: (Seq<char>, Seq<char>), reserved: Seq<Seq<char>>) -> Composition {
    let key = trimmed(candidate.0);
    accept(c, key, trimmed(candidate.1), lowercase(key), reserved)
}

/// The composition after all candidates, offered in their order.
pub open spec fn composition(
    extra: Seq<(Seq<char>, Seq<char>)>,
    declared: Seq<char>,
    reserved: Seq<Seq<char>>,
) -> Composition
    decreases extra.len(),
{
    if extra.len() == 0 {
        initial(declared)
    } else {
        offer(composition(extra.drop_last(), declared, reserved), extra.last(), reserved)
    }
}

/// The canonical tag list for the candidates `extra`.
pub open spec fn composed(
    extra: Seq<(Seq<char>, Seq<char>)>,
    declared: Seq<char>,
    reserved: Seq<Seq<char>>,
) -> Seq<(Seq<char>, Seq<char>)> {
    composition(extra, declared, reserved).tags
}

/// What holds of every composition that starts from `initial(declared)`.
pub open spec fn well_formed(c: Composition, declared: Seq<char>) -> bool {
    &&& c.tags.len() == c.folded.len()
    &&& c.tags.len() >= 2
    &&& c.folded[0] == "content-type"@
    &&& c.folded[1] == "data-protocol"@
    &&& c.folded.no_duplicates()
    &&& c.tags[1] == ("Data-Protocol"@, "Load-S3"@)
    &&& !c.overridden ==> c.tags[0] == ("Content-Type"@, declared)
    &&& c.overridden ==> acceptable(c.tags[0].0, c.tags[0].1)
    &&& forall|i: int| 2 <= i < c.tags.len() ==> acceptable(#[trigger] c.tags[i].0, c.tags[i].1)
}

/// Each tag is known under the lowercase form of its key.
pub open spec fn faithful(c: Composition) -> bool {
    &&& c.tags.len() == c.folded.len()
    &&& forall|i: int| 0 <= i < c.tags.len() ==> #[trigger] c.folded[i] == lowercase(c.tags[i].0)
}

/// The initial composition is well formed.
pub proof fn lemma_initial_well_formed(declared: Seq<char>)
    ensures
        well_formed(initial(declared), declared),
{
    reveal_strlit("content-type");
    reveal_strlit("data-protocol");
    assert("content-type"@.len() != "data-protocol"@.len());
}

/// One candidate keeps a composition well formed.
pub proof fn lemma_accept_well_formed(
    c: Composition,
    declared: Seq<char>,
    key: Seq<char>,
    value: Seq<char>,
    fold: Seq<char>,
    reserved: Seq<Seq<char>>,
)
    requires
        well_formed(c, declared),
    ensures
        well_formed(accept(c, key, value, fold, reserved), declared),
{
    let d = accept(c, key, value, fold, reserved);
    if d.tags.len() > c.tags.len() {
        assert forall|i: int, j: int| 0 <= i < d.folded.len() && 0 <= j < d.folded.len() && i != j implies d.folded[i] != d.folded[j] by {
            if i < c.folded.len() && j < c.folded.len() {
            } else if i < c.folded.len() {
                assert(c.folded.contains(c.folded[i]));
            } else {
                assert(c.folded.contains(c.folded[j]));
            }
        }
    }
}

/// One candidate, known under the lowercase form of its key, keeps a
/// composition faithful.
pub proof fn lemma_accept_faithful(
    c: Composition,
    key: Seq<char>,
    value: Seq<char>,
    reserved: Seq<Seq<char>>,
)
    requires
        faithful(c),
        c.tags.len() >= 1,
        c.folded[0] == "content-type"@,
    ensures
        faithful(accept(c, key, value, lowercase(key), reserved)),
{
}

/// Whether a folded key is that of the content-type tag.
pub fn is_content_type_key(fold: &str) -> (r: bool)
    ensures
        r == (fold@ == "content-type"@),
{
    str_eq(fold, "content-type")
}

/// The tag composer: the tag in the first slot, the tags behind it, and the
/// folded keys seen.
pub struct TagComposer {
    first: (String, String),
    rest: Vec<(String, String)>,
    folded: Vec<String>,
    overridden: bool,
}

impl TagComposer {
    /// The composition that the composer holds.
    pub closed spec fn view(&self) -> Composition {
        Composition {
            tags: seq![(self.first.0@, self.first.1@)] + pairs(self.rest@),
            folded: texts(self.folded@),
            overridden: self.overridden,
        }
    }

    /// A composer that holds the two system tags: the content-type tag with
    /// the declared type, and the protocol marker.
    pub fn new(content_type: &str) -> (c: TagComposer)
        ensures
            c@ == initial(content_type@),
            faithful(c@),
    {
        let first = "Content-Type";
        let second = "Data-Protocol";
        let first_fold = to_lowercase(first);
        let second_fold = to_lowercase(second);
        proof {
            reveal_strlit("Content-Type");
            reveal_strlit("content-type");
            reveal_strlit("Data-Protocol");
            reveal_strlit("data-protocol");
            assert(is_ascii_chars(first@));
            assert(is_ascii_chars(second@));
            assert(first_fold@ =~= "content-type"@);
            assert(second_fold@ =~= "data-protocol"@);
        }
        let mut rest: Vec<(String, String)> = Vec::new();
        rest.push((second.to_owned(), data_protocol_name().to_owned()));
        let mut folded: Vec<String> = Vec::new();
        folded.push(first_fold);
        folded.push(second_fold);
        let c = TagComposer {
            first: (first.to_owned(), content_type.to_owned()),
            rest,
            folded,
            overridden: false,
        };
        proof {
            assert(c@.tags =~= initial(content_type@).tags);
            assert(c@.folded =~= initial(content_type@).folded);
        }
        c
    }

    /// Takes one trimmed candidate, known under the folded key `fold`.
    pub fn accept(&mut self, key: &str, value: &str, fold: &str, reserved: &Vec<String>)
        ensures
            final(self)@ == accept(old(self)@, key@, value@, fold@, texts(reserved@)),
    {
        if !is_acceptable_text(key) || !is_acceptable_text(value) {
            return ;
        }
        if is_content_type_key(fold) {
            if !self.overridden {
                self.first = (key.to_owned(), value.to_owned());
                self.overridden = true;
                assert(self@.tags =~= old(self)@.tags.update(0, (key@, value@)));
            }
            return ;
        }
        if contains_text(reserved, fold) || contains_text(&self.folded, fold) {
            return ;
        }
        let ghost rest_before = pairs(self.rest@);
        let ghost folded_before = texts(self.folded@);
        self.rest.push((key.to_owned(), value.to_owned()));
        self.folded.push(fold.to_owned());
        assert(pairs(self.rest@) == rest_before.push((key@, value@)));
        assert(texts(self.folded@) == folded_before.push(fold@));
        assert(self@.tags =~= old(self)@.tags.push((key@, value@)));
    }

    /// The tags of the composition, in their order.
    pub fn into_tags(self) -> (tags: Vec<(String, String)>)
        ensures
            pairs(tags@) == self@.tags,
    {
        let mut tags = self.rest;
        tags.insert(0, self.first);
        assert(pairs(tags@) =~= self@.tags);
        tags
    }
}

/// The value of the protocol marker tag.
pub fn data_protocol_name() -> (name: &'static str)
    ensures
        name@ == "Load-S3"@,
{
    "Load-S3"
}

/// The protocol-reserved names that callers may not use as tag keys.
pub fn default_reserved_names() -> (names: Vec<String>)
    ensures
        texts(names@) == seq!["storage-provider"@, "agent-version"@],
{
    let mut names: Vec<String> = Vec::new();
    names.push("storage-provider".to_owned());
    names.push("agent-version".to_owned());
    assert(texts(names@) == seq!["storage-provider"@, "agent-version"@]);
    names
}

/// Builds the canonical tag list of a new item from the declared content
/// type and the caller's candidates.
///
/// The list starts with the content-type tag and the protocol marker. Each
/// candidate is trimmed; one with an empty or oversized key or value is
/// dropped. The first candidate whose lowercase key is `content-type`
/// replaces the content-type tag in the first slot, whether or not that name
/// is reserved; further such candidates are dropped. Any other candidate is
/// appended unless its lowercase key is reserved or was seen before.
pub fn compose_tags(extra: &[(String, String)], content_type: &str, reserved: &Vec<String>) -> (out:
    Vec<(String, String)>)
    ensures
        pairs(out@) == composed(pairs(extra@), content_type@, texts(reserved@)),
        out.len() >= 2,
        lowercase(out@[0].0@) == "content-type"@,
        out@[1].0@ == "Data-Protocol"@ && out@[1].1@ == "Load-S3"@,
        forall|i: int, j: int|
            0 <= i < j < out.len() ==> lowercase(#[trigger] out@[i].0@) != lowercase(
                #[trigger] out@[j].0@,
            ),
        forall|i: int|
            2 <= i < out.len() ==> !texts(reserved@).contains(lowercase(#[trigger] out@[i].0@)),
        forall|i: int|
            2 <= i < out.len() ==> acceptable(#[trigger] out@[i].0@, out@[i].1@),
{
    let mut composer = TagComposer::new(content_type);
    let mut i: usize = 0;
    proof {
        lemma_initial_well_formed(content_type@);
        assert(pairs(extra@).take(0) == Seq::<(Seq<char>, Seq<char>)>::empty());
    }
    while i < extra.len()
        invariant
            i <= extra.len(),
            composer@ == composition(pairs(extra@).take(i as int), content_type@, texts(reserved@)),
            well_formed(composer@, content_type@),
            faithful(composer@),
        decreases extra.len() - i,
    {
        let key = trim(extra[i].0.as_str());
        let value = trim(extra[i].1.as_str());
        proof {
            let all = pairs(extra@);
            assert(all.take(i + 1).drop_last() == all.take(i as int));
            assert(all.take(i + 1).last() == (extra@[i as int].0@, extra@[i as int].1@));
            lemma_accept_well_formed(
                composer@,
                content_type@,
                key@,
                value@,
                lowercase(key@),
                texts(reserved@),
            );
            lemma_accept_faithful(composer@, key@, value@, texts(reserved@));
        }
        if is_acceptable_text(key) && is_acceptable_text(value) {
            let fold = to_lowercase(key);
            composer.accept(key, value, fold.as_str(), reserved);
        }
        i = i + 1;
    }
    proof {
        assert(pairs(extra@).take(extra.len() as int) == pairs(extra@));
    }
    let ghost c = composer@;
    let out = composer.into_tags();
    proof {
        assert forall|i: int, j: int| 0 <= i < j < out.len() implies lowercase(
            #[trigger] out@[i].0@,
        ) != lowercase(#[trigger] out@[j].0@) by {
            assert(c.folded[i] == lowercase(c.tags[i].0));
            assert(c.folded[j] == lowercase(c.tags[j].0));
            assert(pairs(out@)[i] == c.tags[i]);
            assert(pairs(out@)[j] == c.tags[j]);
        }
        assert(pairs(out@)[0] == c.tags[0]);
        assert(pairs(out@)[1] == c.tags[1]);
        assert(c.folded[0] == lowercase(c.tags[0].0));
        assert forall|i: int| 2 <= i < out.len() implies !texts(reserved@).contains(
            lowercase(#[trigger] out@[i].0@),
        ) && acceptable(out@[i].0@, out@[i].1@) by {
            lemma_composition_appended(pairs(extra@), content_type@, texts(reserved@), i);
            assert(pairs(out@)[i] == c.tags[i]);
            assert(c.folded[i] == lowercase(c.tags[i].0));
        }
    }
    out
}

/// Every composition is well formed.
pub proof fn lemma_composition_well_formed(
    extra: Seq<(Seq<char>, Seq<char>)>,
    declared: Seq<char>,
    reserved: Seq<Seq<char>>,
)
    ensures
        well_formed(composition(extra, declared, reserved), declared),
    decreases extra.len(),
{
    if extra.len() == 0 {
        lemma_initial_well_formed(declared);
    } else {
        lemma_composition_well_formed(extra.drop_last(), declared, reserved);
        let c = composition(extra.drop_last(), declared, reserved);
        let key = trimmed(extra.last().0);
        lemma_accept_well_formed(
            c,
            declared,
            key,
            trimmed(extra.last().1),
            lowercase(key),
            reserved,
        );
    }
}

/// Every tag behind the two system slots is an acceptable, trimmed
/// candidate, stands under the lowercase form of its key, and that key is
/// neither reserved nor `content-type`.
pub proof fn lemma_composition_appended(
    extra: Seq<(Seq<char>, Seq<char>)>,
    declared: Seq<char>,
    reserved: Seq<Seq<char>>,
    i: int,
)
    requires
        2 <= i < composition(extra, declared, reserved).tags.len(),
    ensures
        ({
            let c = composition(extra, declared, reserved);
            &&& c.folded.len() == c.tags.len()
            &&& c.folded[i] == lowercase(c.tags[i].0)
            &&& !reserved.contains(c.folded[i])
            &&& c.folded[i] != "content-type"@
            &&& acceptable(c.tags[i].0, c.tags[i].1)
            &&& exists|j: int| 0 <= j < extra.len() && c.tags[i] == trimmed_pair(#[trigger] extra[j])
        }),
    decreases extra.len(),
{
    lemma_composition_well_formed(extra, declared, reserved);
    if extra.len() > 0 {
        let before = composition(extra.drop_last(), declared, reserved);
        let c = composition(extra, declared, reserved);
        lemma_composition_well_formed(extra.drop_last(), declared, reserved);
        if i < before.tags.len() {
            lemma_composition_appended(extra.drop_last(), declared, reserved, i);
            let j = choose|j: int|
                0 <= j < extra.drop_last().len() && before.tags[i] == trimmed_pair(
                    #[trigger] extra.drop_last()[j],
                );
            assert(extra[j] == extra.drop_last()[j]);
            assert(c.tags[i] == before.tags[i]);
            assert(c.folded[i] == before.folded[i]);
        } else {
            assert(c.tags[i] == trimmed_pair(extra[extra.len() - 1]));
        }
    }
}

/// The composer never emits two tags under one folded key, keeps the
/// content-type slot first, and emits no caller's tag under a reserved key.
///
/// The folded keys of the emitted tags are pairwise different. The first tag
/// stands under `content-type`: it is the declared one unless a candidate has
/// taken the slot, and then its lowercase key is `content-type`. Each tag
/// behind the two system slots stands under the lowercase form of its key,
/// which is not reserved.
pub proof fn law_composed_keys(
    extra: Seq<(Seq<char>, Seq<char>)>,
    declared: Seq<char>,
    reserved: Seq<Seq<char>>,
)
    ensures
        ({
            let c = composition(extra, declared, reserved);
            &&& c.tags == composed(extra, declared, reserved)
            &&& c.folded.len() == c.tags.len() >= 2
            &&& c.folded.no_duplicates()
            &&& c.folded[0] == "content-type"@
            &&& !c.overridden ==> c.tags[0] == ("Content-Type"@, declared)
            &&& c.overridden ==> lowercase(c.tags[0].0) == "content-type"@
            &&& forall|i: int|
                2 <= i < c.tags.len() ==> #[trigger] c.folded[i] == lowercase(c.tags[i].0)
                    && !reserved.contains(c.folded[i])
        }),
{
    lemma_composition_well_formed(extra, declared, reserved);
    lemma_composition_override(extra, declared, reserved);
    let c = composition(extra, declared, reserved);
    assert forall|i: int| 2 <= i < c.tags.len() implies #[trigger] c.folded[i] == lowercase(
        c.tags[i].0,
    ) && !reserved.contains(c.folded[i]) by {
        lemma_composition_appended(extra, declared, reserved, i);
    }
}

/// A tag that has taken the first slot is an acceptable, trimmed candidate
/// whose lowercase key is `content-type`.
pub proof fn lemma_composition_override(
    extra: Seq<(Seq<char>, Seq<char>)>,
    declared: Seq<char>,
    reserved: Seq<Seq<char>>,
)
    ensures
        ({
            let c = composition(extra, declared, reserved);
            c.overridden ==> {
                &&& lowercase(c.tags[0].0) == "content-type"@
                &&& acceptable(c.tags[0].0, c.tags[0].1)
                &&& exists|j: int| 0 <= j < extra.len() && c.tags[0] == trimmed_pair(#[trigger] extra[j])
            }
        }),
    decreases extra.len(),
{
    if extra.len() > 0 {
        let before = composition(extra.drop_last(), declared, reserved);
        let c = composition(extra, declared, reserved);
        lemma_composition_well_formed(extra.drop_last(), declared, reserved);
        lemma_composition_override(extra.drop_last(), declared, reserved);
        if before.overridden {
            let j = choose|j: int|
                0 <= j < extra.drop_last().len() && before.tags[0] == trimmed_pair(
                    #[trigger] extra.drop_last()[j],
                );
            assert(extra[j] == extra.drop_last()[j]);
            assert(c.tags[0] == before.tags[0]);
        } else if c.overridden {
            assert(c.tags[0] == trimmed_pair(extra[extra.len() - 1]));
        }
    }
}

/// The composer drops every candidate whose trimmed key or value is empty
/// or longer than 1024 bytes: each emitted tag, but for the two system tags
/// that no candidate has replaced, is the trimmed form of a candidate and is
/// acceptable.
pub proof fn law_composed_from_acceptable(
    extra: Seq<(Seq<char>, Seq<char>)>,
    declared: Seq<char>,
    reserved: Seq<Seq<char>>,
    i: int,
)
    requires
        0 <= i < composed(extra, declared, reserved).len(),
        i >= 2 || (i == 0 && composition(extra, declared, reserved).overridden),
    ensures
        ({
            let t = composed(extra, declared, reserved)[i];
            &&& acceptable(t.0, t.1)
            &&& exists|j: int| 0 <= j < extra.len() && t == trimmed_pair(#[trigger] extra[j])
        }),
{
    if i >= 2 {
        lemma_composition_appended(extra, declared, reserved, i);
    } else {
        lemma_composition_override(extra, declared, reserved);
    }
}

/// A composition without candidates whose lowercase key is `content-type`
/// keeps the declared content type in the first slot.
pub proof fn law_declared_type_stays_first(
    extra: Seq<(Seq<char>, Seq<char>)>,
    declared: Seq<char>,
    reserved: Seq<Seq<char>>,
)
    requires
        forall|j: int|
            0 <= j < extra.len() ==> lowercase(trimmed(#[trigger] extra[j].0)) != "content-type"@,
    ensures
        !composition(extra, declared, reserved).overridden,
        composed(extra, declared, reserved)[0] == ("Content-Type"@, declared),
    decreases extra.len(),
{
    lemma_composition_well_formed(extra, declared, reserved);
    if extra.len() > 0 {
        assert forall|j: int| 0 <= j < extra.drop_last().len() implies lowercase(
            trimmed(#[trigger] extra.drop_last()[j].0),
        ) != "content-type"@ by {
            assert(extra.drop_last()[j] == extra[j]);
        }
        law_declared_type_stays_first(extra.drop_last(), declared, reserved);
        assert(extra.last() == extra[extra.len() - 1]);
    }
}

/// The content type that a tag list declares: the value of its first tag
/// whose lowercase key is `content-type`, or `application/octet-stream`.
pub open spec fn declared_content_type(tags: Seq<(Seq<char>, Seq<char>)>) -> Seq<char>
    decreases tags.len(),
{
    if tags.len() == 0 {
        "application/octet-stream"@
    } else if lowercase(tags.first().0) == "content-type"@ {
        tags.first().1
    } else {
        declared_content_type(tags.drop_first())
    }
}

/// The content type that the tags of an item declare.
pub fn content_type_of(tags: &[(String, String)]) -> (content_type: String)
    ensures
        content_type@ == declared_content_type(pairs(tags@)),
{
    let mut i: usize = 0;
    proof {
        assert(pairs(tags@).skip(0) == pairs(tags@));
    }
    while i < tags.len()
        invariant
            i <= tags.len(),
            declared_content_type(pairs(tags@)) == declared_content_type(
                pairs(tags@).skip(i as int),
            ),
        decreases tags.len() - i,
    {
        let fold = to_lowercase(tags[i].0.as_str());
        proof {
            let rest = pairs(tags@).skip(i as int);
            assert(rest.first() == (tags@[i as int].0@, tags@[i as int].1@));
            assert(rest.drop_first() == pairs(tags@).skip(i + 1));
        }
        if is_content_type_key(fold.as_str()) {
            return tags[i].1.clone();
        }
        i = i + 1;
    }
    "application/octet-stream".to_owned()
}

} // verus!
