//! What is read off the listings of a bucket: the count and size of its
//! objects, and the account keys among its tags.

use crate::tags::{pairs, texts};
use crate::text::strip_prefix;
use vstd::prelude::*;

verus! {

/// The number of objects seen so far, and the sum of their sizes.
#[derive(Debug, Clone, Copy, PartialEq, Eq, Structural)]
pub struct BucketStats {
    pub objects: u32,
    pub bytes: u64,
}

/// The sum of the sizes.
pub open spec fn total(sizes: Seq<u64>) -> nat
    decreases sizes.len(),
{
    if sizes.len() == 0 {
        0
    } else {
        total(sizes.drop_last()) + sizes.last() as nat
    }
}

/// The statistics after the objects of one more listing: `None` where the
/// count or the size no longer fits.
pub open spec fn with_listing(stats: BucketStats, sizes: Seq<u64>) -> Option<BucketStats> {
    if stats.objects + sizes.len() > u32::MAX || stats.bytes + total(sizes) > u64::MAX {
        None
    } else {
        Some(
            BucketStats {
                objects: (stats.objects + sizes.len()) as u32,
                bytes: (stats.bytes + total(sizes)) as u64,
            },
        )
    }
}

/// The sum of a part of the sizes is at most the sum of all of them.
pub proof fn lemma_total_grows(sizes: Seq<u64>, i: int)
    requires
        0 <= i <= sizes.len(),
    ensures
        total(sizes.take(i)) <= total(sizes),
    decreases sizes.len(),
{
    if i < sizes.len() {
        lemma_total_grows(sizes.drop_last(), i);
        assert(sizes.drop_last().take(i) == sizes.take(i));
    } else {
        assert(sizes.take(i) == sizes);
    }
}

/// Adds the objects of one listing to the statistics.
pub fn add_listing(stats: BucketStats, sizes: &Vec<u64>) -> (r: Option<BucketStats>)
    ensures
        r == with_listing(stats, sizes@),
{
    let mut objects = stats.objects;
    let mut bytes = stats.bytes;
    let mut i: usize = 0;
    proof {
        assert(sizes@.take(0) == Seq::<u64>::empty());
    }
    while i < sizes.len()
        invariant
            i <= sizes.len(),
            objects == stats.objects + i,
            bytes == stats.bytes + total(sizes@.take(i as int)),
        decreases sizes.len() - i,
    {
        proof {
            assert(sizes@.take(i + 1).drop_last() == sizes@.take(i as int));
            assert(sizes@.take(i + 1).last() == sizes@[i as int]);
            lemma_total_grows(sizes@, i + 1);
        }
        if objects == u32::MAX {
            return None;
        }
        bytes = match bytes.checked_add(sizes[i]) {
            Some(sum) => sum,
            None => {
                return None;
            },
        };
        objects = objects + 1;
        i = i + 1;
    }
    proof {
        assert(sizes@.take(sizes.len() as int) == sizes@);
    }
    Some(BucketStats { objects, bytes })
}

/// What follows a listing.
#[derive(Debug, Clone, PartialEq, Eq)]
pub enum ListingStep {
    /// The statistics are complete.
    Done,
    /// One more listing is asked for, with the continuation token.
    Again { token: Option<String> },
}

/// A step as plain values.
pub enum ListingStepView {
    Done,
    Again { token: Option<Seq<char>> },
}

impl View for ListingStep {
    type V = ListingStepView;

    open spec fn view(&self) -> ListingStepView {
        match self {
            ListingStep::Done => ListingStepView::Done,
            ListingStep::Again { token } => ListingStepView::Again {
                token: match token {
                    Some(t) => Some(t@),
                    None => None,
                },
            },
        }
    }
}

/// The view of an optional string.
pub open spec fn token_text(token: Option<String>) -> Option<Seq<char>> {
    match token {
        Some(t) => Some(t@),
        None => None,
    }
}

/// What follows a listing. A listing with objects sets the token: to the
/// one it names where it is truncated, the empty one where it names none,
/// and to nothing where it is complete. A listing without objects leaves
/// the token as it was. The listings go on while there is a token, and
/// while no object was counted.
pub open spec fn listing_next(
    objects: u32,
    had_objects: bool,
    truncated: bool,
    next_token: Option<Seq<char>>,
    token: Option<Seq<char>>,
) -> ListingStepView {
    let now = if !had_objects {
        token
    } else if truncated {
        match next_token {
            Some(t) => Some(t),
            None => Some(Seq::empty()),
        }
    } else {
        None
    };
    if now is Some || objects == 0 {
        ListingStepView::Again { token: now }
    } else {
        ListingStepView::Done
    }
}

/// Decides what follows a listing: `objects` is the count after it,
/// `token` the continuation token with which it was asked for.
pub fn next_listing(
    objects: u32,
    had_objects: bool,
    truncated: bool,
    next_token: Option<String>,
    token: Option<String>,
) -> (step: ListingStep)
    ensures
        step@ == listing_next(
            objects,
            had_objects,
            truncated,
            token_text(next_token),
            token_text(token),
        ),
{
    let now = if !had_objects {
        token
    } else if truncated {
        match next_token {
            Some(t) => Some(t),
            None => Some(String::new()),
        }
    } else {
        None
    };
    if now.is_some() || objects == 0 {
        ListingStep::Again { token: now }
    } else {
        ListingStep::Done
    }
}

/// The values among the tags that start with `load_acc_`, in their order.
pub open spec fn account_keys(tags: Seq<(Seq<char>, Seq<char>)>) -> Seq<Seq<char>>
    decreases tags.len(),
{
    if tags.len() == 0 {
        Seq::empty()
    } else if "load_acc_"@.is_prefix_of(tags.last().1) {
        account_keys(tags.drop_last()).push(tags.last().1)
    } else {
        account_keys(tags.drop_last())
    }
}

/// The account keys among the tags of a bucket: the values that start
/// with `load_acc_`.
pub fn get_bucket_tags(tags: &[(String, String)]) -> (keys: Vec<String>)
    ensures
        texts(keys@) == account_keys(pairs(tags@)),
{
    let mut keys: Vec<String> = Vec::new();
    let mut i: usize = 0;
    proof {
        assert(pairs(tags@).take(0) == Seq::<(Seq<char>, Seq<char>)>::empty());
        assert(texts(keys@) == Seq::<Seq<char>>::empty());
    }
    while i < tags.len()
        invariant
            i <= tags.len(),
            texts(keys@) == account_keys(pairs(tags@).take(i as int)),
        decreases tags.len() - i,
    {
        proof {
            let all = pairs(tags@);
            assert(all.take(i + 1).drop_last() == all.take(i as int));
            assert(all.take(i + 1).last() == (tags@[i as int].0@, tags@[i as int].1@));
        }
        let value = tags[i].1.as_str();
        match strip_prefix(value, "load_acc_") {
            Some(rest) => {
                assert("load_acc_"@.is_prefix_of(value@)) by {
                    assert(value@.subrange(0, "load_acc_"@.len() as int) == "load_acc_"@);
                }
                let ghost before = texts(keys@);
                keys.push(tags[i].1.clone());
                assert(texts(keys@) == before.push(value@));
            },
            None => {},
        }
        i = i + 1;
    }
    proof {
        assert(pairs(tags@).take(tags.len() as int) == pairs(tags@));
    }
    keys
}

} // verus!
