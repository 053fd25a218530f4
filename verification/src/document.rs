//! The layout of a saved cache: the entries of a user are saved as the
//! buckets of the user's channels, and are put together again from them.
//!
//! A cache holds the entries of a user as one sequence. Saving splits it
//! into one bucket for each channel, in the order in which the channels
//! first occur. Loading puts the buckets one after the other, by ascending
//! channel id, whatever the order in which they are handed in.

use crate::entry::{bucket, bucket_in, in_channel, CacheEntry};
use vstd::prelude::*;

verus! {

/// The channels in which the entries of `s` lie, each once, in the order in
/// which they first occur.
pub open spec fn channels<T: CacheEntry>(s: Seq<T>) -> Seq<u64>
    decreases s.len(),
{
    if s.len() == 0 {
        Seq::empty()
    } else {
        let before = channels(s.drop_last());
        if before.contains(s.last().channel()) {
            before
        } else {
            before.push(s.last().channel())
        }
    }
}

/// The position of the bucket of least channel id, and the first of those.
pub open spec fn least<T>(buckets: Seq<(u64, Vec<T>)>) -> int
    decreases buckets.len(),
{
    if buckets.len() <= 1 {
        0
    } else {
        let l = least(buckets.drop_last());
        if buckets.last().0 < buckets[l].0 {
            buckets.len() - 1
        } else {
            l
        }
    }
}

/// The entries of the buckets `buckets`, one bucket after the other by
/// ascending channel id.
pub open spec fn history_of<T>(buckets: Seq<(u64, Vec<T>)>) -> Seq<T>
    decreases buckets.len(),
    via history_of_decreases::<T>
{
    if buckets.len() == 0 {
        Seq::empty()
    } else {
        buckets[least(buckets)].1@ + history_of(buckets.remove(least(buckets)))
    }
}

#[via_fn]
proof fn history_of_decreases<T>(buckets: Seq<(u64, Vec<T>)>) {
    if buckets.len() > 0 {
        lemma_least(buckets);
    }
}

/// Buckets as a document holds them: no two for one channel, and in each
/// only entries of its channel.
pub open spec fn is_document<T: CacheEntry>(buckets: Seq<(u64, Vec<T>)>) -> bool {
    &&& forall|i: int, j: int|
        #![trigger buckets[i], buckets[j]]
        0 <= i < j < buckets.len() ==> buckets[i].0 != buckets[j].0
    &&& forall|k: int, i: int|
        #![trigger buckets[k].1@[i]]
        0 <= k < buckets.len() && 0 <= i < buckets[k].1@.len() ==> buckets[k].1@[i].channel()
            == buckets[k].0
}

/// The least bucket is one of the buckets.
pub proof fn lemma_least<T>(buckets: Seq<(u64, Vec<T>)>)
    requires
        buckets.len() > 0,
    ensures
        0 <= least(buckets) < buckets.len(),
    decreases buckets.len(),
{
    if buckets.len() > 1 {
        lemma_least(buckets.drop_last());
    }
}

/// A channel is among the channels of a history where an entry lies in it,
/// and it is among them once.
pub proof fn lemma_channels<T: CacheEntry>(s: Seq<T>)
    ensures
        channels(s).no_duplicates(),
        forall|i: int| 0 <= i < s.len() ==> channels(s).contains((#[trigger] s[i]).channel()),
    decreases s.len(),
{
    if s.len() > 0 {
        let init = s.drop_last();
        let before = channels(init);
        let now = channels(s);
        lemma_channels(init);
        assert forall|i: int| 0 <= i < s.len() implies now.contains((#[trigger] s[i]).channel()) by {
            if i < init.len() {
                assert(s[i] == init[i]);
                assert(before.contains(init[i].channel()));
                let k = choose|k: int| 0 <= k < before.len() && before[k] == init[i].channel();
                assert(now[k] == s[i].channel());
            } else if before.contains(s.last().channel()) {
            } else {
                assert(now[before.len() as int] == s[i].channel());
            }
        }
    }
}

/// Of entries that all lie in `channel`, the bucket of `channel` holds all
/// and the bucket of another channel none.
proof fn lemma_bucket_of_a_bucket<T: CacheEntry>(s: Seq<T>, channel: u64, other: u64)
    requires
        forall|i: int| 0 <= i < s.len() ==> (#[trigger] s[i]).channel() == channel,
    ensures
        bucket(s, channel) == s,
        other != channel ==> bucket(s, other) == Seq::<T>::empty(),
    decreases s.len(),
{
    reveal(Seq::filter);
    if s.len() > 0 {
        let init = s.drop_last();
        assert forall|i: int| 0 <= i < init.len() implies (#[trigger] init[i]).channel()
            == channel by {
            assert(init[i] == s[i]);
        }
        lemma_bucket_of_a_bucket(init, channel, other);
        assert(s[s.len() - 1].channel() == channel);
        assert(init.push(s.last()) =~= s);
    } else {
        assert(bucket(s, channel) =~= s);
    }
}

/// Without one of its buckets, a document is a document.
proof fn lemma_document_without<T: CacheEntry>(buckets: Seq<(u64, Vec<T>)>, m: int)
    requires
        is_document(buckets),
        0 <= m < buckets.len(),
    ensures
        is_document(buckets.remove(m)),
{
    let rest = buckets.remove(m);
    assert forall|i: int, j: int| 0 <= i < j < rest.len() implies (#[trigger] rest[i]).0 != (
    #[trigger] rest[j]).0 by {
        let si = if i < m {
            i
        } else {
            i + 1
        };
        let sj = if j < m {
            j
        } else {
            j + 1
        };
        assert(rest[i] == buckets[si] && rest[j] == buckets[sj]);
        assert(buckets[si].0 != buckets[sj].0);
    }
    assert forall|k: int, i: int| 0 <= k < rest.len() && 0 <= i < rest[k].1@.len() implies (
    #[trigger] rest[k].1@[i]).channel() == rest[k].0 by {
        let sk = if k < m {
            k
        } else {
            k + 1
        };
        assert(rest[k] == buckets[sk]);
        assert(buckets[sk].1@[i].channel() == buckets[sk].0);
    }
}

/// The history of a document has no entry in a channel that the document
/// has no bucket for.
pub proof fn lemma_history_of_other_channel<T: CacheEntry>(
    buckets: Seq<(u64, Vec<T>)>,
    channel: u64,
)
    requires
        is_document(buckets),
        forall|k: int| 0 <= k < buckets.len() ==> (#[trigger] buckets[k]).0 != channel,
    ensures
        bucket(history_of(buckets), channel) == Seq::<T>::empty(),
    decreases buckets.len(),
{
    broadcast use Seq::filter_distributes_over_add;

    if buckets.len() == 0 {
        lemma_bucket_of_a_bucket(Seq::<T>::empty(), channel, channel);
    } else {
        lemma_least(buckets);
        let m = least(buckets);
        let rest = buckets.remove(m);
        lemma_document_without(buckets, m);
        assert forall|k: int| 0 <= k < rest.len() implies (#[trigger] rest[k]).0 != channel by {
            let sk = if k < m {
                k
            } else {
                k + 1
            };
            assert(rest[k] == buckets[sk]);
        }
        lemma_history_of_other_channel(rest, channel);
        assert forall|i: int| 0 <= i < buckets[m].1@.len() implies (
        #[trigger] buckets[m].1@[i]).channel() == buckets[m].0 by {}
        lemma_bucket_of_a_bucket(buckets[m].1@, buckets[m].0, channel);
        assert(bucket(history_of(buckets), channel) == bucket(buckets[m].1@, channel) + bucket(
            history_of(rest),
            channel,
        ));
    }
}

/// The history of a document has the buckets of the document: in each
/// channel it holds the entries of the channel's bucket, in their order.
pub proof fn lemma_history_of_buckets<T: CacheEntry>(buckets: Seq<(u64, Vec<T>)>, k: int)
    requires
        is_document(buckets),
        0 <= k < buckets.len(),
    ensures
        bucket(history_of(buckets), buckets[k].0) == buckets[k].1@,
    decreases buckets.len(),
{
    broadcast use Seq::filter_distributes_over_add;

    lemma_least(buckets);
    let channel = buckets[k].0;
    let m = least(buckets);
    let rest = buckets.remove(m);
    lemma_document_without(buckets, m);
    assert forall|i: int| 0 <= i < buckets[m].1@.len() implies (
    #[trigger] buckets[m].1@[i]).channel() == buckets[m].0 by {}
    lemma_bucket_of_a_bucket(buckets[m].1@, buckets[m].0, channel);
    assert(bucket(history_of(buckets), channel) == bucket(buckets[m].1@, channel) + bucket(
        history_of(rest),
        channel,
    ));
    if m == k {
        assert forall|j: int| 0 <= j < rest.len() implies (#[trigger] rest[j]).0 != channel by {
            let sj = if j < m {
                j
            } else {
                j + 1
            };
            assert(rest[j] == buckets[sj]);
            if sj < k {
                assert(buckets[sj].0 != buckets[k].0);
            } else {
                assert(buckets[k].0 != buckets[sj].0);
            }
        }
        lemma_history_of_other_channel(rest, channel);
        assert(buckets[k].1@ + Seq::<T>::empty() =~= buckets[k].1@);
    } else {
        let at = if k < m {
            k
        } else {
            k - 1
        };
        assert(rest[at] == buckets[k]);
        if m < k {
            assert(buckets[m].0 != buckets[k].0);
        } else {
            assert(buckets[k].0 != buckets[m].0);
        }
        lemma_history_of_buckets(rest, at);
        assert(Seq::<T>::empty() + buckets[k].1@ =~= buckets[k].1@);
    }
}

/// Tells whether `id` is among `ids`.
fn contains_id(ids: &Vec<u64>, id: u64) -> (found: bool)
    ensures
        found == ids@.contains(id),
{
    let mut i: usize = 0;
    while i < ids.len()
        invariant
            i <= ids@.len(),
            forall|k: int| 0 <= k < i ==> ids@[k] != id,
        decreases ids@.len() - i,
    {
        if ids[i] == id {
            return true;
        }
        i = i + 1;
    }
    false
}

/// The channels in which the entries lie, each once, in the order in which
/// they first occur.
pub fn channels_of<T: CacheEntry>(entries: &Vec<T>) -> (ids: Vec<u64>)
    ensures
        ids@ == channels(entries@),
{
    let mut ids: Vec<u64> = Vec::new();
    let mut i: usize = 0;
    assert(entries@.take(0) =~= Seq::<T>::empty());
    while i < entries.len()
        invariant
            i <= entries@.len(),
            ids@ == channels(entries@.take(i as int)),
        decreases entries@.len() - i,
    {
        proof {
            let next = entries@.take(i + 1);
            assert(next.drop_last() =~= entries@.take(i as int));
            assert(next.last() == entries@[i as int]);
        }
        let channel = entries[i].channel_id();
        if !contains_id(&ids, channel) {
            ids.push(channel);
        }
        i = i + 1;
    }
    assert(entries@.take(i as int) =~= entries@);
    ids
}

/// Splits the entries of a user into the buckets of the user's channels:
/// one bucket for each channel in which an entry lies, in the order in
/// which the channels first occur, and in each bucket the entries of the
/// channel in their order.
pub fn buckets_of_history<T: CacheEntry>(entries: &Vec<T>) -> (buckets: Vec<(u64, Vec<&T>)>)
    ensures
        buckets@.len() == channels(entries@).len(),
        forall|k: int|
            0 <= k < buckets@.len() ==> (#[trigger] buckets@[k]).0 == channels(entries@)[k]
                && buckets@[k].1@.unref() == bucket(entries@, buckets@[k].0),
{
    let ids = channels_of(entries);
    let mut buckets: Vec<(u64, Vec<&T>)> = Vec::new();
    let mut k: usize = 0;
    while k < ids.len()
        invariant
            k <= ids@.len(),
            ids@ == channels(entries@),
            buckets@.len() == k,
            forall|j: int|
                0 <= j < k ==> (#[trigger] buckets@[j]).0 == ids@[j] && buckets@[j].1@.unref()
                    == bucket(entries@, buckets@[j].0),
        decreases ids@.len() - k,
    {
        let found = bucket_in(entries, ids[k]);
        buckets.push((ids[k], found));
        k = k + 1;
    }
    buckets
}

/// Finds the bucket of least channel id.
fn find_least<T>(buckets: &Vec<(u64, Vec<T>)>) -> (l: usize)
    requires
        buckets@.len() > 0,
    ensures
        l == least(buckets@),
        l < buckets@.len(),
{
    let mut l: usize = 0;
    let mut i: usize = 1;
    assert(buckets@.take(1).len() == 1);
    while i < buckets.len()
        invariant
            1 <= i <= buckets@.len(),
            l < i,
            l == least(buckets@.take(i as int)),
        decreases buckets@.len() - i,
    {
        proof {
            let next = buckets@.take(i + 1);
            assert(next.drop_last() =~= buckets@.take(i as int));
            assert(next.last() == buckets@[i as int]);
            assert(next[l as int] == buckets@[l as int]);
        }
        if buckets[i].0 < buckets[l].0 {
            l = i;
        }
        i = i + 1;
    }
    assert(buckets@.take(i as int) =~= buckets@);
    l
}

/// Puts the entries of a user together from the buckets of the user's
/// channels: one bucket after the other by ascending channel id, whatever
/// the order in which the buckets are handed in. Where the buckets are
/// those of a document, the result has the same buckets.
pub fn history_of_buckets<T: CacheEntry>(buckets: Vec<(u64, Vec<T>)>) -> (entries: Vec<T>)
    ensures
        entries@ == history_of(buckets@),
        is_document(buckets@) ==> forall|k: int|
            0 <= k < buckets@.len() ==> bucket(entries@, (#[trigger] buckets@[k]).0)
                == buckets@[k].1@,
{
    let mut rest = buckets;
    let mut entries: Vec<T> = Vec::new();
    assert(entries@ + history_of(rest@) =~= history_of(buckets@));
    while rest.len() > 0
        invariant
            entries@ + history_of(rest@) == history_of(buckets@),
        decreases rest@.len(),
    {
        let ghost before = rest@;
        let ghost done = entries@;
        let m = find_least(&rest);
        let removed = rest.remove(m);
        let mut next = removed.1;
        entries.append(&mut next);
        assert(entries@ + history_of(rest@) =~= done + (before[m as int].1@ + history_of(
            before.remove(m as int),
        )));
    }
    assert(entries@ + Seq::<T>::empty() =~= entries@);
    proof {
        if is_document(buckets@) {
            assert forall|k: int| 0 <= k < buckets@.len() implies bucket(
                entries@,
                (#[trigger] buckets@[k]).0,
            ) == buckets@[k].1@ by {
                lemma_history_of_buckets(buckets@, k);
            }
        }
    }
    entries
}

} // verus!
