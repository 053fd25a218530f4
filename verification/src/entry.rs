//! What the two caches share: an entry has a message id, a channel and a
//! timestamp, and a user's entries form one sequence in insertion order.
//!
//! The bucket of a channel is the part of that sequence which lies in the
//! channel. Eviction looks at the whole sequence, whatever the channels.

use vstd::prelude::*;

verus! {

/// An entry of a cache.
pub trait CacheEntry {
    /// The id of the message that the entry stands for.
    spec fn message_id(&self) -> u64;

    /// The channel that the message was posted in.
    spec fn channel(&self) -> u64;

    /// The time of the message, in seconds.
    spec fn timestamp(&self) -> i64;

    /// Returns the message id.
    fn id(&self) -> (id: u64)
        ensures
            id == self.message_id(),
    ;

    /// Returns the channel.
    fn channel_id(&self) -> (channel: u64)
        ensures
            channel == self.channel(),
    ;

    /// Returns the timestamp.
    fn time(&self) -> (time: i64)
        ensures
            time == self.timestamp(),
    ;
}

/// Whether `entry` stands for message `id` of `channel`.
pub open spec fn is_message<T: CacheEntry>(entry: T, channel: u64, id: u64) -> bool {
    entry.channel() == channel && entry.message_id() == id
}

/// The position of the first entry of `s` that stands for message `id` of
/// `channel`, or the length of `s` where there is none.
pub open spec fn index_of<T: CacheEntry>(s: Seq<T>, channel: u64, id: u64) -> int
    decreases s.len(),
{
    if s.len() == 0 {
        0
    } else if is_message(s[0], channel, id) {
        0
    } else {
        1 + index_of(s.drop_first(), channel, id)
    }
}

/// The entries of `s` that lie in `channel`, in their order.
pub open spec fn bucket<T: CacheEntry>(s: Seq<T>, channel: u64) -> Seq<T> {
    s.filter(in_channel(channel))
}

/// `s` after `entry` was put in: in the place of the first entry for the
/// same message of the same channel, or at the end where there is none.
pub open spec fn upserted<T: CacheEntry>(s: Seq<T>, entry: T) -> Seq<T> {
    let i = index_of(s, entry.channel(), entry.message_id());
    if i < s.len() {
        s.update(i, entry)
    } else {
        s.push(entry)
    }
}

/// The test that an entry does not stand for message `id` of `channel`.
pub open spec fn not_message<T: CacheEntry>(channel: u64, id: u64) -> spec_fn(T) -> bool {
    |e: T| !is_message(e, channel, id)
}

/// The test that an entry lies in `channel`.
pub open spec fn in_channel<T: CacheEntry>(channel: u64) -> spec_fn(T) -> bool {
    |e: T| e.channel() == channel
}

/// The test that an entry lies outside `channel`.
pub open spec fn not_in_channel<T: CacheEntry>(channel: u64) -> spec_fn(T) -> bool {
    |e: T| e.channel() != channel
}

/// `s` without the entries for message `id` of `channel`.
pub open spec fn without_message<T: CacheEntry>(s: Seq<T>, channel: u64, id: u64) -> Seq<T> {
    s.filter(not_message(channel, id))
}

/// `s` without the entries of `channel`.
pub open spec fn without_channel<T: CacheEntry>(s: Seq<T>, channel: u64) -> Seq<T> {
    s.filter(not_in_channel(channel))
}

/// `index_of` is the least position of a matching entry.
pub proof fn lemma_index_of<T: CacheEntry>(s: Seq<T>, channel: u64, id: u64)
    ensures
        0 <= index_of(s, channel, id) <= s.len(),
        index_of(s, channel, id) < s.len() ==> is_message(
            s[index_of(s, channel, id)],
            channel,
            id,
        ),
        forall|j: int| 0 <= j < index_of(s, channel, id) ==> !is_message(#[trigger] s[j], channel, id),
    decreases s.len(),
{
    if s.len() > 0 && !is_message(s[0], channel, id) {
        let rest = s.drop_first();
        lemma_index_of(rest, channel, id);
        assert forall|j: int| 0 <= j < index_of(s, channel, id) implies !is_message(
            #[trigger] s[j],
            channel,
            id,
        ) by {
            if j > 0 {
                assert(s[j] == rest[j - 1]);
            }
        }
    }
}

/// Looks for the first entry that stands for message `id` of `channel`.
pub fn find_message<T: CacheEntry>(entries: &Vec<T>, channel: u64, id: u64) -> (found: Option<
    usize,
>)
    ensures
        match found {
            Some(i) => i < entries@.len() && i == index_of(entries@, channel, id),
            None => index_of(entries@, channel, id) == entries@.len(),
        },
{
    let ghost k = index_of(entries@, channel, id);
    proof {
        lemma_index_of(entries@, channel, id);
    }
    let mut i: usize = 0;
    while i < entries.len()
        invariant
            i <= entries@.len(),
            forall|j: int| 0 <= j < i ==> !is_message(#[trigger] entries@[j], channel, id),
            k == index_of(entries@, channel, id),
            0 <= k <= entries@.len(),
            k < entries@.len() ==> is_message(entries@[k], channel, id),
            forall|j: int| 0 <= j < k ==> !is_message(#[trigger] entries@[j], channel, id),
        decreases entries@.len() - i,
    {
        if entries[i].channel_id() == channel && entries[i].id() == id {
            assert(is_message(entries@[i as int], channel, id));
            return Some(i);
        }
        i = i + 1;
    }
    None
}

/// Puts `entry` in the place of the first entry for the same message of the
/// same channel, or at the end where there is none.
pub fn upsert<T: CacheEntry>(entries: &mut Vec<T>, entry: T)
    ensures
        final(entries)@ == upserted(old(entries)@, entry),
{
    match find_message(entries, entry.channel_id(), entry.id()) {
        Some(i) => {
            entries.set(i, entry);
        },
        None => {
            entries.push(entry);
        },
    }
}

/// The position of the oldest entry of `s`: one of least timestamp, and the
/// first of those.
pub open spec fn oldest<T: CacheEntry>(s: Seq<T>) -> int
    decreases s.len(),
{
    if s.len() <= 1 {
        0
    } else {
        let o = oldest(s.drop_last());
        if s.last().timestamp() < s[o].timestamp() {
            s.len() - 1
        } else {
            o
        }
    }
}

/// `s` after its oldest entry was removed, `k` times over.
pub open spec fn evicted<T: CacheEntry>(s: Seq<T>, k: nat) -> Seq<T>
    decreases k,
{
    if k == 0 || s.len() == 0 {
        s
    } else {
        evicted(s.remove(oldest(s)), (k - 1) as nat)
    }
}

/// By how many entries a sequence of `len` entries exceeds `max`.
pub open spec fn excess(len: nat, max: nat) -> nat {
    if len > max {
        (len - max) as nat
    } else {
        0
    }
}

/// `s` cut down to at most `max` entries by eviction of the oldest.
pub open spec fn bounded<T: CacheEntry>(s: Seq<T>, max: nat) -> Seq<T> {
    evicted(s, excess(s.len(), max))
}

/// The oldest entry is no newer than any other, and older than every entry
/// before it.
pub proof fn lemma_oldest<T: CacheEntry>(s: Seq<T>)
    requires
        s.len() > 0,
    ensures
        0 <= oldest(s) < s.len(),
        forall|j: int| 0 <= j < s.len() ==> s[oldest(s)].timestamp() <= (#[trigger] s[j]).timestamp(),
        forall|j: int| 0 <= j < oldest(s) ==> s[oldest(s)].timestamp() < (#[trigger] s[j]).timestamp(),
    decreases s.len(),
{
    if s.len() > 1 {
        let init = s.drop_last();
        lemma_oldest(init);
        let o = oldest(init);
        assert(s[o] == init[o]);
        assert forall|j: int| 0 <= j < s.len() implies s[oldest(s)].timestamp() <= (
        #[trigger] s[j]).timestamp() by {
            if j < init.len() {
                assert(s[j] == init[j]);
            }
        }
        assert forall|j: int| 0 <= j < oldest(s) implies s[oldest(s)].timestamp() < (
        #[trigger] s[j]).timestamp() by {
            if j < init.len() {
                assert(s[j] == init[j]);
            }
        }
    }
}

/// Eviction removes `k` entries, or all where there are fewer.
pub proof fn lemma_evicted_len<T: CacheEntry>(s: Seq<T>, k: nat)
    ensures
        evicted(s, k).len() == if k <= s.len() {
            s.len() - k
        } else {
            0
        },
    decreases k,
{
    if k > 0 && s.len() > 0 {
        lemma_oldest(s);
        lemma_evicted_len(s.remove(oldest(s)), (k - 1) as nat);
    }
}

/// A bounded sequence holds `max` entries, or all where there were fewer.
pub proof fn lemma_bounded_len<T: CacheEntry>(s: Seq<T>, max: nat)
    ensures
        bounded(s, max).len() == if s.len() <= max {
            s.len()
        } else {
            max
        },
        s.len() <= max ==> bounded(s, max) == s,
{
    lemma_evicted_len(s, excess(s.len(), max));
}

/// Eviction only takes entries away, and each entry that it takes is no
/// newer than any entry that it leaves.
pub proof fn lemma_evicted_keeps_newest<T: CacheEntry>(s: Seq<T>, k: nat)
    ensures
        evicted(s, k).to_multiset().subset_of(s.to_multiset()),
        forall|kept: T, gone: T|
            #![trigger evicted(s, k).contains(kept), s.to_multiset().count(gone)]
            evicted(s, k).contains(kept) && s.to_multiset().count(gone) > evicted(
                s,
                k,
            ).to_multiset().count(gone) ==> gone.timestamp() <= kept.timestamp(),
    decreases k,
{
    broadcast use vstd::seq_lib::group_to_multiset_ensures;

    if k > 0 && s.len() > 0 {
        lemma_oldest(s);
        let o = oldest(s);
        let rest = s.remove(o);
        let result = evicted(s, k);
        lemma_evicted_keeps_newest(rest, (k - 1) as nat);
        assert(rest.to_multiset() =~= s.to_multiset().remove(s[o]));
        assert forall|kept: T, gone: T|
            result.contains(kept) && s.to_multiset().count(gone) > result.to_multiset().count(
                gone,
            ) implies gone.timestamp() <= kept.timestamp() by {
            assert(result.to_multiset().count(kept) > 0);
            assert(rest.to_multiset().count(kept) > 0);
            assert(s.to_multiset().count(kept) > 0);
            assert(s.contains(kept));
            let j = choose|j: int| 0 <= j < s.len() && s[j] == kept;
            assert(s[o].timestamp() <= s[j].timestamp());
            if rest.to_multiset().count(gone) > result.to_multiset().count(gone) {
                assert(rest.to_multiset().count(gone) > 0);
            } else {
                assert(gone == s[o]);
            }
        }
    }
}

/// Finds the oldest entry.
pub fn find_oldest<T: CacheEntry>(entries: &Vec<T>) -> (o: usize)
    requires
        entries@.len() > 0,
    ensures
        o == oldest(entries@),
        o < entries@.len(),
{
    let mut o: usize = 0;
    let mut i: usize = 1;
    assert(entries@.take(1).len() == 1);
    while i < entries.len()
        invariant
            1 <= i <= entries@.len(),
            o < i,
            o == oldest(entries@.take(i as int)),
        decreases entries@.len() - i,
    {
        proof {
            let next = entries@.take(i + 1);
            assert(next.drop_last() =~= entries@.take(i as int));
            assert(next.last() == entries@[i as int]);
            assert(next[o as int] == entries@[o as int]);
        }
        if entries[i].time() < entries[o].time() {
            o = i;
        }
        i = i + 1;
    }
    assert(entries@.take(i as int) =~= entries@);
    o
}

/// Removes the oldest entries until at most `max_msgs` are left.
pub fn evict<T: CacheEntry>(entries: &mut Vec<T>, max_msgs: usize)
    ensures
        final(entries)@ == bounded(old(entries)@, max_msgs as nat),
        final(entries)@.len() <= max_msgs,
{
    while entries.len() > max_msgs
        invariant
            bounded(old(entries)@, max_msgs as nat) == bounded(entries@, max_msgs as nat),
        decreases entries@.len(),
    {
        let o = find_oldest(entries);
        entries.remove(o);
    }
}

/// Removes the entries for message `id` of `channel`.
pub fn remove_message<T: CacheEntry>(entries: &mut Vec<T>, channel: u64, id: u64)
    ensures
        final(entries)@ == without_message(old(entries)@, channel, id),
{
    let ghost keep = not_message::<T>(channel, id);
    let mut source: Vec<T> = Vec::new();
    std::mem::swap(entries, &mut source);
    assert(source@.take(0).filter(keep) =~= Seq::<T>::empty()) by {
        reveal(Seq::filter);
    }
    for entry in it: source
        invariant
            keep == not_message::<T>(channel, id),
            it.seq() == old(entries)@,
            entries@ == old(entries)@.take(it.index()).filter(keep),
    {
        proof {
            let done = old(entries)@.take(it.index());
            assert(old(entries)@.take(it.index() + 1) =~= done.push(entry));
            done.lemma_filter_push(entry, keep);
        }
        if !(entry.channel_id() == channel && entry.id() == id) {
            entries.push(entry);
        }
    }
    assert(old(entries)@.take(old(entries)@.len() as int) =~= old(entries)@);
}

/// Removes the entries of `channel`.
pub fn remove_channel<T: CacheEntry>(entries: &mut Vec<T>, channel: u64)
    ensures
        final(entries)@ == without_channel(old(entries)@, channel),
{
    let ghost keep = not_in_channel::<T>(channel);
    let mut source: Vec<T> = Vec::new();
    std::mem::swap(entries, &mut source);
    assert(source@.take(0).filter(keep) =~= Seq::<T>::empty()) by {
        reveal(Seq::filter);
    }
    for entry in it: source
        invariant
            keep == not_in_channel::<T>(channel),
            it.seq() == old(entries)@,
            entries@ == old(entries)@.take(it.index()).filter(keep),
    {
        proof {
            let done = old(entries)@.take(it.index());
            assert(old(entries)@.take(it.index() + 1) =~= done.push(entry));
            done.lemma_filter_push(entry, keep);
        }
        if entry.channel_id() != channel {
            entries.push(entry);
        }
    }
    assert(old(entries)@.take(old(entries)@.len() as int) =~= old(entries)@);
}

/// No two entries of `s` stand for the same message of the same channel.
pub open spec fn unique<T: CacheEntry>(s: Seq<T>) -> bool {
    forall|i: int, j: int|
        #![trigger s[i], s[j]]
        0 <= i < j < s.len() ==> !is_message(s[j], s[i].channel(), s[i].message_id())
}

/// `s` after the entries `entries` were put in one after the other, each
/// followed by eviction down to `max` entries.
pub open spec fn put_all<T: CacheEntry>(s: Seq<T>, entries: Seq<T>, max: nat) -> Seq<T>
    decreases entries.len(),
{
    if entries.len() == 0 {
        s
    } else {
        bounded(upserted(put_all(s, entries.drop_last(), max), entries.last()), max)
    }
}

/// An entry for a message that `s` does not hold is put at the end.
pub proof fn lemma_upserted_new<T: CacheEntry>(s: Seq<T>, entry: T)
    requires
        forall|j: int|
            0 <= j < s.len() ==> !is_message(#[trigger] s[j], entry.channel(), entry.message_id()),
    ensures
        upserted(s, entry) == s.push(entry),
{
    lemma_index_of(s, entry.channel(), entry.message_id());
}

/// Putting an entry in keeps the entries unique.
pub proof fn lemma_upserted_unique<T: CacheEntry>(s: Seq<T>, entry: T)
    requires
        unique(s),
    ensures
        unique(upserted(s, entry)),
{
    let i = index_of(s, entry.channel(), entry.message_id());
    let after = upserted(s, entry);
    lemma_index_of(s, entry.channel(), entry.message_id());
    assert forall|x: int, y: int| 0 <= x < y < after.len() implies !is_message(
        #[trigger] after[y],
        (#[trigger] after[x]).channel(),
        after[x].message_id(),
    ) by {
        if i < s.len() {
            if x == i {
                assert(!is_message(s[y], s[i].channel(), s[i].message_id()));
            } else if y == i {
                assert(!is_message(s[i], s[x].channel(), s[x].message_id()));
            } else {
                assert(!is_message(s[y], s[x].channel(), s[x].message_id()));
            }
        } else {
            if y < s.len() {
                assert(!is_message(s[y], s[x].channel(), s[x].message_id()));
            } else {
                assert(!is_message(s[x], entry.channel(), entry.message_id()));
            }
        }
    }
}

/// Eviction keeps the entries unique.
pub proof fn lemma_evicted_unique<T: CacheEntry>(s: Seq<T>, k: nat)
    requires
        unique(s),
    ensures
        unique(evicted(s, k)),
    decreases k,
{
    if k > 0 && s.len() > 0 {
        lemma_oldest(s);
        let o = oldest(s);
        let rest = s.remove(o);
        assert forall|x: int, y: int| 0 <= x < y < rest.len() implies !is_message(
            #[trigger] rest[y],
            (#[trigger] rest[x]).channel(),
            rest[x].message_id(),
        ) by {
            let sx = if x < o {
                x
            } else {
                x + 1
            };
            let sy = if y < o {
                y
            } else {
                y + 1
            };
            assert(rest[x] == s[sx] && rest[y] == s[sy]);
            assert(!is_message(s[sy], s[sx].channel(), s[sx].message_id()));
        }
        lemma_evicted_unique(rest, (k - 1) as nat);
    }
}

/// Taking entries away keeps the entries unique.
pub proof fn lemma_filter_unique<T: CacheEntry>(s: Seq<T>, keep: spec_fn(T) -> bool)
    requires
        unique(s),
    ensures
        unique(s.filter(keep)),
    decreases s.len(),
{
    reveal(Seq::filter);
    if s.len() > 0 {
        let init = s.drop_last();
        assert forall|x: int, y: int| 0 <= x < y < init.len() implies !is_message(
            #[trigger] init[y],
            (#[trigger] init[x]).channel(),
            init[x].message_id(),
        ) by {
            assert(!is_message(s[y], s[x].channel(), s[x].message_id()));
        }
        lemma_filter_unique(init, keep);
        let kept = init.filter(keep);
        let after = s.filter(keep);
        if keep(s.last()) {
            assert forall|x: int, y: int| 0 <= x < y < after.len() implies !is_message(
                #[trigger] after[y],
                (#[trigger] after[x]).channel(),
                after[x].message_id(),
            ) by {
                if y < kept.len() {
                    assert(!is_message(kept[y], kept[x].channel(), kept[x].message_id()));
                } else {
                    assert(kept.contains(kept[x]));
                    init.lemma_filter_contains_rev(keep, kept[x]);
                    let j = choose|j: int| 0 <= j < init.len() && init[j] == kept[x];
                    assert(!is_message(s[s.len() - 1], s[j].channel(), s[j].message_id()));
                }
            }
        }
    }
}

/// An entry that is newer than every other, or as new as others that all
/// stand before it, is not evicted while one entry is left.
pub proof fn lemma_newest_survives<T: CacheEntry>(s: Seq<T>, i: int, k: nat)
    requires
        0 <= i < s.len(),
        k < s.len(),
        forall|j: int|
            0 <= j < s.len() && j != i ==> (#[trigger] s[j]).timestamp() < s[i].timestamp() || (
            s[j].timestamp() == s[i].timestamp() && j < i),
    ensures
        evicted(s, k).contains(s[i]),
    decreases k,
{
    if k == 0 {
        assert(evicted(s, k)[i] == s[i]);
    } else {
        lemma_oldest(s);
        let o = oldest(s);
        if o == i {
            let j = if i == 0 {
                1int
            } else {
                0int
            };
            assert(s[j].timestamp() < s[i].timestamp() || (s[j].timestamp() == s[i].timestamp()
                && j < i));
            assert(s[i].timestamp() <= s[j].timestamp());
            assert(false);
        }
        let rest = s.remove(o);
        let at = if o < i {
            i - 1
        } else {
            i
        };
        assert(rest[at] == s[i]);
        assert forall|j: int| 0 <= j < rest.len() && j != at implies (
        #[trigger] rest[j]).timestamp() < rest[at].timestamp() || (rest[j].timestamp()
            == rest[at].timestamp() && j < at) by {
            let sj = if j < o {
                j
            } else {
                j + 1
            };
            assert(rest[j] == s[sj]);
            assert(s[sj].timestamp() < s[i].timestamp() || (s[sj].timestamp() == s[i].timestamp()
                && sj < i));
        }
        lemma_newest_survives(rest, at, (k - 1) as nat);
    }
}

/// Of distinct messages that were put into an empty sequence one after the
/// other, `max` are left, or all where there were fewer; what is left are
/// messages that were put in; and each message that is gone is no newer
/// than any message that is left.
pub proof fn lemma_put_all_keeps_newest<T: CacheEntry>(entries: Seq<T>, max: nat)
    requires
        unique(entries),
    ensures
        put_all(Seq::empty(), entries, max).len() == if entries.len() <= max {
            entries.len()
        } else {
            max
        },
        entries.len() <= max ==> put_all(Seq::empty(), entries, max) == entries,
        forall|kept: T| #[trigger]
            put_all(Seq::empty(), entries, max).contains(kept) ==> entries.contains(kept),
        forall|kept: T, gone: T|
            #![trigger put_all(Seq::empty(), entries, max).contains(kept), entries.contains(gone)]
            put_all(Seq::empty(), entries, max).contains(kept) && entries.contains(gone)
                && !put_all(Seq::empty(), entries, max).contains(gone) ==> gone.timestamp()
                <= kept.timestamp(),
    decreases entries.len(),
{
    broadcast use vstd::seq_lib::group_to_multiset_ensures;

    if entries.len() > 0 {
        let init = entries.drop_last();
        let entry = entries.last();
        let prev = put_all(Seq::empty(), init, max);
        assert forall|x: int, y: int| 0 <= x < y < init.len() implies !is_message(
            #[trigger] init[y],
            (#[trigger] init[x]).channel(),
            init[x].message_id(),
        ) by {
            assert(!is_message(entries[y], entries[x].channel(), entries[x].message_id()));
        }
        lemma_put_all_keeps_newest(init, max);
        assert forall|j: int| 0 <= j < prev.len() implies !is_message(
            #[trigger] prev[j],
            entry.channel(),
            entry.message_id(),
        ) by {
            assert(prev.contains(prev[j]));
            assert(init.contains(prev[j]));
            let x = choose|x: int| 0 <= x < init.len() && init[x] == prev[j];
            assert(!is_message(
                entries[entries.len() - 1],
                entries[x].channel(),
                entries[x].message_id(),
            ));
        }
        lemma_upserted_new(prev, entry);
        let full = prev.push(entry);
        let k = excess(full.len(), max);
        let after = put_all(Seq::empty(), entries, max);
        assert(after == evicted(full, k));
        lemma_bounded_len(full, max);
        lemma_evicted_keeps_newest(full, k);
        if entries.len() <= max {
            assert(full =~= entries);
        }
        assert forall|kept: T| #[trigger] after.contains(kept) implies entries.contains(kept) by {
            assert(after.to_multiset().count(kept) > 0);
            assert(full.to_multiset().count(kept) > 0);
            assert(full.contains(kept));
            let x = choose|x: int| 0 <= x < full.len() && full[x] == kept;
            if x < prev.len() {
                assert(prev.contains(kept));
                assert(init.contains(kept));
                let y = choose|y: int| 0 <= y < init.len() && init[y] == kept;
                assert(entries[y] == kept);
            } else {
                assert(entries[entries.len() - 1] == kept);
            }
        }
        assert forall|kept: T, gone: T|
            after.contains(kept) && entries.contains(gone) && !after.contains(
                gone,
            ) implies gone.timestamp() <= kept.timestamp() by {
            assert(after.to_multiset().count(kept) > 0);
            assert(full.to_multiset().count(kept) > 0);
            assert(full.contains(kept));
            assert(after.to_multiset().count(gone) == 0);
            if full.contains(gone) {
                assert(full.to_multiset().count(gone) > 0);
            } else {
                let y = choose|y: int| 0 <= y < entries.len() && entries[y] == gone;
                if y == entries.len() - 1 {
                    assert(full[prev.len() as int] == gone);
                    assert(false);
                }
                assert(init[y] == gone);
                assert(init.contains(gone));
                if !prev.contains(gone) {
                } else {
                    let z = choose|z: int| 0 <= z < prev.len() && prev[z] == gone;
                    assert(full[z] == gone);
                    assert(false);
                }
                assert(prev != init);
                assert(prev.len() == max);
                assert(k == 1);
                lemma_oldest(full);
                let o = oldest(full);
                assert(evicted(full.remove(o), 0) == full.remove(o));
                assert(after == full.remove(o));
                if prev.contains(kept) {
                } else {
                    let x = choose|x: int| 0 <= x < full.len() && full[x] == kept;
                    if x < prev.len() {
                        assert(prev[x] == kept);
                        assert(false);
                    }
                    assert(kept == entry);
                    if o == prev.len() {
                        assert(full.remove(o) =~= prev);
                        assert(false);
                    }
                    assert(full[o] == prev[o]);
                    assert(prev.contains(prev[o]));
                    assert(gone.timestamp() <= prev[o].timestamp());
                    assert(full[o].timestamp() <= full[prev.len() as int].timestamp());
                }
            }
        }
    }
}

/// What a cache keeps of every user: at most `max` entries, no two of them
/// for the same message of the same channel.
pub open spec fn well_kept<T: CacheEntry>(s: Seq<T>, max: nat) -> bool {
    s.len() <= max && unique(s)
}

/// Putting an entry in and evicting keeps a user's entries as a cache keeps
/// them.
pub proof fn lemma_put_well_kept<T: CacheEntry>(s: Seq<T>, entry: T, max: nat)
    requires
        unique(s),
    ensures
        well_kept(bounded(upserted(s, entry), max), max),
{
    lemma_upserted_unique(s, entry);
    lemma_evicted_unique(upserted(s, entry), excess(upserted(s, entry).len(), max));
    lemma_bounded_len(upserted(s, entry), max);
}

/// Removing a message or a channel keeps a user's entries as a cache keeps
/// them.
pub proof fn lemma_without_well_kept<T: CacheEntry>(s: Seq<T>, max: nat, channel: u64, id: u64)
    requires
        well_kept(s, max),
    ensures
        well_kept(without_message(s, channel, id), max),
        well_kept(without_channel(s, channel), max),
{
    broadcast use Seq::lemma_filter_len;

    lemma_filter_unique(s, not_message(channel, id));
    lemma_filter_unique(s, not_in_channel(channel));
}

/// The first position of a message is the position at which it stands
/// with no entry for it before.
pub proof fn lemma_index_of_is<T: CacheEntry>(s: Seq<T>, channel: u64, id: u64, i: int)
    requires
        0 <= i <= s.len(),
        forall|j: int| 0 <= j < i ==> !is_message(#[trigger] s[j], channel, id),
        i < s.len() ==> is_message(s[i], channel, id),
    ensures
        index_of(s, channel, id) == i,
{
    lemma_index_of(s, channel, id);
    let k = index_of(s, channel, id);
    if k < i {
        assert(!is_message(s[k], channel, id));
    }
}

/// Where the entries are unique, removing a message takes away the one
/// entry that stands for it, and nothing where there is none.
pub proof fn lemma_without_message<T: CacheEntry>(s: Seq<T>, channel: u64, id: u64)
    requires
        unique(s),
    ensures
        without_message(s, channel, id) == if index_of(s, channel, id) < s.len() {
            s.remove(index_of(s, channel, id))
        } else {
            s
        },
    decreases s.len(),
{
    reveal(Seq::filter);
    lemma_index_of(s, channel, id);
    if s.len() > 0 {
        let init = s.drop_last();
        let last = s.last();
        let keep = not_message::<T>(channel, id);
        assert forall|x: int, y: int| 0 <= x < y < init.len() implies !is_message(
            #[trigger] init[y],
            (#[trigger] init[x]).channel(),
            init[x].message_id(),
        ) by {
            assert(!is_message(s[y], s[x].channel(), s[x].message_id()));
        }
        lemma_without_message(init, channel, id);
        lemma_index_of(init, channel, id);
        let i = index_of(init, channel, id);
        if i < init.len() {
            assert(s[i] == init[i]);
            assert forall|j: int| 0 <= j < i implies !is_message(#[trigger] s[j], channel, id) by {
                assert(s[j] == init[j]);
            }
            lemma_index_of_is(s, channel, id, i);
            assert(!is_message(s[s.len() - 1], s[i].channel(), s[i].message_id()));
            assert(keep(last));
            assert(init.remove(i).push(last) =~= s.remove(i));
        } else {
            assert forall|j: int| 0 <= j < init.len() implies !is_message(
                #[trigger] s[j],
                channel,
                id,
            ) by {
                assert(s[j] == init[j]);
            }
            if is_message(last, channel, id) {
                lemma_index_of_is(s, channel, id, s.len() - 1);
                assert(init =~= s.remove(s.len() - 1));
            } else {
                lemma_index_of_is(s, channel, id, s.len() as int);
                assert(init.push(last) =~= s);
            }
        }
    }
}

/// Without a channel, the bucket of that channel is empty, and the bucket
/// of every other channel is as it was.
pub proof fn lemma_without_channel_buckets<T: CacheEntry>(s: Seq<T>, channel: u64, other: u64)
    ensures
        bucket(without_channel(s, channel), channel) == Seq::<T>::empty(),
        other != channel ==> bucket(without_channel(s, channel), other) == bucket(s, other),
    decreases s.len(),
{
    reveal(Seq::filter);
    if s.len() > 0 {
        let init = s.drop_last();
        let last = s.last();
        let rest = without_channel(init, channel);
        lemma_without_channel_buckets(init, channel, other);
        if last.channel() != channel {
            assert(without_channel(s, channel) == rest.push(last));
            rest.lemma_filter_push(last, in_channel(channel));
            rest.lemma_filter_push(last, in_channel(other));
        }
    }
}

/// The bucket of `channel`: the entries that lie in `channel`, in their
/// order.
pub fn bucket_in<T: CacheEntry>(entries: &Vec<T>, channel: u64) -> (found: Vec<&T>)
    ensures
        found@.unref() == bucket(entries@, channel),
{
    let ghost wanted = in_channel::<T>(channel);
    let mut found: Vec<&T> = Vec::new();
    let mut i: usize = 0;
    assert(entries@.take(0).filter(wanted) =~= Seq::<T>::empty()) by {
        reveal(Seq::filter);
    }
    assert(found@.unref() =~= Seq::<T>::empty());
    while i < entries.len()
        invariant
            i <= entries@.len(),
            wanted == in_channel::<T>(channel),
            found@.unref() == entries@.take(i as int).filter(wanted),
        decreases entries@.len() - i,
    {
        let ghost done = entries@.take(i as int);
        let ghost prev = found@;
        proof {
            assert(entries@.take(i + 1) =~= done.push(entries@[i as int]));
            done.lemma_filter_push(entries@[i as int], wanted);
        }
        if entries[i].channel_id() == channel {
            found.push(&entries[i]);
            assert(found@.unref() =~= prev.unref().push(entries@[i as int]));
        }
        i = i + 1;
    }
    assert(entries@.take(i as int) =~= entries@);
    found
}

} // verus!
