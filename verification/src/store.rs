//! The entries of all users: a map from a user's id to that user's entries
//! in insertion order.

use crate::entry::{
    bounded, bucket, bucket_in, evict, in_channel, not_in_channel, not_message, remove_channel,
    remove_message, upsert, upserted, without_channel, without_message, CacheEntry,
};
use std::collections::HashMap;
use vstd::prelude::*;
use vstd::std_specs::hash::*;
use vstd::std_specs::iter::IteratorSpec;

verus! {

/// The entries of `user`, in insertion order; none where the user is
/// unknown.
pub open spec fn history<T>(data: Map<u64, Vec<T>>, user: u64) -> Seq<T> {
    if data.contains_key(user) {
        data[user]@
    } else {
        Seq::empty()
    }
}

/// Puts `entry` among the entries of `user`, then evicts that user's oldest
/// entries until at most `max_msgs` are left. No other user is touched.
pub fn put<T: CacheEntry>(data: &mut HashMap<u64, Vec<T>>, user: u64, entry: T, max_msgs: usize)
    ensures
        final(data)@.dom() == old(data)@.dom().insert(user),
        history(final(data)@, user) == bounded(
            upserted(history(old(data)@, user), entry),
            max_msgs as nat,
        ),
        forall|other: u64| other != user ==> history(final(data)@, other) == history(old(data)@, other),
{
    broadcast use group_hash_axioms;

    let mut entries = match data.remove(&user) {
        Some(entries) => entries,
        None => Vec::new(),
    };
    upsert(&mut entries, entry);
    evict(&mut entries, max_msgs);
    data.insert(user, entries);
}

/// Removes the entries of `user` for message `id` of `channel`.
pub fn take<T: CacheEntry>(data: &mut HashMap<u64, Vec<T>>, user: u64, channel: u64, id: u64)
    ensures
        final(data)@.dom() == old(data)@.dom(),
        history(final(data)@, user) == without_message(history(old(data)@, user), channel, id),
        forall|other: u64| other != user ==> history(final(data)@, other) == history(old(data)@, other),
{
    broadcast use group_hash_axioms;

    match data.remove(&user) {
        Some(entries) => {
            let mut entries = entries;
            remove_message(&mut entries, channel, id);
            data.insert(user, entries);
            assert(final(data)@.dom() =~= old(data)@.dom());
        },
        None => {
            assert(Seq::<T>::empty().filter(not_message(channel, id)) =~= Seq::<T>::empty()) by {
                reveal(Seq::filter);
            }
            assert(data@ =~= old(data)@);
        },
    }
}

/// The ids of the users that `data` knows, each once.
pub fn users<T>(data: &HashMap<u64, Vec<T>>) -> (ids: Vec<u64>)
    ensures
        ids@.no_duplicates(),
        ids@.to_set() == data@.dom(),
{
    broadcast use group_hash_axioms;

    let ghost keys = spec_keys_iter(data).remaining();
    let mut ids: Vec<u64> = Vec::new();
    for id in it: data.keys()
        invariant
            it.seq() == keys,
            ids@ == keys.unref().take(it.index()),
    {
        assert(keys.unref().take(it.index() + 1) =~= keys.unref().take(it.index()).push(*id));
        ids.push(*id);
    }
    proof {
        assert(keys.unref().take(ids@.len() as int) =~= keys.unref());
        assert forall|i: int, j: int| 0 <= i < ids@.len() && 0 <= j < ids@.len() && i
            != j implies ids@[i] != ids@[j] by {
            assert(keys[i] != keys[j]);
        }
    }
    ids
}

/// Removes the entries of `channel` from every user.
pub fn purge<T: CacheEntry>(data: &mut HashMap<u64, Vec<T>>, channel: u64)
    ensures
        final(data)@.dom() == old(data)@.dom(),
        forall|user: u64|
            history(final(data)@, user) == without_channel(
                #[trigger] history(old(data)@, user),
                channel,
            ),
{
    broadcast use group_hash_axioms;

    let ids = users(data);
    let mut i: usize = 0;
    while i < ids.len()
        invariant
            i <= ids@.len(),
            ids@.no_duplicates(),
            ids@.to_set() == old(data)@.dom(),
            data@.dom() == old(data)@.dom(),
            forall|k: int|
                0 <= k < i ==> history(data@, #[trigger] ids@[k]) == without_channel(
                    history(old(data)@, ids@[k]),
                    channel,
                ),
            forall|k: int|
                i <= k < ids@.len() ==> history(data@, #[trigger] ids@[k]) == history(
                    old(data)@,
                    ids@[k],
                ),
        decreases ids@.len() - i,
    {
        let user = ids[i];
        let ghost before = data@;
        take_channel(data, user, channel);
        proof {
            assert forall|k: int| 0 <= k < i + 1 implies history(data@, #[trigger] ids@[k])
                == without_channel(history(old(data)@, ids@[k]), channel) by {
                if k < i {
                    assert(ids@[k] != ids@[i as int]);
                    assert(history(data@, ids@[k]) == history(before, ids@[k]));
                }
            }
            assert forall|k: int| i + 1 <= k < ids@.len() implies history(data@, #[trigger] ids@[k])
                == history(old(data)@, ids@[k]) by {
                assert(ids@[k] != ids@[i as int]);
                assert(history(data@, ids@[k]) == history(before, ids@[k]));
            }
        }
        i = i + 1;
    }
    proof {
        assert forall|user: u64|
            history(data@, user) == without_channel(
                #[trigger] history(old(data)@, user),
                channel,
            ) by {
            if old(data)@.contains_key(user) {
                assert(ids@.to_set().contains(user));
                let k = choose|k: int| 0 <= k < ids@.len() && ids@[k] == user;
                assert(history(data@, ids@[k]) == without_channel(
                    history(old(data)@, ids@[k]),
                    channel,
                ));
            } else {
                assert(Seq::<T>::empty().filter(not_in_channel(channel)) =~= Seq::<T>::empty())
                    by {
                    reveal(Seq::filter);
                }
            }
        }
    }
}

/// Removes the entries of `channel` from `user`.
fn take_channel<T: CacheEntry>(data: &mut HashMap<u64, Vec<T>>, user: u64, channel: u64)
    ensures
        final(data)@.dom() == old(data)@.dom(),
        history(final(data)@, user) == without_channel(history(old(data)@, user), channel),
        forall|other: u64| other != user ==> history(final(data)@, other) == history(old(data)@, other),
{
    broadcast use group_hash_axioms;

    match data.remove(&user) {
        Some(entries) => {
            let mut entries = entries;
            remove_channel(&mut entries, channel);
            data.insert(user, entries);
            assert(final(data)@.dom() =~= old(data)@.dom());
        },
        None => {
            assert(Seq::<T>::empty().filter(not_in_channel(channel)) =~= Seq::<T>::empty()) by {
                reveal(Seq::filter);
            }
            assert(data@ =~= old(data)@);
        },
    }
}

/// The entries of `user`, in insertion order, or `None` where the user is
/// unknown.
pub fn entries_of<T>(data: &HashMap<u64, Vec<T>>, user: u64) -> (found: Option<Vec<&T>>)
    ensures
        found is Some <==> data@.contains_key(user),
        found matches Some(entries) ==> entries@.unref() == history(data@, user),
{
    broadcast use group_hash_axioms;

    match data.get(&user) {
        Some(entries) => {
            let mut found: Vec<&T> = Vec::new();
            let mut i: usize = 0;
            while i < entries.len()
                invariant
                    i <= entries@.len(),
                    found@.unref() == entries@.take(i as int),
                decreases entries@.len() - i,
            {
                assert(entries@.take(i + 1) =~= entries@.take(i as int).push(entries@[i as int]));
                found.push(&entries[i]);
                assert(found@.unref() =~= entries@.take(i + 1));
                i = i + 1;
            }
            assert(entries@.take(i as int) =~= entries@);
            Some(found)
        },
        None => None,
    }
}

/// The bucket of `user` and `channel`: the entries of `user` that lie in
/// `channel`, in insertion order.
pub fn bucket_of<T: CacheEntry>(data: &HashMap<u64, Vec<T>>, user: u64, channel: u64) -> (found:
    Vec<&T>)
    ensures
        found@.unref() == bucket(history(data@, user), channel),
{
    broadcast use group_hash_axioms;

    match data.get(&user) {
        Some(entries) => bucket_in(entries, channel),
        None => {
            let found: Vec<&T> = Vec::new();
            assert(Seq::<T>::empty().filter(in_channel(channel)) =~= Seq::<T>::empty()) by {
                reveal(Seq::filter);
            }
            assert(found@.unref() =~= Seq::<T>::empty());
            found
        },
    }
}

} // verus!
