use bot_data::entry::{evict, find_message, find_oldest, remove_channel, remove_message, upsert};
use bot_data::message_id_cache::CacheMessageId;
use bot_data::store::{bucket_of, entries_of, purge, put, take, users};
use std::collections::HashMap;

fn entry(id: u64, channel_id: u64, time: i64) -> CacheMessageId {
    CacheMessageId { id, channel_id, time }
}

fn ids(entries: &Vec<CacheMessageId>) -> Vec<u64> {
    entries.iter().map(|entry| entry.id).collect()
}

#[test]
fn find_message_finds_the_first_entry_of_the_message() {
    let entries = vec![entry(1, 10, 5), entry(2, 10, 6), entry(1, 20, 7), entry(2, 10, 8)];
    assert_eq!(find_message(&entries, 10, 1), Some(0));
    assert_eq!(find_message(&entries, 10, 2), Some(1));
    assert_eq!(find_message(&entries, 20, 1), Some(2));
    assert_eq!(find_message(&entries, 20, 2), None);
    assert_eq!(find_message(&entries, 10, 3), None);
    assert_eq!(find_message(&Vec::<CacheMessageId>::new(), 10, 1), None);
}

#[test]
fn upsert_replaces_or_appends() {
    let mut entries = vec![entry(1, 10, 5), entry(2, 10, 6)];
    upsert(&mut entries, entry(1, 10, 50));
    assert_eq!(entries, vec![entry(1, 10, 50), entry(2, 10, 6)]);
    upsert(&mut entries, entry(1, 20, 7));
    assert_eq!(entries, vec![entry(1, 10, 50), entry(2, 10, 6), entry(1, 20, 7)]);
    let mut none = Vec::new();
    upsert(&mut none, entry(9, 9, 9));
    assert_eq!(none, vec![entry(9, 9, 9)]);
}

#[test]
fn find_oldest_finds_the_first_of_the_least_time() {
    assert_eq!(find_oldest(&vec![entry(1, 1, 5)]), 0);
    assert_eq!(find_oldest(&vec![entry(1, 1, 5), entry(2, 1, 3), entry(3, 1, 4)]), 1);
    assert_eq!(find_oldest(&vec![entry(1, 1, 5), entry(2, 1, 3), entry(3, 1, 3)]), 1);
    assert_eq!(find_oldest(&vec![entry(1, 1, -5), entry(2, 1, 3), entry(3, 1, i64::MIN)]), 2);
    assert_eq!(find_oldest(&vec![entry(1, 1, 7), entry(2, 1, 7), entry(3, 1, 7)]), 0);
}

#[test]
fn evict_leaves_the_newest_in_their_order() {
    let mut entries =
        vec![entry(1, 1, 50), entry(2, 2, 10), entry(3, 1, 90), entry(4, 3, 30), entry(5, 2, 70)];
    evict(&mut entries, 5);
    assert_eq!(ids(&entries), vec![1, 2, 3, 4, 5]);
    evict(&mut entries, 9);
    assert_eq!(ids(&entries), vec![1, 2, 3, 4, 5]);
    evict(&mut entries, 3);
    assert_eq!(ids(&entries), vec![1, 3, 5]);
    evict(&mut entries, 1);
    assert_eq!(ids(&entries), vec![3]);
    evict(&mut entries, 0);
    assert_eq!(ids(&entries), Vec::<u64>::new());
    evict(&mut entries, 0);
    assert_eq!(ids(&entries), Vec::<u64>::new());
}

#[test]
fn evict_takes_the_first_of_equal_times_first() {
    let mut entries = vec![entry(1, 1, 7), entry(2, 1, 7), entry(3, 1, 6), entry(4, 1, 7)];
    evict(&mut entries, 3);
    assert_eq!(ids(&entries), vec![1, 2, 4]);
    evict(&mut entries, 2);
    assert_eq!(ids(&entries), vec![2, 4]);
    evict(&mut entries, 1);
    assert_eq!(ids(&entries), vec![4]);
}

#[test]
fn remove_message_and_remove_channel_filter_the_entries() {
    let mut entries = vec![entry(1, 10, 5), entry(2, 10, 6), entry(1, 20, 7), entry(1, 10, 8)];
    remove_message(&mut entries, 10, 1);
    assert_eq!(entries, vec![entry(2, 10, 6), entry(1, 20, 7)]);
    remove_message(&mut entries, 10, 1);
    assert_eq!(entries, vec![entry(2, 10, 6), entry(1, 20, 7)]);
    let mut entries = vec![entry(1, 10, 5), entry(2, 20, 6), entry(3, 10, 7)];
    remove_channel(&mut entries, 10);
    assert_eq!(entries, vec![entry(2, 20, 6)]);
    remove_channel(&mut entries, 30);
    assert_eq!(entries, vec![entry(2, 20, 6)]);
    remove_channel(&mut entries, 20);
    assert_eq!(entries, Vec::new());
}

#[test]
fn put_take_and_purge_work_on_the_map_of_users() {
    let mut data: HashMap<u64, Vec<CacheMessageId>> = HashMap::new();
    put(&mut data, 7, entry(1, 10, 5), 2);
    put(&mut data, 7, entry(2, 20, 6), 2);
    put(&mut data, 8, entry(3, 10, 1), 2);
    put(&mut data, 7, entry(4, 10, 7), 2);
    assert_eq!(data.get(&7).unwrap(), &vec![entry(2, 20, 6), entry(4, 10, 7)]);
    assert_eq!(data.get(&8).unwrap(), &vec![entry(3, 10, 1)]);
    let mut known = users(&data);
    known.sort();
    assert_eq!(known, vec![7, 8]);
    assert_eq!(entries_of(&data, 8), Some(vec![&entry(3, 10, 1)]));
    assert_eq!(entries_of(&data, 9), None);
    assert_eq!(bucket_of(&data, 7, 10), vec![&entry(4, 10, 7)]);
    assert_eq!(bucket_of(&data, 7, 30), Vec::<&CacheMessageId>::new());
    take(&mut data, 7, 20, 2);
    take(&mut data, 9, 20, 2);
    assert_eq!(data.get(&7).unwrap(), &vec![entry(4, 10, 7)]);
    assert_eq!(data.len(), 2);
    purge(&mut data, 10);
    assert_eq!(data.get(&7).unwrap(), &Vec::new());
    assert_eq!(data.get(&8).unwrap(), &Vec::new());
    assert_eq!(bucket_of(&data, 8, 10), Vec::<&CacheMessageId>::new());
    assert_eq!(users(&HashMap::<u64, Vec<CacheMessageId>>::new()), Vec::new());
}
