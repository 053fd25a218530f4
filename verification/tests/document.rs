use bot_data::document::{buckets_of_history, channels_of, history_of_buckets};
use bot_data::message_id_cache::CacheMessageId;

fn item(id: u64, channel_id: u64, time: i64) -> CacheMessageId {
    CacheMessageId { id, channel_id, time }
}

#[test]
fn channels_of_lists_each_channel_once_as_it_first_occurs() {
    let history = vec![item(1, 30, 5), item(2, 10, 6), item(3, 30, 7), item(4, 20, 8), item(5, 10, 9)];
    assert_eq!(channels_of(&history), vec![30, 10, 20]);
    assert_eq!(channels_of(&Vec::<CacheMessageId>::new()), Vec::<u64>::new());
}

#[test]
fn buckets_of_history_splits_a_history_by_channel() {
    let history = vec![item(1, 30, 5), item(2, 10, 6), item(3, 30, 7), item(4, 20, 8), item(5, 10, 9)];
    assert_eq!(
        buckets_of_history(&history),
        vec![
            (30, vec![&item(1, 30, 5), &item(3, 30, 7)]),
            (10, vec![&item(2, 10, 6), &item(5, 10, 9)]),
            (20, vec![&item(4, 20, 8)]),
        ]
    );
    assert_eq!(buckets_of_history(&Vec::<CacheMessageId>::new()), Vec::new());
}

#[test]
fn history_of_buckets_puts_the_buckets_together_by_channel() {
    let buckets = vec![
        (30, vec![item(1, 30, 5), item(3, 30, 7)]),
        (10, vec![item(2, 10, 6), item(5, 10, 9)]),
        (20, vec![item(4, 20, 8)]),
    ];
    assert_eq!(
        history_of_buckets(buckets),
        vec![item(2, 10, 6), item(5, 10, 9), item(4, 20, 8), item(1, 30, 5), item(3, 30, 7)]
    );
    assert_eq!(history_of_buckets(Vec::<(u64, Vec<CacheMessageId>)>::new()), Vec::new());
}

#[test]
fn history_of_buckets_does_not_go_by_the_order_of_the_buckets() {
    let one = vec![(2, vec![item(1, 2, 5)]), (1, vec![item(2, 1, 5)]), (3, vec![item(3, 3, 5)])];
    let other = vec![(3, vec![item(3, 3, 5)]), (2, vec![item(1, 2, 5)]), (1, vec![item(2, 1, 5)])];
    assert_eq!(history_of_buckets(one), history_of_buckets(other));
}

#[test]
fn history_of_buckets_keeps_empty_buckets_and_equal_channels_apart() {
    let buckets = vec![(5, Vec::new()), (4, vec![item(1, 4, 1)]), (4, vec![item(2, 4, 0)])];
    assert_eq!(history_of_buckets(buckets), vec![item(1, 4, 1), item(2, 4, 0)]);
}

#[test]
fn splitting_and_putting_together_keeps_every_bucket() {
    let history = vec![item(1, 30, 5), item(2, 10, 6), item(3, 30, 7), item(4, 20, 8), item(5, 10, 9)];
    let buckets: Vec<(u64, Vec<CacheMessageId>)> = buckets_of_history(&history)
        .into_iter()
        .map(|(channel, bucket)| (channel, bucket.into_iter().copied().collect()))
        .collect();
    let again = history_of_buckets(buckets);
    assert_eq!(buckets_of_history(&again).len(), 3);
    for (channel, bucket) in buckets_of_history(&history) {
        let kept: Vec<&CacheMessageId> =
            again.iter().filter(|entry| entry.channel_id == channel).collect();
        assert_eq!(kept, bucket);
    }
}
