use bot_data::config::Config;
use bot_data::message::Message;
use bot_data::scramblr::{
    contains_word, get_scrambled_message, get_word_indexes, is_repeat, mash_pair, pairings,
    scramble, settle, splice, split_at_word_index, split_words, truncate_message, word_matches,
    word_positions, ScramblrError, User,
};
use bot_data::user_message_cache::{CachedMessage, UserMessageCache};

fn strings(words: &[&str]) -> Vec<String> {
    words.iter().map(|word| word.to_string()).collect()
}

fn user(id: u64) -> User {
    User { id, bot: false }
}

fn bot(id: u64) -> User {
    User { id, bot: true }
}

fn plain(id: u64, content: &str) -> CachedMessage {
    CachedMessage { id, time: id as i64, channel_id: 1, content: content.to_string() }
}

fn history(first_id: u64, texts: &[&str]) -> Vec<CachedMessage> {
    texts.iter().enumerate().map(|(i, text)| plain(first_id + i as u64, text)).collect()
}

fn config() -> Config {
    Config::new("token".to_string(), Vec::new(), None, "secret".to_string())
}

fn cache_with(histories: &[(u64, &[&str])]) -> UserMessageCache {
    let mut cache = UserMessageCache::new();
    let mut id = 1;
    for (author, texts) in histories {
        for text in texts.iter() {
            let message = Message {
                id,
                author_id: *author,
                author_is_bot: false,
                channel_id: 1,
                channel_is_private: false,
                timestamp: id as i64,
                content: text.to_string(),
            };
            cache.add_or_update_msg(&message, &config()).unwrap();
            id += 1;
        }
    }
    cache
}

fn made_of(text: &str, sources: &[&str]) -> bool {
    text.split_whitespace().all(|word| {
        sources.iter().any(|source| source.to_lowercase().split_whitespace().any(|w| w == word))
    })
}

#[test]
fn get_word_indexes_finds_every_place_of_the_word() {
    assert_eq!(get_word_indexes("the cat and the dog", "the"), vec![0, 3]);
    assert_eq!(get_word_indexes("the cat and the dog", "dog"), vec![4]);
    assert_eq!(get_word_indexes("the cat and the dog", "cow"), Vec::<usize>::new());
    assert_eq!(get_word_indexes("", "the"), Vec::<usize>::new());
}

#[test]
fn get_word_indexes_sets_letter_case_aside() {
    assert_eq!(get_word_indexes("The THE the tHe them", "tHE"), vec![0, 1, 2, 3]);
    assert_eq!(get_word_indexes("ÉTÉ été", "Été"), vec![0, 1]);
}

#[test]
fn get_word_indexes_counts_words_not_spaces() {
    assert_eq!(get_word_indexes("  a   b \t a ", "a"), vec![0, 2]);
}

#[test]
fn word_positions_compares_as_it_stands() {
    let words = strings(&["a", "A", "a"]);
    assert_eq!(word_positions(&words, &"a".to_string()), vec![0, 2]);
    assert_eq!(word_positions(&words, &"A".to_string()), vec![1]);
    assert_eq!(word_positions(&Vec::new(), &"A".to_string()), Vec::<usize>::new());
}

#[test]
fn contains_word_tells_whether_the_word_is_there() {
    let words = strings(&["a", "bc", "d"]);
    assert!(contains_word(&words, &"bc".to_string()));
    assert!(!contains_word(&words, &"b".to_string()));
    assert!(!contains_word(&Vec::new(), &"b".to_string()));
}

#[test]
fn split_at_word_index_splits_before_and_after_the_word() {
    assert_eq!(
        split_at_word_index("the cat sat down", 1),
        ("the".to_string(), "sat down".to_string())
    );
    assert_eq!(
        split_at_word_index("the cat sat down", 2),
        ("the cat".to_string(), "down".to_string())
    );
}

#[test]
fn split_at_word_index_at_the_ends() {
    assert_eq!(
        split_at_word_index("the cat sat", 0),
        (String::new(), "cat sat".to_string())
    );
    assert_eq!(
        split_at_word_index("the cat sat", 2),
        ("the cat".to_string(), String::new())
    );
    assert_eq!(split_at_word_index("the", 0), (String::new(), String::new()));
}

#[test]
fn split_at_word_index_beyond_the_words() {
    assert_eq!(
        split_at_word_index("the cat sat", 3),
        (String::new(), "the cat sat".to_string())
    );
    assert_eq!(split_at_word_index("", 0), (String::new(), String::new()));
}

#[test]
fn split_at_word_index_joins_with_single_spaces() {
    assert_eq!(
        split_at_word_index(" a  b \t c\nd  e ", 2),
        ("a b".to_string(), "d e".to_string())
    );
}

#[test]
fn split_words_splits_a_vector_of_words() {
    let words = strings(&["a", "b", "c"]);
    assert_eq!(split_words(&words, 1), ("a".to_string(), "c".to_string()));
    assert_eq!(split_words(&words, 9), (String::new(), "a b c".to_string()));
}

#[test]
fn word_matches_are_the_shared_words_in_the_order_of_the_first() {
    let a = strings(&["the", "cat", "and", "the", "dog", "and", "cat"]);
    let b = strings(&["dog", "and", "the", "bird", "the"]);
    assert_eq!(word_matches(&a, &b), strings(&["the", "and", "dog"]));
    assert_eq!(word_matches(&b, &a), strings(&["dog", "and", "the"]));
}

#[test]
fn word_matches_of_messages_that_share_nothing() {
    let a = strings(&["the", "cat"]);
    let b = strings(&["a", "dog"]);
    assert_eq!(word_matches(&a, &b), Vec::<String>::new());
    assert_eq!(word_matches(&a, &Vec::new()), Vec::<String>::new());
    assert_eq!(word_matches(&Vec::new(), &b), Vec::<String>::new());
}

#[test]
fn splice_begins_with_the_first_and_goes_on_with_the_second() {
    let a = strings(&["i", "like", "the", "red", "car"]);
    let b = strings(&["where", "is", "the", "nearest", "shop"]);
    assert_eq!(splice(&a, 2, &b, 2, true), "i like the nearest shop");
    assert_eq!(splice(&a, 2, &b, 2, false), "where is the red car");
}

#[test]
fn splice_goes_on_with_the_beginning_where_nothing_comes_after() {
    let a = strings(&["i", "like", "the"]);
    let b = strings(&["where", "is", "the", "shop"]);
    assert_eq!(splice(&a, 2, &b, 2, false), "where is the i like");
    assert_eq!(splice(&a, 2, &b, 2, true), "i like the shop");
}

#[test]
fn splice_at_the_first_word_begins_with_a_space() {
    let a = strings(&["the", "cat", "sat"]);
    let b = strings(&["the", "dog", "ran"]);
    assert_eq!(splice(&a, 0, &b, 0, true), " the dog ran");
    assert_eq!(splice(&a, 0, &b, 0, false), " the cat sat");
}

#[test]
fn splice_of_two_single_words() {
    let a = strings(&["the"]);
    let b = strings(&["the"]);
    assert_eq!(splice(&a, 0, &b, 0, true), " the ");
}

#[test]
fn splice_at_different_places() {
    let a = strings(&["a", "x", "b", "x", "c"]);
    let b = strings(&["x", "d"]);
    assert_eq!(splice(&a, 1, &b, 0, true), "a x d");
    assert_eq!(splice(&a, 3, &b, 0, true), "a x b x d");
    assert_eq!(splice(&a, 1, &b, 0, false), " x b x c");
    assert_eq!(splice(&a, 3, &b, 0, false), " x c");
}

#[test]
fn truncate_message_leaves_2000_characters_alone() {
    let text = "x".repeat(2000);
    assert_eq!(truncate_message(text.clone()), text);
    assert_eq!(truncate_message(String::new()), "");
    assert_eq!(truncate_message("short".to_string()), "short");
}

#[test]
fn truncate_message_cuts_2001_characters_to_1997_and_an_ellipsis() {
    let text = "x".repeat(1990) + "0123456789a";
    assert_eq!(text.chars().count(), 2001);
    let short = truncate_message(text);
    assert_eq!(short.chars().count(), 2000);
    assert_eq!(short, "x".repeat(1990) + "0123456...");
}

#[test]
fn truncate_message_counts_characters_not_bytes() {
    let text = "é".repeat(2000);
    assert_eq!(text.len(), 4000);
    assert_eq!(truncate_message(text.clone()), text);
    let long = "é".repeat(3000);
    assert_eq!(truncate_message(long), "é".repeat(1997) + "...");
}

#[test]
fn is_repeat_sets_letter_case_aside() {
    assert!(is_repeat("the cat sat", "The Cat Sat", "a dog"));
    assert!(is_repeat("the cat sat", "a dog", "THE CAT SAT"));
    assert!(!is_repeat("the cat sat", "the cat", "sat"));
    assert!(!is_repeat(" the cat sat", "the cat sat", "the cat sat "));
}

#[test]
fn pairings_are_the_pairs_of_two_messages() {
    let a = vec![plain(1, "a"), plain(2, "b")];
    let b = vec![plain(2, "b"), plain(3, "c"), plain(1, "a")];
    assert_eq!(pairings(&a, &b), vec![(0, 0), (0, 1), (1, 1), (1, 2)]);
    assert_eq!(pairings(&a, &a), vec![(0, 1), (1, 0)]);
    assert_eq!(pairings(&a, &Vec::new()), Vec::new());
    assert_eq!(pairings(&Vec::new(), &b), Vec::new());
}

#[test]
fn mash_pair_of_messages_that_share_nothing_is_none() {
    assert_eq!(mash_pair("the cat sat", "a dog ran"), None);
    assert_eq!(mash_pair("", "a dog ran"), None);
    assert_eq!(mash_pair("", ""), None);
}

#[test]
fn mash_pair_splices_at_the_shared_word() {
    for _ in 0..50 {
        let text = mash_pair("I like THE red car", "where is the nearest shop").unwrap();
        assert!(
            text == "i like the nearest shop" || text == "where is the red car",
            "{}",
            text
        );
    }
}

#[test]
fn mash_pair_of_the_cat_and_the_dog() {
    for _ in 0..50 {
        let text = mash_pair("the cat sat", "the dog ran").unwrap();
        assert!(text == " the dog ran" || text == " the cat sat", "{}", text);
        assert!(text.contains("the"));
        assert!(made_of(&text, &["the cat sat", "the dog ran"]));
    }
}

#[test]
fn mash_pair_takes_every_shared_word_and_place() {
    let mut seen = Vec::new();
    for _ in 0..2000 {
        let text = mash_pair("a x b x c", "x d y e").unwrap();
        if !seen.contains(&text) {
            seen.push(text);
        }
    }
    seen.sort();
    assert_eq!(seen, strings(&[" x b x c", " x c", "a x b x d y e", "a x d y e"]));
}

#[test]
fn mash_pair_cuts_a_long_result_down() {
    let a = "x ".repeat(1500) + "pivot";
    let b = "pivot ".to_string() + &"y ".repeat(1500);
    for _ in 0..20 {
        let text = mash_pair(&a, &b).unwrap();
        assert!(text.chars().count() <= 2000);
        if text.starts_with("x ") {
            assert_eq!(text.chars().count(), 2000);
            assert!(text.ends_with("..."));
        }
    }
}

#[test]
fn scramble_needs_more_than_three_messages_of_each() {
    let four = history(1, &["the a", "the b", "the c", "the d"]);
    let three = history(10, &["the e", "the f", "the g"]);
    match scramble(&user(1), &three, &user(2), &four) {
        Err(ScramblrError::TooFewMessages(who)) => assert_eq!(who.id, 1),
        _ => panic!("three messages were enough"),
    }
    match scramble(&user(1), &four, &user(2), &three) {
        Err(ScramblrError::TooFewMessages(who)) => assert_eq!(who.id, 2),
        _ => panic!("three messages were enough"),
    }
    match scramble(&user(1), &three, &user(2), &three) {
        Err(ScramblrError::TooFewMessages(who)) => assert_eq!(who.id, 1),
        _ => panic!("three messages were enough"),
    }
    match scramble(&user(1), &Vec::new(), &user(2), &four) {
        Err(ScramblrError::TooFewMessages(who)) => assert_eq!(who.id, 1),
        _ => panic!("no messages were enough"),
    }
    assert!(scramble(&user(1), &four, &user(2), &history(10, &["the e", "the f", "the g", "the h"])).is_ok());
}

#[test]
fn scramble_of_histories_that_share_the() {
    let cats = history(1, &["the cat sat", "the cat sat", "the cat sat", "the cat sat"]);
    let dogs = history(10, &["the dog ran", "the dog ran", "the dog ran", "the dog ran"]);
    for _ in 0..20 {
        let text = scramble(&user(1), &cats, &user(2), &dogs).unwrap();
        assert!(text == " the dog ran" || text == " the cat sat", "{}", text);
        assert!(text.contains("the"));
        assert!(made_of(&text, &["the cat sat", "the dog ran"]));
    }
}

#[test]
fn scramble_of_histories_that_share_nothing_finds_no_matches() {
    let a = history(1, &["a b c", "d e f", "g h i", "j k l"]);
    let b = history(10, &["m n o", "p q r", "s t u", "v w x"]);
    assert!(matches!(scramble(&user(1), &a, &user(2), &b), Err(ScramblrError::NoMatches)));
}

#[test]
fn scramble_does_not_pair_a_message_with_itself() {
    let same: Vec<CachedMessage> =
        ["the cat sat", "the dog ran", "the cow ate", "the pig dug"].iter().map(|text| plain(5, text)).collect();
    assert!(matches!(scramble(&user(1), &same, &user(1), &same), Err(ScramblrError::NoMatches)));
}

#[test]
fn scramble_of_a_user_with_themselves_pairs_two_messages() {
    let own = history(1, &["red green", "green blue", "blue yellow", "yellow red"]);
    for _ in 0..50 {
        let text = scramble(&user(1), &own, &user(1), &own).unwrap();
        assert!(made_of(&text, &["red green", "green blue", "blue yellow", "yellow red"]));
        let words: Vec<&str> = text.split_whitespace().collect();
        assert!(words.len() == 2 || words.len() == 3, "{}", text);
    }
}

#[test]
fn get_scrambled_message_refuses_bots() {
    let cache = cache_with(&[(1, &["the a b", "the c d", "the e f", "the g h"])]);
    assert!(matches!(
        get_scrambled_message(&bot(1), &user(1), &cache, &config()),
        Err(ScramblrError::IsBot)
    ));
    assert!(matches!(
        get_scrambled_message(&user(1), &bot(1), &cache, &config()),
        Err(ScramblrError::IsBot)
    ));
    assert!(matches!(
        get_scrambled_message(&bot(8), &bot(9), &cache, &config()),
        Err(ScramblrError::IsBot)
    ));
}

#[test]
fn get_scrambled_message_needs_more_than_three_cached_messages() {
    let cache = cache_with(&[
        (1, &["the a b", "the c d", "the e f", "the g h"]),
        (2, &["the i j", "the k l", "the m n"]),
    ]);
    match get_scrambled_message(&user(1), &user(2), &cache, &config()) {
        Err(ScramblrError::TooFewMessages(who)) => assert_eq!(who.id, 2),
        _ => panic!("three messages were enough"),
    }
    match get_scrambled_message(&user(2), &user(1), &cache, &config()) {
        Err(ScramblrError::TooFewMessages(who)) => assert_eq!(who.id, 2),
        _ => panic!("three messages were enough"),
    }
    match get_scrambled_message(&user(3), &user(1), &cache, &config()) {
        Err(ScramblrError::TooFewMessages(who)) => assert_eq!(who.id, 3),
        _ => panic!("no messages were enough"),
    }
}

#[test]
fn get_scrambled_message_of_histories_that_share_the() {
    let cats: [&str; 4] = ["the cat sat", "the cat sat", "the cat sat", "the cat sat"];
    let dogs: [&str; 4] = ["the dog ran", "the dog ran", "the dog ran", "the dog ran"];
    let cache = cache_with(&[(1, &cats), (2, &dogs)]);
    for _ in 0..10 {
        let text = get_scrambled_message(&user(1), &user(2), &cache, &config()).unwrap();
        assert!(text == " the dog ran" || text == " the cat sat", "{}", text);
    }
}

#[test]
fn get_scrambled_message_reads_nothing_under_another_secret() {
    let cache = cache_with(&[
        (1, &["the a b", "the c d", "the e f", "the g h"]),
        (2, &["the i j", "the k l", "the m n", "the o p"]),
    ]);
    let other = Config::new("token".to_string(), Vec::new(), None, "other".to_string());
    match get_scrambled_message(&user(1), &user(2), &cache, &other) {
        Err(ScramblrError::TooFewMessages(who)) => assert_eq!(who.id, 1),
        _ => panic!("read under another secret"),
    }
}

#[test]
fn get_scrambled_message_finds_no_matches() {
    let cache = cache_with(&[
        (1, &["a b c", "d e f", "g h i", "j k l"]),
        (2, &["m n o", "p q r", "s t u", "v w x"]),
    ]);
    assert!(matches!(
        get_scrambled_message(&user(1), &user(2), &cache, &config()),
        Err(ScramblrError::NoMatches)
    ));
}

#[test]
fn scramblr_error_messages() {
    assert_eq!(ScramblrError::IsBot.to_string(), "One or more users is a bot");
    assert_eq!(ScramblrError::NoMatches.to_string(), "No message matches were found");
    assert_eq!(
        ScramblrError::TooFewMessages(user(42)).to_string(),
        "User <@42> has too few messages. Minimum cached message count is `3`"
    );
    assert_eq!(
        ScramblrError::TooFewMessages(user(0)).to_string(),
        "User <@0> has too few messages. Minimum cached message count is `3`"
    );
    assert_eq!(
        ScramblrError::TooFewMessages(user(18446744073709551615)).to_string(),
        "User <@18446744073709551615> has too few messages. Minimum cached message count is `3`"
    );
    assert_eq!(
        ScramblrError::TooFewMessages(user(1000200030004000500)).to_string(),
        "User <@1000200030004000500> has too few messages. Minimum cached message count is `3`"
    );
}

#[test]
fn settle_returns_a_result_that_is_no_repeat() {
    let fallback = Some("kept for later".to_string());
    let next = settle(fallback.clone(), Some("p q t".to_string()), "p q r", "s q t");
    assert_eq!(next, (Some("p q t".to_string()), fallback));
    let next = settle(None, Some("p q t".to_string()), "p q r", "s q t");
    assert_eq!(next, (Some("p q t".to_string()), None));
}

#[test]
fn settle_keeps_a_repeat_to_fall_back_on() {
    let fallback = Some("kept for later".to_string());
    let next = settle(fallback, Some("p q r".to_string()), "P Q R", "s q r");
    assert_eq!(next, (None, Some("p q r".to_string())));
    let next = settle(None, Some("s q r".to_string()), "p q r", "S q R");
    assert_eq!(next, (None, Some("s q r".to_string())));
}

#[test]
fn settle_leaves_the_fallback_where_nothing_was_made() {
    let fallback = Some("kept for later".to_string());
    assert_eq!(settle(fallback.clone(), None, "a b", "c d"), (None, fallback));
    assert_eq!(settle(None, None, "a b", "c d"), (None, None));
}

#[test]
fn scramble_succeeds_whatever_is_drawn_where_all_messages_share_a_word() {
    let cats = history(1, &["the cat sat", "the cat ran", "the cat ate", "the cat dug"]);
    let dogs = history(10, &["the dog sat", "the dog ran", "the dog ate", "the dog dug"]);
    for _ in 0..200 {
        assert!(scramble(&user(1), &cats, &user(2), &dogs).is_ok());
    }
}

#[test]
fn scramble_of_equal_texts_gives_a_splice_or_falls_back_on_the_text() {
    // Spliced at "q" the two give "p q r" over again, which is only kept to
    // fall back on; spliced at "p" or at "r" they give something new.
    let a = history(1, &["p q r", "p q r", "p q r", "p q r"]);
    let b = history(10, &["p q r", "p q r", "p q r", "p q r"]);
    for _ in 0..50 {
        let text = scramble(&user(1), &a, &user(2), &b).unwrap();
        assert!(text == " p q r" || text == "p q r p q" || text == "p q r", "{}", text);
    }
}
