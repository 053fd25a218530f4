use bot_data::commands::{Animal, CommandError, Sound};
use bot_data::fun::convert_text_to_emojis;
use bot_data::message::Message;

#[test]
fn letters_become_regional_indicators() {
    assert_eq!(
        convert_text_to_emojis("ab".to_string()),
        ":regional_indicator_a::regional_indicator_b:"
    );
    assert_eq!(convert_text_to_emojis("z".to_string()), ":regional_indicator_z:");
}

#[test]
fn capital_letters_are_made_small_first() {
    assert_eq!(
        convert_text_to_emojis("Hi".to_string()),
        ":regional_indicator_h::regional_indicator_i:"
    );
}

#[test]
fn digits_become_their_names() {
    assert_eq!(
        convert_text_to_emojis("0123456789".to_string()),
        ":zero::one::two::three::four::five::six::seven::eight::nine:"
    );
}

#[test]
fn spaces_and_marks() {
    assert_eq!(convert_text_to_emojis(" ".to_string()), "\t");
    assert_eq!(convert_text_to_emojis("!".to_string()), ":exclamation:");
    assert_eq!(convert_text_to_emojis("?".to_string()), ":question:");
    assert_eq!(
        convert_text_to_emojis("a b!?".to_string()),
        ":regional_indicator_a:\t:regional_indicator_b::exclamation::question:"
    );
}

#[test]
fn other_characters_stay() {
    assert_eq!(convert_text_to_emojis(".,-\n\t~`{".to_string()), ".,-\n\t~`{");
    assert_eq!(convert_text_to_emojis("é 🦀 ß".to_string()), "é\t🦀\tß");
    assert_eq!(convert_text_to_emojis("É".to_string()), "é");
}

#[test]
fn the_empty_text_stays_empty() {
    assert_eq!(convert_text_to_emojis(String::new()), "");
}

#[test]
fn animals_have_names_and_emojis() {
    assert_eq!(Animal::Cat.to_string(), "cat");
    assert_eq!(Animal::Dog.to_string(), "dog");
    assert_eq!(Animal::Horse.to_string(), "horse");
    assert_eq!(Animal::Goat.to_string(), "goat");
    assert_eq!(Animal::Cat.emoji(), '🐈');
    assert_eq!(Animal::Dog.emoji(), '🐕');
    assert_eq!(Animal::Horse.emoji(), '🐎');
    assert_eq!(Animal::Goat.emoji(), '🐐');
}

#[test]
fn animals_are_read_from_their_names() {
    assert_eq!(Animal::from_str("cat").unwrap(), Animal::Cat);
    assert_eq!(Animal::from_str("dog").unwrap(), Animal::Dog);
    assert_eq!(Animal::from_str("horse").unwrap(), Animal::Horse);
    assert_eq!(Animal::from_str("goat").unwrap(), Animal::Goat);
    for animal in [Animal::Cat, Animal::Dog, Animal::Horse, Animal::Goat] {
        assert_eq!(Animal::from_str(&animal.to_string()).unwrap(), animal);
    }
}

#[test]
fn a_text_that_names_no_animal_is_an_error() {
    for text in ["", "Cat", "cat ", "cow", "meow"] {
        match Animal::from_str(text) {
            Err(CommandError::ParseComponentError(word)) => assert_eq!(word, text),
            Ok(_) => panic!("{} is no animal", text),
        }
    }
}

#[test]
fn sounds_have_names_and_the_emojis_of_their_animals() {
    assert_eq!(Sound::Meow.to_string(), "meow");
    assert_eq!(Sound::Woof.to_string(), "woof");
    assert_eq!(Sound::Neigh.to_string(), "neigh");
    assert_eq!(Sound::Baaa.to_string(), "baaa");
    assert_eq!(Sound::Meow.emoji(), '🐈');
    assert_eq!(Sound::Woof.emoji(), '🐕');
    assert_eq!(Sound::Neigh.emoji(), '🐎');
    assert_eq!(Sound::Baaa.emoji(), '🐐');
}

#[test]
fn sounds_are_read_from_their_buttons() {
    assert_eq!(Sound::from_str("meow").unwrap(), Sound::Meow);
    assert_eq!(Sound::from_str("woof").unwrap(), Sound::Woof);
    assert_eq!(Sound::from_str("neigh").unwrap(), Sound::Neigh);
    assert_eq!(Sound::from_str("baaaa").unwrap(), Sound::Baaa);
}

#[test]
fn a_text_that_names_no_sound_is_an_error() {
    for text in ["", "baaa", "Meow", "cat"] {
        match Sound::from_str(text) {
            Err(CommandError::ParseComponentError(word)) => assert_eq!(word, text),
            Ok(_) => panic!("{} is no sound", text),
        }
    }
}

#[test]
fn command_error_message() {
    assert_eq!(
        CommandError::ParseComponentError("cow".to_string()).to_string(),
        "Failed to parse cow as a component"
    );
}

fn message(content: &str) -> Message {
    Message {
        id: 1,
        author_id: 2,
        author_is_bot: false,
        channel_id: 3,
        channel_is_private: false,
        timestamp: 4,
        content: content.to_string(),
    }
}

#[test]
fn a_message_of_three_words_is_admitted() {
    assert!(message("one two three").is_admitted());
    assert!(message("  one\ttwo\nthree  four ").is_admitted());
    assert!(message("check http://example.com out now").is_admitted());
}

#[test]
fn a_message_of_fewer_words_is_not_admitted() {
    assert!(!message("").is_admitted());
    assert!(!message("one two").is_admitted());
    assert!(!message("check http://example.com out").is_admitted());
    assert!(!message("https://a.example https://b.example https://c.example").is_admitted());
}

#[test]
fn a_message_of_a_bot_or_a_private_channel_is_not_admitted() {
    let mut private = message("one two three");
    private.channel_is_private = true;
    assert!(!private.is_admitted());
    let mut bot = message("one two three");
    bot.author_is_bot = true;
    assert!(!bot.is_admitted());
}
