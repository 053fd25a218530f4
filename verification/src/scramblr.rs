//! The scrambler: it draws one cached message of each of two users, looks
//! for a word that both messages hold, and splices the two messages at it.

use crate::config::Config;
use crate::text::{
    all_words, is_word, join, joined, lemma_words_append_joined, lemma_words_are_words,
    lemma_words_of_joined, lemma_words_push_word, lowercase, to_lowercase, tokenize, views, words,
};
use crate::user_message_cache::{
    message_views, plain_history, readable, CachedMessage, CachedMessageView, UserMessageCache,
};
use rand::seq::SliceRandom;
use rand::Rng;
use vstd::pervasive::unreached;
use vstd::prelude::*;
use vstd::string::*;

verus! {

/// The number of attempts that one request makes.
pub const MAX_TRIES: usize = 25;

/// A user needs more cached messages than this.
pub const MIN_MESSAGES: usize = 3;

/// The most characters that a scrambled message may hold.
pub const MAX_CHARS: usize = 2000;

/// The number of characters that are kept of a longer message.
pub const KEPT_CHARS: usize = 1997;

/// The positions in `words` at which `word` stands, ascending.
pub open spec fn positions(words: Seq<Seq<char>>, word: Seq<char>) -> Seq<int>
    decreases words.len(),
{
    if words.len() == 0 {
        Seq::empty()
    } else {
        let before = positions(words.drop_last(), word);
        if words.last() == word {
            before.push(words.len() - 1)
        } else {
            before
        }
    }
}

/// The positions that a vector of indexes holds.
pub open spec fn as_ints(indexes: Seq<usize>) -> Seq<int> {
    indexes.map_values(|i: usize| i as int)
}

/// The words of `a` that `b` holds too, each once, in the order in which
/// they first stand in `a`.
pub open spec fn common_words(a: Seq<Seq<char>>, b: Seq<Seq<char>>) -> Seq<Seq<char>>
    decreases a.len(),
{
    if a.len() == 0 {
        Seq::empty()
    } else {
        let before = common_words(a.drop_last(), b);
        if b.contains(a.last()) && !before.contains(a.last()) {
            before.push(a.last())
        } else {
            before
        }
    }
}

/// The words before position `p`, joined with single spaces.
pub open spec fn before_word(words: Seq<Seq<char>>, p: int) -> Seq<char> {
    joined(words, 0, p)
}

/// The words after position `p`, joined with single spaces.
pub open spec fn after_word(words: Seq<Seq<char>>, p: int) -> Seq<char> {
    joined(words, p + 1, words.len() as int)
}

/// The two parts into which position `index` splits `words`. Where there
/// is no such position, the first part is empty and the second holds all
/// words.
pub open spec fn split_at(words: Seq<Seq<char>>, index: int) -> (Seq<char>, Seq<char>) {
    if 0 <= index < words.len() {
        (before_word(words, index), after_word(words, index))
    } else {
        (Seq::empty(), joined(words, 0, words.len() as int))
    }
}

/// How a message goes on after the word at `p`: with the words after it,
/// or with the words before it where none comes after.
pub open spec fn continuation(words: Seq<Seq<char>>, p: int) -> Seq<char> {
    if after_word(words, p).len() > 0 {
        after_word(words, p)
    } else {
        before_word(words, p)
    }
}

/// `first`, `pivot` and `second` with one space between them.
pub open spec fn spliced(first: Seq<char>, pivot: Seq<char>, second: Seq<char>) -> Seq<char> {
    first + seq![' '] + pivot + seq![' '] + second
}

/// The message made of the words `a` and `b`, spliced at the word that
/// stands at `pa` in `a` and at `pb` in `b`: the beginning of the one, the
/// word, and the continuation of the other. `a_first` says which of the two
/// begins.
pub open spec fn candidate(
    a: Seq<Seq<char>>,
    pa: int,
    b: Seq<Seq<char>>,
    pb: int,
    a_first: bool,
) -> Seq<char> {
    if a_first {
        spliced(before_word(a, pa), a[pa], continuation(b, pb))
    } else {
        spliced(before_word(b, pb), a[pa], continuation(a, pa))
    }
}

/// `s`, or its first 1997 characters and an ellipsis where it holds more
/// than 2000.
pub open spec fn shortened(s: Seq<char>) -> Seq<char> {
    if s.len() > MAX_CHARS {
        s.take(KEPT_CHARS as int) + "..."@
    } else {
        s
    }
}

/// Whether `text` is one of the two messages over again, letter case
/// aside.
pub open spec fn repeats(text: Seq<char>, a: Seq<char>, b: Seq<char>) -> bool {
    lowercase(text) == lowercase(a) || lowercase(text) == lowercase(b)
}

/// The positions of a word are those at which it stands.
pub proof fn lemma_positions(words: Seq<Seq<char>>, word: Seq<char>)
    ensures
        forall|k: int|
            0 <= k < positions(words, word).len() ==> 0 <= (#[trigger] positions(words, word)[k])
                < words.len() && words[positions(words, word)[k]] == word,
        forall|p: int|
            0 <= p < words.len() && #[trigger] words[p] == word ==> positions(
                words,
                word,
            ).contains(p),
    decreases words.len(),
{
    if words.len() > 0 {
        let init = words.drop_last();
        let before = positions(init, word);
        lemma_positions(init, word);
        assert forall|k: int| 0 <= k < positions(words, word).len() implies 0 <= (
        #[trigger] positions(words, word)[k]) < words.len() && words[positions(words, word)[k]]
            == word by {
            if k < before.len() {
                assert(positions(words, word)[k] == before[k]);
                assert(words[before[k]] == init[before[k]]);
            }
        }
        assert forall|p: int| 0 <= p < words.len() && #[trigger] words[p] == word implies positions(
            words,
            word,
        ).contains(p) by {
            if p < init.len() {
                assert(init[p] == word);
                let k = choose|k: int| 0 <= k < before.len() && before[k] == p;
                assert(positions(words, word)[k] == p);
            } else {
                assert(positions(words, word)[before.len() as int] == p);
            }
        }
    }
}

/// The common words of two messages are the words that both hold, each
/// once.
pub proof fn lemma_common_words(a: Seq<Seq<char>>, b: Seq<Seq<char>>)
    ensures
        forall|word: Seq<char>| #[trigger]
            common_words(a, b).contains(word) <==> a.contains(word) && b.contains(word),
        common_words(a, b).no_duplicates(),
    decreases a.len(),
{
    if a.len() > 0 {
        let init = a.drop_last();
        let before = common_words(init, b);
        let now = common_words(a, b);
        lemma_common_words(init, b);
        assert forall|word: Seq<char>| #[trigger]
            now.contains(word) <==> a.contains(word) && b.contains(word) by {
            if now.contains(word) {
                let k = choose|k: int| 0 <= k < now.len() && now[k] == word;
                if k < before.len() {
                    assert(before[k] == word);
                    assert(before.contains(word));
                    let j = choose|j: int| 0 <= j < init.len() && init[j] == word;
                    assert(a[j] == word);
                } else {
                    assert(a[a.len() - 1] == word);
                }
            }
            if a.contains(word) && b.contains(word) {
                let j = choose|j: int| 0 <= j < a.len() && a[j] == word;
                if j < init.len() {
                    assert(init[j] == word);
                    assert(before.contains(word));
                    let k = choose|k: int| 0 <= k < before.len() && before[k] == word;
                    assert(now[k] == word);
                } else if before.contains(word) {
                    let k = choose|k: int| 0 <= k < before.len() && before[k] == word;
                    assert(now[k] == word);
                } else {
                    assert(now[before.len() as int] == word);
                }
            }
        }
    }
}

/// The words with which a message goes on after the word at `p`: those
/// after it, or those before it where none comes after.
pub open spec fn continuation_words(words: Seq<Seq<char>>, p: int) -> Seq<Seq<char>> {
    if p + 1 < words.len() {
        words.subrange(p + 1, words.len() as int)
    } else {
        words.subrange(0, p)
    }
}

/// The words of a spliced message are the words before the place in the
/// message that begins, the shared word, and the words with which the
/// other message goes on.
pub proof fn lemma_candidate_words(
    a: Seq<Seq<char>>,
    pa: int,
    b: Seq<Seq<char>>,
    pb: int,
    a_first: bool,
)
    requires
        all_words(a),
        all_words(b),
        0 <= pa < a.len(),
        0 <= pb < b.len(),
    ensures
        words(candidate(a, pa, b, pb, a_first)) == if a_first {
            a.subrange(0, pa).push(a[pa]) + continuation_words(b, pb)
        } else {
            b.subrange(0, pb).push(a[pa]) + continuation_words(a, pa)
        },
{
    let (x, px, y, py) = if a_first {
        (a, pa, b, pb)
    } else {
        (b, pb, a, pa)
    };
    let pivot = a[pa];
    let first = before_word(x, px);
    let (from, to) = if py + 1 < y.len() {
        (py + 1, y.len() as int)
    } else {
        (0int, py)
    };
    lemma_words_of_joined(y, py + 1, y.len() as int);
    assert(continuation(y, py) == joined(y, from, to));
    assert(continuation_words(y, py) == y.subrange(from, to));
    lemma_words_of_joined(x, 0, px);
    let s1 = first + seq![' '];
    assert(s1.drop_last() =~= first);
    assert(s1.last() == ' ');
    assert(words(s1) == words(first));
    assert(is_word(pivot));
    lemma_words_push_word(s1, pivot);
    let s2 = s1 + pivot;
    let s3 = s2 + seq![' '];
    assert(s3.drop_last() =~= s2);
    assert(s3.last() == ' ');
    assert(words(s3) == words(s2));
    lemma_words_append_joined(s3, y, from, to);
    assert(candidate(a, pa, b, pb, a_first) =~= s3 + joined(y, from, to));
}

/// A spliced message holds the shared word, and every word of it is a word
/// of one of the two messages.
pub proof fn lemma_candidate_is_made_of_the_messages(
    a: Seq<Seq<char>>,
    pa: int,
    b: Seq<Seq<char>>,
    pb: int,
    a_first: bool,
)
    requires
        all_words(a),
        all_words(b),
        0 <= pa < a.len(),
        0 <= pb < b.len(),
        a[pa] == b[pb],
    ensures
        words(candidate(a, pa, b, pb, a_first)).contains(a[pa]),
        forall|word: Seq<char>| #[trigger]
            words(candidate(a, pa, b, pb, a_first)).contains(word) ==> a.contains(word)
                || b.contains(word),
{
    let made = words(candidate(a, pa, b, pb, a_first));
    lemma_candidate_words(a, pa, b, pb, a_first);
    let (x, px, y, py) = if a_first {
        (a, pa, b, pb)
    } else {
        (b, pb, a, pa)
    };
    assert(made == x.subrange(0, px).push(a[pa]) + continuation_words(y, py));
    assert(made[px] == a[pa]);
    assert forall|word: Seq<char>| #[trigger] made.contains(word) implies a.contains(word)
        || b.contains(word) by {
        let k = choose|k: int| 0 <= k < made.len() && made[k] == word;
        if k < px {
            assert(x[k] == word);
        } else if k == px {
            assert(a[pa] == word);
        } else if py + 1 < y.len() {
            assert(y[py + 1 + (k - px - 1)] == word);
        } else {
            assert(y[k - px - 1] == word);
        }
    }
}

/// Tells whether `word` is among `words`.
pub fn contains_word(words: &Vec<String>, word: &String) -> (found: bool)
    ensures
        found == views(words@).contains(word@),
{
    let mut i: usize = 0;
    while i < words.len()
        invariant
            i <= words@.len(),
            forall|k: int| 0 <= k < i ==> views(words@)[k] != word@,
        decreases words@.len() - i,
    {
        if words[i] == *word {
            assert(views(words@)[i as int] == word@);
            return true;
        }
        i = i + 1;
    }
    false
}

/// Finds the positions at which `word` stands among `words`.
pub fn word_positions(words: &Vec<String>, word: &String) -> (indexes: Vec<usize>)
    ensures
        as_ints(indexes@) == positions(views(words@), word@),
{
    let mut indexes: Vec<usize> = Vec::new();
    let mut i: usize = 0;
    assert(as_ints(indexes@) =~= positions(views(words@).take(0), word@));
    while i < words.len()
        invariant
            i <= words@.len(),
            as_ints(indexes@) == positions(views(words@).take(i as int), word@),
        decreases words@.len() - i,
    {
        proof {
            let next = views(words@).take(i + 1);
            assert(next.drop_last() =~= views(words@).take(i as int));
            assert(next.last() == words@[i as int]@);
        }
        if words[i] == *word {
            proof {
                assert(as_ints(indexes@.push(i)) =~= as_ints(indexes@).push(i as int));
            }
            indexes.push(i);
        }
        i = i + 1;
    }
    assert(views(words@).take(i as int) =~= views(words@));
    indexes
}

/// Finds the words that `a` and `b` share.
pub fn word_matches(a: &Vec<String>, b: &Vec<String>) -> (matches: Vec<String>)
    ensures
        views(matches@) == common_words(views(a@), views(b@)),
{
    let mut matches: Vec<String> = Vec::new();
    let mut i: usize = 0;
    assert(views(matches@) =~= common_words(views(a@).take(0), views(b@)));
    while i < a.len()
        invariant
            i <= a@.len(),
            views(matches@) == common_words(views(a@).take(i as int), views(b@)),
        decreases a@.len() - i,
    {
        proof {
            let next = views(a@).take(i + 1);
            assert(next.drop_last() =~= views(a@).take(i as int));
            assert(next.last() == a@[i as int]@);
        }
        if contains_word(b, &a[i]) && !contains_word(&matches, &a[i]) {
            let word = a[i].clone();
            proof {
                assert(views(matches@.push(word)) =~= views(matches@).push(word@));
            }
            matches.push(word);
        }
        i = i + 1;
    }
    assert(views(a@).take(i as int) =~= views(a@));
    matches
}

/// The positions at which `match_word` stands among the words of `msg`,
/// letter case aside.
pub fn get_word_indexes(msg: &str, match_word: &str) -> (indexes: Vec<usize>)
    ensures
        as_ints(indexes@) == positions(words(lowercase(msg@)), lowercase(match_word@)),
{
    let lower_msg = to_lowercase(msg);
    let lower_word = to_lowercase(match_word);
    let split_msg = tokenize(lower_msg.as_str());
    word_positions(&split_msg, &lower_word)
}

/// Splits `words` at position `index` into the words before it and the
/// words after it, each part joined with single spaces.
pub fn split_words(words: &Vec<String>, index: usize) -> (parts: (String, String))
    ensures
        (parts.0@, parts.1@) == split_at(views(words@), index as int),
{
    if index < words.len() {
        (join(words, 0, index), join(words, index + 1, words.len()))
    } else {
        (String::new(), join(words, 0, words.len()))
    }
}

/// Splits `msg` at its word number `word_index` into the words before it
/// and the words after it, each part joined with single spaces.
pub fn split_at_word_index(msg: &str, word_index: usize) -> (parts: (String, String))
    ensures
        (parts.0@, parts.1@) == split_at(words(msg@), word_index as int),
{
    let split_msg = tokenize(msg);
    split_words(&split_msg, word_index)
}

/// Splices the words `a` and `b` at the word that stands at `pa` in `a`
/// and at `pb` in `b`.
pub fn splice(a: &Vec<String>, pa: usize, b: &Vec<String>, pb: usize, a_first: bool) -> (text:
    String)
    requires
        pa < a@.len(),
        pb < b@.len(),
    ensures
        text@ == candidate(views(a@), pa as int, views(b@), pb as int, a_first),
{
    let split_a = split_words(a, pa);
    let split_b = split_words(b, pb);
    let (first, second) = if a_first {
        (split_a.0, if !split_b.1.as_str().is_empty() {
            split_b.1
        } else {
            split_b.0
        })
    } else {
        (split_b.0, if !split_a.1.as_str().is_empty() {
            split_a.1
        } else {
            split_a.0
        })
    };
    proof {
        reveal_strlit(" ");
        assert(" "@ =~= seq![' ']);
        assert(views(a@)[pa as int] == a@[pa as int]@);
    }
    let mut text = first;
    text.append(" ");
    text.append(a[pa].as_str());
    text.append(" ");
    text.append(second.as_str());
    text
}

/// Cuts a message of more than 2000 characters down to its first 1997 and
/// an ellipsis.
pub fn truncate_message(text: String) -> (short: String)
    ensures
        short@ == shortened(text@),
{
    if text.as_str().unicode_len() > MAX_CHARS {
        let mut short = text.as_str().substring_char(0, KEPT_CHARS).to_owned();
        short.append("...");
        short
    } else {
        text
    }
}

/// Tells whether `text` is one of the two messages over again, letter case
/// aside.
pub fn is_repeat(text: &str, a: &str, b: &str) -> (repeat: bool)
    ensures
        repeat == repeats(text@, a@, b@),
{
    let lower = to_lowercase(text);
    lower == to_lowercase(a) || lower == to_lowercase(b)
}

/// A user who takes part in a scramble.
#[derive(Debug, Clone, Copy)]
pub struct User {
    /// The id of the user.
    pub id: u64,
    /// Whether the user is a bot account.
    pub bot: bool,
}

/// Why no scrambled message was made.
#[derive(Debug)]
pub enum ScramblrError {
    /// One of the two users is a bot account.
    IsBot,
    /// The user has too few cached messages.
    TooFewMessages(User),
    /// No attempt found two messages that share a word.
    NoMatches,
}

/// The decimal digit `d`.
pub open spec fn digit(d: int) -> char {
    if d == 0 {
        '0'
    } else if d == 1 {
        '1'
    } else if d == 2 {
        '2'
    } else if d == 3 {
        '3'
    } else if d == 4 {
        '4'
    } else if d == 5 {
        '5'
    } else if d == 6 {
        '6'
    } else if d == 7 {
        '7'
    } else if d == 8 {
        '8'
    } else {
        '9'
    }
}

/// The decimal digits of `n`.
pub open spec fn decimal(n: nat) -> Seq<char>
    decreases n,
{
    if n < 10 {
        seq![digit(n as int)]
    } else {
        decimal(n / 10).push(digit((n % 10) as int))
    }
}

/// The decimal digit `d`, as a string.
fn digit_str(d: u64) -> (text: &'static str)
    requires
        d < 10,
    ensures
        text@ == seq![digit(d as int)],
{
    proof {
        reveal_strlit("0");
        reveal_strlit("1");
        reveal_strlit("2");
        reveal_strlit("3");
        reveal_strlit("4");
        reveal_strlit("5");
        reveal_strlit("6");
        reveal_strlit("7");
        reveal_strlit("8");
        reveal_strlit("9");
    }
    let text = if d == 0 {
        "0"
    } else if d == 1 {
        "1"
    } else if d == 2 {
        "2"
    } else if d == 3 {
        "3"
    } else if d == 4 {
        "4"
    } else if d == 5 {
        "5"
    } else if d == 6 {
        "6"
    } else if d == 7 {
        "7"
    } else if d == 8 {
        "8"
    } else {
        "9"
    };
    assert(text@ =~= seq![digit(d as int)]);
    text
}

/// Writes the decimal digits of `n` at the end of `text`.
fn push_decimal(text: &mut String, n: u64)
    ensures
        final(text)@ == old(text)@ + decimal(n as nat),
    decreases n,
{
    if n >= 10 {
        push_decimal(text, n / 10);
    }
    text.append(digit_str(n % 10));
}

impl ScramblrError {
    /// The message shown to the user who asked.
    pub fn to_string(&self) -> (text: String)
        ensures
            text@ == match *self {
                ScramblrError::IsBot => "One or more users is a bot"@,
                ScramblrError::TooFewMessages(user) => "User <@"@ + decimal(user.id as nat)
                    + "> has too few messages. Minimum cached message count is `3`"@,
                ScramblrError::NoMatches => "No message matches were found"@,
            },
    {
        match self {
            ScramblrError::IsBot => "One or more users is a bot".to_owned(),
            ScramblrError::TooFewMessages(user) => {
                let mut text = "User <@".to_owned();
                push_decimal(&mut text, user.id);
                text.append("> has too few messages. Minimum cached message count is `3`");
                text
            },
            ScramblrError::NoMatches => "No message matches were found".to_owned(),
        }
    }
}

/// Whether `text` is the two messages `a` and `b` spliced at the word that
/// stands at `pa` among the lower-case words of `a` and at `pb` among those
/// of `b`, and cut down where it is too long.
pub open spec fn makes_mashup(
    text: Seq<char>,
    a: Seq<char>,
    b: Seq<char>,
    pa: int,
    pb: int,
    a_first: bool,
) -> bool {
    let wa = words(lowercase(a));
    let wb = words(lowercase(b));
    &&& 0 <= pa < wa.len()
    &&& 0 <= pb < wb.len()
    &&& wa[pa] == wb[pb]
    &&& text == shortened(candidate(wa, pa, wb, pb, a_first))
}

/// Whether `text` is the two messages `a` and `b` spliced at a word that
/// both hold.
pub open spec fn is_mashup(text: Seq<char>, a: Seq<char>, b: Seq<char>) -> bool {
    exists|pa: int, pb: int, a_first: bool| #[trigger] makes_mashup(text, a, b, pa, pb, a_first)
}

/// Whether message `i` of `a` and message `j` of `b` are two messages, and
/// `text` is the two spliced at a word that both hold.
pub open spec fn scrambles(
    text: Seq<char>,
    a: Seq<CachedMessageView>,
    b: Seq<CachedMessageView>,
    i: int,
    j: int,
) -> bool {
    &&& 0 <= i < a.len()
    &&& 0 <= j < b.len()
    &&& a[i].id != b[j].id
    &&& is_mashup(text, a[i].content, b[j].content)
}

/// Whether `text` is a message of `a` and another message of `b`, spliced
/// at a word that both hold.
pub open spec fn is_scramble(
    text: Seq<char>,
    a: Seq<CachedMessageView>,
    b: Seq<CachedMessageView>,
) -> bool {
    exists|i: int, j: int| #[trigger] scrambles(text, a, b, i, j)
}

/// The messages of a user as the scrambler sees them: the user's cached
/// messages, decrypted, or none where one of them cannot be decrypted.
pub open spec fn seen_history(cache: UserMessageCache, user: u64, secret: Seq<char>) -> Seq<
    CachedMessageView,
> {
    if readable(cache.history(user), secret) {
        plain_history(cache.history(user), secret)
    } else {
        Seq::empty()
    }
}

/// Calls rand's `choose` on the items: `None` where there are none, else
/// one of them. Nothing is promised about which.
#[verifier::external_body]
fn pick<T>(items: &Vec<T>) -> (picked: Option<&T>)
    ensures
        items@.len() == 0 ==> picked is None,
        items@.len() > 0 ==> picked is Some && items@.contains(*picked->0),
{
    items.choose(&mut rand::thread_rng())
}

/// Draws a random `bool` with rand's `gen`. Nothing is promised about it.
#[verifier::external_body]
fn flip() -> bool {
    rand::thread_rng().gen()
}

/// Splices the words `a` and `b` at `matched_word`, which both hold, at a
/// random place of the word in each and in a random order.
fn make_scrambled_message(a: &Vec<String>, b: &Vec<String>, matched_word: &String) -> (text:
    String)
    requires
        views(a@).contains(matched_word@),
        views(b@).contains(matched_word@),
    ensures
        exists|pa: int, pb: int, a_first: bool|
            {
                &&& 0 <= pa < a@.len()
                &&& 0 <= pb < b@.len()
                &&& views(a@)[pa] == matched_word@
                &&& views(b@)[pb] == matched_word@
                &&& text@ == #[trigger] candidate(views(a@), pa, views(b@), pb, a_first)
            },
{
    let indexes_a = word_positions(a, matched_word);
    let indexes_b = word_positions(b, matched_word);
    proof {
        lemma_positions(views(a@), matched_word@);
        lemma_positions(views(b@), matched_word@);
        let ka = choose|k: int| 0 <= k < views(a@).len() && views(a@)[k] == matched_word@;
        assert(positions(views(a@), matched_word@).contains(ka));
        let kb = choose|k: int| 0 <= k < views(b@).len() && views(b@)[k] == matched_word@;
        assert(positions(views(b@), matched_word@).contains(kb));
    }
    let pa = match pick(&indexes_a) {
        Some(index) => *index,
        None => unreached(),
    };
    let pb = match pick(&indexes_b) {
        Some(index) => *index,
        None => unreached(),
    };
    proof {
        let ka = choose|k: int| 0 <= k < indexes_a@.len() && indexes_a@[k] == pa;
        assert(as_ints(indexes_a@)[ka] == pa as int);
        let kb = choose|k: int| 0 <= k < indexes_b@.len() && indexes_b@[k] == pb;
        assert(as_ints(indexes_b@)[kb] == pb as int);
    }
    let a_first = flip();
    splice(a, pa, b, pb, a_first)
}

/// Makes one attempt on the two messages `a` and `b`: where they share a
/// word, splices them at one, at random, and cuts the result down where it
/// is too long.
pub fn mash_pair(a: &str, b: &str) -> (mashed: Option<String>)
    ensures
        match mashed {
            Some(text) => is_mashup(text@, a@, b@),
            None => common_words(words(lowercase(a@)), words(lowercase(b@))).len() == 0,
        },
{
    let lower_a = to_lowercase(a);
    let lower_b = to_lowercase(b);
    let words_a = tokenize(lower_a.as_str());
    let words_b = tokenize(lower_b.as_str());
    let word_matches = word_matches(&words_a, &words_b);
    match pick(&word_matches) {
        Some(matched_word) => {
            proof {
                lemma_common_words(views(words_a@), views(words_b@));
                let k = choose|k: int|
                    0 <= k < word_matches@.len() && word_matches@[k] == *matched_word;
                assert(views(word_matches@)[k] == matched_word@);
                assert(common_words(views(words_a@), views(words_b@)).contains(matched_word@));
            }
            let text = make_scrambled_message(&words_a, &words_b, matched_word);
            let short = truncate_message(text);
            proof {
                let (pa, pb, a_first) = choose|pa: int, pb: int, a_first: bool|
                    {
                        &&& 0 <= pa < words_a@.len()
                        &&& 0 <= pb < words_b@.len()
                        &&& views(words_a@)[pa] == matched_word@
                        &&& views(words_b@)[pb] == matched_word@
                        &&& text@ == #[trigger] candidate(
                            views(words_a@),
                            pa,
                            views(words_b@),
                            pb,
                            a_first,
                        )
                    };
                assert(makes_mashup(short@, a@, b@, pa, pb, a_first));
            }
            Some(short)
        },
        None => {
            assert(views(word_matches@).len() == word_matches@.len());
            None
        },
    }
}

/// Whether message `pair.0` of `a` and message `pair.1` of `b` are two
/// messages, not one message twice.
pub open spec fn is_pairing(
    a: Seq<CachedMessageView>,
    b: Seq<CachedMessageView>,
    pair: (usize, usize),
) -> bool {
    &&& pair.0 < a.len()
    &&& pair.1 < b.len()
    &&& a[pair.0 as int].id != b[pair.1 as int].id
}

/// Whether `x` stands before `y` where pairs are ordered by their first
/// part and then by their second.
pub open spec fn pair_before(x: (usize, usize), y: (usize, usize)) -> bool {
    x.0 < y.0 || (x.0 == y.0 && x.1 < y.1)
}

/// The pairs of a message of `a` and a message of `b` with another id,
/// each pair once.
///
/// A draw of one message from each history that gives one message twice is
/// made again. To draw from these pairs is to draw with that rule: every
/// pair of two messages is as likely as every other.
pub fn pairings(a: &Vec<CachedMessage>, b: &Vec<CachedMessage>) -> (pairs: Vec<(usize, usize)>)
    ensures
        forall|pair: (usize, usize)|
            #[trigger] pairs@.contains(pair) <==> is_pairing(
                message_views(a@),
                message_views(b@),
                pair,
            ),
        forall|k: int, l: int|
            0 <= k < l < pairs@.len() ==> pair_before(#[trigger] pairs@[k], #[trigger] pairs@[l]),
{
    let mut pairs: Vec<(usize, usize)> = Vec::new();
    let mut i: usize = 0;
    while i < a.len()
        invariant
            i <= a@.len(),
            forall|k: int|
                0 <= k < pairs@.len() ==> (#[trigger] pairs@[k]).0 < i && is_pairing(
                    message_views(a@),
                    message_views(b@),
                    pairs@[k],
                ),
            forall|pair: (usize, usize)|
                pair.0 < i && is_pairing(message_views(a@), message_views(b@), pair)
                    ==> #[trigger] pairs@.contains(pair),
            forall|k: int, l: int|
                0 <= k < l < pairs@.len() ==> pair_before(
                    #[trigger] pairs@[k],
                    #[trigger] pairs@[l],
                ),
        decreases a@.len() - i,
    {
        let mut j: usize = 0;
        while j < b.len()
            invariant
                i < a@.len(),
                j <= b@.len(),
                forall|k: int|
                    0 <= k < pairs@.len() ==> ((#[trigger] pairs@[k]).0 < i || (pairs@[k].0 == i
                        && pairs@[k].1 < j)) && is_pairing(
                        message_views(a@),
                        message_views(b@),
                        pairs@[k],
                    ),
                forall|pair: (usize, usize)|
                    (pair.0 < i || (pair.0 == i && pair.1 < j)) && is_pairing(
                        message_views(a@),
                        message_views(b@),
                        pair,
                    ) ==> #[trigger] pairs@.contains(pair),
                forall|k: int, l: int|
                    0 <= k < l < pairs@.len() ==> pair_before(
                        #[trigger] pairs@[k],
                        #[trigger] pairs@[l],
                    ),
            decreases b@.len() - j,
        {
            let ghost before = pairs@;
            if a[i].id != b[j].id {
                pairs.push((i, j));
                proof {
                    assert(pairs@[before.len() as int] == (i, j));
                    assert forall|pair: (usize, usize)|
                        (pair.0 < i || (pair.0 == i && pair.1 < j + 1)) && is_pairing(
                            message_views(a@),
                            message_views(b@),
                            pair,
                        ) implies #[trigger] pairs@.contains(pair) by {
                        if pair == (i, j) {
                        } else {
                            assert(before.contains(pair));
                            let k = choose|k: int| 0 <= k < before.len() && before[k] == pair;
                            assert(pairs@[k] == pair);
                        }
                    }
                }
            }
            j = j + 1;
        }
        i = i + 1;
    }
    proof {
        assert forall|pair: (usize, usize)| #[trigger]
            pairs@.contains(pair) <==> is_pairing(
                message_views(a@),
                message_views(b@),
                pair,
            ) by {
            if pairs@.contains(pair) {
                let k = choose|k: int| 0 <= k < pairs@.len() && pairs@[k] == pair;
                assert(is_pairing(message_views(a@), message_views(b@), pairs@[k]));
            }
        }
    }
    pairs
}

/// Whether the two messages `a` and `b` hold a word in common, letter case
/// aside.
pub open spec fn shares_a_word(a: Seq<char>, b: Seq<char>) -> bool {
    common_words(words(lowercase(a)), words(lowercase(b))).len() > 0
}

/// Whether there are two messages to pair, and whichever two are paired
/// hold a word in common: then no draw can miss.
pub open spec fn always_matches(a: Seq<CachedMessageView>, b: Seq<CachedMessageView>) -> bool {
    &&& exists|pair: (usize, usize)| #[trigger] is_pairing(a, b, pair)
    &&& forall|pair: (usize, usize)| #[trigger]
        is_pairing(a, b, pair) ==> shares_a_word(
            a[pair.0 as int].content,
            b[pair.1 as int].content,
        )
}

/// Whether some two messages that can be paired hold a word in common: then
/// a draw can hit.
pub open spec fn sometimes_matches(a: Seq<CachedMessageView>, b: Seq<CachedMessageView>) -> bool {
    exists|pair: (usize, usize)| #[trigger]
        is_pairing(a, b, pair) && shares_a_word(
            a[pair.0 as int].content,
            b[pair.1 as int].content,
        )
}

/// Two messages that were spliced hold a word in common.
pub proof fn lemma_mashup_shares_a_word(text: Seq<char>, a: Seq<char>, b: Seq<char>)
    requires
        is_mashup(text, a, b),
    ensures
        shares_a_word(a, b),
{
    let wa = words(lowercase(a));
    let wb = words(lowercase(b));
    let (pa, pb, a_first) = choose|pa: int, pb: int, a_first: bool| #[trigger]
        makes_mashup(text, a, b, pa, pb, a_first);
    lemma_common_words(wa, wb);
    assert(wa.contains(wa[pa]));
    assert(wb.contains(wb[pb]));
    assert(common_words(wa, wb).contains(wa[pa]));
}

/// A spliced message that was not cut down holds the shared word, and every
/// word of it is a word of one of the two messages, letter case aside.
pub proof fn lemma_mashup_is_made_of_the_messages(
    text: Seq<char>,
    a: Seq<char>,
    b: Seq<char>,
    pa: int,
    pb: int,
    a_first: bool,
)
    requires
        makes_mashup(text, a, b, pa, pb, a_first),
        candidate(words(lowercase(a)), pa, words(lowercase(b)), pb, a_first).len() <= MAX_CHARS,
    ensures
        words(text).contains(words(lowercase(a))[pa]),
        forall|word: Seq<char>| #[trigger]
            words(text).contains(word) ==> words(lowercase(a)).contains(word) || words(
                lowercase(b),
            ).contains(word),
{
    lemma_words_are_words(lowercase(a));
    lemma_words_are_words(lowercase(b));
    lemma_candidate_is_made_of_the_messages(
        words(lowercase(a)),
        pa,
        words(lowercase(b)),
        pb,
        a_first,
    );
}

/// What the outcome `made` of one attempt on the messages `a` and `b`
/// means for the request. The first part is the message to return at once:
/// a result that is not one of the two messages over again. The second part
/// is the message to fall back on when the attempts are used up: a result
/// that is one of the two over again takes the place of `fallback`, and an
/// attempt that found no shared word leaves it.
pub fn settle(fallback: Option<String>, made: Option<String>, a: &str, b: &str) -> (next: (
    Option<String>,
    Option<String>,
))
    ensures
        match made {
            None => next.0 is None && next.1 == fallback,
            Some(text) => if repeats(text@, a@, b@) {
                next.0 is None && next.1 == Some(text)
            } else {
                next.0 == Some(text) && next.1 == fallback
            },
        },
{
    match made {
        None => (None, fallback),
        Some(text) => {
            if is_repeat(text.as_str(), a, b) {
                (None, Some(text))
            } else {
                (Some(text), fallback)
            }
        },
    }
}

/// Scrambles a message of `user_a` with a message of `user_b`.
///
/// Both users need more than three messages. Up to 25 attempts are made.
/// Each draws two messages, one of each user and not one message twice,
/// and splices them at a word that both hold, where there is one. The first
/// result that is not one of the two messages over again is returned. Where
/// no attempt gives one, the last result that an attempt gave is returned,
/// and where no attempt found a shared word, there are no matches.
///
/// Where whichever two messages are paired hold a word in common, every
/// attempt gives a result, so a message is returned whatever is drawn.
/// Where no two messages that can be paired hold a word in common, there
/// are no matches whatever is drawn.
pub fn scramble(
    user_a: &User,
    messages_a: &Vec<CachedMessage>,
    user_b: &User,
    messages_b: &Vec<CachedMessage>,
) -> (result: Result<String, ScramblrError>)
    ensures
        messages_a@.len() <= MIN_MESSAGES ==> result == Err::<String, ScramblrError>(
            ScramblrError::TooFewMessages(*user_a),
        ),
        messages_a@.len() > MIN_MESSAGES && messages_b@.len() <= MIN_MESSAGES ==> result == Err::<
            String,
            ScramblrError,
        >(ScramblrError::TooFewMessages(*user_b)),
        messages_a@.len() > MIN_MESSAGES && messages_b@.len() > MIN_MESSAGES ==> match result {
            Ok(text) => is_scramble(text@, message_views(messages_a@), message_views(messages_b@)),
            Err(error) => error == ScramblrError::NoMatches,
        },
        messages_a@.len() > MIN_MESSAGES && messages_b@.len() > MIN_MESSAGES && always_matches(
            message_views(messages_a@),
            message_views(messages_b@),
        ) ==> result is Ok,
        messages_a@.len() > MIN_MESSAGES && messages_b@.len() > MIN_MESSAGES && !sometimes_matches(
            message_views(messages_a@),
            message_views(messages_b@),
        ) ==> result is Err,
{
    if messages_a.len() <= MIN_MESSAGES {
        return Err(ScramblrError::TooFewMessages(*user_a));
    }
    if messages_b.len() <= MIN_MESSAGES {
        return Err(ScramblrError::TooFewMessages(*user_b));
    }
    let ghost a = message_views(messages_a@);
    let ghost b = message_views(messages_b@);
    let pairs = pairings(messages_a, messages_b);
    let mut last_msg: Option<String> = None;
    let mut scramble_tries: usize = 0;
    while scramble_tries < MAX_TRIES
        invariant
            messages_a@.len() > MIN_MESSAGES,
            messages_b@.len() > MIN_MESSAGES,
            a == message_views(messages_a@),
            b == message_views(messages_b@),
            forall|pair: (usize, usize)| #[trigger] pairs@.contains(pair) <==> is_pairing(a, b, pair),
            last_msg matches Some(text) ==> is_scramble(text@, a, b) && sometimes_matches(a, b),
            always_matches(a, b) && scramble_tries > 0 ==> last_msg is Some,
        decreases MAX_TRIES - scramble_tries,
    {
        match pick(&pairs) {
            Some(pair) => {
                assert(is_pairing(a, b, *pair));
                let msg_a = &messages_a[pair.0];
                let msg_b = &messages_b[pair.1];
                assert(a[pair.0 as int] == msg_a@);
                assert(b[pair.1 as int] == msg_b@);
                let made = mash_pair(msg_a.content.as_str(), msg_b.content.as_str());
                proof {
                    if made is Some {
                        let text = made->0@;
                        assert(scrambles(text, a, b, pair.0 as int, pair.1 as int));
                        lemma_mashup_shares_a_word(text, msg_a.content@, msg_b.content@);
                    }
                }
                let next = settle(
                    last_msg,
                    made,
                    msg_a.content.as_str(),
                    msg_b.content.as_str(),
                );
                match next.0 {
                    Some(scrambled_msg) => {
                        return Ok(scrambled_msg);
                    },
                    None => {},
                }
                last_msg = next.1;
            },
            None => {
                proof {
                    if always_matches(a, b) {
                        let pair = choose|pair: (usize, usize)| #[trigger] is_pairing(a, b, pair);
                        assert(pairs@.contains(pair));
                    }
                }
            },
        }
        scramble_tries = scramble_tries + 1;
    }
    match last_msg {
        Some(text) => Ok(text),
        None => Err(ScramblrError::NoMatches),
    }
}

/// Scrambles a cached message of `user_a` with a cached message of
/// `user_b`.
///
/// Fails where one of the two is a bot account, and where one of the two
/// has no more than three cached messages that can be decrypted. What it
/// does else, `scramble` says.
pub fn get_scrambled_message(
    user_a: &User,
    user_b: &User,
    user_message_cache: &UserMessageCache,
    config: &Config,
) -> (result: Result<String, ScramblrError>)
    ensures
        ({
            let a = seen_history(*user_message_cache, user_a.id, config.secret_key());
            let b = seen_history(*user_message_cache, user_b.id, config.secret_key());
            if user_a.bot || user_b.bot {
                result == Err::<String, ScramblrError>(ScramblrError::IsBot)
            } else if a.len() <= MIN_MESSAGES {
                result == Err::<String, ScramblrError>(ScramblrError::TooFewMessages(*user_a))
            } else if b.len() <= MIN_MESSAGES {
                result == Err::<String, ScramblrError>(ScramblrError::TooFewMessages(*user_b))
            } else {
                &&& match result {
                    Ok(text) => is_scramble(text@, a, b),
                    Err(error) => error == ScramblrError::NoMatches,
                }
                &&& always_matches(a, b) ==> result is Ok
                &&& !sometimes_matches(a, b) ==> result is Err
            }
        }),
{
    if user_a.bot || user_b.bot {
        return Err(ScramblrError::IsBot);
    }
    let user_a_messages = match user_message_cache.decrypt_user_messages(user_a.id, config) {
        Ok(messages) => messages,
        Err(_) => Vec::new(),
    };
    let user_b_messages = match user_message_cache.decrypt_user_messages(user_b.id, config) {
        Ok(messages) => messages,
        Err(_) => Vec::new(),
    };
    scramble(user_a, &user_a_messages, user_b, &user_b_messages)
}

} // verus!
