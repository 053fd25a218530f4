//! Words of a message: splitting a text at whitespace and joining words
//! again with single spaces.

use url::Url;
use vstd::prelude::*;
use vstd::string::*;

verus! {

/// The white space characters of Unicode.
pub open spec fn is_whitespace(c: char) -> bool {
    let n = c as u32;
    ||| 0x09 <= n <= 0x0D
    ||| n == 0x20
    ||| n == 0x85
    ||| n == 0xA0
    ||| n == 0x1680
    ||| 0x2000 <= n <= 0x200A
    ||| n == 0x2028
    ||| n == 0x2029
    ||| n == 0x202F
    ||| n == 0x205F
    ||| n == 0x3000
}

/// The words of `s`: its maximal runs of characters that are not white
/// space, from left to right.
pub open spec fn words(s: Seq<char>) -> Seq<Seq<char>>
    decreases s.len(),
{
    if s.len() == 0 {
        Seq::empty()
    } else {
        let before = words(s.drop_last());
        let c = s.last();
        if is_whitespace(c) {
            before
        } else if s.len() >= 2 && !is_whitespace(s[s.len() - 2]) {
            before.drop_last().push(before.last().push(c))
        } else {
            before.push(seq![c])
        }
    }
}

/// The character sequences that a vector of strings holds.
pub open spec fn views(v: Seq<String>) -> Seq<Seq<char>> {
    v.map_values(|t: String| t@)
}

/// Tells whether `c` is a white space character.
pub fn is_space(c: char) -> (b: bool)
    ensures
        b == is_whitespace(c),
{
    let n: u32 = c as u32;
    (0x09 <= n && n <= 0x0D) || n == 0x20 || n == 0x85 || n == 0xA0 || n == 0x1680 || (0x2000 <= n
        && n <= 0x200A) || n == 0x2028 || n == 0x2029 || n == 0x202F || n == 0x205F || n == 0x3000
}

/// A word: at least one character, and none that is white space.
pub open spec fn is_word(w: Seq<char>) -> bool {
    w.len() > 0 && forall|j: int| 0 <= j < w.len() ==> !is_whitespace(#[trigger] w[j])
}

/// Whether each of `ws` is a word.
pub open spec fn all_words(ws: Seq<Seq<char>>) -> bool {
    forall|k: int| 0 <= k < ws.len() ==> is_word(#[trigger] ws[k])
}

/// The words of a text are words.
pub proof fn lemma_words_are_words(s: Seq<char>)
    ensures
        all_words(words(s)),
        s.len() > 0 && !is_whitespace(s.last()) ==> words(s).len() > 0,
    decreases s.len(),
{
    if s.len() > 0 {
        let before = words(s.drop_last());
        let c = s.last();
        lemma_words_are_words(s.drop_last());
        if is_whitespace(c) {
        } else if s.len() >= 2 && !is_whitespace(s[s.len() - 2]) {
            assert(s.drop_last().last() == s[s.len() - 2]);
            let grown = before.last().push(c);
            assert forall|k: int| 0 <= k < words(s).len() implies is_word(
                #[trigger] words(s)[k],
            ) by {
                if k < before.len() - 1 {
                    assert(words(s)[k] == before[k]);
                } else {
                    assert(words(s)[k] == grown);
                    assert forall|j: int| 0 <= j < grown.len() implies !is_whitespace(
                        #[trigger] grown[j],
                    ) by {
                        if j < before.last().len() {
                            assert(grown[j] == before.last()[j]);
                        }
                    }
                }
            }
        } else {
            assert forall|k: int| 0 <= k < words(s).len() implies is_word(
                #[trigger] words(s)[k],
            ) by {
                if k < before.len() {
                    assert(words(s)[k] == before[k]);
                } else {
                    assert(words(s)[k] == seq![c]);
                }
            }
        }
    }
}

/// A word that follows white space, or nothing, is one more word of the
/// text.
pub proof fn lemma_words_push_word(s: Seq<char>, w: Seq<char>)
    requires
        s.len() == 0 || is_whitespace(s.last()),
        is_word(w),
    ensures
        words(s + w) == words(s).push(w),
    decreases w.len(),
{
    let c = w.last();
    let init = w.drop_last();
    let whole = s + w;
    assert(whole.drop_last() =~= s + init);
    assert(whole.last() == c);
    if init.len() == 0 {
        assert(s + init =~= s);
        assert(w =~= seq![c]);
        if whole.len() >= 2 {
            assert(whole[whole.len() - 2] == s.last());
        }
    } else {
        assert(is_word(init)) by {
            assert forall|j: int| 0 <= j < init.len() implies !is_whitespace(
                #[trigger] init[j],
            ) by {
                assert(init[j] == w[j]);
            }
        }
        lemma_words_push_word(s, init);
        assert(whole[whole.len() - 2] == init.last());
        assert(init.last() == w[w.len() - 2]);
        assert(words(s).push(init).drop_last() =~= words(s));
        assert(init.push(c) =~= w);
    }
}

/// Words that were joined with single spaces, after white space or
/// nothing, are the next words of the text.
pub proof fn lemma_words_append_joined(s: Seq<char>, ws: Seq<Seq<char>>, from: int, to: int)
    requires
        s.len() == 0 || is_whitespace(s.last()),
        all_words(ws),
        0 <= from <= to <= ws.len(),
    ensures
        words(s + joined(ws, from, to)) == words(s) + ws.subrange(from, to),
    decreases to - from,
{
    if to == from {
        assert(s + joined(ws, from, to) =~= s);
        assert(words(s) + ws.subrange(from, to) =~= words(s));
    } else if to == from + 1 {
        assert(is_word(ws[from]));
        lemma_words_push_word(s, ws[from]);
        assert(words(s).push(ws[from]) =~= words(s) + ws.subrange(from, to));
    } else {
        let head = s + joined(ws, from, to - 1);
        let spaced = head + seq![' '];
        lemma_words_append_joined(s, ws, from, to - 1);
        assert(spaced.drop_last() =~= head);
        assert(spaced.last() == ' ');
        assert(words(spaced) == words(head));
        assert(is_word(ws[to - 1]));
        lemma_words_push_word(spaced, ws[to - 1]);
        assert(s + joined(ws, from, to) =~= spaced + ws[to - 1]);
        assert((words(s) + ws.subrange(from, to - 1)).push(ws[to - 1]) =~= words(s)
            + ws.subrange(from, to));
    }
}

/// Splitting what was joined gives the words again.
pub proof fn lemma_words_of_joined(ws: Seq<Seq<char>>, from: int, to: int)
    requires
        all_words(ws),
        0 <= from <= to <= ws.len(),
    ensures
        words(joined(ws, from, to)) == ws.subrange(from, to),
        joined(ws, from, to).len() > 0 <==> from < to,
{
    lemma_words_append_joined(Seq::empty(), ws, from, to);
    assert(Seq::<char>::empty() + joined(ws, from, to) =~= joined(ws, from, to));
    assert(words(Seq::<char>::empty()) + ws.subrange(from, to) =~= ws.subrange(from, to));
    if from < to {
        assert(ws.subrange(from, to).len() > 0);
    }
}

/// Splits `text` into its words.
pub fn tokenize(text: &str) -> (tokens: Vec<String>)
    ensures
        views(tokens@) == words(text@),
{
    broadcast use group_string_axioms;

    let mut tokens: Vec<String> = Vec::new();
    let mut start: usize = 0;
    let mut in_word: bool = false;
    let mut i: usize = 0;
    let n: usize = text.unicode_len();
    assert(text@.take(0) =~= Seq::<char>::empty());
    assert(views(tokens@) =~= Seq::<Seq<char>>::empty());
    for c in it: text.chars()
        invariant
            n == text@.len(),
            it.seq() == text@,
            i == it.index(),
            i <= n,
            in_word ==> start < i && !is_whitespace(text@[i - 1]),
            !in_word ==> i == 0 || is_whitespace(text@[i - 1]),
            words(text@.take(i as int)) == if in_word {
                views(tokens@).push(text@.subrange(start as int, i as int))
            } else {
                views(tokens@)
            },
    {
        let ghost prefix = text@.take(i as int);
        let ghost next = text@.take(i + 1);
        assert(next.drop_last() =~= prefix);
        assert(next.last() == c);
        if is_space(c) {
            if in_word {
                let word = text.substring_char(start, i).to_owned();
                proof {
                    assert(views(tokens@.push(word)) =~= views(tokens@).push(word@));
                }
                tokens.push(word);
                in_word = false;
            }
        } else {
            if !in_word {
                start = i;
                in_word = true;
                assert(text@.subrange(start as int, i + 1) =~= seq![c]);
            } else {
                assert(text@.subrange(start as int, i + 1) =~= text@.subrange(
                    start as int,
                    i as int,
                ).push(c));
                assert(views(tokens@).push(text@.subrange(start as int, i as int)).drop_last()
                    =~= views(tokens@));
            }
        }
        i = i + 1;
    }
    assert(text@.take(i as int) =~= text@);
    if in_word {
        let word = text.substring_char(start, i).to_owned();
        proof {
            assert(views(tokens@.push(word)) =~= views(tokens@).push(word@));
        }
        tokens.push(word);
    }
    tokens
}

/// Whether `Url::parse` accepts `word` as an absolute URL.
pub uninterp spec fn url_parses(word: Seq<char>) -> bool;

/// The lower-case form of `s`, as `str::to_lowercase` gives it.
pub uninterp spec fn lowercase(s: Seq<char>) -> Seq<char>;

/// The test that a word is no URL.
pub open spec fn not_url() -> spec_fn(Seq<char>) -> bool {
    |word: Seq<char>| !url_parses(word)
}

/// The words of `s` that are no URLs, from left to right.
pub open spec fn plain_words(s: Seq<char>) -> Seq<Seq<char>> {
    words(s).filter(not_url())
}

/// The words `from..to` of `words`, with one space between neighbours.
pub open spec fn joined(words: Seq<Seq<char>>, from: int, to: int) -> Seq<char>
    decreases to - from,
{
    if to <= from {
        Seq::empty()
    } else if to == from + 1 {
        words[from]
    } else {
        joined(words, from, to - 1) + seq![' '] + words[to - 1]
    }
}

/// Calls `Url::parse` and tells whether it accepted the word.
#[verifier::external_body]
pub(crate) fn is_url(word: &str) -> (b: bool)
    ensures
        b == url_parses(word@),
{
    Url::parse(word).is_ok()
}

/// Calls `str::to_lowercase`.
#[verifier::external_body]
pub(crate) fn to_lowercase(text: &str) -> (lower: String)
    ensures
        lower@ == lowercase(text@),
{
    text.to_lowercase()
}

/// Splits `text` into its words and leaves out those that are URLs.
pub fn strip_urls(text: &str) -> (kept: Vec<String>)
    ensures
        views(kept@) == plain_words(text@),
{
    let tokens = tokenize(text);
    let ghost all = views(tokens@);
    let mut kept: Vec<String> = Vec::new();
    assert(all.take(0).filter(not_url()) =~= Seq::<Seq<char>>::empty()) by {
        reveal(Seq::filter);
    }
    assert(views(kept@) =~= Seq::<Seq<char>>::empty());
    for token in it: tokens
        invariant
            all == views(it.seq()),
            all == words(text@),
            views(kept@) == all.take(it.index()).filter(not_url()),
    {
        proof {
            let done = all.take(it.index());
            assert(all.take(it.index() + 1) =~= done.push(token@));
            done.lemma_filter_push(token@, not_url());
            assert(views(kept@.push(token)) =~= views(kept@).push(token@));
        }
        if !is_url(token.as_str()) {
            kept.push(token);
        }
    }
    assert(all.take(all.len() as int) =~= all);
    kept
}

/// Joins the words `from..to` of `words` with single spaces.
pub fn join(words: &Vec<String>, from: usize, to: usize) -> (text: String)
    requires
        from <= to <= words@.len(),
    ensures
        text@ == joined(views(words@), from as int, to as int),
{
    let mut text = String::new();
    let mut i: usize = from;
    while i < to
        invariant
            from <= i <= to <= words@.len(),
            text@ == joined(views(words@), from as int, i as int),
        decreases to - i,
    {
        if i > from {
            text.append(" ");
            proof {
                reveal_strlit(" ");
                assert(" "@ =~= seq![' ']);
            }
        }
        text.append(words[i].as_str());
        proof {
            assert(views(words@)[i as int] == words@[i as int]@);
            if i == from {
                assert(text@ =~= words@[i as int]@);
            }
        }
        i = i + 1;
    }
    text
}

} // verus!
