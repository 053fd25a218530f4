//! Text written in emojis.

use crate::text::{lowercase, to_lowercase};
use vstd::prelude::*;
use vstd::string::*;

verus! {

/// The name of the decimal digit `d`.
pub open spec fn number_name(d: int) -> Seq<char> {
    if d == 0 {
        "zero"@
    } else if d == 1 {
        "one"@
    } else if d == 2 {
        "two"@
    } else if d == 3 {
        "three"@
    } else if d == 4 {
        "four"@
    } else if d == 5 {
        "five"@
    } else if d == 6 {
        "six"@
    } else if d == 7 {
        "seven"@
    } else if d == 8 {
        "eight"@
    } else {
        "nine"@
    }
}

/// What stands for the character `c`: the name of an emoji for a small
/// letter, a digit, `!` and `?`, a tab for a space, and `c` itself for
/// every other character.
pub open spec fn emoji_of(c: char) -> Seq<char> {
    if 'a' <= c <= 'z' {
        ":regional_indicator_"@ + seq![c] + ":"@
    } else if '0' <= c <= '9' {
        ":"@ + number_name(c as u32 - '0' as u32) + ":"@
    } else if c == ' ' {
        "\t"@
    } else if c == '!' {
        ":exclamation:"@
    } else if c == '?' {
        ":question:"@
    } else {
        seq![c]
    }
}

/// What stands for each character of `s`, one after the other.
pub open spec fn emojis(s: Seq<char>) -> Seq<char>
    decreases s.len(),
{
    if s.len() == 0 {
        Seq::empty()
    } else {
        emojis(s.drop_last()) + emoji_of(s.last())
    }
}

/// The name of the decimal digit `d`.
fn number(d: u32) -> (name: &'static str)
    requires
        d < 10,
    ensures
        name@ == number_name(d as int),
{
    if d == 0 {
        "zero"
    } else if d == 1 {
        "one"
    } else if d == 2 {
        "two"
    } else if d == 3 {
        "three"
    } else if d == 4 {
        "four"
    } else if d == 5 {
        "five"
    } else if d == 6 {
        "six"
    } else if d == 7 {
        "seven"
    } else if d == 8 {
        "eight"
    } else {
        "nine"
    }
}

/// Writes `text` in emojis: its lower-case form, character by character.
pub fn convert_text_to_emojis(text: String) -> (new_text: String)
    ensures
        new_text@ == emojis(lowercase(text@)),
{
    broadcast use group_string_axioms;

    let lower = to_lowercase(text.as_str());
    let mut new_text = String::new();
    let mut i: usize = 0;
    let n: usize = lower.as_str().unicode_len();
    assert(lower@.take(0) =~= Seq::<char>::empty());
    for chara in it: lower.as_str().chars()
        invariant
            n == lower@.len(),
            it.seq() == lower@,
            i == it.index(),
            i <= n,
            new_text@ == emojis(lower@.take(i as int)),
    {
        proof {
            let next = lower@.take(i + 1);
            assert(next.drop_last() =~= lower@.take(i as int));
            assert(next.last() == chara);
        }
        if chara >= 'a' && chara <= 'z' {
            let letter = lower.as_str().substring_char(i, i + 1);
            assert(letter@ =~= seq![chara]);
            new_text.append(":regional_indicator_");
            new_text.append(letter);
            new_text.append(":");
        } else if chara >= '0' && chara <= '9' {
            new_text.append(":");
            new_text.append(number(chara as u32 - '0' as u32));
            new_text.append(":");
        } else if chara == ' ' {
            new_text.append("\t");
        } else if chara == '!' {
            new_text.append(":exclamation:");
        } else if chara == '?' {
            new_text.append(":question:");
        } else {
            let other = lower.as_str().substring_char(i, i + 1);
            assert(other@ =~= seq![chara]);
            new_text.append(other);
        }
        i = i + 1;
    }
    assert(lower@.take(i as int) =~= lower@);
    new_text
}

} // verus!
