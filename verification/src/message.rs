//! A chat message as the event layer hands it to the caches, and the test
//! that decides whether a message is cached at all.

use crate::text::{plain_words, strip_urls};
use vstd::prelude::*;

verus! {

/// The least number of words, URLs aside, that a cached message holds.
pub const MIN_WORDS: usize = 3;

/// A message that was created or edited.
pub struct Message {
    /// The id of the message.
    pub id: u64,
    /// The id of the author.
    pub author_id: u64,
    /// Whether the author is a bot account.
    pub author_is_bot: bool,
    /// The channel that the message was posted in.
    pub channel_id: u64,
    /// Whether that channel is a private or direct channel.
    pub channel_is_private: bool,
    /// The time of the message, in seconds.
    pub timestamp: i64,
    /// The text of the message.
    pub content: String,
}

impl Message {
    /// Whether the message passes the admission filter: it was posted in a
    /// public channel by an account that is no bot, and it holds at least
    /// three words that are no URLs.
    pub open spec fn admitted(&self) -> bool {
        &&& !self.channel_is_private
        &&& !self.author_is_bot
        &&& plain_words(self.content@).len() >= MIN_WORDS
    }

    /// Applies the admission filter.
    pub fn is_admitted(&self) -> (admitted: bool)
        ensures
            admitted == self.admitted(),
    {
        if self.channel_is_private || self.author_is_bot {
            return false;
        }
        let kept = strip_urls(self.content.as_str());
        proof {
            assert(crate::text::views(kept@).len() == kept@.len());
        }
        kept.len() >= MIN_WORDS
    }
}

} // verus!
