//! The id cache: for every user the ids, channels and timestamps of the
//! messages that passed the admission filter, without their texts, and
//! never more than `max_msgs` of them.

use crate::entry::{
    bounded, bucket, lemma_bounded_len, lemma_put_well_kept, lemma_without_well_kept, upserted,
    well_kept, without_channel, without_message, CacheEntry,
};
use crate::message::Message;
use crate::store::{bucket_of, entries_of, history, purge, put, take};
use std::collections::HashMap;
use vstd::prelude::*;

verus! {

/// The version of the cache's layout.
pub const CACHE_VERSION: u16 = 1;

/// The number of messages that a new cache keeps for each user.
pub const DEFAULT_MAX_MSGS: usize = 200;

/// A cached message, without its text.
#[derive(Clone, Copy, Debug, PartialEq, Eq, Structural)]
pub struct CacheMessageId {
    /// The id of the message.
    pub id: u64,
    /// The channel that the message was posted in.
    pub channel_id: u64,
    /// The time of the message, in seconds.
    pub time: i64,
}

impl CacheEntry for CacheMessageId {
    open spec fn message_id(&self) -> u64 {
        self.id
    }

    open spec fn channel(&self) -> u64 {
        self.channel_id
    }

    open spec fn timestamp(&self) -> i64 {
        self.time
    }

    fn id(&self) -> (id: u64) {
        self.id
    }

    fn channel_id(&self) -> (channel: u64) {
        self.channel_id
    }

    fn time(&self) -> (time: i64) {
        self.time
    }
}

/// The cached messages of all users, with the version of the layout.
pub struct MessageIdData {
    /// The version of the layout.
    pub version: u16,
    /// For every user the cached messages, in insertion order.
    pub data: HashMap<u64, Vec<CacheMessageId>>,
}

impl MessageIdData {
    /// An empty cache.
    pub fn new() -> (cache: Self)
        ensures
            cache.version == CACHE_VERSION,
            cache.data@ == Map::<u64, Vec<CacheMessageId>>::empty(),
    {
        MessageIdData { version: CACHE_VERSION, data: HashMap::new() }
    }
}

/// Errors of the id cache.
#[derive(Debug)]
pub enum MessageCacheError {
    /// The cache could not be loaded.
    FailedToLoadCache,
    /// A text could not be encrypted or decrypted.
    CryptionError(String),
}

impl MessageCacheError {
    /// The message shown to the operator.
    pub fn to_string(&self) -> (text: String)
        ensures
            text@ == match *self {
                MessageCacheError::FailedToLoadCache => "Faled to load message cache!"@,
                MessageCacheError::CryptionError(detail) => "An error occurred while encrypting/decrypting: "@
                    + detail@,
            },
    {
        match self {
            MessageCacheError::FailedToLoadCache => "Faled to load message cache!".to_owned(),
            MessageCacheError::CryptionError(detail) => {
                "An error occurred while encrypting/decrypting: ".to_owned().concat(
                    detail.as_str(),
                )
            },
        }
    }
}

/// The entry that stands for `message`.
pub open spec fn entry_of(message: Message) -> CacheMessageId {
    CacheMessageId { id: message.id, channel_id: message.channel_id, time: message.timestamp }
}

/// The id cache.
pub struct MessageIdCache {
    /// The most messages that the cache keeps for one user.
    pub max_msgs: usize,
    /// The cached messages.
    pub messages: MessageIdData,
}

impl MessageIdCache {
    /// The cached messages of `user`, in insertion order.
    pub open spec fn history(&self, user: u64) -> Seq<CacheMessageId> {
        history(self.messages.data@, user)
    }

    /// Whether the cache holds no more than `max_msgs` messages of any user,
    /// and no message of a channel twice.
    pub open spec fn wf(&self) -> bool {
        forall|user: u64| well_kept(#[trigger] self.history(user), self.max_msgs as nat)
    }

    /// An empty cache that keeps 200 messages for each user.
    pub fn new() -> (cache: Self)
        ensures
            cache.max_msgs == DEFAULT_MAX_MSGS,
            cache.messages.version == CACHE_VERSION,
            cache.messages.data@ == Map::<u64, Vec<CacheMessageId>>::empty(),
            cache.wf(),
    {
        MessageIdCache { max_msgs: DEFAULT_MAX_MSGS, messages: MessageIdData::new() }
    }

    /// Nothing is loaded: the cache starts empty, and this always succeeds.
    pub fn load_cache(&self) -> (result: Result<(), MessageCacheError>)
        ensures
            result is Ok,
    {
        Ok(())
    }

    /// Caches `message`, or its new timestamp where it is cached already:
    /// in the place of the author's entry for the same message of the same
    /// channel, or as the author's last entry. Then evicts the author's
    /// oldest entries, whatever their channels, until at most `max_msgs` are
    /// left. A message that does not pass the admission filter is passed
    /// over.
    pub fn add_or_update_msg(&mut self, message: &Message)
        ensures
            final(self).max_msgs == old(self).max_msgs,
            final(self).messages.version == old(self).messages.version,
            old(self).wf() ==> final(self).wf(),
            !message.admitted() ==> *final(self) == *old(self),
            message.admitted() ==> {
                &&& final(self).messages.data@.dom() == old(self).messages.data@.dom().insert(
                    message.author_id,
                )
                &&& final(self).history(message.author_id) == bounded(
                    upserted(old(self).history(message.author_id), entry_of(*message)),
                    old(self).max_msgs as nat,
                )
                &&& forall|other: u64|
                    other != message.author_id ==> final(self).history(other) == old(
                        self,
                    ).history(other)
                &&& final(self).history(message.author_id).len() <= old(self).max_msgs
            },
    {
        if !message.is_admitted() {
            return ;
        }
        let entry = CacheMessageId {
            id: message.id,
            channel_id: message.channel_id,
            time: message.timestamp,
        };
        put(&mut self.messages.data, message.author_id, entry, self.max_msgs);
        proof {
            lemma_bounded_len(
                upserted(old(self).history(message.author_id), entry),
                old(self).max_msgs as nat,
            );
            if old(self).wf() {
                assert forall|user: u64|
                    well_kept(#[trigger] self.history(user), self.max_msgs as nat) by {
                    assert(well_kept(old(self).history(user), self.max_msgs as nat));
                    if user != message.author_id {
                        assert(self.history(user) == old(self).history(user));
                    } else {
                        lemma_put_well_kept(
                            old(self).history(user),
                            entry,
                            self.max_msgs as nat,
                        );
                    }
                }
            }
        }
    }

    /// The cached messages of `user_id`, in insertion order; `None` where
    /// the cache does not know the user.
    pub fn get_user_messages(&self, user_id: u64) -> (found: Option<Vec<&CacheMessageId>>)
        ensures
            found is Some <==> self.messages.data@.contains_key(user_id),
            found matches Some(entries) ==> entries@.unref() == self.history(user_id),
    {
        entries_of(&self.messages.data, user_id)
    }

    /// The bucket of `user_id` and `channel_id`: the cached messages of the
    /// user in the channel, in insertion order.
    pub fn get_channel_messages(&self, user_id: u64, channel_id: u64) -> (found: Vec<
        &CacheMessageId,
    >)
        ensures
            found@.unref() == bucket(self.history(user_id), channel_id),
    {
        bucket_of(&self.messages.data, user_id, channel_id)
    }

    /// The cached messages of `user_id`, gathered from all the
    /// user's channels, in insertion order; `None` where the cache does not
    /// know the user. No other user's messages are among them.
    pub fn get_user_messages_mut(&self, user_id: u64) -> (found: Option<Vec<&CacheMessageId>>)
        ensures
            found is Some <==> self.messages.data@.contains_key(user_id),
            found matches Some(entries) ==> entries@.unref() == self.history(user_id),
    {
        entries_of(&self.messages.data, user_id)
    }

    /// Removes `message` from the cache, if it is there.
    pub fn remove_message(&mut self, message: &Message)
        ensures
            final(self).max_msgs == old(self).max_msgs,
            final(self).messages.version == old(self).messages.version,
            final(self).messages.data@.dom() == old(self).messages.data@.dom(),
            final(self).history(message.author_id) == without_message(
                old(self).history(message.author_id),
                message.channel_id,
                message.id,
            ),
            forall|other: u64|
                other != message.author_id ==> final(self).history(other) == old(self).history(
                    other,
                ),
            old(self).wf() ==> final(self).wf(),
    {
        self.remove_message_by_id(message.author_id, message.channel_id, message.id);
    }

    /// Removes message `message_id` of `channel_id` from the entries of
    /// `user_id`, if it is there.
    pub fn remove_message_by_id(&mut self, user_id: u64, channel_id: u64, message_id: u64)
        ensures
            final(self).max_msgs == old(self).max_msgs,
            final(self).messages.version == old(self).messages.version,
            final(self).messages.data@.dom() == old(self).messages.data@.dom(),
            final(self).history(user_id) == without_message(
                old(self).history(user_id),
                channel_id,
                message_id,
            ),
            forall|other: u64|
                other != user_id ==> final(self).history(other) == old(self).history(other),
            old(self).wf() ==> final(self).wf(),
    {
        take(&mut self.messages.data, user_id, channel_id, message_id);
        proof {
            if old(self).wf() {
                assert forall|user: u64|
                    well_kept(#[trigger] self.history(user), self.max_msgs as nat) by {
                    assert(well_kept(old(self).history(user), self.max_msgs as nat));
                    if user != user_id {
                        assert(self.history(user) == old(self).history(user));
                    } else {
                        lemma_without_well_kept(
                            old(self).history(user),
                            self.max_msgs as nat,
                            channel_id,
                            message_id,
                        );
                    }
                }
            }
        }
    }

    /// Removes the messages of `channel_id` from the entries of every user.
    pub fn remove_messages_in_channel(&mut self, channel_id: u64)
        ensures
            final(self).max_msgs == old(self).max_msgs,
            final(self).messages.version == old(self).messages.version,
            final(self).messages.data@.dom() == old(self).messages.data@.dom(),
            forall|user: u64|
                final(self).history(user) == without_channel(
                    #[trigger] old(self).history(user),
                    channel_id,
                ),
            old(self).wf() ==> final(self).wf(),
    {
        purge(&mut self.messages.data, channel_id);
        proof {
            if old(self).wf() {
                assert forall|user: u64|
                    well_kept(#[trigger] self.history(user), self.max_msgs as nat) by {
                    assert(well_kept(old(self).history(user), self.max_msgs as nat));
                    assert(self.history(user) == without_channel(
                        old(self).history(user),
                        channel_id,
                    ));
                    lemma_without_well_kept(
                        old(self).history(user),
                        self.max_msgs as nat,
                        channel_id,
                        0,
                    );
                }
            }
        }
    }
}

} // verus!
