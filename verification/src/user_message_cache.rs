//! The encrypted message cache: for every user the messages that passed the
//! admission filter, encrypted, and never more than `max_msgs` of them.

use crate::config::Config;
use crate::encryption::{decrypt, decrypted, encrypt, encrypted, is_nonce, MAX_PLAINTEXT_BYTES};
use crate::entry::{
    bounded, bucket, lemma_bounded_len, lemma_put_well_kept, lemma_without_well_kept, upserted,
    well_kept, without_channel, without_message, CacheEntry,
};
use crate::message::Message;
use crate::store::{bucket_of, entries_of, history, purge, put, take};
use std::collections::HashMap;
use vstd::prelude::*;
use vstd::utf8::encode_utf8;

verus! {

/// The version of the cache's layout.
pub const CACHE_VERSION: u16 = 1;

/// The number of messages that a new cache keeps for each user.
pub const DEFAULT_MAX_MSGS: usize = 200;

/// A cached message: its text is held encrypted, beside the nonce that it
/// was encrypted under.
pub struct CacheMessage {
    /// The id of the message.
    pub id: u64,
    /// The channel that the message was posted in.
    pub channel_id: u64,
    /// The time of the message, in seconds.
    pub time: i64,
    /// The encrypted text.
    pub data: Vec<u8>,
    /// The nonce of the encryption.
    pub nonce: String,
}

/// What a cached message holds, as plain values.
pub struct CacheMessageView {
    pub id: u64,
    pub channel_id: u64,
    pub time: i64,
    pub data: Seq<u8>,
    pub nonce: Seq<char>,
}

impl View for CacheMessage {
    type V = CacheMessageView;

    open spec fn view(&self) -> CacheMessageView {
        CacheMessageView {
            id: self.id,
            channel_id: self.channel_id,
            time: self.time,
            data: self.data@,
            nonce: self.nonce@,
        }
    }
}

impl CacheEntry for CacheMessage {
    open spec fn message_id(&self) -> u64 {
        self.id
    }

    open spec fn channel(&self) -> u64 {
        self.channel_id
    }

    open spec fn timestamp(&self) -> i64 {
        self.time
    }

    fn id(&self) -> (id: u64) {
        self.id
    }

    fn channel_id(&self) -> (channel: u64) {
        self.channel_id
    }

    fn time(&self) -> (time: i64) {
        self.time
    }
}

/// A decrypted message.
pub struct CachedMessage {
    /// The id of the message.
    pub id: u64,
    /// The time of the message, in seconds.
    pub time: i64,
    /// The channel that the message was posted in.
    pub channel_id: u64,
    /// The text of the message.
    pub content: String,
}

/// What a decrypted message holds, as plain values.
pub struct CachedMessageView {
    pub id: u64,
    pub time: i64,
    pub channel_id: u64,
    pub content: Seq<char>,
}

impl View for CachedMessage {
    type V = CachedMessageView;

    open spec fn view(&self) -> CachedMessageView {
        CachedMessageView {
            id: self.id,
            time: self.time,
            channel_id: self.channel_id,
            content: self.content@,
        }
    }
}

/// The cached messages of all users, with the version of the layout.
pub struct MessageCacheData {
    /// The version of the layout.
    pub version: u16,
    /// For every user the cached messages, in insertion order.
    pub data: HashMap<u64, Vec<CacheMessage>>,
}

impl MessageCacheData {
    /// An empty cache.
    pub fn new() -> (cache: Self)
        ensures
            cache.version == CACHE_VERSION,
            cache.data@ == Map::<u64, Vec<CacheMessage>>::empty(),
    {
        MessageCacheData { version: CACHE_VERSION, data: HashMap::new() }
    }
}

/// Errors of the message cache.
#[derive(Debug)]
pub enum MessageCacheError {
    /// The cache could not be loaded.
    FailedToLoadCache,
    /// A message could not be encrypted.
    Encryption(String),
    /// A cached message could not be decrypted.
    Decryption(String),
    /// The cache could not be written down as a document.
    TomlConvertError,
    /// The document does not describe a cache.
    TomlParseError,
    /// The document could not be read.
    TomlReadError,
    /// The directory of the document could not be created.
    PathCreateError,
    /// The document could not be written.
    FileWriteError,
}

impl MessageCacheError {
    /// The message shown to the operator.
    pub fn to_string(&self) -> (text: String)
        ensures
            text@ == match *self {
                MessageCacheError::FailedToLoadCache => "Faled to load message cache!"@,
                MessageCacheError::Encryption(detail) => "An error occurred while encrypting: "@
                    + detail@,
                MessageCacheError::Decryption(detail) => "An error occurred while decrypting: "@
                    + detail@,
                MessageCacheError::TomlConvertError => "An error occurred while converting message data to toml"@,
                MessageCacheError::TomlParseError => "An error occurred while parsing toml"@,
                MessageCacheError::TomlReadError => "An error occurred while reading toml"@,
                MessageCacheError::PathCreateError => "An error occurred while creating path"@,
                MessageCacheError::FileWriteError => "An error occurred while writing file"@,
            },
    {
        match self {
            MessageCacheError::FailedToLoadCache => "Faled to load message cache!".to_owned(),
            MessageCacheError::Encryption(detail) => {
                "An error occurred while encrypting: ".to_owned().concat(detail.as_str())
            },
            MessageCacheError::Decryption(detail) => {
                "An error occurred while decrypting: ".to_owned().concat(detail.as_str())
            },
            MessageCacheError::TomlConvertError => {
                "An error occurred while converting message data to toml".to_owned()
            },
            MessageCacheError::TomlParseError => "An error occurred while parsing toml".to_owned(),
            MessageCacheError::TomlReadError => "An error occurred while reading toml".to_owned(),
            MessageCacheError::PathCreateError => {
                "An error occurred while creating path".to_owned()
            },
            MessageCacheError::FileWriteError => "An error occurred while writing file".to_owned(),
        }
    }
}

/// Whether `entry` stands for `message` with its text encrypted under the
/// key of `secret`.
pub open spec fn stands_for(entry: CacheMessage, message: Message, secret: Seq<char>) -> bool {
    &&& entry.id == message.id
    &&& entry.channel_id == message.channel_id
    &&& entry.time == message.timestamp
    &&& is_nonce(entry.nonce@)
    &&& entry.data@ == encrypted(message.content@, entry.nonce@, secret)
    &&& decrypted(entry.data@, entry.nonce@, secret) == Some(message.content@)
}

/// Whether every entry of `entries` decrypts under the key of `secret`.
pub open spec fn readable(entries: Seq<CacheMessage>, secret: Seq<char>) -> bool {
    forall|i: int|
        0 <= i < entries.len() ==> decrypted(
            (#[trigger] entries[i]).data@,
            entries[i].nonce@,
            secret,
        ) is Some
}

/// The entry `entry`, decrypted under the key of `secret`.
pub open spec fn plain(entry: CacheMessage, secret: Seq<char>) -> CachedMessageView {
    CachedMessageView {
        id: entry.id,
        time: entry.time,
        channel_id: entry.channel_id,
        content: decrypted(entry.data@, entry.nonce@, secret)->0,
    }
}

/// The entries `entries`, each decrypted under the key of `secret`.
pub open spec fn plain_history(entries: Seq<CacheMessage>, secret: Seq<char>) -> Seq<
    CachedMessageView,
> {
    entries.map_values(|entry: CacheMessage| plain(entry, secret))
}

/// The encrypted message cache.
pub struct UserMessageCache {
    /// The most messages that the cache keeps for one user.
    pub max_msgs: usize,
    /// The cached messages.
    pub messages: MessageCacheData,
}

impl UserMessageCache {
    /// The cached messages of `user`, in insertion order.
    pub open spec fn history(&self, user: u64) -> Seq<CacheMessage> {
        history(self.messages.data@, user)
    }

    /// Whether the cache holds no more than `max_msgs` messages of any user,
    /// and no message of a channel twice.
    pub open spec fn wf(&self) -> bool {
        forall|user: u64| well_kept(#[trigger] self.history(user), self.max_msgs as nat)
    }

    /// An empty cache that keeps 200 messages for each user.
    pub fn new() -> (cache: Self)
        ensures
            cache.max_msgs == DEFAULT_MAX_MSGS,
            cache.messages.version == CACHE_VERSION,
            cache.messages.data@ == Map::<u64, Vec<CacheMessage>>::empty(),
            cache.wf(),
    {
        UserMessageCache { max_msgs: DEFAULT_MAX_MSGS, messages: MessageCacheData::new() }
    }

    /// Caches `message` with the encrypted text `data` and its `nonce`: in
    /// the place of the author's entry for the same message of the same
    /// channel, or as the author's last entry. Then evicts the author's
    /// oldest entries, whatever their channels, until at most `max_msgs` are
    /// left.
    pub fn add_encrypted(&mut self, message: &Message, data: Vec<u8>, nonce: String)
        ensures
            final(self).max_msgs == old(self).max_msgs,
            final(self).messages.version == old(self).messages.version,
            final(self).messages.data@.dom() == old(self).messages.data@.dom().insert(
                message.author_id,
            ),
            final(self).history(message.author_id) == bounded(
                upserted(
                    old(self).history(message.author_id),
                    CacheMessage {
                        id: message.id,
                        channel_id: message.channel_id,
                        time: message.timestamp,
                        data,
                        nonce,
                    },
                ),
                old(self).max_msgs as nat,
            ),
            forall|other: u64|
                other != message.author_id ==> final(self).history(other) == old(self).history(
                    other,
                ),
            final(self).history(message.author_id).len() <= old(self).max_msgs,
            old(self).wf() ==> final(self).wf(),
    {
        let entry = CacheMessage {
            id: message.id,
            channel_id: message.channel_id,
            time: message.timestamp,
            data,
            nonce,
        };
        put(&mut self.messages.data, message.author_id, entry, self.max_msgs);
        proof {
            lemma_bounded_len(
                upserted(old(self).history(message.author_id), entry),
                old(self).max_msgs as nat,
            );
            if old(self).wf() {
                assert forall|user: u64|
                    well_kept(#[trigger] self.history(user), self.max_msgs as nat) by {
                    assert(well_kept(old(self).history(user), self.max_msgs as nat));
                    if user != message.author_id {
                        assert(self.history(user) == old(self).history(user));
                    } else {
                        lemma_put_well_kept(
                            old(self).history(user),
                            entry,
                            self.max_msgs as nat,
                        );
                    }
                }
            }
        }
    }

    /// Caches `message`, or its new text where it is cached already.
    ///
    /// A message that does not pass the admission filter is passed over in
    /// silence. The text is encrypted as it stands, URLs included, under a
    /// fresh nonce. A message that cannot be encrypted is not cached, and
    /// the error is returned.
    pub fn add_or_update_msg(&mut self, message: &Message, config: &Config) -> (result: Result<
        (),
        MessageCacheError,
    >)
        ensures
            final(self).max_msgs == old(self).max_msgs,
            final(self).messages.version == old(self).messages.version,
            old(self).wf() ==> final(self).wf(),
            !message.admitted() ==> result is Ok && *final(self) == *old(self),
            message.admitted() && encode_utf8(message.content@).len() > MAX_PLAINTEXT_BYTES ==> {
                &&& result matches Err(MessageCacheError::Encryption(_))
                &&& *final(self) == *old(self)
            },
            message.admitted() && encode_utf8(message.content@).len() <= MAX_PLAINTEXT_BYTES ==> {
                &&& result is Ok
                &&& final(self).messages.data@.dom() == old(self).messages.data@.dom().insert(
                    message.author_id,
                )
                &&& exists|entry: CacheMessage|
                    {
                        &&& #[trigger] stands_for(entry, *message, config.secret_key())
                        &&& final(self).history(message.author_id) == bounded(
                            upserted(old(self).history(message.author_id), entry),
                            old(self).max_msgs as nat,
                        )
                    }
                &&& forall|other: u64|
                    other != message.author_id ==> final(self).history(other) == old(
                        self,
                    ).history(other)
                &&& final(self).history(message.author_id).len() <= old(self).max_msgs
            },
    {
        if !message.is_admitted() {
            return Ok(());
        }
        match encrypt(message.content.as_str(), config) {
            Ok((data, nonce)) => {
                let ghost entry = CacheMessage {
                    id: message.id,
                    channel_id: message.channel_id,
                    time: message.timestamp,
                    data,
                    nonce,
                };
                self.add_encrypted(message, data, nonce);
                assert(stands_for(entry, *message, config.secret_key()));
                Ok(())
            },
            Err(error) => Err(MessageCacheError::Encryption(error.to_string())),
        }
    }

    /// Removes `message` from the cache, if it is there.
    pub fn remove_message(&mut self, message: &Message)
        ensures
            final(self).max_msgs == old(self).max_msgs,
            final(self).messages.version == old(self).messages.version,
            final(self).messages.data@.dom() == old(self).messages.data@.dom(),
            final(self).history(message.author_id) == without_message(
                old(self).history(message.author_id),
                message.channel_id,
                message.id,
            ),
            forall|other: u64|
                other != message.author_id ==> final(self).history(other) == old(self).history(
                    other,
                ),
            old(self).wf() ==> final(self).wf(),
    {
        self.remove_message_by_id(message.author_id, message.channel_id, message.id);
    }

    /// Removes message `message_id` of `channel_id` from the entries of
    /// `user_id`, if it is there.
    pub fn remove_message_by_id(&mut self, user_id: u64, channel_id: u64, message_id: u64)
        ensures
            final(self).max_msgs == old(self).max_msgs,
            final(self).messages.version == old(self).messages.version,
            final(self).messages.data@.dom() == old(self).messages.data@.dom(),
            final(self).history(user_id) == without_message(
                old(self).history(user_id),
                channel_id,
                message_id,
            ),
            forall|other: u64|
                other != user_id ==> final(self).history(other) == old(self).history(other),
            old(self).wf() ==> final(self).wf(),
    {
        take(&mut self.messages.data, user_id, channel_id, message_id);
        proof {
            if old(self).wf() {
                assert forall|user: u64|
                    well_kept(#[trigger] self.history(user), self.max_msgs as nat) by {
                    assert(well_kept(old(self).history(user), self.max_msgs as nat));
                    if user != user_id {
                        assert(self.history(user) == old(self).history(user));
                    } else {
                        lemma_without_well_kept(
                            old(self).history(user),
                            self.max_msgs as nat,
                            channel_id,
                            message_id,
                        );
                    }
                }
            }
        }
    }

    /// Removes the messages of `channel_id` from the entries of every user.
    pub fn remove_messages_in_channel(&mut self, channel_id: u64)
        ensures
            final(self).max_msgs == old(self).max_msgs,
            final(self).messages.version == old(self).messages.version,
            final(self).messages.data@.dom() == old(self).messages.data@.dom(),
            forall|user: u64|
                final(self).history(user) == without_channel(
                    #[trigger] old(self).history(user),
                    channel_id,
                ),
            old(self).wf() ==> final(self).wf(),
    {
        purge(&mut self.messages.data, channel_id);
        proof {
            if old(self).wf() {
                assert forall|user: u64|
                    well_kept(#[trigger] self.history(user), self.max_msgs as nat) by {
                    assert(well_kept(old(self).history(user), self.max_msgs as nat));
                    assert(self.history(user) == without_channel(
                        old(self).history(user),
                        channel_id,
                    ));
                    lemma_without_well_kept(
                        old(self).history(user),
                        self.max_msgs as nat,
                        channel_id,
                        0,
                    );
                }
            }
        }
    }

    /// The cached messages of `user_id`, still encrypted, in insertion
    /// order; `None` where the cache does not know the user.
    pub fn get_user_messages(&self, user_id: u64) -> (found: Option<Vec<&CacheMessage>>)
        ensures
            found is Some <==> self.messages.data@.contains_key(user_id),
            found matches Some(entries) ==> entries@.unref() == self.history(user_id),
    {
        entries_of(&self.messages.data, user_id)
    }

    /// The bucket of `user_id` and `channel_id`: the cached messages of the
    /// user in the channel, still encrypted, in insertion order.
    pub fn get_channel_messages(&self, user_id: u64, channel_id: u64) -> (found: Vec<
        &CacheMessage,
    >)
        ensures
            found@.unref() == bucket(self.history(user_id), channel_id),
    {
        bucket_of(&self.messages.data, user_id, channel_id)
    }

    /// The cached messages of `user_id`, still encrypted, gathered from all the
    /// user's channels, in insertion order; `None` where the cache does not
    /// know the user. No other user's messages are among them.
    pub fn get_user_messages_mut(&self, user_id: u64) -> (found: Option<Vec<&CacheMessage>>)
        ensures
            found is Some <==> self.messages.data@.contains_key(user_id),
            found matches Some(entries) ==> entries@.unref() == self.history(user_id),
    {
        entries_of(&self.messages.data, user_id)
    }

    /// The cached messages of `user_id`, decrypted, in insertion order; none
    /// where the cache does not know the user. Fails as a whole where one of
    /// the messages cannot be decrypted.
    pub fn decrypt_user_messages(&self, user_id: u64, config: &Config) -> (result: Result<
        Vec<CachedMessage>,
        MessageCacheError,
    >)
        ensures
            match result {
                Ok(messages) => {
                    &&& readable(self.history(user_id), config.secret_key())
                    &&& message_views(messages@) == plain_history(
                        self.history(user_id),
                        config.secret_key(),
                    )
                },
                Err(error) => {
                    &&& !readable(self.history(user_id), config.secret_key())
                    &&& error is Decryption
                },
            },
    {
        broadcast use vstd::std_specs::hash::group_hash_axioms;

        let ghost secret = config.secret_key();
        let mut messages: Vec<CachedMessage> = Vec::new();
        match self.messages.data.get(&user_id) {
            Some(entries) => {
                let mut i: usize = 0;
                while i < entries.len()
                    invariant
                        i <= entries@.len(),
                        entries@ == self.history(user_id),
                        secret == config.secret_key(),
                        readable(entries@.take(i as int), secret),
                        message_views(messages@) == plain_history(entries@.take(i as int), secret),
                    decreases entries@.len() - i,
                {
                    let entry = &entries[i];
                    match decrypt((&entry.data, &entry.nonce), config) {
                        Ok(content) => {
                            let message = CachedMessage {
                                id: entry.id,
                                time: entry.time,
                                channel_id: entry.channel_id,
                                content,
                            };
                            proof {
                                assert(entries@.take(i + 1) =~= entries@.take(i as int).push(
                                    *entry,
                                ));
                                assert(message@ == plain(*entry, secret));
                                assert(message_views(messages@.push(message)) =~= message_views(
                                    messages@,
                                ).push(message@));
                                assert(plain_history(entries@.take(i + 1), secret)
                                    =~= plain_history(entries@.take(i as int), secret).push(
                                    plain(*entry, secret),
                                ));
                                assert(message_views(messages@.push(message)) =~= plain_history(
                                    entries@.take(i + 1),
                                    secret,
                                ));
                            }
                            messages.push(message);
                        },
                        Err(error) => {
                            return Err(MessageCacheError::Decryption(error.to_string()));
                        },
                    }
                    i = i + 1;
                }
                assert(entries@.take(i as int) =~= entries@);
            },
            None => {
                assert(message_views(messages@) =~= plain_history(
                    self.history(user_id),
                    secret,
                ));
            },
        }
        Ok(messages)
    }

    /// The cached messages of `user_id`, each as its timestamp and its
    /// decrypted text, in insertion order; none where the cache does not
    /// know the user. Fails as a whole where one of the messages cannot be
    /// decrypted.
    pub fn query(&self, user_id: u64, config: &Config) -> (result: Result<
        Vec<(i64, String)>,
        MessageCacheError,
    >)
        ensures
            match result {
                Ok(found) => {
                    &&& readable(self.history(user_id), config.secret_key())
                    &&& text_views(found@) == texts(self.history(user_id), config.secret_key())
                },
                Err(error) => {
                    &&& !readable(self.history(user_id), config.secret_key())
                    &&& error is Decryption
                },
            },
    {
        match self.decrypt_user_messages(user_id, config) {
            Ok(messages) => {
                let ghost all = message_views(messages@);
                let mut found: Vec<(i64, String)> = Vec::new();
                for message in it: messages
                    invariant
                        all == message_views(it.seq()),
                        found@.len() == it.index(),
                        forall|k: int|
                            0 <= k < found@.len() ==> (#[trigger] found@[k]).0 == all[k].time
                                && found@[k].1@ == all[k].content,
                {
                    assert(all[it.index()] == message@);
                    found.push((message.time, message.content));
                }
                assert(text_views(found@) =~= texts(self.history(user_id), config.secret_key()));
                Ok(found)
            },
            Err(error) => Err(error),
        }
    }

    /// Puts a cache that was read from a document in the place of the
    /// cached messages, as a whole. Where reading failed, the error is
    /// returned and the cached messages stay as they are.
    pub fn load_cache(&mut self, loaded: Result<MessageCacheData, MessageCacheError>) -> (result:
        Result<(), MessageCacheError>)
        ensures
            final(self).max_msgs == old(self).max_msgs,
            match loaded {
                Ok(messages) => result is Ok && final(self).messages == messages,
                Err(error) => result == Err::<(), MessageCacheError>(error) && final(self).messages
                    == old(self).messages,
            },
    {
        match loaded {
            Ok(messages) => {
                self.messages = messages;
                Ok(())
            },
            Err(error) => Err(error),
        }
    }
}

/// What a vector of decrypted messages holds.
pub open spec fn message_views(messages: Seq<CachedMessage>) -> Seq<CachedMessageView> {
    messages.map_values(|message: CachedMessage| message@)
}

/// What a vector of timestamps and texts holds.
pub open spec fn text_views(found: Seq<(i64, String)>) -> Seq<(i64, Seq<char>)> {
    found.map_values(|pair: (i64, String)| (pair.0, pair.1@))
}

/// The timestamp and the decrypted text of each entry of `entries`.
pub open spec fn texts(entries: Seq<CacheMessage>, secret: Seq<char>) -> Seq<(i64, Seq<char>)> {
    entries.map_values(
        |entry: CacheMessage| (entry.time, decrypted(entry.data@, entry.nonce@, secret)->0),
    )
}

/// A message that was cached and not evicted is among what a query for its
/// author returns, with its text as it was: where `entry` decrypts to
/// `text`, is still held after the eviction that followed its caching, and
/// the author's other entries can be read, the timestamps and texts of the
/// author hold the entry's timestamp with `text`.
pub proof fn lemma_cached_message_is_returned(
    before: Seq<CacheMessage>,
    entry: CacheMessage,
    max_msgs: nat,
    secret: Seq<char>,
    text: Seq<char>,
)
    requires
        decrypted(entry.data@, entry.nonce@, secret) == Some(text),
        bounded(upserted(before, entry), max_msgs).contains(entry),
        readable(bounded(upserted(before, entry), max_msgs), secret),
    ensures
        texts(bounded(upserted(before, entry), max_msgs), secret).contains((entry.time, text)),
{
    let after = bounded(upserted(before, entry), max_msgs);
    let i = choose|i: int| 0 <= i < after.len() && after[i] == entry;
    assert(texts(after, secret)[i] == (entry.time, text));
}

} // verus!
