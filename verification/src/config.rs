//! Configuration values of the bot.

use vstd::prelude::*;

verus! {

/// Errors that can occur with a config file.
#[derive(Debug)]
pub enum ConfigError {
    /// The config file could not be read.
    ConfigReadError,
    /// The config file could not be parsed.
    ConfigParseError,
}

impl ConfigError {
    /// The message shown to the operator.
    pub fn to_string(&self) -> (text: String)
        ensures
            text@ == match *self {
                ConfigError::ConfigReadError => "Could not read config file"@,
                ConfigError::ConfigParseError => "Could not parse config file"@,
            },
    {
        match self {
            ConfigError::ConfigReadError => "Could not read config file".to_owned(),
            ConfigError::ConfigParseError => "Could not parse config file".to_owned(),
        }
    }
}

/// A collection of configuration values.
pub struct Config {
    /// Login token for the chat service.
    token: String,
    /// Command prefixes.
    prefixes: Vec<String>,
    /// The guild in which commands are registered during development.
    dev_guild_id: Option<u64>,
    /// The operator's secret, from which the cache's key is derived.
    secret_key: String,
}

impl Config {
    /// The login token, as a sequence of characters.
    pub closed spec fn token(&self) -> Seq<char> {
        self.token@
    }

    /// The command prefixes.
    pub closed spec fn prefixes(&self) -> Seq<String> {
        self.prefixes@
    }

    /// The development guild, if one is configured.
    pub closed spec fn dev_guild_id(&self) -> Option<u64> {
        self.dev_guild_id
    }

    /// The operator's secret, as a sequence of characters.
    pub closed spec fn secret_key(&self) -> Seq<char> {
        self.secret_key@
    }

    /// Builds a configuration from its four values.
    pub fn new(
        token: String,
        prefixes: Vec<String>,
        dev_guild_id: Option<u64>,
        secret_key: String,
    ) -> (config: Self)
        ensures
            config.token() == token@,
            config.prefixes() == prefixes@,
            config.dev_guild_id() == dev_guild_id,
            config.secret_key() == secret_key@,
    {
        Config { token, prefixes, dev_guild_id, secret_key }
    }

    /// Returns the value of `token`.
    pub fn get_token(&self) -> (token: &String)
        ensures
            token@ == self.token(),
    {
        &self.token
    }

    /// Returns the list of default prefixes.
    pub fn get_prefixes(&self) -> (prefixes: &Vec<String>)
        ensures
            prefixes@ == self.prefixes(),
    {
        &self.prefixes
    }

    /// Returns the development guild id, if any.
    pub fn get_dev_guild_id(&self) -> (id: &Option<u64>)
        ensures
            *id == self.dev_guild_id(),
    {
        &self.dev_guild_id
    }

    /// Returns the operator's secret.
    pub fn get_secret_key(&self) -> (secret: &String)
        ensures
            secret@ == self.secret_key(),
    {
        &self.secret_key
    }
}

} // verus!
