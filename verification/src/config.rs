//! The CLI configuration (`url` and `token`) and the rules of the `config`
//! command: which keys can be set and read, and how a token is shown.
use vstd::prelude::*;
use vstd::string::StringSliceAdditionalSpecFns;
use vstd::utf8::{decode_utf8, encode_utf8, encode_utf8_decode_utf8, is_char_boundary};
use crate::json::str_eq;
use crate::text::{push_str, string_of};

verus! {

/// The stored configuration.
pub struct Config {
    pub url: Option<String>,
    pub token: Option<String>,
}

/// What went wrong with a configuration request.
pub enum ConfigError {
    /// The API URL has not been set.
    MissingUrl,
    /// The API token has not been set.
    MissingToken,
    /// `config set` with a key other than `url` or `token`.
    UnknownSetKey(String),
    /// `config get` with a key other than `url` or `token`.
    UnknownGetKey(String),
}

/// A `config` subcommand.
pub enum ConfigAction {
    /// Set a config value.
    SetValue { key: String, value: String },
    /// Get a config value.
    Get { key: String },
    /// Show the full config.
    Show,
}

/// What a `config` subcommand asks the caller to do once it has been applied.
pub enum ConfigOutcome {
    /// The configuration changed: save it and report `Set {key}`.
    Saved { key: String },
    /// Print this line, or nothing.
    Print(Option<String>),
    /// Print the whole configuration.
    ShowAll,
}

/// The text of an error.
pub open spec fn error_text(e: ConfigError) -> Seq<char> {
    match e {
        ConfigError::MissingUrl => "URL not configured. Run: basemark config set url <url>"@,
        ConfigError::MissingToken => "Token not configured. Run: basemark config set token <token>"@,
        ConfigError::UnknownSetKey(k) => "Unknown key: "@ + k@ + ". Valid: url, token"@,
        ConfigError::UnknownGetKey(k) => "Unknown key: "@ + k@,
    }
}

impl ConfigError {
    /// The message shown for this error.
    pub fn message(&self) -> (m: String)
        ensures
            m@ == error_text(*self),
    {
        let mut v: Vec<char> = Vec::new();
        match self {
            ConfigError::MissingUrl => push_str(
                &mut v,
                "URL not configured. Run: basemark config set url <url>",
            ),
            ConfigError::MissingToken => push_str(
                &mut v,
                "Token not configured. Run: basemark config set token <token>",
            ),
            ConfigError::UnknownSetKey(k) => {
                push_str(&mut v, "Unknown key: ");
                push_str(&mut v, k.as_str());
                push_str(&mut v, ". Valid: url, token");
            },
            ConfigError::UnknownGetKey(k) => {
                push_str(&mut v, "Unknown key: ");
                push_str(&mut v, k.as_str());
            },
        }
        proof {
            reveal_strlit("");
        }
        assert(v@ =~= error_text(*self));
        string_of(&v)
    }
}

/// The shown part of a token: its first 11 bytes when it is longer than
/// that, else all of it.
pub open spec fn token_shown(t: Seq<char>) -> Seq<char> {
    if encode_utf8(t).len() > 11 {
        decode_utf8(encode_utf8(t).subrange(0, 11))
    } else {
        t
    }
}

/// A token can be shown without cutting a character in two.
pub open spec fn token_showable(t: Seq<char>) -> bool {
    encode_utf8(t).len() > 11 ==> is_char_boundary(encode_utf8(t), 11)
}

/// What `config get token` prints for the token `t`.
pub open spec fn token_preview(t: Seq<char>) -> Seq<char> {
    token_shown(t) + "..."@
}

/// The token shortened for display: at most its first 11 bytes, then `...`.
pub fn preview_token(t: &str) -> (p: String)
    requires
        token_showable(t@),
    ensures
        p@ == token_preview(t@),
{
    let byte_len = t.as_bytes().len();
    let shown: &str = if byte_len > 11 {
        let (head, _) = t.split_at(11);
        proof {
            encode_utf8_decode_utf8(head@);
        }
        assert(head.spec_bytes() == encode_utf8(head@));
        assert(head@ == token_shown(t@));
        head
    } else {
        t
    };
    assert(shown@ == token_shown(t@));
    let mut v: Vec<char> = crate::text::chars_of(shown);
    push_str(&mut v, "...");
    string_of(&v)
}

/// Whether `key` is the name `name`.
fn key_is(key: &String, name: &str) -> (r: bool)
    ensures
        r == (key@ == name@),
{
    str_eq(key.as_str(), name)
}

/// The state that `config set key value` leaves, or `None` for an unknown key.
pub open spec fn set_result(c: Config, key: Seq<char>, value: String) -> Option<Config> {
    if key == "url"@ {
        Some(Config { url: Some(value), ..c })
    } else if key == "token"@ {
        Some(Config { token: Some(value), ..c })
    } else {
        None
    }
}

/// What `config get key` prints, or `None` for an unknown key.
pub open spec fn get_result(c: Config, key: Seq<char>) -> Option<Option<Seq<char>>> {
    if key == "url"@ {
        Some(
            Some(
                match c.url {
                    Some(u) => u@,
                    None => seq![],
                },
            ),
        )
    } else if key == "token"@ {
        Some(
            match c.token {
                Some(t) => Some(token_preview(t@)),
                None => None,
            },
        )
    } else {
        None
    }
}

/// A `config get` of the token on this configuration shows it without
/// cutting a character.
pub open spec fn get_allowed(c: Config, key: Seq<char>) -> bool {
    key == "token"@ ==> (c.token matches Some(t) ==> token_showable(t@))
}

impl Config {
    /// The configured API URL.
    pub fn url(&self) -> (r: Result<&str, ConfigError>)
        ensures
            match (self.url, r) {
                (Some(u), Ok(s)) => s@ == u@,
                (None, Err(ConfigError::MissingUrl)) => true,
                _ => false,
            },
    {
        match &self.url {
            Some(u) => Ok(u.as_str()),
            None => Err(ConfigError::MissingUrl),
        }
    }

    /// The configured API token.
    pub fn token(&self) -> (r: Result<&str, ConfigError>)
        ensures
            match (self.token, r) {
                (Some(t), Ok(s)) => s@ == t@,
                (None, Err(ConfigError::MissingToken)) => true,
                _ => false,
            },
    {
        match &self.token {
            Some(t) => Ok(t.as_str()),
            None => Err(ConfigError::MissingToken),
        }
    }

    /// `config set key value`: sets `url` or `token`; any other key is refused
    /// and leaves the configuration unchanged.
    pub fn set(&mut self, key: String, value: String) -> (r: Result<(), ConfigError>)
        ensures
            match set_result(*old(self), key@, value) {
                Some(c) => r is Ok && *final(self) == c,
                None => *final(self) == *old(self) && (r matches Err(
                    ConfigError::UnknownSetKey(k),
                ) && k == key),
            },
    {
        if key_is(&key, "url") {
            self.url = Some(value);
            Ok(())
        } else if key_is(&key, "token") {
            self.token = Some(value);
            Ok(())
        } else {
            Err(ConfigError::UnknownSetKey(key))
        }
    }

    /// `config get key`: the line to print (`None`: print nothing), or an
    /// error for an unknown key.
    pub fn get(&self, key: String) -> (r: Result<Option<String>, ConfigError>)
        requires
            get_allowed(*self, key@),
        ensures
            match get_result(*self, key@) {
                Some(Some(line)) => r matches Ok(Some(s)) && s@ == line,
                Some(None) => r matches Ok(None),
                None => r matches Err(ConfigError::UnknownGetKey(k)) && k == key,
            },
    {
        if key_is(&key, "url") {
            let line = match &self.url {
                Some(u) => u.clone(),
                None => "".to_owned(),
            };
            proof {
                reveal_strlit("");
            }
            Ok(Some(line))
        } else if key_is(&key, "token") {
            match &self.token {
                Some(t) => Ok(Some(preview_token(t.as_str()))),
                None => Ok(None),
            }
        } else {
            Err(ConfigError::UnknownGetKey(key))
        }
    }

    /// Applies a `config` subcommand.
    pub fn apply(&mut self, action: ConfigAction) -> (r: Result<ConfigOutcome, ConfigError>)
        requires
            action matches ConfigAction::Get { key } ==> get_allowed(*old(self), key@),
        ensures
            match action {
                ConfigAction::SetValue { key, value } => match set_result(*old(self), key@, value) {
                    Some(c) => *final(self) == c && (r matches Ok(ConfigOutcome::Saved { key: k })
                        && k == key),
                    None => *final(self) == *old(self) && (r matches Err(
                        ConfigError::UnknownSetKey(k),
                    ) && k == key),
                },
                ConfigAction::Get { key } => *final(self) == *old(self) && match get_result(
                    *old(self),
                    key@,
                ) {
                    Some(Some(line)) => r matches Ok(ConfigOutcome::Print(Some(s))) && s@ == line,
                    Some(None) => r matches Ok(ConfigOutcome::Print(None)),
                    None => r matches Err(ConfigError::UnknownGetKey(k)) && k == key,
                },
                ConfigAction::Show => *final(self) == *old(self) && r matches Ok(
                    ConfigOutcome::ShowAll,
                ),
            },
    {
        match action {
            ConfigAction::SetValue { key, value } => {
                let shown = key.clone();
                match self.set(key, value) {
                    Ok(()) => Ok(ConfigOutcome::Saved { key: shown }),
                    Err(e) => Err(e),
                }
            },
            ConfigAction::Get { key } => match self.get(key) {
                Ok(line) => Ok(ConfigOutcome::Print(line)),
                Err(e) => Err(e),
            },
            ConfigAction::Show => Ok(ConfigOutcome::ShowAll),
        }
    }
}

/// Law: after `config set url v`, the configured URL is `v`.
pub proof fn lemma_set_then_url(c: Config, value: String)
    ensures
        set_result(c, "url"@, value) matches Some(c2) && c2.url == Some(value),
{
}

/// Law: after `config set token v`, the configured token is `v`, and the URL
/// is unchanged.
pub proof fn lemma_set_then_token(c: Config, value: String)
    ensures
        set_result(c, "token"@, value) matches Some(c2) && c2.token == Some(value) && c2.url
            == c.url,
{
    reveal_strlit("token");
    reveal_strlit("url");
    assert("token"@[0] != "url"@[0]);
}

/// Law: after `config set url v`, `config get url` prints `v`.
pub proof fn lemma_set_then_get_url(c: Config, value: String)
    ensures
        set_result(c, "url"@, value) matches Some(c2) && get_result(c2, "url"@) == Some(
            Some(value@),
        ),
{
}

/// Law: `config set` changes only the value of its key: setting the URL
/// keeps the token (and so what `config get token` prints), setting the token
/// keeps the URL (and what `config get url` prints), and any other key is
/// refused.
pub proof fn lemma_set_changes_only_its_key(c: Config, key: Seq<char>, value: String)
    ensures
        key == "url"@ ==> (set_result(c, key, value) matches Some(c2) && c2.url == Some(value)
            && c2.token == c.token && get_result(c2, "token"@) == get_result(c, "token"@)),
        key == "token"@ ==> (set_result(c, key, value) matches Some(c2) && c2.token == Some(
            value,
        ) && c2.url == c.url && get_result(c2, "url"@) == get_result(c, "url"@)),
        key != "url"@ && key != "token"@ ==> set_result(c, key, value) is None,
{
    reveal_strlit("token");
    reveal_strlit("url");
    assert("token"@[0] != "url"@[0]);
}

} // verus!
