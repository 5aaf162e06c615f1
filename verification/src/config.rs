//! Settling what is to be done.

use vstd::prelude::*;

verus! {

/// What was given on the command line.
#[derive(Debug)]
pub struct Arguments {
    pub jellyfin_url: String,
    pub jellyfin_api_key: String,
    pub watched_by: Vec<String>,
    pub protected_by: Vec<String>,
    pub interactive: bool,
    pub delete: bool,
    pub ignore_favorites: bool,
    pub min_days_watched_ago: Option<u32>,
}

/// What is to be done.
#[derive(Debug)]
pub struct Config {
    pub base_url: String,
    pub api_key: String,
    pub watched_by: Vec<String>,
    pub protected_by: Vec<String>,
    pub delete: bool,
    pub interactive: bool,
    pub ignore_favorites: bool,
    pub min_days_watched_ago: Option<u32>,
}

/// Why nothing can be done.
#[derive(Clone, Copy, Debug, PartialEq, Eq, Structural)]
pub enum ConfigError {
    NoUrl,
    NoApiKey,
    DeleteInteractively,
    ProtectorsIgnored,
}

/// The given text, or that of the environment where none is given.
pub open spec fn given_or(given: Seq<char>, environment: Option<Seq<char>>) -> Option<Seq<char>> {
    if given.len() > 0 {
        Some(given)
    } else {
        environment
    }
}

/// What is wrong with the arguments, the first thing first.
pub open spec fn objection(
    args: Arguments,
    url: Option<Seq<char>>,
    api_key: Option<Seq<char>>,
) -> Option<ConfigError> {
    if given_or(args.jellyfin_url@, url) is None {
        Some(ConfigError::NoUrl)
    } else if given_or(args.jellyfin_api_key@, api_key) is None {
        Some(ConfigError::NoApiKey)
    } else if args.delete && args.interactive {
        Some(ConfigError::DeleteInteractively)
    } else if args.ignore_favorites && args.protected_by@.len() > 0 {
        Some(ConfigError::ProtectorsIgnored)
    } else {
        None
    }
}

/// What is told of `error`.
pub open spec fn error_text(error: ConfigError) -> Seq<char> {
    match error {
        ConfigError::NoUrl =>
            "Error: No Jellyfin URL provided. Use --jellyfin-url or JELLYFIN_URL"@,
        ConfigError::NoApiKey =>
            "Error: No API key provided. Use --jellyfin-api-key or JELLYFIN_API_KEY"@,
        ConfigError::DeleteInteractively =>
            "Error: --delete-watched-but-not-favourited-yes-i-am-really-sure cannot be used with --interactive"@,
        ConfigError::ProtectorsIgnored =>
            "Error: --ignore-favorites cannot be used with --protected-by"@,
    }
}

impl ConfigError {
    /// What is told of the error.
    pub fn message(&self) -> (text: String)
        ensures
            text@ == error_text(*self),
    {
        match self {
            ConfigError::NoUrl =>
                "Error: No Jellyfin URL provided. Use --jellyfin-url or JELLYFIN_URL".to_owned(),
            ConfigError::NoApiKey =>
                "Error: No API key provided. Use --jellyfin-api-key or JELLYFIN_API_KEY".to_owned(),
            ConfigError::DeleteInteractively =>
                "Error: --delete-watched-but-not-favourited-yes-i-am-really-sure cannot be used with --interactive".to_owned(),
            ConfigError::ProtectorsIgnored =>
                "Error: --ignore-favorites cannot be used with --protected-by".to_owned(),
        }
    }
}

fn pick(given: String, environment: Option<String>) -> (text: Option<String>)
    ensures
        text.deep_view() == given_or(given@, environment.deep_view()),
{
    if given.as_str().is_empty() {
        environment
    } else {
        Some(given)
    }
}

/// Settles what is to be done. `url` and `api_key` are what the environment holds.
pub fn resolve_config(args: Arguments, url: Option<String>, api_key: Option<String>) -> (config:
    Result<Config, ConfigError>)
    ensures
        match objection(args, url.deep_view(), api_key.deep_view()) {
            Some(error) => config == Err::<Config, ConfigError>(error),
            None => config matches Ok(c) && {
                &&& Some(c.base_url@) == given_or(args.jellyfin_url@, url.deep_view())
                &&& Some(c.api_key@) == given_or(args.jellyfin_api_key@, api_key.deep_view())
                &&& c.watched_by == args.watched_by
                &&& c.protected_by == args.protected_by
                &&& c.delete == args.delete
                &&& c.interactive == args.interactive
                &&& c.ignore_favorites == args.ignore_favorites
                &&& c.min_days_watched_ago == args.min_days_watched_ago
            },
        },
{
    let base_url = match pick(args.jellyfin_url, url) {
        Some(base_url) => base_url,
        None => {
            return Err(ConfigError::NoUrl);
        },
    };
    let api_key = match pick(args.jellyfin_api_key, api_key) {
        Some(api_key) => api_key,
        None => {
            return Err(ConfigError::NoApiKey);
        },
    };
    if args.delete && args.interactive {
        return Err(ConfigError::DeleteInteractively);
    }
    if args.ignore_favorites && args.protected_by.len() > 0 {
        return Err(ConfigError::ProtectorsIgnored);
    }
    Ok(
        Config {
            base_url,
            api_key,
            watched_by: args.watched_by,
            protected_by: args.protected_by,
            delete: args.delete,
            interactive: args.interactive,
            ignore_favorites: args.ignore_favorites,
            min_days_watched_ago: args.min_days_watched_ago,
        },
    )
}

/// What is done with the items that may be deleted.
#[derive(Clone, Copy, Debug, PartialEq, Eq, Structural)]
pub enum Mode {
    /// They are deleted.
    Delete,
    /// The user picks what is deleted.
    Pick,
    /// They are listed, and nothing is deleted.
    Report,
}

/// What is done; nothing is deleted unless that was asked for.
pub open spec fn mode_of(delete: bool, interactive: bool) -> Mode {
    if delete {
        Mode::Delete
    } else if interactive {
        Mode::Pick
    } else {
        Mode::Report
    }
}

/// Who must have watched what is deleted, in words.
pub open spec fn watchers_text(watched_by: Seq<Seq<char>>) -> Seq<char> {
    if watched_by.len() == 0 {
        "all users"@
    } else {
        crate::text::joined(watched_by, ", "@)
    }
}

/// Whose favorites are kept, in words.
pub open spec fn protectors_text(protected_by: Seq<Seq<char>>, ignore_favorites: bool) -> Seq<char> {
    if ignore_favorites {
        "none (ignoring favorites)"@
    } else if protected_by.len() == 0 {
        "anyone"@
    } else {
        crate::text::joined(protected_by, ", "@)
    }
}

impl Config {
    /// What is done with the items that may be deleted.
    pub fn mode(&self) -> (mode: Mode)
        ensures
            mode == mode_of(self.delete, self.interactive),
    {
        if self.delete {
            Mode::Delete
        } else if self.interactive {
            Mode::Pick
        } else {
            Mode::Report
        }
    }

    /// Who must have watched what is deleted, in words.
    pub fn watchers(&self) -> (text: String)
        ensures
            text@ == watchers_text(self.watched_by.deep_view()),
    {
        if self.watched_by.len() == 0 {
            "all users".to_owned()
        } else {
            crate::text::join(&self.watched_by, ", ")
        }
    }

    /// Whose favorites are kept, in words.
    pub fn protectors(&self) -> (text: String)
        ensures
            text@ == protectors_text(self.protected_by.deep_view(), self.ignore_favorites),
    {
        if self.ignore_favorites {
            "none (ignoring favorites)".to_owned()
        } else if self.protected_by.len() == 0 {
            "anyone".to_owned()
        } else {
            crate::text::join(&self.protected_by, ", ")
        }
    }
}

} // verus!
