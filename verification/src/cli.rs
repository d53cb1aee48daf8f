//! The decisions of the command-line client: which server and token to use, what a saved
//! configuration becomes, and the checks made before a request is sent.

use crate::grpc_web::option_chars;
use vstd::prelude::*;
use vstd::string::*;

verus! {

/// The saved configuration: a server URL and an API token, each of which may be unset.
#[derive(Debug)]
pub struct Config {
    pub server: Option<String>,
    pub token: Option<String>,
}

impl Config {
    /// Nothing saved.
    pub fn new() -> (r: Config)
        ensures
            r.server is None,
            r.token is None,
    {
        Config { server: None, token: None }
    }

    /// Replaces the server and the token by the ones given; what is not given stays.
    pub fn update(&mut self, new_server: Option<String>, new_token: Option<String>)
        ensures
            final(self).server == (if new_server is Some {
                new_server
            } else {
                old(self).server
            }),
            final(self).token == (if new_token is Some {
                new_token
            } else {
                old(self).token
            }),
    {
        if let Some(s) = new_server {
            self.server = Some(s);
        }
        if let Some(t) = new_token {
            self.token = Some(t);
        }
    }
}

impl Default for Config {
    fn default() -> (r: Config)
        ensures
            r.server is None,
            r.token is None,
    {
        Config::new()
    }
}

/// The server to talk to: the saved one when there is one, else the one on the command
/// line (which has a default).
pub fn effective_server(config_server: Option<String>, cli_server: String) -> (r: String)
    ensures
        r == (match config_server {
            Some(s) => s,
            None => cli_server,
        }),
{
    match config_server {
        Some(s) => s,
        None => cli_server,
    }
}

/// The token to send: the one on the command line when there is one, else the saved one.
pub fn effective_token(cli_token: Option<String>, config_token: Option<String>) -> (r: Option<
    String,
>)
    ensures
        r == (if cli_token is Some {
            cli_token
        } else {
            config_token
        }),
{
    match cli_token {
        Some(t) => Some(t),
        None => config_token,
    }
}

/// What keeps a command from being sent.
#[derive(Debug)]
pub enum CommandError {
    /// The command needs an API token and none is set.
    TokenRequired,
    /// A rating outside 1 to 10.
    ScoreOutOfRange,
}

impl CommandError {
    /// The text that describes the error.
    pub open spec fn text(self) -> Seq<char> {
        match self {
            CommandError::TokenRequired => "API token required. Run: sakuin config --token <token>"@,
            CommandError::ScoreOutOfRange => "Score must be 1-10"@,
        }
    }

    /// The text that describes the error.
    pub fn message(&self) -> (r: String)
        ensures
            r@ == self.text(),
    {
        match self {
            CommandError::TokenRequired => String::from_str(
                "API token required. Run: sakuin config --token <token>",
            ),
            CommandError::ScoreOutOfRange => String::from_str("Score must be 1-10"),
        }
    }
}

/// The token, or an error when a command that needs one has none.
pub fn require_token(token: Option<String>) -> (r: Result<String, CommandError>)
    ensures
        token matches Some(t) ==> r == Ok::<String, CommandError>(t),
        token is None ==> r matches Err(CommandError::TokenRequired),
{
    match token {
        Some(t) => Ok(t),
        None => Err(CommandError::TokenRequired),
    }
}

/// Accepts a rating from 1 to 10.
pub fn check_score(score: i32) -> (r: Result<(), CommandError>)
    ensures
        1 <= score <= 10 ==> r is Ok,
        !(1 <= score <= 10) ==> r matches Err(CommandError::ScoreOutOfRange),
{
    if score < 1 || score > 10 {
        return Err(CommandError::ScoreOutOfRange);
    }
    Ok(())
}

/// The title shown for a manga: the English one, else the romanized one, else nothing.
pub fn display_title(title_english: Option<String>, title_romaji: Option<String>) -> (r: String)
    ensures
        r@ == (match (title_english, title_romaji) {
            (Some(e), _) => e@,
            (None, Some(t)) => t@,
            (None, None) => Seq::<char>::empty(),
        }),
{
    match title_english {
        Some(e) => e,
        None => match title_romaji {
            Some(t) => t,
            None => String::new(),
        },
    }
}

/// What follows an entry's status in a listing: the progress in brackets after a space,
/// or nothing.
pub fn progress_suffix(progress: &Option<String>) -> (r: String)
    ensures
        r@ == (match option_chars(*progress) {
            Some(p) => " ["@ + p + "]"@,
            None => Seq::<char>::empty(),
        }),
{
    match progress {
        Some(p) => {
            let mut s = String::from_str(" [");
            s.append(p.as_str());
            s.append("]");
            s
        },
        None => String::new(),
    }
}

} // verus!
