//! The configuration of one search, built from the arguments of the program
//! and from its environment.

use vstd::prelude::*;
use crate::search::same_text;

verus! {

/// What to search for, where, and how.
#[derive(Debug, PartialEq, Eq)]
pub struct Config {
    /// The text to look for. It may be empty: every line holds the empty text.
    pub query: String,
    /// The path of the file to search.
    pub filename: String,
    /// Whether capital and small letters count as the same.
    pub case_insensitive: bool,
}

/// A `Config` as the contracts see it.
pub struct ConfigView {
    pub query: Seq<char>,
    pub filename: Seq<char>,
    pub case_insensitive: bool,
}

impl View for Config {
    type V = ConfigView;

    open spec fn view(&self) -> ConfigView {
        ConfigView {
            query: self.query@,
            filename: self.filename@,
            case_insensitive: self.case_insensitive,
        }
    }
}

/// Why the arguments give no configuration.
#[derive(Debug, Clone, Copy, PartialEq, Eq, Structural)]
pub enum ConfigError {
    /// No argument follows the program's name.
    MissingQuery,
    /// No argument follows the query.
    MissingFilename,
    /// The argument after the file name is not the flag that is known.
    UnrecognizedArgument,
}

/// The flag that asks for a search without regard to case.
pub open spec fn ignore_case_flag() -> Seq<char> {
    "-i"@
}

/// The name of the environment variable that asks for the same when it is
/// set, whatever its value.
pub open spec fn ignore_case_variable() -> Seq<char> {
    "CASE_INSENSITIVE"@
}

/// Whether the environment, a list of names with their values, holds `name`.
pub open spec fn is_set(env: Seq<(Seq<char>, Seq<char>)>, name: Seq<char>) -> bool {
    exists|i: int| 0 <= i < env.len() && (#[trigger] env[i]).0 == name
}

/// The configuration that the arguments and the environment stand for. The
/// first argument is the name under which the program was called, the second
/// the query, the third the file name; a fourth must be the flag; any
/// further ones are not looked at. The search ignores case if the flag is
/// given or the variable is set.
pub open spec fn parse(args: Seq<Seq<char>>, env: Seq<(Seq<char>, Seq<char>)>) -> Result<
    ConfigView,
    ConfigError,
> {
    if args.len() < 2 {
        Err(ConfigError::MissingQuery)
    } else if args.len() < 3 {
        Err(ConfigError::MissingFilename)
    } else if args.len() > 3 && args[3] != ignore_case_flag() {
        Err(ConfigError::UnrecognizedArgument)
    } else {
        Ok(
            ConfigView {
                query: args[1],
                filename: args[2],
                case_insensitive: args.len() > 3 || is_set(env, ignore_case_variable()),
            },
        )
    }
}

/// Without a query there is no configuration, whatever else is given.
pub proof fn lemma_missing_query(args: Seq<Seq<char>>, env: Seq<(Seq<char>, Seq<char>)>)
    requires
        args.len() < 2,
    ensures
        parse(args, env) == Err::<ConfigView, ConfigError>(ConfigError::MissingQuery),
{
}

/// With a query and a file name and nothing after them, the variable alone
/// makes the search ignore case, whatever its value and wherever it stands
/// in the environment.
pub proof fn lemma_variable_forces_ignoring_case(
    args: Seq<Seq<char>>,
    env: Seq<(Seq<char>, Seq<char>)>,
    at: int,
)
    requires
        args.len() == 3,
        0 <= at < env.len(),
        env[at].0 == ignore_case_variable(),
    ensures
        parse(args, env) == Ok::<ConfigView, ConfigError>(
            ConfigView { query: args[1], filename: args[2], case_insensitive: true },
        ),
{
}

/// A result of `Config::new` as the contracts see it.
pub open spec fn outcome(built: Result<Config, ConfigError>) -> Result<ConfigView, ConfigError> {
    match built {
        Ok(config) => Ok(config@),
        Err(error) => Err(error),
    }
}

/// Whether `env` holds a variable of the given name.
pub fn lookup(env: &[(String, String)], name: &str) -> (found: bool)
    ensures
        found == is_set(env.deep_view(), name@),
{
    let mut i: usize = 0;
    while i < env.len()
        invariant
            i <= env.len(),
            forall|k: int| 0 <= k < i ==> (#[trigger] env.deep_view()[k]).0 != name@,
        decreases env.len() - i,
    {
        if same_text(env[i].0.as_str(), name) {
            assert(env.deep_view()[i as int].0 == name@);
            return true;
        }
        i += 1;
    }
    false
}

impl ConfigError {
    /// The reason in words, as it is shown to the user.
    pub fn message(&self) -> (text: &'static str)
        ensures
            text@ == self.reason(),
    {
        match self {
            ConfigError::MissingQuery => "Missing query string",
            ConfigError::MissingFilename => "Missing file name",
            ConfigError::UnrecognizedArgument => "Unknown argument given!",
        }
    }

    /// The words of `message`.
    pub open spec fn reason(&self) -> Seq<char> {
        match self {
            ConfigError::MissingQuery => "Missing query string"@,
            ConfigError::MissingFilename => "Missing file name"@,
            ConfigError::UnrecognizedArgument => "Unknown argument given!"@,
        }
    }
}

impl Config {
    /// Builds the configuration from the arguments of the program, the
    /// program's name first, and from its environment.
    pub fn new(args: &[String], env: &[(String, String)]) -> (built: Result<Config, ConfigError>)
        ensures
            outcome(built) == parse(args.deep_view(), env.deep_view()),
    {
        if args.len() < 2 {
            return Err(ConfigError::MissingQuery);
        }
        if args.len() < 3 {
            return Err(ConfigError::MissingFilename);
        }
        let flag_given: bool = args.len() > 3;
        if flag_given && !same_text(args[3].as_str(), "-i") {
            return Err(ConfigError::UnrecognizedArgument);
        }
        let case_insensitive: bool = flag_given || lookup(env, "CASE_INSENSITIVE");
        Ok(Config { query: args[1].clone(), filename: args[2].clone(), case_insensitive })
    }
}

} // verus!
