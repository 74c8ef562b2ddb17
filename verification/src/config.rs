//! The configuration of a search, and how it is derived from the argument
//! tokens of an invocation and a snapshot of the environment.

use crate::text::{contains, contains_seq, same_text};
use vstd::prelude::*;

verus! {

/// What one search needs to know: what to look for, where, and whether case
/// matters.
#[derive(Debug, Clone, PartialEq, Eq)]
pub struct Config {
    /// The text to look for.
    pub query: String,
    /// The path of the file to search.
    pub file_path: String,
    /// Whether the search disregards case.
    pub ignore_case: bool,
}

/// A `Config` as plain values.
pub struct ConfigView {
    /// The characters of the query.
    pub query: Seq<char>,
    /// The characters of the file path.
    pub file_path: Seq<char>,
    /// Whether the search disregards case.
    pub ignore_case: bool,
}

impl View for Config {
    type V = ConfigView;

    open spec fn view(&self) -> ConfigView {
        ConfigView {
            query: self.query@,
            file_path: self.file_path@,
            ignore_case: self.ignore_case,
        }
    }
}

/// A positional argument of an invocation.
#[derive(Debug, Clone, Copy, PartialEq, Eq, Structural)]
pub enum Argument {
    /// The text to look for: the first token after the program's name.
    Query,
    /// The path of the file to search: the second token after the program's name.
    FilePath,
}

/// Why a search could not be carried out.
#[derive(Debug, Clone, PartialEq, Eq)]
pub enum Error {
    /// The invocation lacks the argument named.
    MissingArgument(Argument),
    /// The file could not be read; the text says why.
    FileReadError(String),
}

/// The name of the environment variable whose presence makes a search
/// disregard case.
pub open spec fn ignore_case_variable() -> Seq<char> {
    "IGNORE_CASE"@
}

/// The long form of the flag that makes a search disregard case.
pub open spec fn long_flag() -> Seq<char> {
    "--ignore-case"@
}

/// The short form of the flag that makes a search disregard case.
pub open spec fn short_flag() -> Seq<char> {
    "-i"@
}

/// The environment `env`, a sequence of names with their values, holds a
/// variable called `name`. Its value plays no part.
pub open spec fn env_has(env: Seq<(Seq<char>, Seq<char>)>, name: Seq<char>) -> bool {
    exists|i: int| 0 <= i < env.len() && (#[trigger] env[i]).0 == name
}

/// `token` asks for a search that disregards case: one of the two forms of
/// the flag stands somewhere in it.
pub open spec fn is_ignore_case_flag(token: Seq<char>) -> bool {
    contains_seq(token, long_flag()) || contains_seq(token, short_flag())
}

/// One of the tokens that follow the program's name, the query and the file
/// path asks for a search that disregards case.
pub open spec fn has_ignore_case_flag(tokens: Seq<Seq<char>>) -> bool {
    exists|j: int| 3 <= j < tokens.len() && is_ignore_case_flag(#[trigger] tokens[j])
}

/// Tells whether `env` holds a variable called `name`.
fn env_holds(env: &[(String, String)], name: &str) -> (held: bool)
    ensures
        held == env_has(env.deep_view(), name@),
{
    let mut i: usize = 0;
    while i < env.len()
        invariant
            i <= env.len(),
            forall|k: int| 0 <= k < i ==> (#[trigger] env.deep_view()[k]).0 != name@,
        decreases env.len() - i,
    {
        if same_text(env[i].0.as_str(), name) {
            assert(env.deep_view()[i as int].0 == name@);
            return true;
        }
        i += 1;
    }
    false
}

/// Tells whether a token after the first three asks for a search that
/// disregards case.
fn flag_given(tokens: &[String]) -> (given: bool)
    ensures
        given == has_ignore_case_flag(tokens.deep_view()),
{
    let mut j: usize = 3;
    while j < tokens.len()
        invariant
            3 <= j,
            forall|k: int|
                3 <= k < j && k < tokens.len() ==> !is_ignore_case_flag(
                    #[trigger] tokens.deep_view()[k],
                ),
        decreases tokens.len() - j,
    {
        let token = tokens[j].as_str();
        if contains(token, "--ignore-case") || contains(token, "-i") {
            assert(is_ignore_case_flag(tokens.deep_view()[j as int]));
            return true;
        }
        j += 1;
    }
    false
}

impl Config {
    /// Derives the configuration of a search from the argument tokens of an
    /// invocation and from the environment.
    ///
    /// The first token is the program's name and plays no part. The second is
    /// the query and the third the file path; where one of them is absent, the
    /// error names it. The search disregards case where `env` holds a variable
    /// called `IGNORE_CASE`, whatever its value, or where a later token holds
    /// `--ignore-case` or `-i` anywhere in it.
    pub fn build(args: &[String], env: &[(String, String)]) -> (built: Result<Config, Error>)
        ensures
            args.len() < 2 ==> built == Err::<Config, Error>(
                Error::MissingArgument(Argument::Query),
            ),
            args.len() == 2 ==> built == Err::<Config, Error>(
                Error::MissingArgument(Argument::FilePath),
            ),
            args.len() >= 3 ==> built is Ok && built->Ok_0@ == (ConfigView {
                query: args[1]@,
                file_path: args[2]@,
                ignore_case: env_has(env.deep_view(), ignore_case_variable())
                    || has_ignore_case_flag(args.deep_view()),
            }),
    {
        if args.len() < 2 {
            return Err(Error::MissingArgument(Argument::Query));
        }
        if args.len() < 3 {
            return Err(Error::MissingArgument(Argument::FilePath));
        }
        let query = args[1].clone();
        let file_path = args[2].clone();
        let ignore_case = env_holds(env, "IGNORE_CASE") || flag_given(args);
        Ok(Config { query, file_path, ignore_case })
    }
}

impl Error {
    /// What `message` says of this error.
    pub open spec fn message_spec(&self) -> Seq<char> {
        match self {
            Error::MissingArgument(Argument::Query) => "Please provide a search query"@,
            Error::MissingArgument(Argument::FilePath) => "Please provide a file path"@,
            Error::FileReadError(cause) => cause@,
        }
    }

    /// Says in words what went wrong: which argument is missing, or why the
    /// file could not be read.
    pub fn message(&self) -> (text: String)
        ensures
            text@ == self.message_spec(),
    {
        match self {
            Error::MissingArgument(Argument::Query) => "Please provide a search query".to_owned(),
            Error::MissingArgument(Argument::FilePath) => "Please provide a file path".to_owned(),
            Error::FileReadError(cause) => cause.clone(),
        }
    }
}

} // verus!
