//! From the arguments of a run and its environment to a configuration.
//!
//! The arguments are the words of the command line, the name of the program first.
//! The environment is asked one question: whether the variable named by
//! [`CASE_INSENSITIVE_KEY`] is set. Its presence alone switches letter case off,
//! whatever its value, the empty string included.

use vstd::prelude::*;

verus! {

/// The name of the environment variable whose presence makes a search ignore letter case.
pub const CASE_INSENSITIVE_KEY: &'static str = "CASE_INSENSITIVE";

/// What a run was asked to do.
#[derive(Debug)]
pub struct Config {
    /// The text to look for.
    pub query: String,
    /// The name of the file to look in.
    pub filename: String,
    /// Whether letter case counts in the comparison.
    pub case_sensitive: bool,
}

/// A configuration as plain values.
pub struct ConfigView {
    pub query: Seq<char>,
    pub filename: Seq<char>,
    pub case_sensitive: bool,
}

impl View for Config {
    type V = ConfigView;

    open spec fn view(&self) -> ConfigView {
        ConfigView {
            query: self.query@,
            filename: self.filename@,
            case_sensitive: self.case_sensitive,
        }
    }
}

/// The arguments did not name both a query and a file.
#[derive(Debug, Clone, Copy, PartialEq, Eq, Structural)]
pub struct MissingArgument;

/// The words of [`MissingArgument::message`].
pub open spec fn missing_argument_text() -> Seq<char> {
    "Sufficient arguments were not passed"@
}

impl MissingArgument {
    /// What to tell the user.
    pub fn message(&self) -> (text: &'static str)
        ensures
            text@ == missing_argument_text(),
    {
        "Sufficient arguments were not passed"
    }
}

/// Whether `resolved` is what `args` and the answer of the environment come to.
///
/// With fewer than three arguments there is no configuration. With three or more, the
/// query is the second argument and the file name the third, further arguments do not
/// count, and letter case counts exactly when the variable is not set.
pub open spec fn is_resolution(
    resolved: Result<Config, MissingArgument>,
    args: Seq<String>,
    variable_set: bool,
) -> bool {
    match resolved {
        Ok(config) => args.len() >= 3 && config@ == (ConfigView {
            query: args[1]@,
            filename: args[2]@,
            case_sensitive: !variable_set,
        }),
        Err(_) => args.len() < 3,
    }
}

impl Config {
    /// The configuration that `args` ask for, where `found` is what the environment holds
    /// under [`CASE_INSENSITIVE_KEY`]: `None` when the variable is not set.
    pub fn resolve(args: &[String], found: Option<String>) -> (resolved: Result<
        Config,
        MissingArgument,
    >)
        ensures
            is_resolution(resolved, args@, found is Some),
    {
        if args.len() < 3 {
            return Err(MissingArgument);
        }
        let query = args[1].clone();
        let filename = args[2].clone();
        let case_sensitive = found.is_none();
        Ok(Config { query, filename, case_sensitive })
    }

    /// The configuration that `args` ask for in the environment that `lookup` gives
    /// access to.
    ///
    /// `lookup` is asked for [`CASE_INSENSITIVE_KEY`], once, and only if the arguments
    /// suffice; a variable that it does not find is one that is not set.
    pub fn new<F>(args: &[String], lookup: F) -> (resolved: Result<Config, MissingArgument>) where
        F: Fn(&str) -> Option<String>,

        requires
            args@.len() >= 3 ==> call_requires(lookup, (CASE_INSENSITIVE_KEY,)),
        ensures
            args@.len() < 3 ==> resolved is Err,
            args@.len() >= 3 ==> exists|found: Option<String>|
                call_ensures(lookup, (CASE_INSENSITIVE_KEY,), found) && is_resolution(
                    resolved,
                    args@,
                    found is Some,
                ),
    {
        if args.len() < 3 {
            return Err(MissingArgument);
        }
        let found = lookup(CASE_INSENSITIVE_KEY);
        Config::resolve(args, found)
    }
}

} // verus!
