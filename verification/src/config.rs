//! The configuration resolver: a query, a file path and a case-sensitivity
//! flag, drawn from the positional arguments of one invocation.

use vstd::prelude::*;

verus! {

/// Why a configuration could not be built from the arguments.
#[derive(Debug, Clone, Copy, PartialEq, Eq, Structural)]
pub enum ArgumentError {
    /// No query argument was supplied.
    MissingQuery,
    /// No file-path argument was supplied.
    MissingFilePath,
}

/// The resolved inputs of one search invocation, immutable once built.
pub struct Config {
    /// The substring to look for in each line.
    pub query: String,
    /// The path of the file whose lines are searched.
    pub file_path: String,
    /// Whether matching ignores letter case.
    pub ignore_case: bool,
}

impl Config {
    /// Builds a configuration from the argument list of one invocation,
    /// whose first element is the program name, and from the
    /// case-insensitivity flag the caller read at startup. Performs no
    /// input or output.
    pub fn build(args: &Vec<String>, ignore_case: bool) -> (r: Result<Config, ArgumentError>)
        ensures
            args@.len() < 2 ==> r == Result::<Config, ArgumentError>::Err(
                ArgumentError::MissingQuery,
            ),
            args@.len() == 2 ==> r == Result::<Config, ArgumentError>::Err(
                ArgumentError::MissingFilePath,
            ),
            args@.len() >= 3 ==> (r matches Ok(c) && c.query@ == args@[1]@ && c.file_path@
                == args@[2]@ && c.ignore_case == ignore_case),
    {
        if args.len() < 2 {
            return Err(ArgumentError::MissingQuery);
        }
        if args.len() < 3 {
            return Err(ArgumentError::MissingFilePath);
        }
        let query = args[1].clone();
        let file_path = args[2].clone();
        Ok(Config { query, file_path, ignore_case })
    }
}

} // verus!
