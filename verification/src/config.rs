//! What a run is asked to do, and how a run can fail.

use vstd::prelude::*;

verus! {

/// Why a run ends before it prints a line.
#[derive(Debug, Clone, Copy, PartialEq, Eq, Structural)]
pub enum GrepError {
    /// The argument list holds no query or no file path.
    InsufficientArguments,
    /// The file is missing, cannot be read, or is not UTF-8 text.
    FileReadError,
}

impl GrepError {
    /// The wording of this error.
    pub open spec fn spec_message(self) -> Seq<char> {
        match self {
            GrepError::InsufficientArguments => "not enough arguments"@,
            GrepError::FileReadError => "could not read the file"@,
        }
    }

    /// The error in words, for a diagnostic line.
    pub fn message(&self) -> (words: &'static str)
        ensures
            words@ == self.spec_message(),
    {
        match self {
            GrepError::InsufficientArguments => "not enough arguments",
            GrepError::FileReadError => "could not read the file",
        }
    }
}

/// What to search for, where, and whether letter case counts.
#[derive(Debug)]
pub struct Config {
    pub query: String,
    pub file_path: String,
    pub ignore_case: bool,
}

/// A `Config` as plain values.
pub struct ConfigView {
    pub query: Seq<char>,
    pub file_path: Seq<char>,
    pub ignore_case: bool,
}

impl View for Config {
    type V = ConfigView;

    open spec fn view(&self) -> ConfigView {
        ConfigView {
            query: self.query@,
            file_path: self.file_path@,
            ignore_case: self.ignore_case,
        }
    }
}

impl Config {
    /// Makes the configuration of a run from the program's argument list,
    /// which starts with the program's own name, and from whether letter
    /// case is to be ignored. The second argument becomes the query and the
    /// third the file path; later arguments are not read. A list too short
    /// to hold both is refused.
    pub fn build(args: &[String], ignore_case: bool) -> (built: Result<Config, GrepError>)
        ensures
            match built {
                Ok(config) => args@.len() >= 3 && config@ == (ConfigView {
                    query: args@[1]@,
                    file_path: args@[2]@,
                    ignore_case,
                }),
                Err(error) => args@.len() < 3 && error == GrepError::InsufficientArguments,
            },
    {
        if args.len() < 3 {
            return Err(GrepError::InsufficientArguments);
        }
        let query = args[1].clone();
        let file_path = args[2].clone();
        Ok(Config { query, file_path, ignore_case })
    }
}

} // verus!
