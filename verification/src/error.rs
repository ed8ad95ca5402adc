//! The errors the library reports, with the text each one is shown as.
use vstd::prelude::*;

verus! {

/// Why an operation of the library refused its input.
#[derive(Debug, Clone, PartialEq, Eq)]
pub enum Error {
    /// The text is not of the form `Group:Title`.
    InvalidKey(String),
    /// `save_path` is set but holds nothing but whitespace.
    EmptySavePath,
    /// A path starts with `~/` and no home directory is known.
    NoHomeDir,
    /// The path exists but is something other than a file.
    NotAFile(String),
    /// The path could not be resolved on disk, for the given reason.
    CouldNotResolve { path: String, reason: String },
}

/// The text shown for `e`.
pub open spec fn message_text(e: Error) -> Seq<char> {
    match e {
        Error::InvalidKey(s) => "`"@ + s@ + "` is not a valid path, expected `Group:Title`"@,
        Error::EmptySavePath => "`save_path` is empty, remove it to use the default"@,
        Error::NoHomeDir => "Could not find your home directory"@,
        Error::NotAFile(p) => p@ + " is not a file"@,
        Error::CouldNotResolve { path, reason } => "Could not resolve "@ + path@ + ": "@
            + reason@,
    }
}

/// A result that carries text, taken by the view of that text.
pub open spec fn text_result(r: Result<String, Error>) -> Result<Seq<char>, Error> {
    match r {
        Ok(s) => Ok(s@),
        Err(e) => Err(e),
    }
}

impl Error {
    /// The text shown for this error.
    pub fn message(&self) -> (r: String)
        ensures
            r@ == message_text(*self),
    {
        match self {
            Error::InvalidKey(s) => String::from_str("`").concat(s.as_str()).concat(
                "` is not a valid path, expected `Group:Title`",
            ),
            Error::EmptySavePath => String::from_str(
                "`save_path` is empty, remove it to use the default",
            ),
            Error::NoHomeDir => String::from_str("Could not find your home directory"),
            Error::NotAFile(p) => p.clone().concat(" is not a file"),
            Error::CouldNotResolve { path, reason } => String::from_str(
                "Could not resolve ",
            ).concat(path.as_str()).concat(": ").concat(reason.as_str()),
        }
    }
}

} // verus!
