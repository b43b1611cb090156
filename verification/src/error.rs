use vstd::prelude::*;
use vstd::string::*;

verus! {

/// Why a request could not be served.
#[derive(Clone, Copy, Debug, PartialEq, Eq, Structural)]
pub enum HopError {
    /// No name was given and the path has no final segment to take one from.
    Name,
    /// Nothing matches what was to be removed, located or recalled.
    NotFound,
    /// The name is neither a shortcut nor found in the history.
    UnknownTarget,
    /// The saved state cannot be read.
    Io,
}

/// The text that tells a user of an error.
pub open spec fn message_of(e: HopError) -> Seq<char> {
    match e {
        HopError::Name => "[error] Unable to disambiguate file/directory."@,
        HopError::NotFound => "[error] Nothing matches the request."@,
        HopError::UnknownTarget => "[error] Unable to find a shortcut or a visited location of that name."@,
        HopError::Io => "[error] Unable to read the saved state."@,
    }
}

impl HopError {
    /// The text that tells a user of this error.
    pub fn message(&self) -> (r: String)
        ensures
            r@ == message_of(*self),
    {
        match self {
            HopError::Name => "[error] Unable to disambiguate file/directory.".to_owned(),
            HopError::NotFound => "[error] Nothing matches the request.".to_owned(),
            HopError::UnknownTarget => "[error] Unable to find a shortcut or a visited location of that name.".to_owned(),
            HopError::Io => "[error] Unable to read the saved state.".to_owned(),
        }
    }
}

} // verus!
