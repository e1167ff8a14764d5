//! The command surface: the `search` subcommand and the errors of a run.
use vstd::prelude::*;

verus! {

#[verifier::external_type_specification]
#[verifier::external_body]
pub struct ExIoError(std::io::Error);

/// The one subcommand: `search <dir> <extensions...>`.
pub const SEARCH_SUBCOMMAND: &'static str = "search";

/// Reported when no subcommand, or another one than `search`, was given.
pub const INVALID_SUBCOMMAND: &'static str = "Invalid subcommand";

/// Reported when `search` was given no root directory.
pub const MISSING_DIRECTORY: &'static str = "The root directory is required";

/// Reported when `search` was given no extension.
pub const MISSING_EXTENSIONS: &'static str = "At least one extension is required";

/// What can end a run without a scan.
#[derive(Debug)]
pub enum CliError {
    IoError(std::io::Error),
    ValidationError(String),
}

impl From<std::io::Error> for CliError {
    fn from(io_error: std::io::Error) -> (r: Self)
        ensures
            r == CliError::IoError(io_error),
    {
        CliError::IoError(io_error)
    }
}

impl vstd::std_specs::convert::FromSpecImpl<std::io::Error> for CliError {
    open spec fn obeys_from_spec() -> bool {
        true
    }

    open spec fn from_spec(v: std::io::Error) -> Self {
        CliError::IoError(v)
    }
}

/// A validated `search` invocation: where to start, and what to look for.
pub struct SearchRequest {
    pub root_dir: String,
    pub extensions: Vec<String>,
}

/// Whether the subcommand given is `search`.
pub open spec fn is_search(subcommand: Option<String>) -> bool {
    subcommand matches Some(s) && s@ == SEARCH_SUBCOMMAND@
}

/// Whether `r` is a validation error that says `message`.
pub open spec fn is_validation_error(r: Result<SearchRequest, CliError>, message: &str) -> bool {
    r matches Err(CliError::ValidationError(m)) && m@ == message@
}

/// Checks the values the argument parser read: the subcommand's name, the
/// root directory and the requested extensions.
pub fn search_request(
    subcommand: Option<String>,
    dir: Option<String>,
    extensions: Vec<String>,
) -> (r: Result<SearchRequest, CliError>)
    ensures
        !is_search(subcommand) ==> is_validation_error(r, INVALID_SUBCOMMAND),
        is_search(subcommand) && dir is None ==> is_validation_error(r, MISSING_DIRECTORY),
        is_search(subcommand) && dir is Some && extensions@.len() == 0 ==> is_validation_error(
            r,
            MISSING_EXTENSIONS,
        ),
        r is Ok <==> (is_search(subcommand) && dir is Some && extensions@.len() > 0),
        r matches Ok(req) ==> dir == Some(req.root_dir) && req.extensions == extensions,
{
    let search = SEARCH_SUBCOMMAND.to_owned();
    let wanted = match &subcommand {
        Some(s) => *s == search,
        None => false,
    };
    if !wanted {
        return Err(CliError::ValidationError(INVALID_SUBCOMMAND.to_owned()));
    }
    match dir {
        None => Err(CliError::ValidationError(MISSING_DIRECTORY.to_owned())),
        Some(root_dir) => {
            if extensions.len() == 0 {
                Err(CliError::ValidationError(MISSING_EXTENSIONS.to_owned()))
            } else {
                Ok(SearchRequest { root_dir, extensions })
            }
        },
    }
}

} // verus!
