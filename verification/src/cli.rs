//! The command-line surface as plain data: what the user asked for, freed
//! of the argument-parsing machinery, which lives with the program around
//! the library and converts into these types.

use vstd::prelude::*;

verus! {

/// Which search backend a player session queries.
#[derive(Clone, Copy, PartialEq, Eq, Structural, Debug)]
pub enum PlayerAPI {
    Video,
    Music,
}

/// The action named on the command line.
#[derive(Clone, Debug)]
pub enum AppActionCli {
    /// Download from the url, or from a query answered interactively.
    Download { query: Option<String>, url: Option<String> },
    /// Play the given file or url.
    Player { file: Option<String>, url: Option<String>, api: Option<PlayerAPI>, midi: bool },
    /// Fetch the transcript of the queried video.
    Transcript { query: Option<String>, url: Option<String>, summarize: Option<bool> },
}

/// Everything given on the command line, as plain values. Paths are held
/// as strings; the program around the library converts from its parsed
/// arguments.
#[derive(Clone, Debug)]
pub struct Cli {
    pub libs_path: Option<String>,
    pub output_path: Option<String>,
    pub command: Option<AppActionCli>,
}

} // verus!
