//! Command-line surface as plain data: the parsed invocation, free of any
//! argument-parsing machinery. The binary front end parses the real command
//! line and hands over one of these values.

use vstd::prelude::*;

verus! {

/// One parsed invocation.
pub struct Cli {
    pub command: Commands,
}

/// The operations the tool offers, with their parsed arguments.
pub enum Commands {
    /// Compress files or directories into a new archive.
    Compress { input: String, output: String, password: Option<String> },
    /// Extract an archive's contents.
    Extract { archive: String, password: Option<String>, output: Option<String> },
    /// List an archive's contents without extracting them.
    List { archive: String, password: Option<String> },
    /// Update an existing archive by adding, removing, or replacing files.
    Update {
        archive: String,
        add: Option<String>,
        remove: Option<String>,
        replace: Option<String>,
        password: Option<String>,
    },
    /// Verify an archive's integrity.
    Verify { archive: String, password: Option<String>, deep: bool, json: bool },
}

} // verus!
