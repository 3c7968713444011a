//! Command-line options, as plain values. Parsing the real argument
//! vector is the surrounding program's concern.

use vstd::prelude::*;

verus! {

/// What the command line can set: log directives and the path of
/// the configuration file.
#[derive(Debug)]
pub struct Args {
    pub log: Option<String>,
    pub config_path: Option<String>,
}

} // verus!
