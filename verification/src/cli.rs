use vstd::prelude::*;

verus! {

/// Command-line surface of the converter: the source database path, the
/// destination file path, and an optional case-sensitive exact track-name
/// filter. Argument parsing itself happens outside the library; this type
/// only carries the parsed values.
pub struct Cli {
    pub sqlite_path: String,
    pub output_path: String,
    pub track_name: Option<String>,
}

} // verus!
