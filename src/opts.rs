//! Options of the command line, and the check made on the input path.

use vstd::prelude::*;

verus! {

/// The output path used when none is given.
pub const DEFAULT_OUTPUT: &'static str = "output.json";

/// The top-level options: one subcommand.
pub struct Opts {
    pub cmd: SubCommand,
}

/// The subcommands of the program.
pub enum SubCommand {
    /// Show a CSV file, or convert it to another format.
    Csv(CsvOpts),
}

/// Options of the `csv` subcommand.
pub struct CsvOpts {
    pub input: String,
    pub output: String,
    pub delimiter: char,
    pub header: bool,
}

impl CsvOpts {
    /// Options for `input` with every other option at its default:
    /// output to `output.json`, comma as delimiter, a header row present.
    pub fn with_defaults(input: String) -> (r: CsvOpts)
        ensures
            r.input@ == input@,
            r.output@ == DEFAULT_OUTPUT@,
            r.delimiter == ',',
            r.header,
    {
        CsvOpts { input, output: DEFAULT_OUTPUT.to_string(), delimiter: ',', header: true }
    }
}

/// Why an input path was refused.
#[derive(Clone, Copy, Debug, PartialEq, Eq, Structural)]
pub enum PathError {
    PathNotFound,
}

impl PathError {
    /// The message shown to the user.
    pub fn message(&self) -> (r: &'static str)
        ensures
            r@ == "File does not exist"@,
    {
        "File does not exist"
    }
}

/// Accepts `filename` when an entry exists at that path (`exists`, as the
/// file system answered), and hands it back unchanged.
pub fn verify_input_file(filename: &str, exists: bool) -> (r: Result<String, PathError>)
    ensures
        exists ==> (r matches Ok(s) && s@ == filename@),
        !exists ==> r == Err::<String, PathError>(PathError::PathNotFound),
{
    if exists {
        Ok(filename.to_string())
    } else {
        Err(PathError::PathNotFound)
    }
}

} // verus!
