//! The decisions of the command line: how many arguments it takes, what it
//! says on wrong use, and how it words a failure.
use vstd::prelude::*;

verus! {

/// Whether the arguments, the program's own path first, name exactly an
/// input file and an output file.
pub fn args_validate(args: &Vec<String>) -> (r: Result<(), ()>)
    ensures
        r is Ok <==> args@.len() == 3,
{
    if args.len() != 3 {
        Err(())
    } else {
        Ok(())
    }
}

/// The usage line, for a program called `program_name` and the platform's
/// path separator `separator`.
pub fn usage_message(separator: &str, program_name: &str) -> (r: String)
    ensures
        r@ == "Usage: ."@ + separator@ + program_name@ + " <input_file> <output_file>"@,
{
    let mut out = String::from_str("Usage: .");
    out.append(separator);
    out.append(program_name);
    out.append(" <input_file> <output_file>");
    out
}

/// A step of a run that can fail on the file system.
#[derive(Debug, Clone, Copy, PartialEq, Eq)]
pub enum Failure {
    /// The input file could not be opened.
    Open,
    /// The input file's metadata could not be read.
    Metadata,
    /// A line of the input could not be read.
    Scan,
    /// The output file could not be written.
    Write,
}

/// The words that open the message of a failure.
pub open spec fn failure_prefix(f: Failure) -> Seq<char> {
    match f {
        Failure::Open => "Failed to open file: "@,
        Failure::Metadata => "Failed to process file metadata: "@,
        Failure::Scan => "Failed to process file contents: "@,
        Failure::Write => "Error writing to file: "@,
    }
}

impl Failure {
    /// The message of this failure, with the cause's own words after it.
    pub fn message(&self, detail: &str) -> (r: String)
        ensures
            r@ == failure_prefix(*self) + detail@,
    {
        let prefix = match self {
            Failure::Open => "Failed to open file: ",
            Failure::Metadata => "Failed to process file metadata: ",
            Failure::Scan => "Failed to process file contents: ",
            Failure::Write => "Error writing to file: ",
        };
        let mut out = String::from_str(prefix);
        out.append(detail);
        out
    }
}

} // verus!
