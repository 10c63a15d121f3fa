//! The command line: one positional argument, the path of the input file.

use vstd::prelude::*;

verus! {

/// `clap::Error`, carried from the parser to the functions that read it.
#[verifier::external_type_specification]
#[verifier::external_body]
pub struct ExClapError(clap::Error);

/// Arguments of a run.
#[derive(Clone, Debug, PartialEq, Eq)]
pub struct Args {
    /// CSV file to parse.
    pub file: String,
}

/// What to tell the user when no run follows from the command line.
#[derive(Clone, Debug, PartialEq, Eq)]
pub struct ArgsError {
    /// The text to print: a usage error, the help or the version.
    pub message: String,
    /// Whether the command line was wrong, as opposed to asking for help or
    /// for the version.
    pub failure: bool,
}

/// The file that clap finds on a command line, `None` where clap reports
/// an error or answers a request for help or for the version.
pub uninterp spec fn cli_file(args: Seq<Seq<char>>) -> Option<Seq<char>>;

/// Runs `clap::Command::try_get_matches_from` on a command with the one
/// required positional argument `file`, and hands out that argument.
/// Trusted: the outcome depends on the arguments alone, so it has a name.
#[verifier::external_body]
fn clap_file(args: &Vec<String>) -> (r: Result<String, clap::Error>)
    ensures
        match r {
            Ok(file) => cli_file(args.deep_view()) == Some(file@),
            Err(_) => cli_file(args.deep_view()) is None,
        },
{
    let file = clap::Arg::new("file")
        .help("CSV file to parse")
        .required(true)
        .value_parser(clap::builder::ValueParser::string());
    let matches = clap::Command::new("transactions")
        .version("0.1.0")
        .arg(file)
        .try_get_matches_from(args.iter())?;
    Ok(matches.get_one::<String>("file").cloned().unwrap_or_default())
}

/// Renders a `clap::Error` as clap prints it (`Display` of `clap::Error`).
/// Trusted; nothing is claimed of the text.
#[verifier::external_body]
fn clap_message(error: &clap::Error) -> String {
    error.to_string()
}

/// `clap::Error::use_stderr`: whether the error is a real one, which clap
/// prints to standard error. Trusted; nothing is claimed of the answer.
#[verifier::external_body]
fn clap_failure(error: &clap::Error) -> bool {
    error.use_stderr()
}

impl Args {
    pub fn new(file: String) -> (r: Self)
        ensures
            r.file == file,
    {
        Args { file }
    }
}

/// Reads the command line `args`, program name first.
///
/// Returns the arguments of the run exactly when clap finds the input file
/// on the command line, and otherwise the text that clap would print.
pub fn parse_args(args: Vec<String>) -> (r: Result<Args, ArgsError>)
    ensures
        match r {
            Ok(found) => cli_file(args.deep_view()) == Some(found.file@),
            Err(_) => cli_file(args.deep_view()) is None,
        },
{
    match clap_file(&args) {
        Ok(file) => Ok(Args::new(file)),
        Err(error) => Err(
            ArgsError { message: clap_message(&error), failure: clap_failure(&error) },
        ),
    }
}

} // verus!
