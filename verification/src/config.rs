//! The configuration parser: turn a raw argument list (program name first)
//! into a validated search configuration, or a structured failure.
//!
//! Option flags (`-i`/`--insensitive`, `-h`/`--help`) are recognized anywhere
//! in the argument portion; the last two tokens of the list are always taken
//! positionally as the query and the file name, in that order.

use vstd::prelude::*;
use vstd::string::StrSliceExecFns;
use vstd::string::StringExecFns;

verus! {

/// A validated invocation: what to search for, where, and how.
pub struct Config {
    pub query: String,
    pub filename: String,
    pub case_sensitive: bool,
}

/// Why an argument list was rejected. `HelpRequested` is not a true error: it
/// carries the usage text to display, after which no search is run.
#[derive(Debug)]
pub enum ParseError {
    InsufficientArguments,
    HelpRequested(String),
    InvalidPositionalArgument,
    MalformedOptions,
}

/// Whether getopts, with the switches `-i`/`--insensitive` and `-h`/`--help`
/// defined, parses these option tokens (the argument list without the program
/// name) without error.
pub uninterp spec fn getopts_accepts(opt_tokens: Seq<Seq<char>>) -> bool;

/// Whether the switch with this short name occurred among these option tokens,
/// as getopts reports it.
pub uninterp spec fn getopts_flag(opt_tokens: Seq<Seq<char>>, short_name: char) -> bool;

/// The usage text that getopts renders for this program name and the two
/// defined switches.
pub uninterp spec fn usage_of(program_name: Seq<char>) -> Seq<char>;

/// The first line of the usage text.
pub open spec fn usage_brief(program_name: Seq<char>) -> Seq<char> {
    "Usage: "@ + program_name + " [options] QUERY FILENAME"@
}

/// The text begins with the prefix.
pub open spec fn begins_with(text: Seq<char>, prefix: Seq<char>) -> bool {
    text.len() >= prefix.len() && text.subrange(0, prefix.len() as int) == prefix
}

/// Relies on getopts 0.2: `Options::optflag` defines the boolean switches
/// `-i`/`--insensitive` and `-h`/`--help`; `Options::parse` returns `Err`
/// exactly on unrecognized or malformed option tokens; `Matches::opt_present`
/// reports whether a defined switch occurred. All three are deterministic in
/// the argument tokens.
#[verifier::external_body]
fn scan_options(args: &[String]) -> (r: Option<(bool, bool)>)
    requires
        args@.len() >= 1,
    ensures
        r is Some <==> getopts_accepts(args.deep_view().skip(1)),
        r matches Some(f) ==> f.0 == getopts_flag(args.deep_view().skip(1), 'h') && f.1
            == getopts_flag(args.deep_view().skip(1), 'i'),
{
    let mut opts = getopts::Options::new();
    opts.optflag("i", "insensitive", "set insensitive mode");
    opts.optflag("h", "help", "print this help menu");
    match opts.parse(&args[1..]) {
        Ok(m) => Some((m.opt_present("h"), m.opt_present("i"))),
        Err(_) => None,
    }
}

/// Relies on getopts 0.2: `Options::usage` renders the usage text from the
/// brief line and the defined switches, deterministic in the program name;
/// the rendered text begins with the brief line verbatim.
#[verifier::external_body]
fn usage_message(program_name: &str) -> (r: String)
    ensures
        r@ == usage_of(program_name@),
        begins_with(r@, usage_brief(program_name@)),
{
    let mut opts = getopts::Options::new();
    opts.optflag("i", "insensitive", "set insensitive mode");
    opts.optflag("h", "help", "print this help menu");
    let brief = format!("Usage: {} [options] QUERY FILENAME", program_name);
    opts.usage(&brief)
}

/// The token begins with the option-prefix character.
pub open spec fn starts_with_dash(s: Seq<char>) -> bool {
    s.len() > 0 && s[0] == '-'
}

fn begins_with_dash(s: &str) -> (b: bool)
    ensures
        b == starts_with_dash(s@),
{
    if s.unicode_len() == 0 {
        false
    } else {
        s.get_char(0) == '-'
    }
}

/// What `parse_config` returns for an argument list, token by token: too few
/// tokens are rejected first; then option tokens that getopts refuses; then a
/// help request wins over everything else; then a positional tail that begins
/// with the option prefix is rejected; what remains is a configuration built
/// from the last two tokens, case-sensitive exactly when the insensitivity
/// switch is absent.
pub open spec fn parse_spec(args: Seq<Seq<char>>, r: Result<Config, ParseError>) -> bool {
    if args.len() < 3 {
        r == Err::<Config, ParseError>(ParseError::InsufficientArguments)
    } else if !getopts_accepts(args.skip(1)) {
        r == Err::<Config, ParseError>(ParseError::MalformedOptions)
    } else if getopts_flag(args.skip(1), 'h') {
        &&& r matches Err(ParseError::HelpRequested(u))
        &&& u@ == usage_of(args[0])
        &&& begins_with(u@, usage_brief(args[0]))
    } else if starts_with_dash(args[args.len() - 1]) || starts_with_dash(args[args.len() - 2]) {
        r == Err::<Config, ParseError>(ParseError::InvalidPositionalArgument)
    } else {
        &&& r matches Ok(c)
        &&& c.query@ == args[args.len() - 2]
        &&& c.filename@ == args[args.len() - 1]
        &&& c.case_sensitive == !getopts_flag(args.skip(1), 'i')
    }
}

/// Parse a raw argument list, program name first, into a configuration.
pub fn parse_config(args: &[String]) -> (r: Result<Config, ParseError>)
    ensures
        parse_spec(args.deep_view(), r),
{
    if args.len() < 3 {
        return Err(ParseError::InsufficientArguments);
    }
    match scan_options(args) {
        None => Err(ParseError::MalformedOptions),
        Some((help, insensitive)) => {
            if help {
                let usage = usage_message(args[0].as_str());
                return Err(ParseError::HelpRequested(usage));
            }
            let filename = &args[args.len() - 1];
            if begins_with_dash(filename.as_str()) {
                return Err(ParseError::InvalidPositionalArgument);
            }
            let query = &args[args.len() - 2];
            if begins_with_dash(query.as_str()) {
                return Err(ParseError::InvalidPositionalArgument);
            }
            Ok(
                Config {
                    query: query.clone(),
                    filename: filename.clone(),
                    case_sensitive: !insensitive,
                },
            )
        },
    }
}

impl ParseError {
    /// A one-line description of the failure, as a command-line front end
    /// prints it. For a help request it is the usage text itself.
    pub fn message(&self) -> (r: String)
        ensures
            self is InsufficientArguments ==> r@ == "not enough arguments"@,
            self is MalformedOptions ==> r@ == "unrecognized or malformed option"@,
            self is InvalidPositionalArgument ==> r@
                == "arguments should be [options] QUERY FILENAME"@,
            self matches ParseError::HelpRequested(u) ==> r@ == u@,
    {
        match self {
            ParseError::InsufficientArguments => String::from_str("not enough arguments"),
            ParseError::MalformedOptions => String::from_str("unrecognized or malformed option"),
            ParseError::InvalidPositionalArgument => String::from_str(
                "arguments should be [options] QUERY FILENAME",
            ),
            ParseError::HelpRequested(u) => u.clone(),
        }
    }
}

} // verus!
