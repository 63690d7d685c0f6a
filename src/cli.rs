//! The decisions of the command-line front end: which options were given,
//! and where the targets start.
use vstd::prelude::*;
use vstd::string::StringExecFns;

verus! {

/// The options of the command-line front end.
#[derive(Debug)]
pub struct Flags {
    /// Keep at most one suggestion per target.
    pub single_suggestion: bool,
    /// Quote and escape each suggestion.
    pub quote_output: bool,
    /// Print a JSON object from each target to its suggestions.
    pub json: bool,
    /// Fail when some target has no suggestion.
    pub require_suggestions: bool,
}

/// No option set.
pub open spec fn no_flags() -> Flags {
    Flags { single_suggestion: false, quote_output: false, json: false, require_suggestions: false }
}

impl Default for Flags {
    fn default() -> (r: Flags)
        ensures
            r == no_flags(),
    {
        Flags { single_suggestion: false, quote_output: false, json: false, require_suggestions: false }
    }
}

/// What the arguments ask for.
#[derive(Debug)]
pub enum Command {
    /// Print the usage text and stop.
    Help,
    /// Rank suggestions, with these options, for each argument from index
    /// `first_target` on.
    Run { flags: Flags, first_target: usize },
}

/// Arguments that cannot be run.
#[derive(Debug)]
pub enum ArgError {
    /// The argument at `index` starts with `-` and is no known option.
    UnexpectedFlag { index: usize },
    /// No target follows the options.
    MissingTarget,
}

/// Whether `a` starts with a dash, and so is read as an option.
pub open spec fn is_option(a: Seq<char>) -> bool {
    a.len() > 0 && a[0] == '-'
}

/// The outcome of reading `args` from index `i` on, with options `f` set so far.
pub open spec fn parse_from(args: Seq<Seq<char>>, i: int, f: Flags) -> Result<Command, ArgError>
    decreases args.len() - i,
{
    if i < 0 || i >= args.len() {
        Err(ArgError::MissingTarget)
    } else {
        let a = args[i];
        if !is_option(a) {
            Ok(Command::Run { flags: f, first_target: i as usize })
        } else if a == "-s"@ || a == "--single"@ {
            parse_from(args, i + 1, Flags { single_suggestion: true, ..f })
        } else if a == "-q"@ || a == "--quote"@ {
            parse_from(args, i + 1, Flags { quote_output: true, ..f })
        } else if a == "--json"@ {
            parse_from(args, i + 1, Flags { json: true, ..f })
        } else if a == "--required"@ {
            parse_from(args, i + 1, Flags { require_suggestions: true, ..f })
        } else if a == "-h"@ || a == "--help"@ {
            Ok(Command::Help)
        } else if a == "--"@ {
            if i + 1 < args.len() {
                Ok(Command::Run { flags: f, first_target: (i + 1) as usize })
            } else {
                Err(ArgError::MissingTarget)
            }
        } else {
            Err(ArgError::UnexpectedFlag { index: i as usize })
        }
    }
}

/// Relies on str::starts_with with a char pattern: whether the first
/// character of `s` is `c`.
#[verifier::external_body]
fn starts_with_char(s: &str, c: char) -> (r: bool)
    ensures
        r == (s@.len() > 0 && s@[0] == c),
{
    s.starts_with(c)
}

fn is(a: &String, name: &str) -> (r: bool)
    ensures
        r == (a@ == name@),
{
    *a == String::from_str(name)
}

/// Read the command-line arguments (the program name left out): options
/// first, up to the first argument that does not start with `-` or just
/// past `--`; the targets after them.
pub fn parse_args(args: &[String]) -> (r: Result<Command, ArgError>)
    ensures
        r == parse_from(args@.map_values(|s: String| s@), 0, no_flags()),
{
    let ghost v = args@.map_values(|s: String| s@);
    let mut f = Flags::default();
    let mut i: usize = 0;
    while i < args.len()
        invariant
            i <= args@.len(),
            v == args@.map_values(|s: String| s@),
            parse_from(v, i as int, f) == parse_from(v, 0, no_flags()),
        decreases args@.len() - i,
    {
        let a = &args[i];
        assert(v[i as int] == a@);
        if !starts_with_char(a.as_str(), '-') {
            return Ok(Command::Run { flags: f, first_target: i });
        } else if is(a, "-s") || is(a, "--single") {
            f.single_suggestion = true;
        } else if is(a, "-q") || is(a, "--quote") {
            f.quote_output = true;
        } else if is(a, "--json") {
            f.json = true;
        } else if is(a, "--required") {
            f.require_suggestions = true;
        } else if is(a, "-h") || is(a, "--help") {
            return Ok(Command::Help);
        } else if is(a, "--") {
            if i + 1 < args.len() {
                return Ok(Command::Run { flags: f, first_target: i + 1 });
            } else {
                return Err(ArgError::MissingTarget);
            }
        } else {
            return Err(ArgError::UnexpectedFlag { index: i });
        }
        i = i + 1;
    }
    Err(ArgError::MissingTarget)
}

} // verus!
