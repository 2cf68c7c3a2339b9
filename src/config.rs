//! The run parameters, read from the command-line arguments.
use vstd::prelude::*;
use vstd::string::StrSliceExecFns;

verus! {

/// The parameters of one run, fixed once read.
pub struct Config {
    /// The literal text searched for; never empty.
    pub original: String,
    /// The literal text put in its place; may be empty.
    pub replacement: String,
    /// The root of the tree that is walked.
    pub path: String,
    /// Whether a line is printed for each rewritten file.
    pub verbose: bool,
}

/// Why the arguments do not make a run.
#[derive(Clone, Copy, Debug, PartialEq, Eq, Structural)]
pub enum ArgumentError {
    /// Fewer arguments than the original, the replacement and the path.
    MissingArgument,
    /// The text to search for is empty.
    EmptyOriginal,
}

/// `s` turns on verbose output: it is exactly `-v`.
pub open spec fn is_verbose_flag(s: Seq<char>) -> bool {
    s == seq!['-', 'v']
}

/// How many leading arguments are taken by the verbose flag: one or none.
pub open spec fn flag_count(args: Seq<String>) -> int {
    if args.len() > 0 && is_verbose_flag(args[0]@) {
        1
    } else {
        0
    }
}

impl Config {
    /// Reads `[-v] ORIGINAL REPLACEMENT PATH` from the arguments that follow
    /// the program's name. Arguments after the path are ignored.
    pub fn new(args: Vec<String>) -> (r: Result<Config, ArgumentError>)
        ensures
            ({
                let k = flag_count(args@);
                match r {
                    Ok(c) => {
                        &&& args@.len() >= 3 + k
                        &&& args@[k]@.len() > 0
                        &&& c.verbose == (k == 1)
                        &&& c.original@ == args@[k]@
                        &&& c.replacement@ == args@[k + 1]@
                        &&& c.path@ == args@[k + 2]@
                    },
                    Err(ArgumentError::MissingArgument) => args@.len() < 3 + k,
                    Err(ArgumentError::EmptyOriginal) => args@.len() >= 3 + k && args@[k]@.len()
                        == 0,
                }
            }),
    {
        let verbose = args.len() > 0 && is_flag(args[0].as_str());
        let k: usize = if verbose {
            1
        } else {
            0
        };
        if args.len() < 3 + k {
            return Err(ArgumentError::MissingArgument);
        }
        if args[k].as_str().is_empty() {
            return Err(ArgumentError::EmptyOriginal);
        }
        Ok(Config {
            original: args[k].clone(),
            replacement: args[k + 1].clone(),
            path: args[k + 2].clone(),
            verbose,
        })
    }
}

/// Whether `s` is exactly `-v`.
fn is_flag(s: &str) -> (r: bool)
    ensures
        r == is_verbose_flag(s@),
{
    let r = s.unicode_len() == 2 && s.get_char(0) == '-' && s.get_char(1) == 'v';
    if r {
        assert(s@ =~= seq!['-', 'v']);
    }
    r
}

} // verus!
