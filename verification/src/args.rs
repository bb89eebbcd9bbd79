//! Command-line argument resolution.
//!
//! Parsing the process arguments belongs to the caller; this module
//! holds the decisions: which invocations show usage or help, and how
//! the positional file and the repeated file flags combine.

use vstd::prelude::*;

verus! {

/// The parsed command-line arguments.
#[derive(Debug, Clone)]
pub struct Args {
    /// Point cloud file to visualize.
    pub file: Option<String>,
    /// Additional point cloud files.
    pub files: Vec<String>,
    /// Whether detailed help was requested.
    pub detailed_help: bool,
}

/// What an invocation asks for.
#[derive(Debug)]
pub enum ParseResult {
    /// Show the short usage text.
    ShowUsage,
    /// Show the detailed help text.
    ShowDetailedHelp,
    /// Load these files and run.
    LoadFiles(Vec<String>),
}

/// The files named by the arguments: the positional file first, then
/// the repeated flags.
pub open spec fn all_files_spec(args: Args) -> Seq<String> {
    match args.file {
        Some(f) => seq![f] + args.files@,
        None => args.files@,
    }
}

/// Decides an invocation before flag parsing: a bare invocation shows
/// usage; a lone help flag shows the detailed help; anything else is
/// left for the flag parser.
pub fn precheck_invocation(arg_count: usize, lone_help_flag: bool) -> (r: Option<ParseResult>)
    ensures
        arg_count <= 1 ==> r matches Some(ParseResult::ShowUsage),
        arg_count == 2 && lone_help_flag ==> r matches Some(ParseResult::ShowDetailedHelp),
        arg_count >= 2 && !(arg_count == 2 && lone_help_flag) ==> r is None,
    {
    if arg_count <= 1 {
        return Some(ParseResult::ShowUsage);
    }
    if arg_count == 2 && lone_help_flag {
        return Some(ParseResult::ShowDetailedHelp);
    }
    None
}

/// Combines the parsed arguments into a load list: the positional file
/// first, then the flag files; usage is shown when none were given.
pub fn resolve_files(args: Args) -> (r: ParseResult)
    ensures
        all_files_spec(args).len() == 0 ==> (r matches ParseResult::ShowUsage),
        all_files_spec(args).len() > 0 ==> (r matches ParseResult::LoadFiles(fs) && fs@
            == all_files_spec(args)),
{
    let ghost spec_files = all_files_spec(args);
    let mut all_files: Vec<String> = Vec::new();
    match args.file {
        Some(f) => {
            all_files.push(f);
        },
        None => {},
    }
    let mut files: Vec<String> = args.files;
    let ghost head = all_files@;
    let ghost files0 = files@;
    while files.len() > 0
        invariant
            all_files@ + files@ == head + files0,
        decreases files@.len(),
    {
        let f: String = files.remove(0);
        all_files.push(f);
        proof {
            assert(all_files@ + files@ =~= head + files0);
        }
    }
    proof {
        assert(all_files@ =~= head + files0);
        assert(all_files@ =~= spec_files);
    }
    if all_files.len() == 0 {
        ParseResult::ShowUsage
    } else {
        ParseResult::LoadFiles(all_files)
    }
}

} // verus!
