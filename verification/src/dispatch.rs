//! The dispatcher's decision: what one invocation does, given the located
//! configuration (if any) and the requested subcommand name.

use vstd::prelude::*;
use crate::config::{lookup_spec, KdConfig};

verus! {

/// The names that ask for the help text instead of a subcommand.
pub open spec fn is_help_name(s: Seq<char>) -> bool {
    s == "-h"@ || s == "--help"@ || s == "help"@
}

/// Whether the first argument asks for help.
pub fn is_help_trigger(s: &String) -> (r: bool)
    ensures
        r == is_help_name(s@),
{
    let a = String::from_str("-h");
    let b = String::from_str("--help");
    let c = String::from_str("help");
    *s == a || *s == b || *s == c
}

/// What the invocation does next. Printing and spawning themselves happen at
/// the edge; this is the decision.
#[derive(Debug, Clone, PartialEq, Eq)]
pub enum DispatchAction {
    /// Print usage, and the sorted subcommand listing when a configuration
    /// was found; exit 0.
    ShowHelp,
    /// No configuration anywhere up the tree: print the first-run guidance
    /// message; exit 1.
    ReportNoConfig,
    /// A configuration was found but lacks the requested name: say so; exit
    /// 1.
    ReportMissingSubcommand,
    /// Run the entry's template with the configuration's root directory as
    /// the working directory; the exit code is the child's.
    RunCommand { cmd: String, root_path: String },
}

/// Decide what an invocation of `subcommand` does under `config`.
pub fn dispatch(config: &Option<KdConfig>, subcommand: &String) -> (a: DispatchAction)
    ensures
        a is ShowHelp <==> is_help_name(subcommand@),
        a is ReportNoConfig <==> (!is_help_name(subcommand@) && config is None),
        a is ReportMissingSubcommand <==> (!is_help_name(subcommand@) && (config matches Some(c)
            && lookup_spec(c.commands_by_name@, subcommand@) is None)),
        a is RunCommand <==> (!is_help_name(subcommand@) && (config matches Some(c)
            && lookup_spec(c.commands_by_name@, subcommand@) is Some)),
        a matches DispatchAction::RunCommand { cmd, root_path } ==> (config matches Some(c)
            && lookup_spec(c.commands_by_name@, subcommand@) matches Some(e) && cmd@ == e.0
            && root_path@ == c.root_path@),
{
    if is_help_trigger(subcommand) {
        return DispatchAction::ShowHelp;
    }
    match config {
        None => DispatchAction::ReportNoConfig,
        Some(c) => match c.commands_by_name.get(subcommand.as_str()) {
            None => DispatchAction::ReportMissingSubcommand,
            Some(entry) => DispatchAction::RunCommand {
                cmd: entry.cmd.clone(),
                root_path: c.root_path.clone(),
            },
        },
    }
}

/// The usage text printed at the top of the help output.
pub fn help_prelude() -> (r: String)
    ensures
        r@ == "kd - A per-project command runner.\n\nUSAGE:\n  $ kd <subcommand> <subcommand arguments>\n"@,
{
    String::from_str(
        "kd - A per-project command runner.\n\nUSAGE:\n  $ kd <subcommand> <subcommand arguments>\n",
    )
}

/// The message printed when the requested name is absent from the
/// configuration.
pub fn no_subcommand_message(name: &String) -> (r: String)
    ensures
        r@ == "No subcommand found called "@ + name@ + "."@,
{
    let mut s = String::from_str("No subcommand found called ");
    s.append(name.as_str());
    s.append(".");
    s
}

/// The first-run guidance printed when no configuration exists anywhere up
/// the tree.
pub fn first_run_message() -> (r: String)
    ensures
        r@ == "You don't have a `.kdconfig` yet. Try making one."@,
{
    String::from_str("You don't have a `.kdconfig` yet. Try making one.")
}

} // verus!
