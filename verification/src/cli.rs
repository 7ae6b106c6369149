//! The command line: `[--dry-run] [--post-cmd COMMAND] [--config PATH]`.
use vstd::prelude::*;
use crate::text::{chars_of, range_equals};

verus! {

/// What the command line sets: a dry run, a command to run after the session has closed, and
/// the configuration file to read.
#[derive(Debug, Clone)]
pub struct CliOptions {
    pub dry_run: bool,
    pub post_command: Option<String>,
    pub config_path: Option<String>,
}

/// What the command line asks for: a run with the given options, or the usage text.
#[derive(Debug, Clone)]
pub enum CliAction {
    Run(CliOptions),
    Help,
}

/// A command line that cannot be read.
#[derive(Debug, Clone)]
pub enum CliError {
    /// `--post-cmd` is the last argument.
    MissingPostCommand,
    /// `--config` is the last argument.
    MissingConfigPath,
    /// An argument that is no option of this program.
    UnknownOption(String),
}

/// The options of a command line, by their characters.
pub struct CliSettings {
    pub dry_run: bool,
    pub post_command: Option<Seq<char>>,
    pub config_path: Option<Seq<char>>,
}

/// A command-line error, by its characters.
pub enum CliFault {
    MissingPostCommand,
    MissingConfigPath,
    UnknownOption(Seq<char>),
}

/// An optional string by its characters.
pub open spec fn opt_view(o: Option<String>) -> Option<Seq<char>> {
    match o {
        Some(s) => Some(s@),
        None => None,
    }
}

impl CliOptions {
    /// The options by their characters.
    pub open spec fn settings(self) -> CliSettings {
        CliSettings {
            dry_run: self.dry_run,
            post_command: opt_view(self.post_command),
            config_path: opt_view(self.config_path),
        }
    }
}

/// What reading a command line gives, by characters: `Ok(Some(..))` to run, `Ok(None)` for the
/// usage text, `Err(..)` for an error.
pub open spec fn cli_outcome(r: Result<CliAction, CliError>) -> Result<Option<CliSettings>, CliFault> {
    match r {
        Ok(CliAction::Run(o)) => Ok(Some(o.settings())),
        Ok(CliAction::Help) => Ok(None),
        Err(CliError::MissingPostCommand) => Err(CliFault::MissingPostCommand),
        Err(CliError::MissingConfigPath) => Err(CliFault::MissingConfigPath),
        Err(CliError::UnknownOption(a)) => Err(CliFault::UnknownOption(a@)),
    }
}

/// The options before any argument is read.
pub open spec fn no_settings() -> CliSettings {
    CliSettings { dry_run: false, post_command: None, config_path: None }
}

/// Reading the arguments `args[i..]` from left to right, given what the earlier ones set:
/// `--dry-run` sets the dry run; `--post-cmd` and `--config` take the next argument, whatever
/// it is, as their value, and a later one replaces an earlier one; `--help` or `-h` stops
/// with the usage text; any other argument stops with an error.
pub open spec fn read_args(args: Seq<Seq<char>>, i: nat, s: CliSettings) -> Result<Option<CliSettings>, CliFault>
    decreases args.len() - i,
{
    if i >= args.len() {
        Ok(Some(s))
    } else {
        let a = args[i as int];
        if a == "--dry-run"@ {
            read_args(args, i + 1, CliSettings { dry_run: true, ..s })
        } else if a == "--post-cmd"@ {
            if i + 1 < args.len() {
                read_args(args, i + 2, CliSettings { post_command: Some(args[i + 1 as int]), ..s })
            } else {
                Err(CliFault::MissingPostCommand)
            }
        } else if a == "--config"@ {
            if i + 1 < args.len() {
                read_args(args, i + 2, CliSettings { config_path: Some(args[i + 1 as int]), ..s })
            } else {
                Err(CliFault::MissingConfigPath)
            }
        } else if a == "--help"@ || a == "-h"@ {
            Ok(None)
        } else {
            Err(CliFault::UnknownOption(a))
        }
    }
}

/// The arguments by their characters.
pub open spec fn arg_chars(args: Seq<String>) -> Seq<Seq<char>> {
    args.map_values(|a: String| a@)
}

/// Whether `s` is the text `lit`.
fn is_text(s: &String, lit: &str) -> (r: bool)
    ensures
        r == (s@ == lit@),
{
    let v = chars_of(s.as_str());
    let w = chars_of(lit);
    proof {
        assert(v@.subrange(0, v@.len() as int) =~= v@);
    }
    range_equals(&v, 0, v.len(), &w)
}

/// Read the command-line arguments, the program's name left out.
pub fn parse_cli(args: &Vec<String>) -> (r: Result<CliAction, CliError>)
    ensures
        cli_outcome(r) == read_args(arg_chars(args@), 0, no_settings()),
{
    let ghost av = arg_chars(args@);
    let mut options = CliOptions { dry_run: false, post_command: None, config_path: None };
    let mut i: usize = 0;
    while i < args.len()
        invariant
            av == arg_chars(args@),
            i <= args.len(),
            read_args(av, 0, no_settings()) == read_args(av, i as nat, options.settings()),
        decreases args.len() - i,
    {
        let arg = &args[i];
        assert(av[i as int] == arg@);
        if is_text(arg, "--dry-run") {
            options.dry_run = true;
            i = i + 1;
        } else if is_text(arg, "--post-cmd") {
            if i + 1 < args.len() {
                assert(av[i + 1] == args@[i + 1]@);
                options.post_command = Some(args[i + 1].clone());
                i = i + 2;
            } else {
                return Err(CliError::MissingPostCommand);
            }
        } else if is_text(arg, "--config") {
            if i + 1 < args.len() {
                assert(av[i + 1] == args@[i + 1]@);
                options.config_path = Some(args[i + 1].clone());
                i = i + 2;
            } else {
                return Err(CliError::MissingConfigPath);
            }
        } else if is_text(arg, "--help") || is_text(arg, "-h") {
            return Ok(CliAction::Help);
        } else {
            return Err(CliError::UnknownOption(arg.clone()));
        }
    }
    Ok(CliAction::Run(options))
}

} // verus!
