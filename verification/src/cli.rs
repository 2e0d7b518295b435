//! The command-line model: the subcommands the tool understands, a parser
//! for the subcommand-style argument shape, and the decision which action an
//! invocation asks for. Reading files and printing stay with the caller.

use crate::config::has_ignore_flag;
use crate::config::scan_ignore_flag;
use crate::config::SearchError;
use crate::search::str_eq;
use vstd::prelude::*;

verus! {

/// A subcommand of the tool.
#[derive(Debug, PartialEq, Eq)]
pub enum Commands {
    /// Search for a word in a file; the default when no subcommand is given.
    Search { query: String, file_path: String, ignore_case: bool },
    /// Print a greeting.
    Hi {},
    /// Print the build version.
    Version {},
}

/// A parsed command line: an optional subcommand.
#[derive(Debug, PartialEq, Eq)]
pub struct Cli {
    pub subcommand: Option<Commands>,
}

/// `c` is the `Search` subcommand with the given parts.
pub open spec fn is_search_command(
    c: Commands,
    query: Seq<char>,
    file_path: Seq<char>,
    ignore_case: bool,
) -> bool {
    match c {
        Commands::Search { query: q, file_path: f, ignore_case: ic } => q@ == query && f@
            == file_path && ic == ignore_case,
        _ => false,
    }
}

/// What `parse_from` returns for a given argument list. The element after
/// the program name selects the subcommand; `search` takes a query, a file
/// path and an optional case flag; an argument list that fits no subcommand
/// is rejected with the one argument error the library knows.
pub open spec fn parse_spec(args: Seq<String>, r: Result<Cli, SearchError>) -> bool {
    if args.len() < 2 {
        match r {
            Ok(c) => c.subcommand is None,
            Err(_) => false,
        }
    } else if args[1]@ == "search"@ {
        if args.len() < 4 {
            r == Err::<Cli, SearchError>(SearchError::MissingArgument)
        } else {
            match r {
                Ok(c) => match c.subcommand {
                    Some(cmd) => is_search_command(
                        cmd,
                        args[2]@,
                        args[3]@,
                        has_ignore_flag(args, 4),
                    ),
                    None => false,
                },
                Err(_) => false,
            }
        }
    } else if args[1]@ == "hi"@ {
        r == Ok::<Cli, SearchError>(Cli { subcommand: Some(Commands::Hi {}) })
    } else if args[1]@ == "version"@ {
        r == Ok::<Cli, SearchError>(Cli { subcommand: Some(Commands::Version {}) })
    } else {
        r == Err::<Cli, SearchError>(SearchError::MissingArgument)
    }
}

impl Cli {
    /// Wrap an optional subcommand.
    pub fn new(subcommand: Option<Commands>) -> (r: Cli)
        ensures
            r.subcommand == subcommand,
    {
        Cli { subcommand }
    }

    /// Parse an argument list in the subcommand shape: the element after the
    /// program name names the subcommand, and `search` takes its query, its
    /// file path and an optional `--ignore-case` or `-i`.
    pub fn parse_from(args: &Vec<String>) -> (r: Result<Cli, SearchError>)
        ensures
            parse_spec(args@, r),
    {
        if args.len() < 2 {
            return Ok(Cli { subcommand: None });
        }
        if str_eq(args[1].as_str(), "search") {
            if args.len() < 4 {
                return Err(SearchError::MissingArgument);
            }
            let query = args[2].clone();
            let file_path = args[3].clone();
            let ignore_case = scan_ignore_flag(args, 4);
            return Ok(
                Cli { subcommand: Some(Commands::Search { query, file_path, ignore_case }) },
            );
        }
        if str_eq(args[1].as_str(), "hi") {
            return Ok(Cli { subcommand: Some(Commands::Hi {}) });
        }
        if str_eq(args[1].as_str(), "version") {
            return Ok(Cli { subcommand: Some(Commands::Version {}) });
        }
        Err(SearchError::MissingArgument)
    }

    /// The action the invocation asks for: its subcommand, or the greeting
    /// when none was given. Carrying the action out — reading the file,
    /// printing — is the caller's business.
    pub fn execute(&self) -> (r: Commands)
        ensures
            match self.subcommand {
                Some(c) => r == c,
                None => r == (Commands::Hi {}),
            },
    {
        match &self.subcommand {
            Some(Commands::Search { query, file_path, ignore_case }) => Commands::Search {
                query: query.clone(),
                file_path: file_path.clone(),
                ignore_case: *ignore_case,
            },
            Some(Commands::Hi {}) => Commands::Hi {},
            Some(Commands::Version {}) => Commands::Version {},
            None => Commands::Hi {},
        }
    }
}

} // verus!
