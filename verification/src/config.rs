//! The configuration layer: validating a raw argument list and extracting
//! the query, the file path and the case flag.

use crate::search::str_eq;
use vstd::prelude::*;

verus! {

/// The two failures the library reports. Each carries a fixed diagnostic,
/// available through [`SearchError::message`]; callers branch on the kind
/// and decide themselves how to terminate.
#[derive(Debug, Clone, Copy, PartialEq, Eq, Structural)]
pub enum SearchError {
    /// Required positional arguments were absent from the argument list.
    MissingArgument,
    /// The file behind a resolved path could not be read as text.
    FileUnreadable,
}

impl SearchError {
    /// The fixed diagnostic for this error kind; it never depends on the
    /// input that raised the error.
    pub fn message(&self) -> (m: &'static str)
        ensures
            *self == SearchError::MissingArgument ==> m@ == "not enough arguments"@,
            *self == SearchError::FileUnreadable ==> m@ == "could not read the file"@,
    {
        match self {
            SearchError::MissingArgument => "not enough arguments",
            SearchError::FileUnreadable => "could not read the file",
        }
    }
}

/// A resolved invocation: what to search for, in which file, and whether
/// case is ignored.
#[derive(Debug, PartialEq, Eq)]
pub struct SearchConfig {
    pub query: String,
    pub file_path: String,
    pub ignore_case: bool,
}

/// Some element at or after position `from` asks for case to be ignored.
pub open spec fn has_ignore_flag(args: Seq<String>, from: int) -> bool {
    exists|i: int| from <= i < args.len()
        && (#[trigger] args[i]@ == "--ignore-case"@ || args[i]@ == "-i"@)
}

/// What `resolve` returns for a given argument list: the query and the file
/// path are the first two elements after the program name, case is ignored
/// exactly when a later element asks for it, and a shorter list is rejected.
pub open spec fn resolve_spec(args: Seq<String>, r: Result<SearchConfig, SearchError>) -> bool {
    if args.len() < 3 {
        r == Err::<SearchConfig, SearchError>(SearchError::MissingArgument)
    } else {
        match r {
            Ok(c) => c.query@ == args[1]@ && c.file_path@ == args[2]@ && c.ignore_case
                == has_ignore_flag(args, 3),
            Err(_) => false,
        }
    }
}

/// Validate and extract a search configuration from a raw argument list.
/// The first element names the program; the query and the file path follow;
/// any later `--ignore-case` or `-i` turns case folding on.
pub fn resolve(args: &Vec<String>) -> (r: Result<SearchConfig, SearchError>)
    ensures
        resolve_spec(args@, r),
{
    if args.len() < 3 {
        return Err(SearchError::MissingArgument);
    }
    let query = args[1].clone();
    let file_path = args[2].clone();
    let ignore_case = scan_ignore_flag(args, 3);
    Ok(SearchConfig { query, file_path, ignore_case })
}

/// Whether any element at or after position `from` is `--ignore-case` or
/// `-i`.
pub fn scan_ignore_flag(args: &Vec<String>, from: usize) -> (r: bool)
    ensures
        r == has_ignore_flag(args@, from as int),
{
    let mut found = false;
    let mut i: usize = from;
    if from > args.len() {
        proof {
            assert(!has_ignore_flag(args@, from as int));
        }
        return false;
    }
    while i < args.len()
        invariant
            from <= i <= args@.len(),
            found == exists|j: int| from <= j < i
                && (#[trigger] args@[j]@ == "--ignore-case"@ || args@[j]@ == "-i"@),
        decreases args@.len() - i,
    {
        if str_eq(args[i].as_str(), "--ignore-case") || str_eq(args[i].as_str(), "-i") {
            found = true;
            proof {
                assert(args@[i as int]@ == "--ignore-case"@ || args@[i as int]@ == "-i"@);
            }
        }
        i += 1;
    }
    found
}

} // verus!
