//! The option bundle and command-line flag parsing.

use vstd::prelude::*;
use vstd::string::StringExecFns;
use crate::order::SortKey;

verus! {

/// Immutable configuration, read once at startup and passed unchanged
/// through every recursive call.
#[derive(Clone, Copy)]
pub struct Opts {
    /// Print directories before files and others (`--dir`).
    pub group_dirs_first: bool,
    /// Descend into subdirectories (`--recursive`).
    pub recursive: bool,
    /// Sort each bucket by name (`--sort-name`).
    pub sort_by_name: bool,
    /// Sort each bucket by size (`--sort-size`).
    pub sort_by_size: bool,
    /// Sort each bucket by modification time (`--sort-date`).
    pub sort_by_date: bool,
    /// Suppress directory lines (`--files`).
    pub filter_files: bool,
    /// Suppress file lines (`--dirs`).
    pub filter_dirs: bool,
}

/// The single active sort criterion: name is checked first, then
/// size, then date; none means enumeration order is kept.
pub open spec fn active_key(o: Opts) -> Option<SortKey> {
    if o.sort_by_name {
        Some(SortKey::Name)
    } else if o.sort_by_size {
        Some(SortKey::Size)
    } else if o.sort_by_date {
        Some(SortKey::Date)
    } else {
        None
    }
}

/// Whether some argument equals the given flag.
pub open spec fn has_flag(args: Seq<String>, flag: Seq<char>) -> bool {
    exists|i: int| 0 <= i < args.len() && args[i]@ == flag
}

/// Checks whether the flag occurs among the arguments.
fn contains_flag(args: &Vec<String>, flag: &String) -> (r: bool)
    ensures
        r == has_flag(args@, flag@),
{
    let mut i: usize = 0;
    while i < args.len()
        invariant
            i <= args@.len(),
            forall|j: int| 0 <= j < i ==> args@[j]@ != flag@,
        decreases args@.len() - i,
    {
        if args[i].eq(flag) {
            return true;
        }
        i += 1;
    }
    false
}

/// Reads the option bundle from the command-line arguments.  Flags are
/// boolean, presence-only and order-independent.
pub fn parse_args(args: &Vec<String>) -> (o: Opts)
    ensures
        o.group_dirs_first == has_flag(args@, "--dir"@),
        o.recursive == has_flag(args@, "--recursive"@),
        o.sort_by_name == has_flag(args@, "--sort-name"@),
        o.sort_by_size == has_flag(args@, "--sort-size"@),
        o.sort_by_date == has_flag(args@, "--sort-date"@),
        o.filter_files == has_flag(args@, "--files"@),
        o.filter_dirs == has_flag(args@, "--dirs"@),
{
    Opts {
        group_dirs_first: contains_flag(args, &String::from_str("--dir")),
        recursive: contains_flag(args, &String::from_str("--recursive")),
        sort_by_name: contains_flag(args, &String::from_str("--sort-name")),
        sort_by_size: contains_flag(args, &String::from_str("--sort-size")),
        sort_by_date: contains_flag(args, &String::from_str("--sort-date")),
        filter_files: contains_flag(args, &String::from_str("--files")),
        filter_dirs: contains_flag(args, &String::from_str("--dirs")),
    }
}

} // verus!
