//! Command-line argument handling: the decision of which database file the
//! program works on. Reading the process arguments stays outside; this takes
//! them as plain strings.

use vstd::prelude::*;
use vstd::string::StringExecFns;

verus! {

/// The program's arguments: the database file to work on.
pub struct Args {
    pub db: String,
}

/// Decodes the argument list (the program name first): the first argument
/// names the database file, defaulting to `members.sqlite3`.
pub fn parse(args: Vec<String>) -> (r: Args)
    ensures
        r.db@ == if args@.len() >= 2 {
            args@[1]@
        } else {
            "members.sqlite3"@
        },
{
    let mut args = args;
    if args.len() >= 2 {
        let db = args.remove(1);
        Args { db }
    } else {
        Args { db: String::from_str("members.sqlite3") }
    }
}

} // verus!
