//! The configuration of one search: what to look for, where, and under
//! which case policy.

use vstd::prelude::*;

verus! {

/// What one search needs: the query, the path of the file to read, and
/// whether letter case is ignored.
pub struct Config {
    pub query: String,
    pub file_path: String,
    pub ignore_case: bool,
}

impl Config {
    /// Assembles a configuration from positional arguments and the case
    /// policy.
    ///
    /// `args[0]` is the program's name and is not read; `args[1]` is the
    /// query and `args[2]` the file path. Further arguments are ignored.
    /// `ignore_case` says whether the caller found the case-insensitive
    /// toggle set; it is stored as given.
    pub fn build(args: &[String], ignore_case: bool) -> (built: Result<Config, &'static str>)
        ensures
            args@.len() < 2 ==> (built matches Err(message) && message@
                == "Didn't get a query string"@),
            args@.len() == 2 ==> (built matches Err(message) && message@
                == "Didn't get a file path"@),
            args@.len() >= 3 ==> (built matches Ok(config) && config.query@ == args@[1]@
                && config.file_path@ == args@[2]@ && config.ignore_case == ignore_case),
    {
        if args.len() < 2 {
            return Err("Didn't get a query string");
        }
        if args.len() < 3 {
            return Err("Didn't get a file path");
        }
        let query = args[1].clone();
        let file_path = args[2].clone();
        Ok(Config { query, file_path, ignore_case })
    }
}

} // verus!
