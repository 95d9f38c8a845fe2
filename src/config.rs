//! The arguments of the grep tool.
use vstd::prelude::*;

verus! {

/// What to search for, and in which file.
pub struct Config {
    pub query: String,
    pub file_path: String,
}

impl Config {
    /// Reads the query and the file path from the third and fourth of
    /// `args` (the program and the command name come first). Fails when
    /// there are fewer than four.
    pub fn build(args: &[String]) -> (r: Result<Config, &'static str>)
        ensures
            r is Err <==> args@.len() < 4,
            r matches Err(e) ==> e@ == "not enough arguments"@,
            r matches Ok(c) ==> c.query@ == args@[2]@ && c.file_path@ == args@[3]@,
    {
        if args.len() < 4 {
            return Err("not enough arguments");
        }
        let query = args[2].clone();
        let file_path = args[3].clone();
        Ok(Config { query, file_path })
    }
}

} // verus!
