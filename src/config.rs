//! What a run is asked to do: the query, the file, and the case policy.
use vstd::prelude::*;
use crate::search::{
    case_insensitive, line_views, matching_lines, matching_lines_ignoring_case, search,
};

verus! {

/// A run's settings, taken from the command line and the environment.
pub struct Config {
    pub query: String,
    pub filename: String,
    pub case_sensitive: bool,
}

impl Config {
    /// Reads the query and the file name from `args`, whose first element is
    /// the program name. Matching ignores case exactly when
    /// `case_insensitive_set` says that the `CASE_INSENSITIVE` environment
    /// variable is present, whatever its value. Arguments past the second are
    /// ignored; with fewer than two the error is "not enough arguments".
    pub fn new(args: &[String], case_insensitive_set: bool) -> (r: Result<Config, &'static str>)
        ensures
            r is Err <==> args@.len() < 3,
            r matches Err(e) ==> e@ == "not enough arguments"@,
            r matches Ok(c) ==> {
                &&& c.query@ == args@[1]@
                &&& c.filename@ == args@[2]@
                &&& c.case_sensitive == !case_insensitive_set
            },
    {
        if args.len() < 3 {
            return Err("not enough arguments");
        }
        let query = args[1].clone();
        let filename = args[2].clone();
        Ok(Config { query, filename, case_sensitive: !case_insensitive_set })
    }
}

/// The lines of `content` that the run described by `config` prints, in order:
/// those containing the query, ignoring case unless the run is case-sensitive.
pub fn select_lines<'a>(config: &Config, content: &'a str) -> (r: Vec<&'a str>)
    ensures
        config.case_sensitive ==> line_views(r@) == matching_lines(content@, config.query@),
        !config.case_sensitive ==> line_views(r@) == matching_lines_ignoring_case(
            content@,
            config.query@,
        ),
{
    if config.case_sensitive {
        search(config.query.as_str(), content)
    } else {
        case_insensitive(config.query.as_str(), content)
    }
}

} // verus!
