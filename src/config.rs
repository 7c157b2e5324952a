use vstd::prelude::*;

verus! {

/// The error when no query follows the program name.
pub const MISSING_QUERY: &'static str = "Didn't get a query string";

/// The error when no file path follows the query.
pub const MISSING_FILE_PATH: &'static str = "Didn't get a file path";

/// What to look for, where, and whether letter case matters.
pub struct Config {
    pub query: String,
    pub file_path: String,
    pub ignore_case: bool,
}

impl Config {
    /// Builds the configuration from the command line (`args[0]` is the
    /// program name, then query and file path; further arguments are ignored)
    /// and from whether case-insensitive matching was asked for.
    pub fn build(args: Vec<String>, ignore_case: bool) -> (r: Result<Config, &'static str>)
        ensures
            args.len() < 2 ==> r == Err::<Config, &'static str>(MISSING_QUERY),
            args.len() == 2 ==> r == Err::<Config, &'static str>(MISSING_FILE_PATH),
            args.len() >= 3 ==> r == Ok::<Config, &'static str>(
                Config { query: args[1], file_path: args[2], ignore_case },
            ),
    {
        let query_options: Option<String> = if args.len() > 1 {
            Some(args[1].clone())
        } else {
            None
        };
        let file_path_options: Option<String> = if args.len() > 2 {
            Some(args[2].clone())
        } else {
            None
        };
        Self::validate_args(&query_options, &file_path_options)?;
        match (query_options, file_path_options) {
            (Some(query), Some(file_path)) => Ok(Config { query, file_path, ignore_case }),
            _ => Err(MISSING_QUERY),
        }
    }

    /// Checks that both positional arguments are present, the query first.
    pub fn validate_args(query: &Option<String>, file_path: &Option<String>) -> (r: Result<
        (),
        &'static str,
    >)
        ensures
            r == (if query is None {
                Err::<(), &'static str>(MISSING_QUERY)
            } else if file_path is None {
                Err(MISSING_FILE_PATH)
            } else {
                Ok(())
            }),
    {
        if query.is_none() {
            return Err(MISSING_QUERY);
        }
        if file_path.is_none() {
            return Err(MISSING_FILE_PATH);
        }
        Ok(())
    }
}

} // verus!
