use minigrep::config::{MISSING_FILE_PATH, MISSING_QUERY};
use minigrep::search::contains_str;
use minigrep::{run, search, search_case_insensitive, Config};

const POEM: &str = "\
Rust:
safe, fast, productive.
Pick three.
Trust me.";

fn args(items: &[&str]) -> Vec<String> {
    items.iter().map(|s| s.to_string()).collect()
}

#[test]
fn one_result() {
    let query = "produ";
    let contents = "\
Rust:
safe, fast, productive.
Pick three.
Trust me.";

    let expect = vec!["safe, fast, productive."];
    let result = search(query, contents);

    assert_eq!(expect, result);
}

#[test]
fn case_insensitive() {
    let query = "rUsT";
    let contents = "\
Rust:
safe, fast, productive.
Pick three.
Trust me.";
    assert_eq!(
        vec!["Rust:", "Trust me."],
        search_case_insensitive(query, contents)
    );
}

#[test]
fn exact_search_is_case_sensitive() {
    assert_eq!(search("RUST", POEM), Vec::<&str>::new());
    assert_eq!(search("rust", POEM), vec!["Trust me."]);
    assert_eq!(search("Rust", POEM), vec!["Rust:"]);
}

#[test]
fn matches_keep_file_order() {
    let contents = "b one\na\nb two\nc\nb three\n";
    assert_eq!(search("b", contents), vec!["b one", "b two", "b three"]);
}

#[test]
fn exact_matches_are_trimmed() {
    let contents = "  lead\ntrail \t\n\u{3000}wide\u{3000}\nnone";
    assert_eq!(search("lead", contents), vec!["lead"]);
    assert_eq!(search("trail", contents), vec!["trail"]);
    assert_eq!(search("wide", contents), vec!["wide"]);
}

#[test]
fn case_insensitive_matches_are_not_trimmed() {
    let contents = "  Lead here  \nother";
    assert_eq!(search_case_insensitive("LEAD", contents), vec!["  Lead here  "]);
}

#[test]
fn query_with_outer_space_may_be_cut_by_trim() {
    let contents = "  fast";
    assert_eq!(search(" fast", contents), vec!["fast"]);
}

#[test]
fn repeated_search_gives_same_lines() {
    assert_eq!(search("e", POEM), search("e", POEM));
    assert_eq!(search_case_insensitive("T", POEM), search_case_insensitive("T", POEM));
}

#[test]
fn empty_contents_give_no_lines() {
    assert!(search("x", "").is_empty());
    assert!(search("", "").is_empty());
    assert!(search_case_insensitive("x", "").is_empty());
}

#[test]
fn absent_query_gives_no_lines() {
    assert!(search("zebra", POEM).is_empty());
    assert!(search_case_insensitive("ZEBRA", POEM).is_empty());
}

#[test]
fn empty_query_matches_every_line() {
    assert_eq!(
        search("", POEM),
        vec!["Rust:", "safe, fast, productive.", "Pick three.", "Trust me."]
    );
}

#[test]
fn line_endings() {
    assert_eq!(search("a", "a1\r\na2\n\na3\n"), vec!["a1", "a2", "a3"]);
    assert_eq!(search_case_insensitive("A", "a1\r\na2\r\n"), vec!["a1", "a2"]);
    assert_eq!(search("", "x\n\ny"), vec!["x", "", "y"]);
    assert_eq!(search_case_insensitive("", "\n"), vec![""]);
}

#[test]
fn non_ascii_text() {
    let contents = "Grüße aus Köln\nÉCOLE\nnothing";
    assert_eq!(search("Köln", contents), vec!["Grüße aus Köln"]);
    assert_eq!(search_case_insensitive("école", contents), vec!["ÉCOLE"]);
}

#[test]
fn substring_checks() {
    assert!(contains_str("productive", "duct"));
    assert!(contains_str("abc", ""));
    assert!(contains_str("", ""));
    assert!(!contains_str("ab", "abc"));
    assert!(!contains_str("aab", "abb"));
    assert!(contains_str("aaab", "aab"));
}

#[test]
fn run_follows_the_mode() {
    let exact = Config { query: "rUsT".to_string(), file_path: "poem.txt".to_string(), ignore_case: false };
    assert!(run(&exact, POEM).is_empty());
    let folded = Config { query: "rUsT".to_string(), file_path: "poem.txt".to_string(), ignore_case: true };
    assert_eq!(run(&folded, POEM), vec!["Rust:", "Trust me."]);
    let trimmed = Config { query: "produ".to_string(), file_path: "poem.txt".to_string(), ignore_case: false };
    assert_eq!(run(&trimmed, POEM), vec!["safe, fast, productive."]);
}

#[test]
fn build_takes_query_and_path() {
    let c = Config::build(args(&["minigrep", "needle", "hay.txt"]), false).unwrap();
    assert_eq!(c.query, "needle");
    assert_eq!(c.file_path, "hay.txt");
    assert!(!c.ignore_case);
    let c = Config::build(args(&["minigrep", "needle", "hay.txt", "extra"]), true).unwrap();
    assert_eq!(c.query, "needle");
    assert_eq!(c.file_path, "hay.txt");
    assert!(c.ignore_case);
}

#[test]
fn build_accepts_empty_query() {
    let c = Config::build(args(&["minigrep", "", "hay.txt"]), false).unwrap();
    assert_eq!(c.query, "");
}

#[test]
fn build_reports_missing_query() {
    let r = Config::build(args(&["minigrep"]), false);
    assert!(matches!(r, Err(e) if e == "Didn't get a query string"));
    let r = Config::build(Vec::new(), true);
    assert!(matches!(r, Err(e) if e == MISSING_QUERY));
}

#[test]
fn build_reports_missing_file_path() {
    let r = Config::build(args(&["minigrep", "needle"]), false);
    assert!(matches!(r, Err(e) if e == "Didn't get a file path"));
    assert_eq!(MISSING_FILE_PATH, "Didn't get a file path");
}

#[test]
fn validate_args_checks_query_first() {
    assert_eq!(Config::validate_args(&None, &None), Err(MISSING_QUERY));
    assert_eq!(Config::validate_args(&None, &Some("p".to_string())), Err(MISSING_QUERY));
    assert_eq!(Config::validate_args(&Some("q".to_string()), &None), Err(MISSING_FILE_PATH));
    assert_eq!(Config::validate_args(&Some("q".to_string()), &Some("p".to_string())), Ok(()));
}
