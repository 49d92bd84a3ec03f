use minigrep::{contains, search, search_case_insensitive, Config, ConfigError};

#[test]
fn one_result() {
    let query = "duct";
    let contents = "\
Rust: 
safe, fast, productive.
Pick three.";

    assert_eq!(vec!["safe, fast, productive."], search(query, contents));
}

#[test]
fn case_sensitive() {
    let query = "duct";
    let contents = "\
Rust:
safe, fast, productive.
Pick three.
Duct tape.";

    assert_eq!(vec!["safe, fast, productive."], search(query, contents));
}

#[test]
fn case_insensitive() {
    let query = "rUsT";
    let contents = "\
Rust:
safe, fast, productive.
Pick three.
Trust me.";

    assert_eq!(
        vec!["Rust:", "Trust me."],
        search_case_insensitive(query, contents)
    );
}

#[test]
fn every_returned_line_holds_the_query() {
    let contents = "alpha\nbeta\nalphabet\ngamma\nthe alp";
    let found = search("alp", contents);
    assert_eq!(vec!["alpha", "alphabet", "the alp"], found);
    for line in &found {
        assert!(line.contains("alp"));
    }
}

#[test]
fn empty_query_matches_every_line() {
    let contents = "one\ntwo\n\nthree";
    assert_eq!(vec!["one", "two", "", "three"], search("", contents));
    assert_eq!(
        vec!["one", "two", "", "three"],
        search_case_insensitive("", contents)
    );
}

#[test]
fn empty_contents_give_no_lines() {
    assert!(search("x", "").is_empty());
    assert!(search("", "").is_empty());
    assert!(search_case_insensitive("x", "").is_empty());
    assert!(search_case_insensitive("", "").is_empty());
}

#[test]
fn trailing_line_feed_adds_no_line() {
    assert_eq!(vec!["a", "b"], search("", "a\nb\n"));
    assert_eq!(vec![""], search("", "\n"));
}

#[test]
fn carriage_return_before_line_feed_is_dropped() {
    assert_eq!(vec!["one", "two"], search("", "one\r\ntwo\r\n"));
    assert!(search("\r", "one\r\ntwo\r\n").is_empty());
    assert_eq!(vec!["end\r"], search("\r", "end\r"));
}

#[test]
fn match_never_spans_two_lines() {
    assert!(search("bc", "ab\ncd").is_empty());
    assert!(search_case_insensitive("BC", "ab\ncd").is_empty());
}

#[test]
fn duplicate_lines_are_each_returned() {
    assert_eq!(vec!["same", "same"], search("am", "same\nother\nsame"));
}

#[test]
fn query_longer_than_every_line() {
    assert!(search("a long query", "short\nlines").is_empty());
}

#[test]
fn query_equal_to_a_whole_line() {
    assert_eq!(vec!["exact"], search("exact", "before\nexact\nafter"));
}

#[test]
fn lines_are_views_into_the_contents() {
    let contents = String::from("first\nsecond match\nthird");
    let found = search("match", &contents);
    let start = contents.as_ptr() as usize;
    let end = start + contents.len();
    let at = found[0].as_ptr() as usize;
    assert!(start <= at && at + found[0].len() <= end);
    assert_eq!(start + 6, at);
}

#[test]
fn insensitive_keeps_every_exact_match_on_ascii() {
    let contents = "Rust:\nsafe, fast, productive.\nPick three.\nDuct tape.\nproduct";
    let exact = search("duct", contents);
    let folded = search_case_insensitive("duct", contents);
    assert_eq!(vec!["safe, fast, productive.", "Duct tape.", "product"], folded);
    let kept: Vec<&str> = folded.into_iter().filter(|l| l.contains("duct")).collect();
    assert_eq!(exact, kept);
}

#[test]
fn insensitive_lowers_the_lines() {
    assert_eq!(vec!["RUST"], search_case_insensitive("rust", "RUST\nother"));
    assert_eq!(vec!["rust"], search_case_insensitive("RUST", "rust\nother"));
}

#[test]
fn insensitive_lowers_beyond_ascii() {
    assert_eq!(vec!["ÄPFEL"], search_case_insensitive("äpfel", "ÄPFEL\nBirne"));
    assert!(search("äpfel", "ÄPFEL\nBirne").is_empty());
}

#[test]
fn insensitive_returns_the_original_text() {
    assert_eq!(vec!["MiXeD Case"], search_case_insensitive("mixed", "MiXeD Case"));
}

#[test]
fn searching_twice_gives_the_same_lines() {
    let contents = "Rust:\nsafe, fast, productive.\nPick three.\nTrust me.";
    assert_eq!(search("t", contents), search("t", contents));
    assert_eq!(
        search_case_insensitive("rUsT", contents),
        search_case_insensitive("rUsT", contents)
    );
}

#[test]
fn contains_finds_exact_runs() {
    assert!(contains("productive", "duct"));
    assert!(contains("duct", "duct"));
    assert!(contains("anything", ""));
    assert!(contains("", ""));
    assert!(!contains("", "a"));
    assert!(!contains("Duct", "duct"));
    assert!(!contains("duc", "duct"));
    assert!(contains("aaab", "aab"));
    assert!(contains("grün", "ün"));
}

fn args(items: &[&str]) -> Vec<String> {
    items.iter().map(|s| s.to_string()).collect()
}

#[test]
fn build_without_query() {
    let r = Config::build(&args(&["minigrep"]), false);
    assert_eq!(Some(ConfigError::MissingQuery), r.err());
    let r = Config::build(&args(&[]), true);
    assert_eq!(Some(ConfigError::MissingQuery), r.err());
}

#[test]
fn build_without_file_name() {
    let r = Config::build(&args(&["minigrep", "needle"]), false);
    assert_eq!(Some(ConfigError::MissingFileName), r.err());
}

#[test]
fn build_ignores_case_unless_variable_is_set() {
    let c = Config::build(&args(&["minigrep", "needle", "poem.txt", "extra"]), false).unwrap();
    assert_eq!("needle", c.query);
    assert_eq!("poem.txt", c.filename);
    assert!(c.ignore_case);
    let c = Config::build(&args(&["minigrep", "needle", "poem.txt"]), true).unwrap();
    assert!(!c.ignore_case);
}

#[test]
fn error_messages() {
    assert_eq!("Didn't get a query string", ConfigError::MissingQuery.message());
    assert_eq!("Didn't get a file name", ConfigError::MissingFileName.message());
}

#[test]
fn config_selects_the_search() {
    let contents = "Rust:\nsafe, fast, productive.\nTrust me.";
    let c = Config::build(&args(&["minigrep", "rust", "f"]), false).unwrap();
    assert_eq!(vec!["Rust:", "Trust me."], c.select_lines(contents));
    let c = Config::build(&args(&["minigrep", "rust", "f"]), true).unwrap();
    assert_eq!(vec!["Trust me."], c.select_lines(contents));
}
