use minigrep::{run, Config, GrepError};

fn args(words: &[&str]) -> Vec<String> {
    words.iter().map(|word| word.to_string()).collect()
}

#[test]
fn build_refuses_a_list_with_the_program_name_alone() {
    let outcome = Config::build(&args(&["prog"]), false);
    assert_eq!(GrepError::InsufficientArguments, outcome.unwrap_err());
}

#[test]
fn build_refuses_a_list_without_a_file_path() {
    let outcome = Config::build(&args(&["prog", "cat"]), false);
    assert_eq!(GrepError::InsufficientArguments, outcome.unwrap_err());
    let outcome = Config::build(&args(&["prog", "cat"]), true);
    assert_eq!(GrepError::InsufficientArguments, outcome.unwrap_err());
}

#[test]
fn build_refuses_an_empty_list() {
    let outcome = Config::build(&args(&[]), false);
    assert_eq!(GrepError::InsufficientArguments, outcome.unwrap_err());
}

#[test]
fn build_takes_query_and_file_path() {
    let config = Config::build(&args(&["prog", "cat", "poem.txt"]), false).unwrap();
    assert_eq!("cat", config.query);
    assert_eq!("poem.txt", config.file_path);
    assert!(!config.ignore_case);
}

#[test]
fn build_keeps_the_case_setting() {
    let config = Config::build(&args(&["prog", "cat", "poem.txt"]), true).unwrap();
    assert!(config.ignore_case);
}

#[test]
fn build_ignores_later_arguments() {
    let config = Config::build(&args(&["prog", "cat", "poem.txt", "more", "again"]), false).unwrap();
    assert_eq!("cat", config.query);
    assert_eq!("poem.txt", config.file_path);
}

#[test]
fn build_accepts_empty_words() {
    let config = Config::build(&args(&["", "", ""]), false).unwrap();
    assert_eq!("", config.query);
    assert_eq!("", config.file_path);
}

#[test]
fn a_failed_read_is_a_file_read_error() {
    let config = Config::build(&args(&["prog", "cat", "/nonexistent/path"]), false).unwrap();
    assert_eq!(Err(GrepError::FileReadError), run(&config, None));
    let config = Config::build(&args(&["prog", "cat", "/nonexistent/path"]), true).unwrap();
    assert_eq!(Err(GrepError::FileReadError), run(&config, None));
}

#[test]
fn run_searches_exactly_unless_told_otherwise() {
    let contents = "Rust:\nsafe, fast, productive.\nPick three.\nTrust me.";
    let config = Config {
        query: String::from("rUsT"),
        file_path: String::from("poem.txt"),
        ignore_case: false,
    };
    assert_eq!(Ok(vec![]), run(&config, Some(contents)));
    let config = Config {
        query: String::from("rust"),
        file_path: String::from("poem.txt"),
        ignore_case: false,
    };
    assert_eq!(Ok(vec!["Trust me."]), run(&config, Some(contents)));
}

#[test]
fn run_ignores_case_when_told_to() {
    let contents = "Rust:\nsafe, fast, productive.\nPick three.\nTrust me.";
    let config = Config {
        query: String::from("rUsT"),
        file_path: String::from("poem.txt"),
        ignore_case: true,
    };
    assert_eq!(Ok(vec!["Rust:", "Trust me."]), run(&config, Some(contents)));
}

#[test]
fn run_with_no_match_succeeds_with_no_line() {
    let config = Config {
        query: String::from("zebra"),
        file_path: String::from("poem.txt"),
        ignore_case: true,
    };
    assert_eq!(Ok(vec![]), run(&config, Some("Rust:\nTrust me.")));
    assert_eq!(Ok(vec![]), run(&config, Some("")));
}

#[test]
fn errors_have_their_wording() {
    assert_eq!("not enough arguments", GrepError::InsufficientArguments.message());
    assert_eq!("could not read the file", GrepError::FileReadError.message());
}
