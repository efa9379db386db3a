use minigrep::{search, search_case_insensitive};

#[test]
fn one_result() {
    let query = "duct";
    let contents = "\
Rust:
safe, fast, productive.
Pick three.";
    assert_eq!(vec!["safe, fast, productive."], search(query, contents));
}

#[test]
fn case_insensitive() {
    let query = "rUsT";
    let contents = "\
Rust:
safe, fast, productive.
Pick three.
Trust me.";
    assert_eq!(vec!["Rust:", "Trust me."], search_case_insensitive(query, contents));
}

#[test]
fn no_match_is_an_empty_result() {
    let found = search("monomorphization", "Rust:\nsafe, fast, productive.\nPick three.");
    assert!(found.is_empty());
}

#[test]
fn empty_contents_give_no_line() {
    assert!(search("duct", "").is_empty());
    assert!(search("", "").is_empty());
    assert!(search_case_insensitive("duct", "").is_empty());
    assert!(search_case_insensitive("", "").is_empty());
}

#[test]
fn empty_query_matches_every_line() {
    let contents = "one\n\ntwo\n";
    assert_eq!(vec!["one", "", "two"], search("", contents));
    assert_eq!(vec!["one", "", "two"], search_case_insensitive("", contents));
}

#[test]
fn search_is_exact_about_case() {
    let contents = "Rust:\nsafe, fast, productive.\nTrust me.";
    assert_eq!(vec!["Trust me."], search("rust", contents));
    assert_eq!(vec!["Rust:"], search("Rust", contents));
}

#[test]
fn matches_keep_order_and_repeats() {
    let contents = "beta\nalpha\nbeta\ngamma\nalphabet";
    assert_eq!(vec!["beta", "beta", "alphabet"], search("bet", contents));
    assert_eq!(vec!["alpha", "alphabet"], search("alpha", contents));
}

#[test]
fn a_line_with_several_hits_is_returned_once() {
    assert_eq!(vec!["banana"], search("an", "banana\ncherry"));
    assert_eq!(vec!["BANANA"], search_case_insensitive("an", "BANANA\ncherry"));
}

#[test]
fn query_may_be_the_whole_line_or_its_edge() {
    let contents = "abc\nxabc\nabcx\nab";
    assert_eq!(vec!["abc", "xabc", "abcx"], search("abc", contents));
    assert_eq!(vec!["abc", "abcx", "ab"], search_case_insensitive("AB", "abc\nabcx\nab\nb"));
}

#[test]
fn query_longer_than_every_line_matches_nothing() {
    assert!(search("abcd", "abc\nbcd").is_empty());
}

#[test]
fn a_query_does_not_match_across_lines() {
    assert!(search("ab", "a\nb").is_empty());
    assert!(search("a\nb", "a\nb").is_empty());
}

#[test]
fn lines_are_returned_as_written() {
    let contents = "  Indented Line  \n\tTabbed";
    assert_eq!(vec!["  Indented Line  "], search_case_insensitive("LINE", contents));
    assert_eq!(vec!["\tTabbed"], search("\t", contents));
}

#[test]
fn line_endings_are_not_part_of_a_line() {
    let contents = "first\r\nsecond\nthird\r\n";
    assert_eq!(vec!["first", "second", "third"], search("", contents));
    assert!(search("\r", contents).is_empty());
    assert!(search("\n", contents).is_empty());
}

#[test]
fn case_insensitive_finds_what_search_finds_in_ascii_text() {
    let contents = "Rust:\nsafe, fast, productive.\nPick three.\nTrust me.\nRUST";
    for query in ["Rust", "rust", "RUST", "t", "T", "", "Pick three.", "zz"] {
        let exact = search(query, contents);
        let folded = search_case_insensitive(query, contents);
        let narrowed: Vec<&str> = folded.iter().copied().filter(|line| line.contains(query)).collect();
        assert_eq!(exact, narrowed);
    }
}

#[test]
fn a_final_sigma_escapes_the_folded_search() {
    let contents = "\u{391}\u{3a3}";
    assert_eq!(vec![contents], search("\u{3a3}", contents));
    assert!(search_case_insensitive("\u{3a3}", contents).is_empty());
}

#[test]
fn folding_reaches_beyond_ascii() {
    let contents = "\u{c4}PFEL\nBirne";
    assert_eq!(vec!["\u{c4}PFEL"], search_case_insensitive("\u{e4}pfel", contents));
    assert!(search("\u{e4}pfel", contents).is_empty());
}

#[test]
fn searching_again_gives_the_same() {
    let contents = "Rust:\nsafe, fast, productive.\nPick three.\nTrust me.";
    assert_eq!(search("st", contents), search("st", contents));
    assert_eq!(
        search_case_insensitive("RU", contents),
        search_case_insensitive("RU", contents)
    );
    assert_eq!(vec!["Rust:", "safe, fast, productive.", "Trust me."], search("st", contents));
}
