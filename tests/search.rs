use minigrep::{case_insensitive, contains_query, search};

#[test]
fn case_sensitive() {
    let query = "duct";
    let content = "/
Rust:
safe, fast, productive.
pick three.
Duct tape,";

    assert_eq!(vec!["safe, fast, productive."], search(query, content));
}

#[test]
fn case_nosensitive() {
    let query = "rUsT";
    let content = "/
Rust:
safe, fast, productive.
pick three.
Trust me.";

    assert_eq!(vec!["Rust:", "Trust me."], case_insensitive(query, content));
}

#[test]
fn search_skips_other_case() {
    let content = "Rust:\nsafe, fast, productive.\npick three.\nDuct tape,";
    assert_eq!(vec!["safe, fast, productive."], search("duct", content));
}

#[test]
fn case_insensitive_keeps_original_case() {
    let content = "Rust:\nsafe, fast, productive.\npick three.\nTrust me.";
    assert_eq!(vec!["Rust:", "Trust me."], case_insensitive("rUsT", content));
}

#[test]
fn case_insensitive_lowers_the_query() {
    assert_eq!(vec!["rust"], case_insensitive("RUST", "rust\nsteel"));
    assert_eq!(Vec::<&str>::new(), search("RUST", "rust\nsteel"));
}

#[test]
fn case_insensitive_lowers_the_line() {
    assert_eq!(vec!["RUST"], case_insensitive("rust", "RUST\nsteel"));
    assert_eq!(vec!["ÉTÉ chaud"], case_insensitive("été", "ÉTÉ chaud\nhiver"));
}

#[test]
fn empty_query_returns_every_line() {
    let content = "one\n\nthree\nfour";
    assert_eq!(vec!["one", "", "three", "four"], search("", content));
    assert_eq!(vec!["one", "", "three", "four"], case_insensitive("", content));
}

#[test]
fn empty_content_has_no_lines() {
    assert_eq!(Vec::<&str>::new(), search("", ""));
    assert_eq!(Vec::<&str>::new(), case_insensitive("", ""));
}

#[test]
fn last_line_without_line_feed_is_searched() {
    assert_eq!(vec!["alpha", "omega"], search("a", "alpha\nbox\nomega"));
    assert_eq!(vec!["omega"], search("om", "alpha\nomega"));
    assert_eq!(vec!["OMEGA"], case_insensitive("om", "alpha\nOMEGA"));
}

#[test]
fn trailing_line_feed_adds_no_line() {
    assert_eq!(vec!["a", "b"], search("", "a\nb\n"));
    assert_eq!(vec![""], search("", "\n"));
}

#[test]
fn carriage_return_before_line_feed_is_dropped() {
    assert_eq!(vec!["one", "two"], search("", "one\r\ntwo\r\n"));
    assert_eq!(vec!["bar", ""], search("", "bar\n\r\n"));
}

#[test]
fn carriage_return_at_the_very_end_stays() {
    assert_eq!(vec!["foo", "baz\r"], search("", "foo\nbaz\r"));
    assert_eq!(vec!["baz\r"], search("z\r", "foo\nbaz\r"));
}

#[test]
fn lines_with_wide_characters() {
    let content = "héllo wörld\r\nnaïve\nüber";
    assert_eq!(vec!["héllo wörld"], search("wö", content));
    assert_eq!(vec!["naïve"], search("ï", content));
    assert_eq!(vec!["über"], case_insensitive("ÜB", content));
}

#[test]
fn repeated_lines_are_each_kept() {
    assert_eq!(vec!["ab", "ab"], search("b", "ab\ncd\nab"));
}

#[test]
fn query_longer_than_line() {
    assert_eq!(Vec::<&str>::new(), search("longer query", "short\nlines"));
}

#[test]
fn contains_query_exact_values() {
    assert!(contains_query("safe, fast, productive.", "duct"));
    assert!(contains_query("abc", "abc"));
    assert!(contains_query("abc", ""));
    assert!(contains_query("", ""));
    assert!(contains_query("aaab", "aab"));
    assert!(!contains_query("Duct tape,", "duct"));
    assert!(!contains_query("ab", "abc"));
    assert!(!contains_query("", "a"));
    assert!(!contains_query("abab", "ba b"));
}
