use minigrep::{select_lines, Config};

fn args(items: &[&str]) -> Vec<String> {
    items.iter().map(|s| s.to_string()).collect()
}

#[test]
fn program_name_alone_is_not_enough() {
    let r = Config::new(&args(&["prog"]), false);
    assert_eq!(r.err(), Some("not enough arguments"));
}

#[test]
fn missing_file_name_is_not_enough() {
    assert_eq!(Config::new(&args(&["prog", "frog"]), true).err(), Some("not enough arguments"));
    assert_eq!(Config::new(&[], false).err(), Some("not enough arguments"));
}

#[test]
fn query_and_file_name_are_read() {
    let c = Config::new(&args(&["prog", "frog", "poem.txt"]), false).ok().unwrap();
    assert_eq!(c.query, "frog");
    assert_eq!(c.filename, "poem.txt");
    assert!(c.case_sensitive);
}

#[test]
fn extra_arguments_are_ignored() {
    let c = Config::new(&args(&["prog", "q", "f.txt", "more", "args"]), false).ok().unwrap();
    assert_eq!(c.query, "q");
    assert_eq!(c.filename, "f.txt");
}

#[test]
fn variable_present_turns_case_off() {
    let c = Config::new(&args(&["prog", "q", "f.txt"]), true).ok().unwrap();
    assert!(!c.case_sensitive);
}

#[test]
fn no_match_selects_nothing() {
    let c = Config::new(&args(&["prog", "frog", "poem.txt"]), false).ok().unwrap();
    let poem = "I'm nobody! Who are you?\nAre you nobody, too?\nHow dreary to be somebody!";
    assert_eq!(Vec::<&str>::new(), select_lines(&c, poem));
}

#[test]
fn select_lines_follows_case_policy() {
    let content = "Rust:\nTrust me.\nrusty";
    let strict = Config::new(&args(&["prog", "Rust", "f"]), false).ok().unwrap();
    assert_eq!(vec!["Rust:"], select_lines(&strict, content));
    let loose = Config::new(&args(&["prog", "Rust", "f"]), true).ok().unwrap();
    assert_eq!(vec!["Rust:", "Trust me.", "rusty"], select_lines(&loose, content));
}
