use minigrep::Config;

fn args(words: &[&str]) -> Vec<String> {
    words.iter().map(|word| word.to_string()).collect()
}

#[test]
fn build_without_query_fails() {
    let built = Config::build(&args(&["prog"]), false);
    assert_eq!(Some("Didn't get a query string"), built.err());
}

#[test]
fn build_without_any_argument_fails() {
    let built = Config::build(&args(&[]), true);
    assert_eq!(Some("Didn't get a query string"), built.err());
}

#[test]
fn build_without_file_path_fails() {
    let built = Config::build(&args(&["prog", "foo"]), false);
    assert_eq!(Some("Didn't get a file path"), built.err());
}

#[test]
fn build_takes_query_and_file_path() {
    let built = Config::build(&args(&["prog", "foo", "bar.txt"]), false);
    let config = built.ok().unwrap();
    assert_eq!("foo", config.query);
    assert_eq!("bar.txt", config.file_path);
    assert!(!config.ignore_case);
}

#[test]
fn build_ignores_further_arguments() {
    let built = Config::build(&args(&["prog", "foo", "bar.txt", "baz", "-v"]), true);
    let config = built.ok().unwrap();
    assert_eq!("foo", config.query);
    assert_eq!("bar.txt", config.file_path);
    assert!(config.ignore_case);
}

#[test]
fn build_accepts_an_empty_query() {
    let built = Config::build(&args(&["prog", "", "bar.txt"]), false);
    let config = built.ok().unwrap();
    assert_eq!("", config.query);
}
