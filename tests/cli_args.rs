use toprompt::cli::{parse_args, ArgError};

fn args(list: &[&str]) -> Vec<String> {
    list.iter().map(|s| s.to_string()).collect()
}

#[test]
fn flags_and_paths() {
    let c = parse_args(&args(&["-ri", "src", "README.md", "-v"])).unwrap();
    assert!(c.recursive && c.use_gitignore && c.verbose);
    assert_eq!(c.regex_pattern, None);
    assert_eq!(c.paths, args(&["src", "README.md"]));
}

#[test]
fn no_arguments_give_defaults() {
    let c = parse_args(&Vec::new()).unwrap();
    assert!(!c.recursive && !c.use_gitignore && !c.verbose);
    assert!(c.paths.is_empty());
}

#[test]
fn regex_flag_sets_pattern_and_recursion() {
    let c = parse_args(&args(&["-R", "^src/.*\\.rs$", "."])).unwrap();
    assert!(c.recursive);
    assert_eq!(c.regex_pattern, Some("^src/.*\\.rs$".to_string()));
    assert_eq!(c.paths, args(&["."]));
}

#[test]
fn regex_pattern_may_start_with_dash_digit_or_r() {
    let c = parse_args(&args(&["-R", "-1", "-R", "-Rx"])).unwrap();
    assert_eq!(c.regex_pattern, Some("-Rx".to_string()));
}

#[test]
fn regex_flag_without_pattern_is_refused() {
    assert_eq!(parse_args(&args(&["a", "-R"])).unwrap_err(), ArgError::MissingPattern);
}

#[test]
fn regex_pattern_that_looks_like_flags_is_refused() {
    assert_eq!(
        parse_args(&args(&["-R", "-ri", "."])).unwrap_err(),
        ArgError::PatternLooksLikeFlags("-ri".to_string())
    );
}

#[test]
fn unknown_flag_letter_is_refused() {
    assert_eq!(
        parse_args(&args(&["-rx", "."])).unwrap_err(),
        ArgError::UnknownFlag("-rx".to_string(), 'x')
    );
}

#[test]
fn lone_dash_is_refused() {
    assert_eq!(parse_args(&args(&["-"])).unwrap_err(), ArgError::Malformed("-".to_string()));
}
