use minigrep::config::ArgumentError;
use minigrep::config::Config;

#[test]
fn missing_query_is_reported_before_any_file_access() {
    let args = vec![String::from("minigrep")];
    assert_eq!(Err(ArgumentError::MissingQuery), Config::build(&args, false).map(|_| ()));

    let no_args: Vec<String> = Vec::new();
    assert_eq!(Err(ArgumentError::MissingQuery), Config::build(&no_args, false).map(|_| ()));
}

#[test]
fn missing_file_path_is_reported_before_any_file_access() {
    let args = vec![String::from("minigrep"), String::from("query")];
    assert_eq!(Err(ArgumentError::MissingFilePath), Config::build(&args, false).map(|_| ()));
}

#[test]
fn build_keeps_the_arguments() {
    let args = vec![
        String::from("minigrep"),
        String::from("needle"),
        String::from("haystack.txt"),
    ];
    let cfg = Config::build(&args, false).unwrap();
    assert_eq!("needle", cfg.query);
    assert_eq!("haystack.txt", cfg.file_path);
    assert!(!cfg.ignore_case);
}

#[test]
fn build_keeps_the_case_flag() {
    let args = vec![
        String::from("minigrep"),
        String::from("needle"),
        String::from("haystack.txt"),
    ];
    let cfg = Config::build(&args, true).unwrap();
    assert!(cfg.ignore_case);
}
