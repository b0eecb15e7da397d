use minigrep::config::Config;
use minigrep::search::filter_lines;
use minigrep::search::filter_lines_case_insensitive;
use minigrep::search::run;
use minigrep::search::search;
use minigrep::search::search_case_insensitive;
use minigrep::text::split_lines;

#[test]
fn one_result() {
    let query = "duct";
    let contents = "Rust:\nsafe. fast. productive.\nPick three.";

    assert_eq!(vec![String::from("safe. fast. productive.")], search(query, contents));
}

#[test]
fn case_insensitive() {
    let query = "rUsT";
    let contents = "Rust:\nsafe. fast. productive.\nPick three.\nTrust me.";

    assert_eq!(
        vec![String::from("Rust:"), String::from("Trust me.")],
        search_case_insensitive(query, contents)
    );
}

#[test]
fn empty_query_matches_every_line() {
    let contents = "one\ntwo\nthree";
    assert_eq!(
        vec![String::from("one"), String::from("two"), String::from("three")],
        search("", contents)
    );
}

#[test]
fn no_match_is_empty() {
    let contents = "one\ntwo\nthree";
    assert_eq!(Vec::<String>::new(), search("four", contents));
    assert_eq!(Vec::<String>::new(), search_case_insensitive("four", contents));
}

#[test]
fn sensitive_result_is_subset_of_insensitive() {
    let query = "Pro";
    let contents = "Proof\nproof\nPROOF\nnothing here";
    let exact = search(query, contents);
    let folded = search_case_insensitive(query, contents);
    assert_eq!(vec![String::from("Proof")], exact);
    assert_eq!(
        vec![String::from("Proof"), String::from("proof"), String::from("PROOF")],
        folded
    );
    for line in &exact {
        assert!(folded.contains(line));
    }
}

#[test]
fn filtering_is_idempotent() {
    let query = "us";
    let lines = vec![
        String::from("Rust:"),
        String::from("safe. fast. productive."),
        String::from("Trust me."),
    ];
    let once = filter_lines(query, &lines);
    let twice = filter_lines(query, &once);
    assert_eq!(once, twice);

    let once_ci = filter_lines_case_insensitive("RU", &lines);
    let twice_ci = filter_lines_case_insensitive("RU", &once_ci);
    assert_eq!(once_ci, twice_ci);
}

#[test]
fn split_lines_drops_trailing_newline() {
    assert_eq!(
        vec![String::from("a"), String::from("b")],
        split_lines("a\nb\n")
    );
}

#[test]
fn split_lines_handles_carriage_returns() {
    assert_eq!(
        vec![String::from("a"), String::from("b"), String::from("")],
        split_lines("a\r\nb\n\n")
    );
    // A carriage return not followed by a line feed stays in the line.
    assert_eq!(vec![String::from("a\rb")], split_lines("a\rb"));
    assert_eq!(vec![String::from("a\r")], split_lines("a\r"));
}

#[test]
fn split_lines_of_empty_document_is_empty() {
    assert_eq!(Vec::<String>::new(), split_lines(""));
}

#[test]
fn run_obeys_the_case_flag() {
    let args = vec![
        String::from("minigrep"),
        String::from("rUsT"),
        String::from("poem.txt"),
    ];
    let contents = "Rust:\nsafe. fast. productive.\nPick three.\nTrust me.";

    let exact_cfg = Config::build(&args, false).unwrap();
    assert_eq!(Vec::<String>::new(), run(&exact_cfg, contents));

    let folded_cfg = Config::build(&args, true).unwrap();
    assert_eq!(
        vec![String::from("Rust:"), String::from("Trust me.")],
        run(&folded_cfg, contents)
    );
}

#[test]
fn search_returns_lines_unmodified() {
    let contents = "  padded line with duct  \nno match";
    assert_eq!(
        vec![String::from("  padded line with duct  ")],
        search("duct", contents)
    );
}
