use minigrep::search;
use minigrep::search_case_insensitive;
use minigrep::search_config;
use minigrep::Config;

#[test]
fn case_sensitive() {
    let query = "duct";
    let contents = "\
Rust:
safe, fast, productive.
Pick three.
Duct tape";

    assert_eq!(vec!["safe, fast, productive."], search(query, contents));
}

#[test]
fn case_insensitive() {
    let query = "rUsT";
    let contents = "\
Rust:
safe, fast, productive.
Trust me.";

    assert_eq!(
        vec!["Rust:", "Trust me."],
        search_case_insensitive(query, contents)
    );
}

#[test]
fn empty_contents_yield_nothing() {
    assert!(search("anything", "").is_empty());
    assert!(search_case_insensitive("anything", "").is_empty());
    assert!(search("", "").is_empty());
}

#[test]
fn query_equal_to_a_line_matches_it() {
    let contents = "Rust:\nsafe, fast, productive.\nPick three.";

    let results = search("Pick three.", contents);
    assert_eq!(vec!["Pick three."], results);
}

#[test]
fn empty_query_matches_every_line() {
    let contents = "one\ntwo\nthree";

    assert_eq!(vec!["one", "two", "three"], search("", contents));
}

#[test]
fn sensitive_matches_are_also_insensitive_matches() {
    let query = "rust";
    let contents = "Rust:\ntrust me\nnothing here\nRUST AND rust";

    let sensitive = search(query, contents);
    let insensitive = search_case_insensitive(query, contents);
    assert_eq!(vec!["Rust:", "trust me", "RUST AND rust"], insensitive);
    for line in sensitive {
        assert!(insensitive.contains(&line));
    }
}

#[test]
fn trailing_newline_adds_no_empty_line() {
    assert_eq!(vec!["a", "b"], search("", "a\nb\n"));
}

#[test]
fn carriage_returns_are_stripped_before_line_feeds() {
    let contents = "alpha\r\nbeta\r\ngamma";

    assert_eq!(vec!["alpha", "beta", "gamma"], search("", contents));
    assert_eq!(vec!["beta"], search("bet", contents));
}

#[test]
fn lone_carriage_return_is_kept() {
    let contents = "one\rtwo\nthree";

    assert_eq!(vec!["one\rtwo", "three"], search("", contents));
}

#[test]
fn search_config_selects_the_variant() {
    let contents = "Rust:\nsafe, fast, productive.\nTrust me.";

    let sensitive = Config {
        query: "rUsT".to_string(),
        filename: "poem.txt".to_string(),
        case_sensitive: true,
    };
    assert!(search_config(&sensitive, contents).is_empty());

    let insensitive = Config {
        query: "rUsT".to_string(),
        filename: "poem.txt".to_string(),
        case_sensitive: false,
    };
    assert_eq!(
        vec!["Rust:", "Trust me."],
        search_config(&insensitive, contents)
    );
}

#[test]
fn folding_is_not_limited_to_ascii() {
    let contents = "\u{c4}rger\nnothing here";

    assert_eq!(
        vec!["\u{c4}rger"],
        search_case_insensitive("\u{e4}", contents)
    );
    assert!(search("\u{e4}", contents).is_empty());
}

#[test]
fn queries_with_equal_lowercase_forms_agree() {
    let contents = "\u{e4}pfel\nbirnen";

    assert_eq!(
        search_case_insensitive("\u{e4}", contents),
        search_case_insensitive("\u{c4}", contents)
    );
    assert_eq!(
        vec!["\u{e4}pfel"],
        search_case_insensitive("\u{c4}", contents)
    );
}

#[test]
fn repeated_matching_lines_are_kept_in_order() {
    let contents = "echo\nother\necho\necho";

    assert_eq!(vec!["echo", "echo", "echo"], search("echo", contents));
}
