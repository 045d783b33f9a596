use rainbow::commands;
use rainbow::{search, search_case_insensitive};

#[test]
fn commands_case_sensitive() {
    let query = "duct";
    let contents = "\
Rust:
safe, fast, productive.
Pick three.
Duct tape.";

    assert_eq!(
        vec!["safe, fast, productive."],
        commands::search(query, contents)
    );
}

#[test]
fn commands_case_insensitive() {
    let query = "rUsT";
    let contents = "\
Rust:
safe, fast, productive.
Pick three.
Trust me.";

    assert_eq!(
        vec!["Rust:", "Trust me."],
        commands::search_case_insensitive(query, contents)
    );
}

#[test]
fn lib_case_sensitive() {
    let query = "duct";
    let contents = "\
Rust:
safe, fast, productive.
Pick three.
Duct tape.";

    assert_eq!(vec!["safe, fast, productive."], search(query, contents));
}

#[test]
fn lib_case_insensitive() {
    let query = "rUsT";
    let contents = "\
Rust:
safe, fast, productive.
Pick three.
Trust me.";

    assert_eq!(
        vec!["Rust:", "Trust me."],
        search_case_insensitive(query, contents)
    );
}

#[test]
fn search_reports_lines_in_order_and_keeps_duplicates() {
    assert_eq!(search("a", "a\nb\na\nba"), vec!["a", "a", "ba"]);
}

#[test]
fn search_with_empty_query_reports_every_line() {
    assert_eq!(search("", "one\n\ntwo\n"), vec!["one", "", "two"]);
}

#[test]
fn search_in_empty_contents_finds_nothing() {
    assert!(search("x", "").is_empty());
    assert!(search("", "").is_empty());
    assert!(search_case_insensitive("", "").is_empty());
}

#[test]
fn search_is_case_sensitive() {
    assert!(search("rust", "Rust:\nTRUST").is_empty());
}

#[test]
fn search_case_insensitive_lowers_both_sides() {
    assert_eq!(
        search_case_insensitive("STRASSE", "Hauptstrasse 1\nHauptstraße 2\nSTRASSENBAHN"),
        vec!["Hauptstrasse 1", "STRASSENBAHN"]
    );
    assert_eq!(search_case_insensitive("É", "café\nCAFÉ\ncafe"), vec!["café", "CAFÉ"]);
}

#[test]
fn search_agrees_with_the_standard_library() {
    let texts = [
        "",
        "\n",
        "\r\n",
        "a",
        "a\n",
        "a\r\n",
        "a\r",
        "a\rb\nc",
        "foo\nbar\n\r\nbaz\r",
        "\n\nfoo\n\n",
        "x\r\r\ny",
        "héllo wörld\nşimdi\n日本語のテキスト\n",
    ];
    let queries = ["", "a", "o", "\r", "ö", "本語", "foo", "zzz"];
    for text in texts {
        for query in queries {
            let expected: Vec<&str> = text.lines().filter(|l| l.contains(query)).collect();
            assert_eq!(search(query, text), expected, "{:?} in {:?}", query, text);
            let low = query.to_lowercase();
            let expected: Vec<&str> = text
                .lines()
                .filter(|l| l.to_lowercase().contains(&low))
                .collect();
            assert_eq!(search_case_insensitive(query, text), expected);
        }
    }
}
