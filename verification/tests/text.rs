use rainbow::text::{
    chars_of, contains, cut, is_whitespace, joined, lines, same_text, split,
    strip_carriage_return, trim,
};

#[test]
fn is_whitespace_agrees_with_the_standard_library() {
    for code in 0..=0x10FFFFu32 {
        if let Some(c) = char::from_u32(code) {
            assert_eq!(is_whitespace(c), c.is_whitespace(), "U+{code:04X}");
        }
    }
}

#[test]
fn chars_of_gives_the_characters() {
    assert_eq!(chars_of(""), Vec::<char>::new());
    assert_eq!(chars_of("aß日"), vec!['a', 'ß', '日']);
}

#[test]
fn same_text_compares_letter_for_letter() {
    assert!(same_text("", ""));
    assert!(same_text("Number", "Number"));
    assert!(!same_text("Number", "number"));
    assert!(!same_text("Number", "Numbe"));
    assert!(!same_text("Numbe", "Number"));
    assert!(!same_text("", "x"));
    assert!(same_text("日本", "日本"));
}

#[test]
fn joined_puts_one_text_behind_the_other() {
    assert_eq!(joined("ab", "cd"), "abcd");
    assert_eq!(joined("", ""), "");
    assert_eq!(joined("é", ""), "é");
}

#[test]
fn cut_cuts_at_the_first_separator() {
    assert_eq!(cut("a:b:c", ':'), Some(("a", "b:c")));
    assert_eq!(cut(":", ':'), Some(("", "")));
    assert_eq!(cut("abc", ':'), None);
    assert_eq!(cut("", ':'), None);
    assert_eq!(cut("名前:型", ':'), Some(("名前", "型")));
    assert_eq!(cut("a→b→c", '→'), Some(("a", "b→c")));
    assert_eq!(cut("é\né", '\n'), Some(("é", "é")));
}

#[test]
fn split_agrees_with_the_standard_library() {
    let texts = ["", ",", "a", "a,b", ",a,,b,", "a:b,c:d", "日本,語", ",,,", "é→è→", "→"];
    for text in texts {
        for sep in [',', ':', '→', 'a'] {
            let expected: Vec<&str> = text.split(sep).collect();
            assert_eq!(split(text, sep), expected, "{text:?} at {sep:?}");
        }
    }
}

#[test]
fn trim_agrees_with_the_standard_library() {
    let texts = [
        "",
        " ",
        "a",
        "  a  ",
        "\t a b \n",
        "\u{a0}x\u{2003}",
        "\u{3000}日本\u{3000}",
        " \u{85}\u{1680} ",
        "x \u{200b}",
        "\u{feff}x",
        "a\u{2028}",
    ];
    for text in texts {
        assert_eq!(trim(text), text.trim(), "{text:?}");
    }
}

#[test]
fn contains_agrees_with_the_standard_library() {
    let texts = ["", "a", "ab", "abcabd", "aaa", "safe, fast, productive.", "日本語", "aab"];
    let words = ["", "a", "b", "ab", "abd", "aaaa", "duct", "本", "本語", "ba", "aab"];
    for text in texts {
        for word in words {
            assert_eq!(contains(text, word), text.contains(word), "{word:?} in {text:?}");
        }
    }
}

#[test]
fn strip_carriage_return_takes_one_away() {
    assert_eq!(strip_carriage_return("a\r"), "a");
    assert_eq!(strip_carriage_return("a\r\r"), "a\r");
    assert_eq!(strip_carriage_return("\r"), "");
    assert_eq!(strip_carriage_return("a"), "a");
    assert_eq!(strip_carriage_return("\ra"), "\ra");
    assert_eq!(strip_carriage_return(""), "");
}

#[test]
fn lines_agree_with_the_standard_library() {
    let texts = [
        "",
        "\n",
        "\r\n",
        "\r",
        "a",
        "a\n",
        "a\r\n",
        "a\r",
        "a\nb",
        "a\r\nb\r\n",
        "foo\nbar\n\r\nbaz\r",
        "\n\n",
        "a\r\r\nb",
        "a\n\rb",
        "日本\n語\r\n",
    ];
    for text in texts {
        let expected: Vec<&str> = text.lines().collect();
        assert_eq!(lines(text), expected, "{text:?}");
    }
}

#[test]
fn lines_of_a_long_text() {
    let text = "line of text\n".repeat(20_000);
    let found = lines(&text);
    assert_eq!(found.len(), 20_000);
    assert!(found.iter().all(|line| *line == "line of text"));
}
