use minigrep::lines::split_first_line;
use minigrep::text::{contains, same_text};
use minigrep::{search, search_case_insensitive};

#[test]
fn one_result() {
    let query = "duct";
    let contents = "Rust:\nSafe, Fast, Productive.\nPick three.";

    assert_eq!(vec!["Safe, Fast, Productive."], search(query, contents));
}

#[test]
fn case_sensitive() {
    let query = "duct";
    let contents = "Rust:\nSafe, Fast, Productive.\nPick three.\nDuct tape.";

    assert_eq!(vec!["Safe, Fast, Productive."], search(query, contents))
}

#[test]
fn case_insensitive() {
    let query = "duct";
    let contents = "Rust:\nSafe, Fast, Productive.\nPick three.\nDuct tape.";

    assert_eq!(
        vec!["Safe, Fast, Productive.", "Duct tape."],
        search_case_insensitive(query, contents)
    )
}

#[test]
fn empty_query_returns_every_line() {
    let contents = "Rust:\nSafe, Fast, Productive.\n\nPick three.";
    assert_eq!(
        vec!["Rust:", "Safe, Fast, Productive.", "", "Pick three."],
        search("", contents)
    );
    assert_eq!(
        vec!["Rust:", "Safe, Fast, Productive.", "", "Pick three."],
        search_case_insensitive("", contents)
    );
}

#[test]
fn empty_contents_have_no_lines() {
    assert!(search("", "").is_empty());
    assert!(search("a", "").is_empty());
    assert!(search_case_insensitive("", "").is_empty());
}

#[test]
fn no_match_is_an_empty_result() {
    assert!(search("monomorphization", "Rust:\nSafe, Fast, Productive.").is_empty());
}

#[test]
fn result_holds_the_matching_lines_and_no_others() {
    let query = "an";
    let contents = "banana\ncherry\nmango\nplum\nan\nAN";
    let found = search(query, contents);
    assert_eq!(vec!["banana", "mango", "an"], found);
    for line in &found {
        assert!(line.contains(query));
    }
    for line in contents.lines() {
        assert_eq!(found.contains(&line), line.contains(query));
    }
}

#[test]
fn a_line_that_matches_twice_is_returned_once() {
    assert_eq!(vec!["banana"], search("an", "banana"));
    assert_eq!(vec!["aaaa"], search("aa", "aaaa\nb"));
}

#[test]
fn equal_lines_are_each_returned() {
    assert_eq!(vec!["ab", "ab"], search("a", "ab\ncd\nab"));
}

#[test]
fn a_final_line_feed_adds_no_line() {
    assert_eq!(vec!["one", "two"], search("", "one\ntwo\n"));
    assert_eq!(vec!["one", "two", ""], search("", "one\ntwo\n\n"));
    assert_eq!(vec![""], search("", "\n"));
    assert_eq!(vec!["", "x"], search("", "\nx"));
}

#[test]
fn a_carriage_return_before_a_line_feed_is_dropped() {
    assert_eq!(vec!["one", "two"], search("", "one\r\ntwo\r\n"));
    assert_eq!(vec!["one\r"], search("", "one\r\r\n"));
    assert_eq!(vec![""], search("", "\r\n"));
    assert!(search("\r", "one\r\ntwo").is_empty());
}

#[test]
fn a_carriage_return_elsewhere_stays() {
    assert_eq!(vec!["one\r"], search("", "one\r"));
    assert_eq!(vec!["a\rb", "c"], search("", "a\rb\nc"));
    assert_eq!(vec!["a", "\rb"], search("", "a\n\rb"));
    assert_eq!(vec!["one\r"], search("\r", "one\r"));
}

#[test]
fn lines_are_those_of_the_standard_library() {
    let texts = [
        "",
        "\n",
        "\r",
        "\r\n",
        "\n\r",
        "a",
        "a\n",
        "a\r\n",
        "a\r",
        "a\n\n",
        "a\r\n\r\n",
        "a\nb",
        "a\r\nb\r",
        "\n\na\n\nb\n\n",
        "h\u{e9}llo\nw\u{f6}rld\r\n\u{4e16}\u{754c}\n\u{1f600}",
        "tab\there\u{b}\u{c}\u{85}\u{2028}still one line",
    ];
    for text in texts {
        let expected: Vec<&str> = text.lines().collect();
        assert_eq!(expected, search("", text), "lines of {:?}", text);
    }
}

#[test]
fn the_query_is_not_found_across_lines() {
    assert!(search("ab", "a\nb").is_empty());
    assert!(search("a\nb", "a\nb").is_empty());
    assert!(search("\n", "a\nb").is_empty());
}

#[test]
fn search_compares_characters_of_any_width() {
    let contents = "caf\u{e9} au lait\ncafe\n\u{4e16}\u{754c}\u{4e16}\nna\u{ef}ve \u{1f600}!";
    assert_eq!(vec!["caf\u{e9} au lait"], search("\u{e9}", contents));
    assert_eq!(vec!["\u{4e16}\u{754c}\u{4e16}"], search("\u{754c}\u{4e16}", contents));
    assert_eq!(vec!["na\u{ef}ve \u{1f600}!"], search("\u{1f600}!", contents));
    assert!(search("\u{e8}", contents).is_empty());
}

#[test]
fn case_insensitive_lowers_the_query() {
    assert_eq!(vec!["duct tape"], search_case_insensitive("DUCT", "duct tape\nscotch"));
    assert!(search("DUCT", "duct tape\nscotch").is_empty());
}

#[test]
fn case_insensitive_lowers_each_line() {
    assert_eq!(vec!["DUCT TAPE"], search_case_insensitive("duct", "DUCT TAPE\nSCOTCH"));
    assert!(search("duct", "DUCT TAPE\nSCOTCH").is_empty());
}

#[test]
fn case_insensitive_returns_lines_as_they_stand() {
    assert_eq!(
        vec!["RuSt", "TRUST me"],
        search_case_insensitive("rUsT", "RuSt\ndust\nTRUST me")
    );
}

#[test]
fn case_insensitive_folds_beyond_ascii() {
    assert_eq!(
        vec!["\u{c9}COLE", "\u{e9}cole"],
        search_case_insensitive("\u{e9}Cole", "\u{c9}COLE\n\u{e9}cole\necole")
    );
    // A capital I with a dot above becomes two characters in lowercase.
    assert_eq!(
        vec!["\u{130}stanbul"],
        search_case_insensitive("i\u{307}s", "\u{130}stanbul\nistanbul")
    );
}

#[test]
fn case_insensitive_finds_what_the_exact_search_finds() {
    let contents = "Rust:\nSafe, Fast, Productive.\nPick three.\nDuct tape.\nTrust me.";
    for query in ["duct", "Duct", "rust", "Rust", "e", "T", "", "."] {
        let exact = search(query, contents);
        let folded = search_case_insensitive(query, contents);
        let mut rest = folded.iter();
        for line in &exact {
            assert!(rest.any(|other| other == line), "{:?} lost {:?}", query, line);
        }
    }
}

#[test]
fn a_final_sigma_is_lowered_by_its_place_in_the_word() {
    // Alone, a capital sigma becomes the common small sigma; at the end of a
    // word it becomes the final form, which the lowered query does not hold.
    let query = "\u{3a3}";
    let contents = "\u{391}\u{3a3}";
    assert_eq!(vec![contents], search(query, contents));
    assert!(search_case_insensitive(query, contents).is_empty());
}

#[test]
fn contains_finds_a_run_of_characters() {
    assert!(contains("hello", "ell"));
    assert!(contains("hello", "hello"));
    assert!(contains("hello", "h"));
    assert!(contains("hello", "o"));
    assert!(contains("hello", "lo"));
    assert!(!contains("hello", "hellos"));
    assert!(!contains("hello", "elo"));
    assert!(!contains("hello", "L"));
    assert!(!contains("", "a"));
    assert!(contains("aab", "ab"));
    assert!(contains("abababc", "ababc"));
}

#[test]
fn contains_finds_the_empty_string_everywhere() {
    assert!(contains("hello", ""));
    assert!(contains("", ""));
}

#[test]
fn contains_agrees_with_the_standard_library() {
    let words = [
        "",
        "a",
        "ab",
        "ba",
        "aba",
        "\u{e9}",
        "a\u{e9}",
        "\u{e9}a",
        "\u{4e16}\u{754c}",
        "\u{754c}",
        "\u{1f600}",
    ];
    for hay in words {
        for needle in words {
            assert_eq!(hay.contains(needle), contains(hay, needle), "{:?} in {:?}", needle, hay);
        }
    }
}

#[test]
fn same_text_compares_all_characters() {
    assert!(same_text("", ""));
    assert!(same_text("IGNORE_CASE", "IGNORE_CASE"));
    assert!(!same_text("IGNORE_CASE", "IGNORE_CASE "));
    assert!(!same_text("IGNORE_CASE", "ignore_case"));
    assert!(!same_text("IGNORE_CASE", "IGNORE_CASF"));
    assert!(!same_text("a", ""));
    assert!(same_text("\u{e9}t\u{e9}", "\u{e9}t\u{e9}"));
}

#[test]
fn split_first_line_cuts_at_the_first_line_feed() {
    assert_eq!(("one", "two\nthree"), split_first_line("one\ntwo\nthree"));
    assert_eq!(("one", "two"), split_first_line("one\r\ntwo"));
    assert_eq!(("", "two"), split_first_line("\ntwo"));
    assert_eq!(("", ""), split_first_line("\r\n"));
    assert_eq!(("one", ""), split_first_line("one\n"));
    assert_eq!(("\u{e9}t\u{e9}", "\u{4e16}"), split_first_line("\u{e9}t\u{e9}\n\u{4e16}"));
}

#[test]
fn split_first_line_keeps_a_text_without_line_feed() {
    assert_eq!(("one", ""), split_first_line("one"));
    assert_eq!(("one\r", ""), split_first_line("one\r"));
    assert_eq!(("", ""), split_first_line(""));
}
