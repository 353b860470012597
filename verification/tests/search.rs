use minigrep::lines::{split_lines, strip_carriage_return};
use minigrep::case::{lower, lowercase_chars};
use minigrep::search::{chars_contain, line_contains, same_text};
use minigrep::{search, search_case_insensitive};

#[test]
fn case_sensitive() {
    let query = "duct";
    let contents = "\
Rust:
safe, fast, productive,
Pick three.
Duct tape.";

    assert_eq!(vec!["safe, fast, productive,"], search(query, contents));
}

#[test]
fn case_insensitive() {
    let query = "rUsT";
    let contents = "\
Rust:
safe, fast, productive,
Pick three.
Trust me.";

    assert_eq!(
        vec!["Rust:", "Trust me."],
        search_case_insensitive(query, contents)
    )
}

#[test]
fn exact_search_leaves_out_other_case() {
    let contents = "Rust:\nsafe, fast, productive,\nPick three.\nTrust me.";
    assert_eq!(Vec::<&str>::new(), search("rUsT", contents));
    assert_eq!(vec!["Trust me."], search("rust", contents));
}

#[test]
fn no_line_matches() {
    let contents = "one\ntwo\nthree\n";
    assert_eq!(Vec::<&str>::new(), search("four", contents));
    assert_eq!(Vec::<&str>::new(), search_case_insensitive("four", contents));
}

#[test]
fn empty_query_matches_every_line() {
    let contents = "one\n\nthree\n";
    assert_eq!(vec!["one", "", "three"], search("", contents));
    assert_eq!(vec!["one", "", "three"], search_case_insensitive("", contents));
}

#[test]
fn empty_contents_have_no_lines() {
    assert_eq!(Vec::<&str>::new(), search("", ""));
    assert_eq!(Vec::<&str>::new(), search_case_insensitive("", ""));
    assert_eq!(Vec::<&str>::new(), split_lines(""));
}

#[test]
fn matching_lines_keep_order_and_repeats() {
    let contents = "ab\nxx\nab\ncab\nabab\n";
    assert_eq!(vec!["ab", "ab", "cab", "abab"], search("ab", contents));
}

#[test]
fn line_with_several_occurrences_comes_once() {
    assert_eq!(vec!["abababab"], search("ab", "abababab\nnothing"));
}

#[test]
fn line_is_returned_as_it_stands() {
    let contents = "  padded line  \n\tTabbed\n";
    assert_eq!(vec!["  padded line  "], search("line", contents));
    assert_eq!(vec!["\tTabbed"], search_case_insensitive("TABBED", contents));
}

#[test]
fn query_does_not_match_across_lines() {
    assert_eq!(Vec::<&str>::new(), search("ab", "a\nb"));
    assert_eq!(Vec::<&str>::new(), search("a\nb", "a\nb"));
}

#[test]
fn case_insensitive_finds_what_exact_search_finds() {
    let contents = "Rust:\nsafe, fast, productive,\nPick three.\nTrust me.\nrust and Rust\n\u{0391}\u{03A3}\u{0391}\n\u{0391}\u{03A3}\n\u{0130}stanbul\n\u{00C9}cole";
    let queries = [
        "Rust",
        "rust",
        "t",
        "T",
        "Pick",
        ",",
        "",
        "zzz",
        "\u{03A3}",
        "\u{0391}\u{03A3}",
        "\u{03A3}\u{0391}",
        "\u{0130}",
        "\u{0130}s",
        "\u{00C9}c",
    ];
    for query in queries {
        let exact = search(query, contents);
        let loose = search_case_insensitive(query, contents);
        let kept: Vec<&str> = loose.iter().copied().filter(|line| line.contains(query)).collect();
        assert_eq!(exact, kept);
        for line in exact {
            assert!(loose.contains(&line));
        }
    }
}

#[test]
fn capital_sigma_inside_a_word() {
    let query = "\u{0391}\u{03A3}";
    let contents = "\u{0391}\u{03A3}\u{0391}";
    assert_eq!(vec![contents], search(query, contents));
    assert_eq!(vec![contents], search_case_insensitive(query, contents));
}

#[test]
fn capital_sigma_at_the_end_of_a_word() {
    // A sigma is lowered in the same way wherever it stands in a word.
    let contents = "\u{0391}\u{03A3}";
    let query = "\u{03A3}";
    assert_eq!(vec![contents], search(query, contents));
    assert_eq!(vec![contents], search_case_insensitive(query, contents));
    assert_eq!(vec![contents], search_case_insensitive("\u{03C3}", contents));
    assert_eq!(vec![contents], search_case_insensitive("\u{03B1}\u{03C3}", contents));
    assert_eq!(Vec::<&str>::new(), search_case_insensitive("\u{03C2}", contents));
}

#[test]
fn capital_i_with_dot_lowers_to_one_character() {
    let contents = "\u{0130}stanbul\nistanbul";
    assert_eq!(vec!["\u{0130}stanbul", "istanbul"], search_case_insensitive("ist", contents));
    assert_eq!(
        vec!["\u{0130}stanbul", "istanbul"],
        search_case_insensitive("\u{0130}ST", contents)
    );
    assert_eq!(vec!["\u{0130}stanbul"], search("\u{0130}", contents));
    assert_eq!(Vec::<&str>::new(), search_case_insensitive("i\u{0307}", contents));
}

#[test]
fn lower_gives_one_character() {
    assert_eq!('a', lower('A'));
    assert_eq!('z', lower('Z'));
    assert_eq!('a', lower('a'));
    assert_eq!('@', lower('@'));
    assert_eq!('[', lower('['));
    assert_eq!('7', lower('7'));
    assert_eq!('\n', lower('\n'));
    assert_eq!('\u{00E9}', lower('\u{00C9}'));
    assert_eq!('\u{03C3}', lower('\u{03A3}'));
    assert_eq!('\u{03C2}', lower('\u{03C2}'));
    assert_eq!('i', lower('\u{0130}'));
    assert_eq!('\u{65E5}', lower('\u{65E5}'));
}

#[test]
fn lowercase_chars_lowers_each_character() {
    assert_eq!(Vec::<char>::new(), lowercase_chars(""));
    assert_eq!(vec!['r', 'u', 's', 't', ':', ' ', '1'], lowercase_chars("rUsT: 1"));
    assert_eq!(vec!['\u{03B1}', '\u{03C3}'], lowercase_chars("\u{0391}\u{03A3}"));
    assert_eq!(vec!['i', 's'], lowercase_chars("\u{0130}S"));
    for text in ["HELLO, World!", "\u{00C9}COLE", "stra\u{00DF}e", "\u{65E5}\u{672C}"] {
        let expected: Vec<char> = text.to_lowercase().chars().collect();
        assert_eq!(expected, lowercase_chars(text));
    }
}

#[test]
fn chars_contain_finds_parts() {
    let hay = ['a', 'b', 'a', 'b', 'c'];
    assert!(chars_contain(&hay, &[]));
    assert!(chars_contain(&hay, &['a']));
    assert!(chars_contain(&hay, &['a', 'b', 'c']));
    assert!(chars_contain(&hay, &['b', 'c']));
    assert!(chars_contain(&hay, &hay));
    assert!(!chars_contain(&hay, &['a', 'c']));
    assert!(!chars_contain(&hay, &['c', 'a']));
    assert!(!chars_contain(&hay, &['a', 'b', 'a', 'b', 'c', 'a']));
    assert!(chars_contain(&[], &[]));
    assert!(!chars_contain(&[], &['a']));
}

#[test]
fn query_in_capitals_finds_the_same_lines() {
    let contents = "Rust:\nsafe, fast, productive,\nPick three.\nTrust me.\nA1-b2";
    for query in ["rust", "rUsT", "pick THREE.", "a1-B2", "", "fast, "] {
        assert_eq!(
            search_case_insensitive(query, contents),
            search_case_insensitive(&query.to_uppercase(), contents)
        );
    }
    assert_eq!(vec!["Rust:", "Trust me."], search_case_insensitive("RUST", contents));
}

#[test]
fn case_insensitive_beyond_ascii() {
    let contents = "\u{00C9}cole\ncaf\u{00E9}\nplain";
    assert_eq!(vec!["\u{00C9}cole"], search_case_insensitive("\u{00E9}COLE", contents));
    assert_eq!(vec!["caf\u{00E9}"], search_case_insensitive("CAF\u{00C9}", contents));
    assert_eq!(Vec::<&str>::new(), search("\u{00E9}cole", contents));
}

#[test]
fn lines_end_with_line_feed_or_carriage_return_and_line_feed() {
    assert_eq!(vec!["a", "b", "c"], split_lines("a\nb\r\nc"));
    assert_eq!(vec!["a", "b", "c"], split_lines("a\nb\r\nc\n"));
    assert_eq!(vec!["a", "b", "c"], split_lines("a\nb\r\nc\r\n"));
}

#[test]
fn trailing_line_feed_adds_no_line() {
    assert_eq!(vec!["only"], split_lines("only\n"));
    assert_eq!(vec!["only"], split_lines("only"));
    assert_eq!(vec![""], split_lines("\n"));
    assert_eq!(vec!["", ""], split_lines("\n\n"));
    assert_eq!(vec!["a", "", "b"], split_lines("a\n\nb"));
}

#[test]
fn carriage_return_alone_stays_in_the_line() {
    assert_eq!(vec!["a\rb"], split_lines("a\rb\n"));
    assert_eq!(vec!["a\r"], split_lines("a\r"));
    assert_eq!(vec!["a\r"], split_lines("a\r\r\n"));
    assert_eq!(vec!["\r"], split_lines("\r"));
    assert_eq!(vec![""], split_lines("\r\n"));
}

#[test]
fn lines_agree_with_the_standard_library() {
    let texts = [
        "",
        "\n",
        "\r\n",
        "\r",
        "one",
        "one\n",
        "one\r\n",
        "one\r",
        "one\ntwo",
        "one\r\ntwo\r\n",
        "one\n\ntwo\n\n",
        "\none\n",
        "a\rb\nc\r\r\nd",
        "caf\u{00E9}\n\u{65E5}\u{672C}\u{8A9E}\r\n\u{1F600} end\n",
    ];
    for text in texts {
        let expected: Vec<&str> = text.lines().collect();
        assert_eq!(expected, split_lines(text));
    }
}

#[test]
fn lines_are_slices_of_the_text() {
    let text = String::from("first\nsecond\r\nthird");
    let lines = split_lines(&text);
    assert_eq!(3, lines.len());
    let start = text.as_ptr() as usize;
    assert_eq!(start, lines[0].as_ptr() as usize);
    assert_eq!(start + 6, lines[1].as_ptr() as usize);
    assert_eq!(start + 14, lines[2].as_ptr() as usize);
}

#[test]
fn strip_carriage_return_takes_one_from_the_end() {
    assert_eq!("abc", strip_carriage_return("abc\r"));
    assert_eq!("abc\r", strip_carriage_return("abc\r\r"));
    assert_eq!("abc", strip_carriage_return("abc"));
    assert_eq!("\rabc", strip_carriage_return("\rabc"));
    assert_eq!("", strip_carriage_return("\r"));
    assert_eq!("", strip_carriage_return(""));
    assert_eq!("\u{00E9}", strip_carriage_return("\u{00E9}\r"));
}

#[test]
fn line_contains_finds_parts() {
    assert!(line_contains("safe, fast, productive,", "duct"));
    assert!(line_contains("safe, fast, productive,", "safe"));
    assert!(line_contains("safe, fast, productive,", "ive,"));
    assert!(line_contains("safe, fast, productive,", "safe, fast, productive,"));
    assert!(line_contains("abc", ""));
    assert!(line_contains("", ""));
    assert!(!line_contains("", "a"));
    assert!(!line_contains("abc", "abcd"));
    assert!(!line_contains("abc", "ac"));
    assert!(!line_contains("Duct tape.", "duct"));
    assert!(line_contains("aab", "ab"));
    assert!(line_contains("ababac", "abac"));
}

#[test]
fn line_contains_beyond_ascii() {
    assert!(line_contains("caf\u{00E9} au lait", "\u{00E9} au"));
    assert!(line_contains("\u{65E5}\u{672C}\u{8A9E}", "\u{672C}"));
    assert!(!line_contains("\u{65E5}\u{672C}\u{8A9E}", "\u{672D}"));
    assert!(!line_contains("caf\u{00E9}", "cafe"));
    assert!(line_contains("\u{1F600}\u{1F601}", "\u{1F601}"));
}

#[test]
fn line_contains_agrees_with_the_standard_library() {
    let lines = ["", "a", "ab", "ba", "aaa", "abab", "caf\u{00E9}", "\u{00E9}\u{00E8}", "x\u{1F600}y"];
    let queries = ["", "a", "b", "ab", "aa", "bab", "\u{00E9}", "\u{00E8}", "\u{1F600}y", "f\u{00E9}"];
    for line in lines {
        for query in queries {
            assert_eq!(line.contains(query), line_contains(line, query));
        }
    }
}

#[test]
fn same_text_tells_texts_apart() {
    assert!(same_text("", ""));
    assert!(same_text("-i", "-i"));
    assert!(!same_text("-i", "-I"));
    assert!(!same_text("-i", "-ii"));
    assert!(!same_text("-i", ""));
    assert!(!same_text("ab", "ba"));
    assert!(same_text("caf\u{00E9}", "caf\u{00E9}"));
    assert!(!same_text("caf\u{00E9}", "caf\u{00E8}"));
}
