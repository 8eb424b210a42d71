use head_panner::text::{
    chars_of, contains, find_second_word, is_whitespace, line_spans, matches_at, skip_run,
    starts_with, string_of, stripped_len, Span,
};

fn chars(s: &str) -> Vec<char> {
    s.chars().collect()
}

fn lines_by_spans(text: &str) -> Vec<String> {
    let cs = chars(text);
    let mut out = Vec::new();
    for span in line_spans(&cs) {
        out.push(cs[span.start..span.end].iter().collect::<String>());
    }
    out
}

fn second_word_of(line: &str) -> Option<String> {
    let cs = chars(line);
    match find_second_word(&cs) {
        Some(span) => Some(cs[span.start..span.end].iter().collect()),
        None => None,
    }
}

#[test]
fn whitespace_agrees_with_the_standard_library_on_every_char() {
    for code in 0u32..=0x10FFFF {
        if let Some(c) = char::from_u32(code) {
            assert_eq!(is_whitespace(c), c.is_whitespace(), "U+{:04X}", code);
        }
    }
}

#[test]
fn whitespace_examples() {
    assert!(is_whitespace(' '));
    assert!(is_whitespace('\t'));
    assert!(is_whitespace('\n'));
    assert!(is_whitespace('\r'));
    assert!(is_whitespace('\u{00A0}'));
    assert!(is_whitespace('\u{3000}'));
    assert!(!is_whitespace('a'));
    assert!(!is_whitespace(','));
    assert!(!is_whitespace('\u{200B}'));
    assert!(!is_whitespace('\u{1B}'));
}

#[test]
fn chars_and_back() {
    let text = "id 42, \u{1F3A7} caf\u{E9}";
    let cs = chars_of(text);
    assert_eq!(cs, chars(text));
    assert_eq!(cs.len(), 13);
    assert_eq!(string_of(&cs), text);
    assert_eq!(string_of(&cs[3..5]), "42");
    assert_eq!(string_of(&[]), "");
    assert_eq!(chars_of(""), Vec::<char>::new());
}

#[test]
fn string_of_does_not_hand_back_a_prefix() {
    let cs = vec!['a', 'b', 'c'];
    let s = string_of(&cs);
    assert_eq!(s.len(), 3);
    assert_eq!(s, "abc");
}

#[test]
fn skip_run_walks_over_one_kind() {
    let cs = chars("  \tid 42,  x");
    assert_eq!(skip_run(&cs, 0, true), 3);
    assert_eq!(skip_run(&cs, 0, false), 0);
    assert_eq!(skip_run(&cs, 3, false), 5);
    assert_eq!(skip_run(&cs, 3, true), 3);
    assert_eq!(skip_run(&cs, 5, true), 6);
    assert_eq!(skip_run(&cs, 6, false), 9);
    assert_eq!(skip_run(&cs, 9, true), 11);
    assert_eq!(skip_run(&cs, 11, false), 12);
    assert_eq!(skip_run(&cs, 12, false), 12);
    assert_eq!(skip_run(&cs, 12, true), 12);
    assert_eq!(skip_run(&chars("   "), 0, true), 3);
    assert_eq!(skip_run(&cs, 40, true), 40);
    assert_eq!(skip_run(&cs, 40, false), 40);
}

#[test]
fn matches_at_compares_in_place() {
    let hay = chars("media.class = x");
    assert!(matches_at(&hay, 0, &chars("media")));
    assert!(matches_at(&hay, 6, &chars("class")));
    assert!(!matches_at(&hay, 5, &chars("class")));
    assert!(matches_at(&hay, 14, &chars("x")));
    assert!(matches_at(&hay, 15, &chars("")));
    assert!(matches_at(&hay, 0, &hay));
    assert!(!matches_at(&hay, 12, &chars("= xy")));
    assert!(!matches_at(&hay, 16, &chars("")));
    assert!(!matches_at(&hay, usize::MAX, &chars("x")));
    assert!(!matches_at(&chars("ab"), 0, &chars("abc")));
}

#[test]
fn starts_with_examples() {
    assert!(starts_with(&chars("id 42"), &chars("id")));
    assert!(starts_with(&chars("id"), &chars("id")));
    assert!(starts_with(&chars("idle"), &chars("id")));
    assert!(starts_with(&chars("x"), &chars("")));
    assert!(starts_with(&chars(""), &chars("")));
    assert!(!starts_with(&chars("i"), &chars("id")));
    assert!(!starts_with(&chars(" id"), &chars("id")));
    assert!(!starts_with(&chars("Id 42"), &chars("id")));
}

#[test]
fn contains_agrees_with_the_standard_library() {
    let hays = ["", "a", "ab", "aab", "abab", "media.class = \"Stream/Output/Audio\"", "aaa", "xyz"];
    let needles = ["", "a", "b", "ab", "ba", "aab", "abc", "media.class", "Stream/Output/Audio", "aaaa", "z"];
    for hay in hays {
        for needle in needles {
            assert_eq!(
                contains(&chars(hay), &chars(needle)),
                hay.contains(needle),
                "{:?} in {:?}",
                needle,
                hay
            );
        }
    }
}

#[test]
fn contains_finds_a_match_at_the_very_end() {
    assert!(contains(&chars("xxNode"), &chars("Node")));
    assert!(!contains(&chars("xxNod"), &chars("Node")));
    assert!(!contains(&chars("Nod"), &chars("Node")));
}

#[test]
fn stripped_len_drops_trailing_commas() {
    assert_eq!(stripped_len(&chars("42,"), ','), 2);
    assert_eq!(stripped_len(&chars("42,,,"), ','), 2);
    assert_eq!(stripped_len(&chars("42"), ','), 2);
    assert_eq!(stripped_len(&chars("4,2"), ','), 3);
    assert_eq!(stripped_len(&chars(",42"), ','), 3);
    assert_eq!(stripped_len(&chars(",,"), ','), 0);
    assert_eq!(stripped_len(&chars(""), ','), 0);
}

#[test]
fn stripping_agrees_with_the_standard_library() {
    for word in ["42,", "42,,", ",", "", "a,b,", ",a", "55"] {
        let cs = chars(word);
        let end = stripped_len(&cs, ',');
        let kept: String = cs[..end].iter().collect();
        assert_eq!(kept, word.trim_end_matches(','));
    }
}

#[test]
fn second_word_examples() {
    assert_eq!(second_word_of("\tid 42, type PipeWire:Interface:Node/3"), Some("42,".to_string()));
    assert_eq!(second_word_of("id 7"), Some("7".to_string()));
    assert_eq!(second_word_of("  a\u{00A0}b  "), Some("b".to_string()));
    assert_eq!(second_word_of("one"), None);
    assert_eq!(second_word_of("  one  "), None);
    assert_eq!(second_word_of(""), None);
    assert_eq!(second_word_of("   "), None);
}

#[test]
fn second_word_span_is_never_empty() {
    let cs = chars(" id  31, type");
    assert_eq!(find_second_word(&cs), Some(Span { start: 5, end: 8 }));
}

#[test]
fn second_word_agrees_with_the_standard_library() {
    let lines = [
        "", " ", "a", "a b", " a b ", "a\tb\tc", "\t\tid 31, type X", "id\r42", "x  \u{2003}y",
        "trailing ", "  lead", "a ,", "mixed \u{1F3A7} emoji",
    ];
    for line in lines {
        let expected = line.split_whitespace().nth(1).map(|w| w.to_string());
        assert_eq!(second_word_of(line), expected, "{:?}", line);
    }
}

#[test]
fn lines_examples() {
    assert_eq!(lines_by_spans(""), Vec::<String>::new());
    assert_eq!(lines_by_spans("abc"), vec!["abc"]);
    assert_eq!(lines_by_spans("abc\n"), vec!["abc"]);
    assert_eq!(lines_by_spans("abc\ndef"), vec!["abc", "def"]);
    assert_eq!(lines_by_spans("abc\r\ndef\r\n"), vec!["abc", "def"]);
    assert_eq!(lines_by_spans("\n"), vec![""]);
    assert_eq!(lines_by_spans("\n\n"), vec!["", ""]);
    assert_eq!(lines_by_spans("a\n\nb"), vec!["a", "", "b"]);
    assert_eq!(lines_by_spans("a\r"), vec!["a\r"]);
    assert_eq!(lines_by_spans("a\r\r\nb"), vec!["a\r", "b"]);
    assert_eq!(lines_by_spans("\r\n"), vec![""]);
}

#[test]
fn line_spans_point_into_the_text() {
    let cs = chars("ab\r\n\ncd");
    assert_eq!(
        line_spans(&cs),
        vec![Span { start: 0, end: 2 }, Span { start: 4, end: 4 }, Span { start: 5, end: 7 }]
    );
}

#[test]
fn lines_agree_with_the_standard_library() {
    let texts = [
        "", "\n", "\r", "\r\n", "a", "a\n", "a\r\n", "a\nb", "a\n\n", "\n\na", "a\rb\n", "a\n\rb",
        "\u{1F3A7}\n\u{E9}\r\n", "x\r\r\n\r\ny\r", "one\ntwo\nthree\n",
    ];
    for text in texts {
        let expected: Vec<String> = text.lines().map(|l| l.to_string()).collect();
        assert_eq!(lines_by_spans(text), expected, "{:?}", text);
    }
}
