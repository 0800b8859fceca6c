use hermes_index::text::{
    char_count, char_is_whitespace, chars_of, extract_title, is_blank_text, push_chars, string_of,
    word_count, TITLE_LIMIT,
};

fn title_by_std(content: &str) -> String {
    for line in content.lines() {
        let trimmed = line.trim();
        if trimmed.is_empty() {
            continue;
        }
        let rest = trimmed.trim_start_matches('#').trim();
        if rest.is_empty() {
            continue;
        }
        return rest.chars().take(120).collect();
    }
    String::new()
}

fn samples() -> Vec<String> {
    let mut all: Vec<String> = vec![
        "",
        " ",
        "\n",
        "\n\n   \n",
        "# Hello World\n\nBody",
        "Hello",
        "  Hello  ",
        "###",
        "### \n## \n# Third",
        "# #",
        "#Title#",
        "   ##   Spaced   out   \nnext",
        "\r\n# Windows line\r\nbody\r\n",
        "a\rb",
        "\u{3000}# wide space\u{3000}",
        "\u{a0}\u{2003}\n\u{85}x\u{2028}y",
        "\t#\ttabbed\t",
        "one two  three",
        " leading and trailing ",
        "it's; DROP TABLE note_index; --",
        "héllo wörld ünïcode",
        "日本語 の テキスト",
        "#\n#\n#\n",
        "# \n\n\nlast line without newline",
        "#️⃣ emoji heading",
        "\u{200b}zero width space is not whitespace",
        "\u{1680}x\u{180e}y\u{2000}z\u{200a}w\u{202f}v\u{205f}u",
        "\u{b}\u{c}vertical\u{1c}\u{1d}\u{1e}\u{1f}",
    ]
    .into_iter()
    .map(String::from)
    .collect();
    all.push("x".repeat(200));
    all.push(format!("# {}\nrest", "y".repeat(200)));
    all.push(format!("{}\n", "é".repeat(119)));
    all.push(format!("{}\n", "é".repeat(120)));
    all.push(format!("{}\n", "é".repeat(121)));
    all.push(format!("{}# deep\n", "\n".repeat(50)));
    all
}

#[test]
fn whitespace_is_what_std_calls_whitespace() {
    let mut code: u32 = 0;
    while code <= 0x10FFFF {
        if let Some(c) = char::from_u32(code) {
            assert_eq!(char_is_whitespace(c), c.is_whitespace(), "U+{:04X}", code);
        }
        code += 1;
    }
}

#[test]
fn chars_of_gives_every_character() {
    assert_eq!(chars_of("añ日"), vec!['a', 'ñ', '日']);
    assert_eq!(chars_of(""), Vec::<char>::new());
}

#[test]
fn string_of_puts_characters_together() {
    assert_eq!(string_of(&['a', 'ñ', '日']), "añ日");
    assert_eq!(string_of(&[]), "");
}

#[test]
fn push_chars_appends() {
    let mut s = String::from("ab");
    push_chars(&mut s, &['c', 'd']);
    assert_eq!(s, "abcd");
}

#[test]
fn title_of_heading_line() {
    assert_eq!(extract_title("# Hello World\n\nBody"), "Hello World");
}

#[test]
fn title_of_blank_text_is_empty() {
    assert_eq!(extract_title("\n\n   \n"), "");
    assert!(is_blank_text("\n\n   \n"));
}

#[test]
fn title_is_cut_to_the_limit() {
    let line = "a".repeat(200);
    let title = extract_title(&line);
    assert_eq!(TITLE_LIMIT, 120);
    assert_eq!(title.chars().count(), 120);
    assert_eq!(title, "a".repeat(120));
}

#[test]
fn title_is_cut_by_character_not_by_byte() {
    let line = format!("## {}", "é".repeat(200));
    let title = extract_title(&line);
    assert_eq!(title.chars().count(), 120);
    assert_eq!(title.len(), 240);
    assert_eq!(title, "é".repeat(120));
}

#[test]
fn title_of_exactly_the_limit_is_kept_whole() {
    let line = "b".repeat(120);
    assert_eq!(extract_title(&line), line);
    let shorter = "b".repeat(119);
    assert_eq!(extract_title(&shorter), shorter);
}

#[test]
fn title_skips_lines_that_hold_only_a_marker() {
    assert_eq!(extract_title("###\n  #  \n\n## Real\nlater"), "Real");
    assert_eq!(extract_title("#\n#\n#\n"), "");
}

#[test]
fn title_strips_marker_and_space_around() {
    assert_eq!(extract_title("   ##   Spaced   out   \nnext"), "Spaced   out");
    assert_eq!(extract_title("# #"), "#");
    assert_eq!(extract_title("#Title#"), "Title#");
    assert_eq!(extract_title("plain"), "plain");
}

#[test]
fn title_ignores_carriage_returns_at_line_ends() {
    assert_eq!(extract_title("\r\n# Windows line\r\nbody\r\n"), "Windows line");
}

#[test]
fn title_agrees_with_std_on_samples() {
    for sample in samples() {
        assert_eq!(extract_title(&sample), title_by_std(&sample), "{:?}", sample);
    }
}

#[test]
fn counts_of_three_words() {
    let content = "one two  three";
    assert_eq!(word_count(content), 3);
    assert_eq!(char_count(content), 14);
    assert_eq!(char_count(content), content.chars().count());
}

#[test]
fn word_count_edge_cases() {
    assert_eq!(word_count(""), 0);
    assert_eq!(word_count("   \n\t "), 0);
    assert_eq!(word_count("word"), 1);
    assert_eq!(word_count(" word "), 1);
    assert_eq!(word_count("a\u{3000}b\u{a0}c"), 3);
    assert_eq!(word_count("a\u{200b}b"), 1);
}

#[test]
fn char_count_counts_characters_not_bytes() {
    assert_eq!(char_count("héllo"), 5);
    assert_eq!(char_count("日本語"), 3);
    assert_eq!(char_count(""), 0);
    assert_eq!(char_count(" a b "), 5);
}

#[test]
fn counts_agree_with_std_on_samples() {
    for sample in samples() {
        assert_eq!(word_count(&sample), sample.split_whitespace().count(), "{:?}", sample);
        assert_eq!(char_count(&sample), sample.chars().count(), "{:?}", sample);
        assert_eq!(is_blank_text(&sample), sample.trim().is_empty(), "{:?}", sample);
    }
}

#[test]
fn blank_texts() {
    assert!(is_blank_text(""));
    assert!(is_blank_text(" \t\r\n\u{3000}"));
    assert!(!is_blank_text(" . "));
    assert!(!is_blank_text("\u{200b}"));
}
