use babelfish::model::label_for;
use babelfish::text::{
    byte_length, chars_of, comes_before, count_fitting, count_lines, eq_ignore_ascii_case,
    join_with, split_lines, split_on, trim,
};

fn samples() -> Vec<&'static str> {
    vec![
        "",
        "a",
        "a\n",
        "a\nb",
        "\n",
        "\n\n",
        "a\r\nb\r\n",
        "a\rb",
        "a\r",
        "\r\n",
        "line one\nline two\n\nline four",
        "trailing blank\n\n",
        "h\u{e9}llo\nw\u{f6}rld",
    ]
}

#[test]
fn split_keeps_empty_pieces() {
    assert_eq!(split_on("a__b c", '_', ' '), vec!["a", "", "b", "c"]);
    assert_eq!(split_on("_a_", '_', ' '), vec!["", "a", ""]);
}

#[test]
fn split_of_empty_text_is_one_empty_piece() {
    assert_eq!(split_on("", '_', ' '), vec![""]);
}

#[test]
fn split_agrees_with_replace_then_split() {
    for name in ["es_en", "pt br_en", "", "_", "a__b", "no separators", "\u{e9}_\u{fc}"] {
        let expected: Vec<String> =
            name.replace('_', " ").split(' ').map(|s| s.to_string()).collect();
        assert_eq!(split_on(name, '_', ' '), expected);
    }
}

#[test]
fn pieces_joined_by_the_separator_give_the_text_back() {
    for text in ["", "_", "a_b", "__a__", "no separator", "\u{e9}_\u{fc}_"] {
        assert_eq!(join_with(&split_on(text, '_', '_'), "_"), text);
    }
}

#[test]
fn join_puts_separator_between_neighbours() {
    let parts = vec!["a".to_string(), "b".to_string(), "c".to_string()];
    assert_eq!(join_with(&parts, ", "), "a, b, c");
    assert_eq!(join_with(&vec!["only".to_string()], ", "), "only");
    assert_eq!(join_with(&Vec::new(), ", "), "");
}

#[test]
fn label_joins_upper_case_tokens() {
    assert_eq!(label_for("es_en"), "ES \u{2194} EN");
    assert_eq!(label_for("pt_br en"), "PT \u{2194} BR \u{2194} EN");
    assert_eq!(label_for("es-en"), "ES-EN");
    assert_eq!(label_for(""), "");
    assert_eq!(label_for("a__b"), "A \u{2194}  \u{2194} B");
}

#[test]
fn label_upper_cases_beyond_ascii() {
    assert_eq!(label_for("stra\u{df}e_x"), "STRASSE \u{2194} X");
    assert_eq!(label_for("\u{e9}t\u{e9}"), "\u{c9}T\u{c9}");
}

#[test]
fn label_is_the_same_on_every_call() {
    for name in ["es_en", "pt_en", "zh hant_en", ""] {
        assert_eq!(label_for(name), label_for(name));
    }
}

#[test]
fn line_counts_of_edge_cases() {
    assert_eq!(count_lines(""), 0);
    assert_eq!(count_lines("a"), 1);
    assert_eq!(count_lines("a\n"), 1);
    assert_eq!(count_lines("a\nb"), 2);
    assert_eq!(count_lines("\n"), 1);
    assert_eq!(count_lines("\n\n"), 2);
    assert_eq!(count_lines("a\r\nb\r\n"), 2);
    assert_eq!(count_lines("a\rb"), 1);
}

#[test]
fn line_counts_agree_with_lines_of_std() {
    for text in samples() {
        assert_eq!(count_lines(text), text.lines().count(), "{:?}", text);
    }
}

#[test]
fn lines_drop_their_endings() {
    assert_eq!(split_lines("a\r\nb\n\nc\r"), vec!["a", "b", "", "c\r"]);
    assert_eq!(split_lines(""), Vec::<String>::new());
    assert_eq!(split_lines("\n"), vec![""]);
}

#[test]
fn lines_agree_with_lines_of_std() {
    for text in samples() {
        let expected: Vec<String> = text.lines().map(|l| l.to_string()).collect();
        assert_eq!(split_lines(text), expected, "{:?}", text);
    }
}

#[test]
fn trim_removes_white_space_at_both_ends() {
    assert_eq!(trim("  hi \n"), "hi");
    assert_eq!(trim(" \t "), "");
    assert_eq!(trim(""), "");
    assert_eq!(trim("a b"), "a b");
    assert_eq!(trim("\n\nkeep  inner\tspace\r\n"), "keep  inner\tspace");
}

#[test]
fn trim_knows_white_space_beyond_ascii() {
    assert_eq!(trim("\u{a0}x\u{3000}"), "x");
    assert_eq!(trim("\u{2003}\u{2028}"), "");
}

#[test]
fn trim_agrees_with_trim_of_std() {
    for text in ["", " ", " a", "a ", " a b ", "\n\ta\u{a0}", "\u{200b}a"] {
        assert_eq!(trim(text), text.trim(), "{:?}", text);
    }
}

#[test]
fn ascii_case_is_ignored_and_nothing_else() {
    assert!(eq_ignore_ascii_case("ReadMe", "readme"));
    assert!(eq_ignore_ascii_case("README", "readme"));
    assert!(eq_ignore_ascii_case("", ""));
    assert!(!eq_ignore_ascii_case("readme", "readm"));
    assert!(!eq_ignore_ascii_case("readme", "readmes"));
    assert!(!eq_ignore_ascii_case("\u{c9}", "\u{e9}"));
    assert!(!eq_ignore_ascii_case("@", "`"));
    assert!(!eq_ignore_ascii_case("[", "{"));
}

#[test]
fn order_agrees_with_order_of_std() {
    let texts = ["", "a", "A", "ab", "b", "es_en", "pt_en", "es-en", "\u{e9}", "z", "\u{1f4cb}", "aa"];
    for a in texts {
        for b in texts {
            assert_eq!(comes_before(a, b), a < b, "{:?} {:?}", a, b);
        }
    }
}

#[test]
fn fitting_characters_are_counted_in_bytes() {
    assert_eq!(count_fitting("hello", 3), 3);
    assert_eq!(count_fitting("h\u{e9}llo", 2), 1);
    assert_eq!(count_fitting("h\u{e9}llo", 3), 2);
    assert_eq!(count_fitting("", 5), 0);
    assert_eq!(count_fitting("ab", 10), 2);
    assert_eq!(count_fitting("\u{1f4cb}", 3), 0);
    assert_eq!(count_fitting("\u{1f4cb}", 4), 1);
}

#[test]
fn byte_length_is_that_of_utf8() {
    assert_eq!(byte_length(""), 0);
    assert_eq!(byte_length("h\u{e9}llo"), 6);
    assert_eq!(byte_length("\u{1f4cb}"), 4);
    assert_eq!(byte_length("\u{20ac}"), 3);
}

#[test]
fn characters_are_collected_in_order() {
    assert_eq!(chars_of("h\u{e9}"), vec!['h', '\u{e9}']);
    assert_eq!(chars_of(""), Vec::<char>::new());
}

#[test]
fn white_space_is_what_the_standard_library_takes_for_it() {
    let listed = |c: char| {
        matches!(
            c as u32,
            0x09..=0x0D
                | 0x20
                | 0x85
                | 0xA0
                | 0x1680
                | 0x2000..=0x200A
                | 0x2028
                | 0x2029
                | 0x202F
                | 0x205F
                | 0x3000
        )
    };
    let mut count = 0;
    for code in 0..=0x10FFFFu32 {
        if let Some(c) = char::from_u32(code) {
            assert_eq!(c.is_whitespace(), listed(c), "U+{:04X}", code);
            if listed(c) {
                count += 1;
                let mut text = String::new();
                text.push(c);
                text.push('x');
                text.push(c);
                assert_eq!(trim(&text), "x", "U+{:04X}", code);
            }
        }
    }
    assert_eq!(count, 25);
}

#[test]
fn nothing_but_white_space_is_trimmed() {
    for c in ['\u{200b}', '\u{180e}', '\u{feff}', '\u{1f}', '\u{0}', '_', '\u{2060}'] {
        let text = c.to_string();
        assert_eq!(trim(&text), text);
    }
}

#[test]
fn trimmed_text_stays_as_it_is_when_trimmed_again() {
    for text in ["", " a ", "\n\ta b\u{a0}", "x", " \u{3000} "] {
        let once = trim(text);
        assert_eq!(trim(&once), once);
    }
}
