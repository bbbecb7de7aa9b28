use agent_gh::text::{chars_of, debug_text, push_decimal, string_of, trim};

#[test]
fn formats_decimal_numbers() {
    for (n, text) in [(0u64, "0"), (7, "7"), (10, "10"), (332_833_177, "332833177"), (u64::MAX, "18446744073709551615")] {
        let mut out = Vec::new();
        push_decimal(&mut out, n);
        assert_eq!(string_of(&out), text);
    }
}

#[test]
fn trims_unicode_white_space() {
    assert_eq!(trim("  git version 2.54.0\n"), "git version 2.54.0");
    assert_eq!(trim("\u{3000}x y\u{a0}"), "x y");
    assert_eq!(trim(" \t\n"), "");
    assert_eq!(trim(""), "");
}

#[test]
fn converts_between_text_and_characters() {
    assert_eq!(chars_of("aé€"), vec!['a', 'é', '€']);
    assert_eq!(string_of(&vec!['g', 'h']), "gh");
    assert_eq!(debug_text("git version 2.53.1"), "\"git version 2.53.1\"");
    assert_eq!(debug_text("a\tb\"c"), "\"a\\tb\\\"c\"");
}

