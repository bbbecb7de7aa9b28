use agent_gh::bash::{find_direct_gh, is_assignment_name, is_gh, is_metachar, Parser, Word};
use agent_gh::bash_model::Until;

#[test]
fn recognises_gh_by_its_last_path_segment() {
    for word in ["gh", "GH", "gh.exe", "Gh.ExE", "/usr/bin/gh", "C:gh", "dir\\gh.exe", "a/b:c\\gh"] {
        assert!(is_gh(word), "{word}");
    }
    for word in ["", "ghx", "gh/", "gh.ex", "agent-gh", "/gh/x", "gh .exe"] {
        assert!(!is_gh(word), "{word}");
    }
}

#[test]
fn recognises_assignment_names() {
    for text in ["a", "_", "A_1", "name+", "arr[0]", "arr[", "x[1]+"] {
        assert!(is_assignment_name(text), "{text}");
    }
    for text in ["", "1a", "+", "a-b", "[0]", "a++", "é", "x+[1]"] {
        assert!(!is_assignment_name(text), "{text}");
    }
}

#[test]
fn lists_the_metacharacters() {
    for c in [' ', '\t', '\r', '\n', ';', '&', '|', '(', ')', '<', '>'] {
        assert!(is_metachar(c), "{c:?}");
    }
    for c in ['a', '$', '`', '"', '\'', '{', '}', '#', '='] {
        assert!(!is_metachar(c), "{c:?}");
    }
}

#[test]
fn scans_words_and_their_quoting() {
    let mut parser = Parser::new("'g'\"h\" rest");
    let word = parser.word().expect("the word scans");
    assert_eq!(word.text, vec!['g', 'h']);
    assert!(word.quoted);
    assert!(!word.expanded);
    assert!(!word.is_plain("gh"));
    assert_eq!(parser.peek(), Some(' '));

    let mut parser = Parser::new("a=$b");
    let word = parser.word().expect("the word scans");
    assert_eq!(word.assignment, Some(true));
    assert!(word.expanded);

    let mut word = Word::new();
    word.text = vec!['x'];
    word.push_equals();
    assert_eq!(word.assignment, Some(true));
    assert!(word.is_plain("x="));
}

#[test]
fn scans_command_lists_to_their_closing_parenthesis() {
    let mut parser = Parser::new("gh x) tail");
    assert_eq!(parser.commands(Until::CloseParen), Ok(()));
    assert_eq!(parser.peek(), Some(' '));
    assert_eq!(parser.peek_at(1), Some('t'));
}

#[test]
fn finds_the_first_direct_invocation() {
    assert_eq!(
        find_direct_gh("echo $(/opt/gh x) && gh y").unwrap().as_deref(),
        Some("/opt/gh")
    );
    assert_eq!(find_direct_gh("").unwrap(), None);
    assert_eq!(find_direct_gh("x=1 y=2 gh").unwrap().as_deref(), Some("gh"));
    assert_eq!(find_direct_gh("cat <<-EOF\n\tgh\n\tEOF\ngh.exe").unwrap().as_deref(), Some("gh.exe"));
    assert_eq!(find_direct_gh("echo \\\ngh").unwrap(), None);
    assert_eq!(find_direct_gh("echo `echo \\`gh x\\``").unwrap().as_deref(), Some("gh"));
}

#[test]
fn the_character_after_a_dollar_decides_the_word() {
    let mut word = Word::new();
    assert_eq!(Parser::new("'a'").dollar(&mut word), Ok(()));
    assert!(word.quoted);
    assert_eq!(word.text, vec!['a']);

    let mut word = Word::new();
    assert_eq!(Parser::new("\"b\"").dollar(&mut word), Ok(()));
    assert!(word.quoted);
    assert_eq!(word.text, vec!['b']);

    for source in ["(echo x)", "((1 + 2))", "{name}"] {
        let mut word = Word::new();
        assert_eq!(Parser::new(source).dollar(&mut word), Ok(()), "{source}");
        assert!(word.expanded, "{source}");
    }

    let mut parser = Parser::new("HOME rest");
    let mut word = Word::new();
    assert_eq!(parser.dollar(&mut word), Ok(()));
    assert!(word.expanded);
    assert_eq!(word.text, vec!['$', 'H', 'O', 'M', 'E']);
    assert_eq!(parser.peek(), Some(' '));

    let mut parser = Parser::new("?x");
    let mut word = Word::new();
    assert_eq!(parser.dollar(&mut word), Ok(()));
    assert!(word.expanded);
    assert_eq!(word.text, vec!['$', '?']);
    assert_eq!(parser.peek(), Some('x'));

    for source in [". x", ""] {
        let mut parser = Parser::new(source);
        let mut word = Word::new();
        assert_eq!(parser.dollar(&mut word), Ok(()), "{source:?}");
        assert!(!word.expanded, "{source:?}");
        assert_eq!(word.text, vec!['$'], "{source:?}");
        assert_eq!(parser.peek(), source.chars().next(), "{source:?}");
    }
}

#[test]
fn single_quotes_take_text_literally() {
    let mut parser = Parser::new("a $b \\c\"' tail");
    let mut word = Word::new();
    assert_eq!(parser.single_quoted(&mut word), Ok(()));
    assert!(word.quoted);
    assert!(!word.expanded);
    assert_eq!(word.text, "a $b \\c\"".chars().collect::<Vec<char>>());
    assert_eq!(parser.peek(), Some(' '));

    let mut word = Word::new();
    assert_eq!(
        Parser::new("no closing quote").single_quoted(&mut word),
        Err(agent_gh::bash_model::ParseError::Unparsable)
    );
}
