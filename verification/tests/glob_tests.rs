use bestls::glob::{GlobPattern, InvalidPattern, Token};

fn matches(pattern: &str, name: &str) -> bool {
    GlobPattern::new(pattern).unwrap().matches(name)
}

#[test]
fn literal_patterns_match_themselves_only() {
    assert!(matches("main.rs", "main.rs"));
    assert!(!matches("main.rs", "main.rs2"));
    assert!(!matches("main.rs", "amain.rs"));
    assert!(!matches("main.rs", "Main.rs"));
    assert!(matches("", ""));
    assert!(!matches("", "a"));
}

#[test]
fn star_matches_any_run() {
    assert!(matches("*.rs", "main.rs"));
    assert!(matches("*.rs", "lib.rs"));
    assert!(matches("*.rs", ".rs"));
    assert!(!matches("*.rs", "README.md"));
    assert!(!matches("*.rs", "main.rs.bak"));
    assert!(matches("*", ""));
    assert!(matches("*", "anything"));
    assert!(matches("a*b*c", "abc"));
    assert!(matches("a*b*c", "aXXbYYc"));
    assert!(matches("a*b*c", "abbbc"));
    assert!(!matches("a*b*c", "acb"));
    assert!(matches("**", "x"));
    assert!(matches("*a", "aaaa"));
    assert!(!matches("*a", "aaab"));
}

#[test]
fn star_does_not_cross_a_separator() {
    assert!(!matches("*", "a/b"));
    assert!(!matches("a*b", "a/b"));
    assert!(matches("a/*", "a/b"));
}

#[test]
fn question_mark_matches_one_character() {
    assert!(matches("?", "a"));
    assert!(!matches("?", ""));
    assert!(!matches("?", "ab"));
    assert!(matches("a?c", "abc"));
    assert!(matches("a?c", "a\u{e9}c"));
    assert!(!matches("a?c", "ac"));
    assert!(matches("???.txt", "abc.txt"));
}

#[test]
fn classes_match_their_members() {
    assert!(matches("[abc]", "a"));
    assert!(matches("[abc]", "c"));
    assert!(!matches("[abc]", "d"));
    assert!(!matches("[abc]", ""));
    assert!(!matches("[abc]", "ab"));
    assert!(matches("file[12].txt", "file1.txt"));
    assert!(!matches("file[12].txt", "file3.txt"));
    assert!(matches("[*?]", "*"));
    assert!(matches("[*?]", "?"));
    assert!(!matches("[*?]", "x"));
}

#[test]
fn negated_classes_match_everything_else() {
    assert!(matches("[!abc]", "d"));
    assert!(!matches("[!abc]", "a"));
    assert!(!matches("[!abc]", ""));
    assert!(matches("[!.]*", "visible"));
    assert!(!matches("[!.]*", ".hidden"));
}

#[test]
fn empty_classes_are_valid() {
    assert!(!matches("[]", "a"));
    assert!(!matches("[]", ""));
    assert!(matches("[!]", "a"));
    assert!(matches("a]", "a]"));
}

#[test]
fn unclosed_classes_are_invalid() {
    assert_eq!(GlobPattern::new("[abc").err(), Some(InvalidPattern));
    assert_eq!(GlobPattern::new("[").err(), Some(InvalidPattern));
    assert_eq!(GlobPattern::new("[!").err(), Some(InvalidPattern));
    assert_eq!(GlobPattern::new("*.rs[").err(), Some(InvalidPattern));
    assert_eq!(GlobPattern::new("[a][b").err(), Some(InvalidPattern));
    assert!(GlobPattern::new("[a][b]").is_ok());
}

#[test]
fn patterns_compile_to_tokens() {
    let compiled = GlobPattern::new("a*?[!xy]").unwrap();
    assert_eq!(compiled.tokens.len(), 4);
    assert!(matches!(compiled.tokens[0], Token::Literal('a')));
    assert!(matches!(compiled.tokens[1], Token::AnySequence));
    assert!(matches!(compiled.tokens[2], Token::AnyChar));
    match &compiled.tokens[3] {
        Token::Class(negated, members) => {
            assert!(*negated);
            assert_eq!(members, &vec!['x', 'y']);
        }
        _ => panic!("the last token is a class"),
    }
}

#[test]
fn long_runs_of_stars_are_matched_quickly() {
    let pattern = "*a*a*a*a*a*a*a*a*a*a*a*a*a*a*a*a*b";
    let name = "aaaaaaaaaaaaaaaaaaaaaaaaaaaaaaaaaaaaaaaaaaaaaaaaaaaaaaaaaaaaaaaa";
    assert!(!matches(pattern, name));
    assert!(matches(pattern, &format!("{}b", name)));
}
