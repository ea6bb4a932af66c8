use front::lex::{chars_of, get_tokens, char_is_digit, char_is_name_char, char_is_space};
use front::lex::{Token, TokenKind};

fn tok(kind: TokenKind, text: &str) -> Token<'_> {
    Token { kind, text }
}

#[test]
fn lex_empty_and_blank_inputs() {
    assert_eq!(get_tokens(""), vec![]);
    assert_eq!(get_tokens("  \t\r\n "), vec![]);
}

#[test]
fn lex_every_kind() {
    assert_eq!(
        get_tokens(":= $print $read $if name 42 + - * / < ~ { }"),
        vec![
            tok(TokenKind::Assign, ":="),
            tok(TokenKind::Print, "$print"),
            tok(TokenKind::Read, "$read"),
            tok(TokenKind::If, "$if"),
            tok(TokenKind::Id, "name"),
            tok(TokenKind::Num, "42"),
            tok(TokenKind::Plus, "+"),
            tok(TokenKind::Minus, "-"),
            tok(TokenKind::Mul, "*"),
            tok(TokenKind::Div, "/"),
            tok(TokenKind::Lt, "<"),
            tok(TokenKind::Tilde, "~"),
            tok(TokenKind::LBrace, "{"),
            tok(TokenKind::RBrace, "}"),
        ]
    );
}

#[test]
fn lex_without_blanks() {
    assert_eq!(
        get_tokens("{$print 0}{:=x 3}"),
        vec![
            tok(TokenKind::LBrace, "{"),
            tok(TokenKind::Print, "$print"),
            tok(TokenKind::Num, "0"),
            tok(TokenKind::RBrace, "}"),
            tok(TokenKind::LBrace, "{"),
            tok(TokenKind::Assign, ":="),
            tok(TokenKind::Id, "x"),
            tok(TokenKind::Num, "3"),
            tok(TokenKind::RBrace, "}"),
        ]
    );
    assert_eq!(
        get_tokens("+x~y<z"),
        vec![
            tok(TokenKind::Plus, "+"),
            tok(TokenKind::Id, "x"),
            tok(TokenKind::Tilde, "~"),
            tok(TokenKind::Id, "y"),
            tok(TokenKind::Lt, "<"),
            tok(TokenKind::Id, "z"),
        ]
    );
}

#[test]
fn lex_takes_the_longest_run() {
    assert_eq!(
        get_tokens("abc_12 007 x1y2 _ _t3"),
        vec![
            tok(TokenKind::Id, "abc_12"),
            tok(TokenKind::Num, "007"),
            tok(TokenKind::Id, "x1y2"),
            tok(TokenKind::Id, "_"),
            tok(TokenKind::Id, "_t3"),
        ]
    );
    // Digits do not start a name: the number ends where the letters start.
    assert_eq!(
        get_tokens("12ab"),
        vec![tok(TokenKind::Num, "12"), tok(TokenKind::Id, "ab")]
    );
}

#[test]
fn lex_keywords_are_fixed_texts() {
    assert_eq!(
        get_tokens("$printx"),
        vec![tok(TokenKind::Print, "$print"), tok(TokenKind::Id, "x")]
    );
    assert_eq!(
        get_tokens("$iffy $ready"),
        vec![
            tok(TokenKind::If, "$if"),
            tok(TokenKind::Id, "fy"),
            tok(TokenKind::Read, "$read"),
            tok(TokenKind::Id, "y"),
        ]
    );
    assert_eq!(
        get_tokens("$prin $"),
        vec![
            tok(TokenKind::Unknown, "$"),
            tok(TokenKind::Id, "prin"),
            tok(TokenKind::Unknown, "$"),
        ]
    );
    assert_eq!(get_tokens("$i"), vec![tok(TokenKind::Unknown, "$"), tok(TokenKind::Id, "i")]);
}

#[test]
fn lex_unknown_characters() {
    assert_eq!(
        get_tokens(": =  :x ?"),
        vec![
            tok(TokenKind::Unknown, ":"),
            tok(TokenKind::Unknown, "="),
            tok(TokenKind::Unknown, ":"),
            tok(TokenKind::Id, "x"),
            tok(TokenKind::Unknown, "?"),
        ]
    );
    assert_eq!(get_tokens(":"), vec![tok(TokenKind::Unknown, ":")]);
}

#[test]
fn lex_text_that_is_not_ascii() {
    assert_eq!(
        get_tokens("$print é x := ü2 7"),
        vec![
            tok(TokenKind::Print, "$print"),
            tok(TokenKind::Unknown, "é"),
            tok(TokenKind::Id, "x"),
            tok(TokenKind::Assign, ":="),
            tok(TokenKind::Unknown, "ü"),
            tok(TokenKind::Num, "2"),
            tok(TokenKind::Num, "7"),
        ]
    );
}

#[test]
fn kind_names() {
    assert_eq!(TokenKind::Assign.name(), "Assign");
    assert_eq!(TokenKind::Print.name(), "Print");
    assert_eq!(TokenKind::Read.name(), "Read");
    assert_eq!(TokenKind::If.name(), "If");
    assert_eq!(TokenKind::Id.name(), "Id");
    assert_eq!(TokenKind::Num.name(), "Num");
    assert_eq!(TokenKind::Plus.name(), "Plus");
    assert_eq!(TokenKind::Minus.name(), "Minus");
    assert_eq!(TokenKind::Mul.name(), "Mul");
    assert_eq!(TokenKind::Div.name(), "Div");
    assert_eq!(TokenKind::Lt.name(), "Lt");
    assert_eq!(TokenKind::Tilde.name(), "Tilde");
    assert_eq!(TokenKind::LBrace.name(), "LBrace");
    assert_eq!(TokenKind::RBrace.name(), "RBrace");
    assert_eq!(TokenKind::Unknown.name(), "Unknown");
}

#[test]
fn character_classes() {
    assert!(char_is_space(' ') && char_is_space('\t') && char_is_space('\n'));
    assert!(char_is_space('\r'));
    assert!(!char_is_space('x') && !char_is_space('\u{a0}'));
    assert!(char_is_digit('0') && char_is_digit('9'));
    assert!(!char_is_digit('/') && !char_is_digit(':') && !char_is_digit('a'));
    assert!(char_is_name_char('a') && char_is_name_char('z') && char_is_name_char('A'));
    assert!(char_is_name_char('Z') && char_is_name_char('_') && char_is_name_char('5'));
    assert!(!char_is_name_char('$') && !char_is_name_char('`') && !char_is_name_char('{'));
    assert!(!char_is_name_char('@') && !char_is_name_char('['));
    assert_eq!(chars_of("a€b"), vec!['a', '€', 'b']);
}
