use num_bigint::BigInt;
use rustreeem_lexer::lexer::{get_keywords, Lexer, LexicalError, Loc, Spanned};
use rustreeem_lexer::scanner::{Lexer as Cursor, Position};
use rustreeem_lexer::token::Tok;

fn pull_all(source: &str) -> Vec<Spanned> {
    let mut lexer = Lexer::new(source.chars().collect());
    let mut out = Vec::new();
    while let Some(item) = lexer.next() {
        out.push(item);
    }
    out
}

fn lex_source(source: &String) -> Vec<Tok> {
    pull_all(source).into_iter().map(|x| x.unwrap().1).collect()
}

#[test]
fn test_operators() {
    let source = String::from("++=*/*=-->3");
    let tokens = lex_source(&source);
    assert_eq!(
        tokens,
        vec![
            Tok::Plus,
            Tok::PlusEqual,
            Tok::Star,
            Tok::Slash,
            Tok::StarEqual,
            Tok::Minus,
            Tok::Rarrow,
            Tok::Int(BigInt::from(3)),
        ]
    );
}

#[test]
fn keyword_alone_is_keyword() {
    assert_eq!(lex_source(&String::from("lambda")), vec![Tok::Lambda]);
}

#[test]
fn keyword_prefix_is_identifier() {
    assert_eq!(
        lex_source(&String::from("lambda1")),
        vec![Tok::Ident(String::from("lambda1"))]
    );
}

#[test]
fn keyword_is_case_sensitive() {
    assert_eq!(
        lex_source(&String::from("Lambda")),
        vec![Tok::Ident(String::from("Lambda"))]
    );
}

#[test]
fn empty_input_yields_nothing() {
    let mut lexer = Lexer::new(Vec::new());
    assert!(lexer.next().is_none());
    assert!(lexer.next().is_none());
}

#[test]
fn twenty_digit_literal() {
    let tokens = lex_source(&String::from("12345678901234567890"));
    assert_eq!(tokens, vec![Tok::Int(BigInt::from(12345678901234567890u64))]);
}

#[test]
fn literal_beyond_u128() {
    let digits = "987654321098765432109876543210987654321099";
    let tokens = lex_source(&String::from(digits));
    assert_eq!(tokens.len(), 1);
    match &tokens[0] {
        Tok::Int(v) => assert_eq!(v.to_string(), digits),
        other => panic!("unexpected token {:?}", other),
    }
}

#[test]
fn literal_with_leading_zeros() {
    assert_eq!(lex_source(&String::from("007")), vec![Tok::Int(BigInt::from(7))]);
}

#[test]
fn unexpected_character_after_plus() {
    let mut lexer = Lexer::new("+@".chars().collect());
    assert_eq!(lexer.next(), Some(Ok((Loc::new(1, 1), Tok::Plus, Loc::new(1, 2)))));
    assert_eq!(
        lexer.next(),
        Some(Err(LexicalError::UnexpectedChar('@', Loc::new(1, 2))))
    );
    assert!(lexer.next().is_none());
}

#[test]
fn spans_cover_the_input() {
    let source = "ab1+=x_9|>7-/";
    let chars: Vec<char> = source.chars().collect();
    let mut joined = String::new();
    let mut expected_start = 1;
    for item in pull_all(source) {
        let (start, _, end) = item.unwrap();
        assert_eq!(start.get_row(), 1);
        assert_eq!(start.get_column(), expected_start);
        assert!(end.get_column() > start.get_column());
        for k in start.get_column()..end.get_column() {
            joined.push(chars[k - 1]);
        }
        expected_start = end.get_column();
    }
    assert_eq!(joined, source);
    assert_eq!(expected_start, chars.len() + 1);
}

#[test]
fn spans_of_mixed_tokens() {
    let items = pull_all("ab1+=7");
    assert_eq!(
        items,
        vec![
            Ok((Loc::new(1, 1), Tok::Ident(String::from("ab1")), Loc::new(1, 4))),
            Ok((Loc::new(1, 4), Tok::PlusEqual, Loc::new(1, 6))),
            Ok((Loc::new(1, 6), Tok::Int(BigInt::from(7)), Loc::new(1, 7))),
        ]
    );
}

#[test]
fn two_character_operators_win() {
    let cases = [
        ("+=", Tok::PlusEqual),
        ("-=", Tok::MinusEqual),
        ("->", Tok::Rarrow),
        ("*=", Tok::StarEqual),
        ("/=", Tok::SlashEqual),
        ("|>", Tok::Rarrow),
    ];
    for (text, tok) in cases {
        assert_eq!(lex_source(&String::from(text)), vec![tok]);
    }
}

#[test]
fn one_character_operators() {
    assert_eq!(
        lex_source(&String::from("+ - * / |").replace(' ', "")),
        vec![Tok::Plus, Tok::Minus, Tok::Star, Tok::Slash, Tok::Vbar]
    );
}

#[test]
fn number_then_word() {
    assert_eq!(
        lex_source(&String::from("3abc")),
        vec![Tok::Int(BigInt::from(3)), Tok::Ident(String::from("abc"))]
    );
}

#[test]
fn underscore_starts_identifier() {
    assert_eq!(
        lex_source(&String::from("_x2")),
        vec![Tok::Ident(String::from("_x2"))]
    );
}

#[test]
fn column_grows_by_one_per_character() {
    let mut lexer = Lexer::new("ab".chars().collect());
    assert_eq!(lexer.get_loc(), Loc::new(1, 1));
    assert!(lexer.is_char());
    assert!(!lexer.is_number(10));
    assert_eq!(lexer.next_char(), Some('a'));
    assert_eq!(lexer.get_loc(), Loc::new(1, 2));
    assert_eq!(lexer.next_char(), Some('b'));
    assert_eq!(lexer.get_loc(), Loc::new(1, 3));
    assert!(!lexer.is_char());
    assert_eq!(lexer.next_char(), None);
    assert_eq!(lexer.get_loc(), Loc::new(1, 4));
}

#[test]
fn digit_classifier() {
    let lexer = Lexer::new("7".chars().collect());
    assert!(lexer.is_number(10));
    assert!(lexer.is_char());
}

#[test]
fn keyword_table_holds_lambda() {
    let table = get_keywords();
    assert_eq!(table.len(), 1);
    assert_eq!(table[0].0, "lambda");
    assert_eq!(table[0].1, Tok::Lambda);
}

#[test]
fn token_copy_is_equal() {
    let toks = vec![
        Tok::Ident(String::from("x")),
        Tok::Int(BigInt::from(42)),
        Tok::Vbar,
        Tok::Lambda,
    ];
    for t in toks {
        assert_eq!(t.copy(), t);
    }
}

#[test]
fn loc_and_position_getters() {
    let l = Loc::new(3, 9);
    assert_eq!((l.get_row(), l.get_column()), (3, 9));
    let p = Position::new(2, 5);
    assert_eq!((p.get_row(), p.get_column()), (2, 5));
    assert_eq!(Position::default(), Position::new(0, 0));
}

#[test]
fn cursor_reads_past_the_end() {
    let mut cursor = Cursor::new("x".chars().collect());
    cursor.read_char();
    cursor.read_char();
    cursor.read_char();
}

#[test]
fn lookahead_does_not_consume() {
    let mut lexer = Lexer::new("-x".chars().collect());
    assert_eq!(lexer.peek(), Some('-'));
    assert_eq!(lexer.peek_next(), Some('x'));
    assert_eq!(lexer.get_loc(), Loc::new(1, 1));
    lexer.next_char();
    assert_eq!(lexer.peek(), Some('x'));
    assert_eq!(lexer.peek_next(), None);
}
