use idem::lexing::LocatedToken;
use idem::lexing::Lexer;
use idem::lexing::Location;
use idem::lexing::Symbol;
use idem::lexing::Token;

fn scan(source: &str) -> Vec<LocatedToken> {
    Lexer::new("a.id").tokenize(source.chars())
}

fn word(text: &str, line: usize, column: usize) -> LocatedToken {
    LocatedToken {
        location: Location { path: "a.id".to_string(), line, column },
        token: Token::Word(text.to_string()),
    }
}

fn symbol(symbol: Symbol, line: usize, column: usize) -> LocatedToken {
    LocatedToken {
        location: Location { path: "a.id".to_string(), line, column },
        token: Token::Symbol(symbol),
    }
}

#[test]
fn tokenize_locates_words_and_symbols() {
    assert_eq!(
        scan("main() {\n\tprint(1)\n}\n"),
        vec![
            word("main", 1, 1),
            symbol(Symbol::OpeningParenthesis, 1, 5),
            symbol(Symbol::ClosingParenthesis, 1, 6),
            symbol(Symbol::OpeningBrace, 1, 8),
            word("print", 2, 5),
            symbol(Symbol::OpeningParenthesis, 2, 10),
            word("1", 2, 11),
            symbol(Symbol::ClosingParenthesis, 2, 12),
            symbol(Symbol::ClosingBrace, 3, 1),
        ]
    );
}

#[test]
fn tokenize_knows_every_symbol() {
    assert_eq!(
        scan("(){}[],:"),
        vec![
            symbol(Symbol::OpeningParenthesis, 1, 1),
            symbol(Symbol::ClosingParenthesis, 1, 2),
            symbol(Symbol::OpeningBrace, 1, 3),
            symbol(Symbol::ClosingBrace, 1, 4),
            symbol(Symbol::OpeningBracket, 1, 5),
            symbol(Symbol::ClosingBracket, 1, 6),
            symbol(Symbol::Comma, 1, 7),
            symbol(Symbol::Colon, 1, 8),
        ]
    );
}

#[test]
fn tokenize_of_nothing_gives_nothing() {
    assert_eq!(scan(""), vec![]);
}

#[test]
fn a_comment_line_gives_no_token() {
    assert_eq!(scan("# main() { print(1) }\n"), vec![]);
    assert_eq!(
        scan("a\n# b ( c\nd\n"),
        vec![word("a", 1, 1), word("d", 3, 1)]
    );
}

#[test]
fn a_comment_ends_at_the_line_feed() {
    assert_eq!(
        scan("a # b\nc "),
        vec![word("a", 1, 1), word("c", 2, 1)]
    );
}

#[test]
fn a_comment_does_not_close_the_pending_word() {
    assert_eq!(scan("ab#x\ncd "), vec![word("abcd", 2, 1)]);
}

#[test]
fn a_tab_advances_the_column_by_four() {
    assert_eq!(scan("\ta "), vec![word("a", 1, 5)]);
    assert_eq!(scan("\t\ta "), vec![word("a", 1, 9)]);
    assert_eq!(scan("ab\tc "), vec![word("ab", 1, 1), word("c", 1, 7)]);
    assert_eq!(scan("   \tc "), vec![word("c", 1, 8)]);
}

#[test]
fn a_space_advances_the_column_by_one() {
    assert_eq!(scan("  a b "), vec![word("a", 1, 3), word("b", 1, 5)]);
}

#[test]
fn a_line_feed_resets_the_column() {
    assert_eq!(scan("a\n\nb\n"), vec![word("a", 1, 1), word("b", 3, 1)]);
}

#[test]
fn a_word_takes_its_length_in_bytes() {
    assert_eq!(scan("\u{e9}t\u{e9} a "), vec![word("\u{e9}t\u{e9}", 1, 1), word("a", 1, 7)]);
}

#[test]
fn a_word_at_the_end_stays_pending() {
    let mut lexer = Lexer::new("a.id");
    assert_eq!(lexer.tokenize("ma".chars()), vec![]);
    assert_eq!(lexer.tokenize("in (".chars()), vec![
        word("main", 1, 1),
        symbol(Symbol::OpeningParenthesis, 1, 6),
    ]);
}

#[test]
fn tokenize_in_pieces_is_tokenize_of_the_whole() {
    let source = "f(a, b) {\n\tif a { b } # c\n}\n";
    for cut in 0..source.len() {
        let mut lexer = Lexer::new("a.id");
        let mut tokens = lexer.tokenize(source[..cut].chars());
        tokens.extend(lexer.tokenize(source[cut..].chars()));
        assert_eq!(tokens, scan(source));
    }
}

#[test]
fn a_carriage_return_is_part_of_a_word() {
    assert_eq!(scan("a\r\nb "), vec![word("a\r", 1, 1), word("b", 2, 1)]);
}

#[test]
fn a_location_reads_as_path_line_column() {
    let location = Location { path: "dir/a.id".to_string(), line: 12, column: 7 };
    assert_eq!(location.to_string(), "dir/a.id:12:7");
    let copy = location.clone();
    assert_eq!(copy, location);
}
