use brainfuck::ast::Token;
use brainfuck::lexer::scan_tokens;

#[test]
fn lexer_maps_all_eight_commands() {
    let tokens = scan_tokens(String::from("><+-.,[]"));
    assert_eq!(
        tokens,
        vec![
            Token::IncrementPointer,
            Token::DecrementPointer,
            Token::Increment,
            Token::Decrement,
            Token::Write,
            Token::Read,
            Token::LoopBegin,
            Token::LoopEnd,
        ]
    );
}

#[test]
fn lexer_drops_comment_characters() {
    let tokens = scan_tokens(String::from("a+b-c\n\t x"));
    assert_eq!(tokens, vec![Token::Increment, Token::Decrement]);
}

#[test]
fn lexer_token_count_equals_command_count() {
    let source = "add 2 to cell: ++ then move: > and back: <";
    let tokens = scan_tokens(String::from(source));
    let expected = source
        .chars()
        .filter(|c| "><+-.,[]".contains(*c))
        .count();
    assert_eq!(tokens.len(), expected);
}

#[test]
fn lexer_never_fails_on_empty_or_comment_only_input() {
    assert_eq!(scan_tokens(String::new()), vec![]);
    assert_eq!(scan_tokens(String::from("no commands here")), vec![]);
}
