use brainfuck::ast::Instruction;
use brainfuck::ast::ParseError;
use brainfuck::lexer::scan_tokens;
use brainfuck::parser::parse_tokens;

fn count_loops(prog: &[Instruction]) -> usize {
    let mut n = 0;
    for i in prog {
        if let Instruction::Loop(body) = i {
            n += 1 + count_loops(body);
        }
    }
    n
}

#[test]
fn parse_empty_token_sequence() {
    assert_eq!(parse_tokens(vec![]), Ok(vec![]));
}

#[test]
fn parse_leaves_in_order() {
    let tokens = scan_tokens(String::from("+-.,><"));
    assert_eq!(
        parse_tokens(tokens),
        Ok(vec![
            Instruction::Increment,
            Instruction::Decrement,
            Instruction::Write,
            Instruction::Read,
            Instruction::IncrementPointer,
            Instruction::DecrementPointer,
        ])
    );
}

#[test]
fn parse_nested_loops() {
    let tokens = scan_tokens(String::from("+[>[-]<]"));
    assert_eq!(
        parse_tokens(tokens),
        Ok(vec![
            Instruction::Increment,
            Instruction::Loop(vec![
                Instruction::IncrementPointer,
                Instruction::Loop(vec![Instruction::Decrement]),
                Instruction::DecrementPointer,
            ]),
        ])
    );
}

#[test]
fn parse_unmatched_close_reports_first_position() {
    let tokens = scan_tokens(String::from("+]"));
    assert_eq!(parse_tokens(tokens), Err(ParseError::UnmatchedClose { pos: 1 }));
}

#[test]
fn parse_unmatched_close_position_counts_tokens_not_characters() {
    let tokens = scan_tokens(String::from("comment ] comment"));
    assert_eq!(parse_tokens(tokens), Err(ParseError::UnmatchedClose { pos: 0 }));
}

#[test]
fn parse_close_inside_loop_is_matched() {
    let tokens = scan_tokens(String::from("[]]"));
    assert_eq!(parse_tokens(tokens), Err(ParseError::UnmatchedClose { pos: 2 }));
}

#[test]
fn parse_unmatched_open_reports_count_after_full_scan() {
    let tokens = scan_tokens(String::from("[[]["));
    assert_eq!(parse_tokens(tokens), Err(ParseError::UnmatchedOpen { open: 2 }));
}

#[test]
fn parse_single_unmatched_open() {
    let tokens = scan_tokens(String::from("["));
    assert_eq!(parse_tokens(tokens), Err(ParseError::UnmatchedOpen { open: 1 }));
}

#[test]
fn parse_twice_yields_identical_trees() {
    let tokens = scan_tokens(String::from("++[->+<][]"));
    let first = parse_tokens(tokens.clone());
    let second = parse_tokens(tokens);
    assert_eq!(first, second);
}

#[test]
fn loop_nodes_equal_bracket_pairs() {
    let tokens = scan_tokens(String::from("[[]][]+[->[+]<]"));
    let prog = parse_tokens(tokens).unwrap();
    assert_eq!(count_loops(&prog), 5);
}
