use brainfuck::ast::Error;
use brainfuck::ast::ParseError;
use brainfuck::ast::RunError;
use brainfuck::run;

#[test]
fn run_echoes_one_byte() {
    let r = run(String::from(",."), vec![b'A'], 100);
    assert_eq!(r, Some(Ok(vec![b'A'])));
}

#[test]
fn run_ignores_comment_text() {
    let r = run(String::from("read a byte , then print it ."), vec![b'Z'], 100);
    assert_eq!(r, Some(Ok(vec![b'Z'])));
}

#[test]
fn run_prints_h_from_a_counting_loop() {
    // 8 * 9 = 72, the byte of 'H'.
    let r = run(String::from("++++++++[>+++++++++<-]>."), vec![], 100);
    assert_eq!(r, Some(Ok(vec![b'H'])));
}

#[test]
fn run_reports_unmatched_close() {
    let r = run(String::from("]"), vec![], 100);
    assert_eq!(
        r,
        Some(Err(Error::Syntax(ParseError::UnmatchedClose { pos: 0 })))
    );
}

#[test]
fn run_reports_unmatched_open() {
    let r = run(String::from("[++"), vec![], 100);
    assert_eq!(
        r,
        Some(Err(Error::Syntax(ParseError::UnmatchedOpen { open: 1 })))
    );
}

#[test]
fn run_reports_runtime_error() {
    let r = run(String::from("+<"), vec![], 100);
    assert_eq!(
        r,
        Some(Err(Error::Runtime(RunError::CursorOutOfBounds { cursor: 0 })))
    );
}

#[test]
fn run_out_of_fuel_is_not_an_error() {
    let r = run(String::from("+[]"), vec![], 3);
    assert_eq!(r, None);
}

#[test]
fn run_empty_program_produces_no_output() {
    let r = run(String::new(), vec![], 0);
    assert_eq!(r, Some(Ok(vec![])));
}
