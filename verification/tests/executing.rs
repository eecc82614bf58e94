use brainfuck::ast::RunError;
use brainfuck::lexer::scan_tokens;
use brainfuck::machine::Executor;
use brainfuck::machine::TAPE_LEN;
use brainfuck::parser::parse_tokens;

fn program(source: &str) -> Vec<brainfuck::ast::Instruction> {
    parse_tokens(scan_tokens(String::from(source))).unwrap()
}

#[test]
fn transfer_loop_moves_cell_zero_to_cell_one() {
    let prog = program("+++>++<[->+<]");
    let mut ex = Executor::new(vec![]);
    assert_eq!(ex.run_instructions(&prog, 1_000), Some(Ok(())));
    assert_eq!(ex.tape()[0], 0);
    assert_eq!(ex.tape()[1], 5);
    assert_eq!(ex.cursor(), 0);
}

#[test]
fn loop_on_zero_cell_runs_zero_iterations() {
    let prog = program("[]");
    let mut ex = Executor::new(vec![]);
    // Fuel counts loop-body entries, so finishing with zero fuel shows
    // the body was never entered.
    assert_eq!(ex.run_instructions(&prog, 0), Some(Ok(())));
    assert!(ex.output().is_empty());
    assert_eq!(ex.tape()[0], 0);
}

#[test]
fn read_then_write_echoes_input_byte() {
    let prog = program(",.");
    let mut ex = Executor::new(vec![b'A']);
    assert_eq!(ex.run_instructions(&prog, 10), Some(Ok(())));
    assert_eq!(ex.into_output(), vec![b'A']);
}

#[test]
fn reads_consume_input_in_order() {
    let prog = program(",>,.<.");
    let mut ex = Executor::new(vec![b'A', b'B']);
    assert_eq!(ex.run_instructions(&prog, 10), Some(Ok(())));
    assert_eq!(ex.into_output(), vec![b'B', b'A']);
}

#[test]
fn increment_wraps_255_to_0() {
    let prog = program(&"+".repeat(256));
    let mut ex = Executor::new(vec![]);
    assert_eq!(ex.run_instructions(&prog, 0), Some(Ok(())));
    assert_eq!(ex.tape()[0], 0);
}

#[test]
fn decrement_wraps_0_to_255() {
    let prog = program("-");
    let mut ex = Executor::new(vec![]);
    assert_eq!(ex.run_instructions(&prog, 0), Some(Ok(())));
    assert_eq!(ex.tape()[0], 255);
}

#[test]
fn cursor_underflow_is_a_bounds_error() {
    let prog = program("<");
    let mut ex = Executor::new(vec![]);
    assert_eq!(
        ex.run_instructions(&prog, 10),
        Some(Err(RunError::CursorOutOfBounds { cursor: 0 }))
    );
}

#[test]
fn cursor_overflow_is_a_bounds_error() {
    let prog = program(&">".repeat(TAPE_LEN));
    let mut ex = Executor::new(vec![]);
    assert_eq!(
        ex.run_instructions(&prog, 10),
        Some(Err(RunError::CursorOutOfBounds { cursor: TAPE_LEN - 1 }))
    );
}

#[test]
fn reading_exhausted_input_is_an_error() {
    let prog = program(",");
    let mut ex = Executor::new(vec![]);
    assert_eq!(ex.run_instructions(&prog, 10), Some(Err(RunError::InputExhausted)));
}

#[test]
fn endless_loop_runs_out_of_fuel() {
    let prog = program("+[]");
    let mut ex = Executor::new(vec![]);
    assert_eq!(ex.run_instructions(&prog, 1_000), None);
}
