use bf_interp::machine::InnerState;
use bf_interp::memory::{Memory, ARRAY_SIZE_LIMIT, CELL_SIZE_LIMIT};
use bf_interp::program::{decode, find_separator, load, parse, Operations};
use bf_interp::InterpError;

fn chars(s: &str) -> Vec<char> {
    s.chars().collect()
}

fn run_state(state: &mut InnerState) -> Result<Vec<u8>, InterpError> {
    let mut out = Vec::new();
    let mut steps = 0;
    while !state.is_halted() {
        if let Some(b) = state.execute()? {
            out.push(b);
        }
        steps += 1;
        assert!(steps < 1_000_000, "program did not halt");
    }
    Ok(out)
}

fn run(program: &str, input: &str) -> (InnerState, Result<Vec<u8>, InterpError>) {
    let mut state = InnerState::new(chars(program), input.to_string());
    let r = run_state(&mut state);
    (state, r)
}

#[test]
fn decode_maps_each_instruction() {
    assert_eq!(decode('+'), Operations::Add);
    assert_eq!(decode('-'), Operations::Subtract);
    assert_eq!(decode('>'), Operations::MoveRight);
    assert_eq!(decode('<'), Operations::MoveLeft);
    assert_eq!(decode('.'), Operations::Output);
    assert_eq!(decode(','), Operations::Input);
    assert_eq!(decode('['), Operations::BracketLeft);
    assert_eq!(decode(']'), Operations::BracketRight);
    assert_eq!(decode('x'), Operations::Comment('x'));
    assert_eq!(decode(' '), Operations::Comment(' '));
}

#[test]
fn parse_keeps_order_and_comments() {
    let ops = parse(&chars("+a["));
    assert_eq!(ops, vec![Operations::Add, Operations::Comment('a'), Operations::BracketLeft]);
    assert!(parse(&Vec::new()).is_empty());
}

#[test]
fn move_left_wraps_from_first_cell() {
    let mut m = Memory::new();
    m.move_left();
    assert_eq!(m.pointer(), ARRAY_SIZE_LIMIT - 1);
    m.move_right();
    assert_eq!(m.pointer(), 0);
}

#[test]
fn move_right_wraps_from_last_cell() {
    let mut m = Memory::new();
    for _ in 0..ARRAY_SIZE_LIMIT - 1 {
        m.move_right();
    }
    assert_eq!(m.pointer(), ARRAY_SIZE_LIMIT - 1);
    m.move_right();
    assert_eq!(m.pointer(), 0);
}

#[test]
fn moves_land_at_net_displacement() {
    // three right, five left: net -2 from 0
    let mut m = Memory::new();
    for right in [true, false, true, false, false, true, false, false] {
        if right {
            m.move_right();
        } else {
            m.move_left();
        }
        assert!(m.pointer() < ARRAY_SIZE_LIMIT);
    }
    assert_eq!(m.pointer(), ARRAY_SIZE_LIMIT - 2);
}

#[test]
fn increment_then_decrement_restores_every_value() {
    let mut m = Memory::new();
    for v in 0..=CELL_SIZE_LIMIT {
        assert_eq!(m.get_value(), v);
        m.increment();
        m.decrement();
        assert_eq!(m.get_value(), v);
        m.decrement();
        m.increment();
        assert_eq!(m.get_value(), v);
        m.increment();
    }
    assert_eq!(m.get_value(), 0);
}

#[test]
fn cell_arithmetic_wraps_at_both_ends() {
    let mut m = Memory::new();
    m.decrement();
    assert_eq!(m.get_value(), 255);
    m.increment();
    assert_eq!(m.get_value(), 0);
    m.accept_in(200);
    assert_eq!(m.give_out(), 200);
    assert_eq!(m.cell(0), 200);
    assert_eq!(m.cell(1), 0);
}

#[test]
fn increment_256_times_returns_to_zero() {
    let program = "+".repeat(256) + ".";
    let (_, r) = run(&program, "");
    assert_eq!(r, Ok(vec![0]));
}

#[test]
fn output_writes_cell_value() {
    let program = "+".repeat(65) + "..";
    let (_, r) = run(&program, "");
    assert_eq!(r, Ok(vec![b'A', b'A']));
}

#[test]
fn loop_on_zero_cell_is_skipped() {
    let (state, r) = run("[+.]>", "");
    assert_eq!(r, Ok(vec![]));
    assert_eq!(state.memory().cell(0), 0);
    assert_eq!(state.memory().pointer(), 1);
}

#[test]
fn zero_cell_jump_lands_after_matching_bracket() {
    let mut state = InnerState::new(chars("[[]+]+"), String::new());
    assert_eq!(state.execute(), Ok(None));
    assert_eq!(state.instruction_pointer(), 5);
}

#[test]
fn loop_body_that_clears_the_cell_runs_once() {
    let (state, r) = run("+[-.>+<]", "");
    assert_eq!(r, Ok(vec![0]));
    assert_eq!(state.memory().cell(1), 1);
}

#[test]
fn transfer_loop_moves_two_into_next_cell() {
    let (state, r) = run("++[->+<]", "");
    assert_eq!(r, Ok(vec![]));
    assert_eq!(state.memory().cell(0), 0);
    assert_eq!(state.memory().cell(1), 2);
    assert_eq!(state.memory().pointer(), 0);
}

#[test]
fn nested_loops_match_innermost_first() {
    // outer loop runs twice, inner loop clears cell 1 each time
    let (state, r) = run("++[>+++[-]<-]", "");
    assert_eq!(r, Ok(vec![]));
    assert_eq!(state.memory().cell(0), 0);
    assert_eq!(state.memory().cell(1), 0);
}

#[test]
fn read_past_end_of_input_gives_zero() {
    let (state, r) = run(",.,.,.", "A");
    assert_eq!(r, Ok(vec![b'A', 0, 0]));
    assert_eq!(state.input_cursor(), 3);
    assert_eq!(state.memory().cell(0), 0);
}

#[test]
fn input_is_read_as_utf8_bytes() {
    let (_, r) = run(",.,.,.", "é");
    assert_eq!(r, Ok(vec![0xC3, 0xA9, 0]));
}

#[test]
fn unclosed_bracket_is_unbalanced() {
    let (_, r) = run("[+", "");
    assert_eq!(r, Err(InterpError::UnbalancedBracket));
}

#[test]
fn unopened_bracket_is_unbalanced() {
    let (_, r) = run("+]", "");
    assert_eq!(r, Err(InterpError::UnbalancedBracket));
    let (_, r) = run("]", "");
    assert_eq!(r, Ok(vec![]));
}

#[test]
fn failed_jump_leaves_state_alone() {
    let mut state = InnerState::new(chars("+]"), String::new());
    assert_eq!(state.execute(), Ok(None));
    assert_eq!(state.execute(), Err(InterpError::UnbalancedBracket));
    assert_eq!(state.instruction_pointer(), 1);
    assert_eq!(state.memory().cell(0), 1);
}

#[test]
fn separator_with_empty_input() {
    let (program, input) = load("+++.!", None).unwrap();
    assert_eq!(program, chars("+++."));
    assert_eq!(input, "");
}

#[test]
fn separator_splits_program_and_input() {
    let (program, input) = load("  ,.!xy \n", None).unwrap();
    assert_eq!(program, chars(",."));
    assert_eq!(input, "xy");
}

#[test]
fn two_separators_are_a_configuration_error() {
    assert_eq!(load("+!a!b", None), Err(InterpError::ConfigurationError));
    assert_eq!(find_separator(&chars("!!")), Err(InterpError::ConfigurationError));
}

#[test]
fn no_separator_gives_empty_input() {
    let (program, input) = load("\t+-\n", None).unwrap();
    assert_eq!(program, chars("+-"));
    assert_eq!(input, "");
    assert_eq!(find_separator(&chars("+-")), Ok(None));
    assert_eq!(find_separator(&chars("+!-")), Ok(Some(1)));
}

#[test]
fn separate_input_mode_keeps_separator_in_program() {
    let (program, input) = load(" +!+ ", Some(" in ")).unwrap();
    assert_eq!(program, chars("+!+"));
    assert_eq!(input, " in ");
}

#[test]
fn unicode_whitespace_is_trimmed() {
    let (program, input) = load("\u{A0}\u{3000}+\u{2003}", Some("")).unwrap();
    assert_eq!(program, chars("+"));
    assert_eq!(input, "");
    let (program, _) = load("   ", None).unwrap();
    assert!(program.is_empty());
}

#[test]
fn comments_do_nothing() {
    let (state, r) = run("hello + world", "");
    assert_eq!(r, Ok(vec![]));
    assert_eq!(state.memory().cell(0), 1);
    assert!(state.is_halted());
}

#[test]
fn nonzero_cell_at_close_returns_to_body_start() {
    let mut state = InnerState::new(chars("+[+]"), String::new());
    for _ in 0..3 {
        assert_eq!(state.execute(), Ok(None));
    }
    assert_eq!(state.instruction_pointer(), 3);
    assert_eq!(state.execute(), Ok(None));
    assert_eq!(state.instruction_pointer(), 2);
}

#[test]
fn program_moves_wrap_around_tape() {
    let (state, r) = run("<<<>", "");
    assert_eq!(r, Ok(vec![]));
    assert_eq!(state.memory().pointer(), ARRAY_SIZE_LIMIT - 2);
}
