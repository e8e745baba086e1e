use ook::engine::{mainloop, run, EngineError, Machine, Status, StepEvent};
use ook::parser::{parse, Instr, TokenSet};

fn ook_phrases() -> Vec<String> {
    vec![
        "Ook. Ook?".to_string(),
        "Ook? Ook.".to_string(),
        "Ook. Ook.".to_string(),
        "Ook! Ook!".to_string(),
        "Ook. Ook!".to_string(),
        "Ook! Ook.".to_string(),
        "Ook! Ook?".to_string(),
        "Ook? Ook!".to_string(),
    ]
}

#[test]
fn two_increments_then_print_emit_byte_two() {
    let m = run("Ook. Ook. Ook. Ook. Ook! Ook.".to_string(), None, 100);
    assert_eq!(m.status, Status::Halted);
    assert_eq!(m.output, vec![2u8]);
}

#[test]
fn guarded_loop_runs_exactly_once() {
    // increment, loop-open, decrement, print, loop-close: the cell goes
    // 1 -> 0 inside the loop, the byte 0 is printed once, and the close
    // falls through.
    let text = "Ook. Ook. Ook! Ook? Ook! Ook! Ook! Ook. Ook? Ook!";
    let m = run(text.to_string(), None, 100);
    assert_eq!(m.status, Status::Halted);
    assert_eq!(m.output, vec![0u8]);
    assert_eq!(m.tape.thetape, vec![0i64]);
}

#[test]
fn move_right_then_left_prints_zero() {
    let m = run("Ook. Ook? Ook? Ook. Ook! Ook.".to_string(), None, 100);
    assert_eq!(m.status, Status::Halted);
    assert_eq!(m.output, vec![0u8]);
    assert_eq!(m.tape.thetape.len(), 2);
}

#[test]
fn plain_text_halts_immediately_with_no_output() {
    let m = run("the quick brown fox jumps over".to_string(), None, 100);
    assert_eq!(m.status, Status::Halted);
    assert!(m.output.is_empty());
    assert!(m.tokens.is_empty());
    assert_eq!(m.tape.thetape, vec![0i64]);
}

#[test]
fn input_value_is_written_to_current_cell() {
    let m = run("Ook. Ook! Ook! Ook.".to_string(), Some(65), 100);
    assert_eq!(m.status, Status::Halted);
    assert_eq!(m.output, vec![65u8]);
}

#[test]
fn unparseable_input_faults_the_run() {
    let m = run("Ook. Ook! Ook! Ook.".to_string(), None, 100);
    assert_eq!(m.status, Status::Faulted(EngineError::BadInput));
    assert!(m.output.is_empty());
}

#[test]
fn second_read_finds_the_stream_exhausted() {
    let m = run("Ook. Ook! Ook. Ook!".to_string(), Some(1), 100);
    assert_eq!(m.status, Status::Faulted(EngineError::BadInput));
}

#[test]
fn reading_left_of_the_tape_faults() {
    let m = run("Ook? Ook. Ook. Ook.".to_string(), None, 100);
    assert_eq!(m.status, Status::Faulted(EngineError::PositionOutOfRange));
}

#[test]
fn left_excursion_and_back_is_no_fault() {
    let m = run("Ook? Ook. Ook. Ook? Ook! Ook.".to_string(), None, 100);
    assert_eq!(m.status, Status::Halted);
    assert_eq!(m.output, vec![0u8]);
}

#[test]
fn taken_jump_without_partner_faults() {
    let m = run("Ook! Ook?".to_string(), None, 100);
    assert_eq!(m.status, Status::Faulted(EngineError::MissingJumpTarget));
}

#[test]
fn unmatched_open_is_harmless_when_not_taken() {
    // The cell is 1 at the open, so the missing partner is never looked up.
    let m = run("Ook. Ook. Ook! Ook? Ook! Ook.".to_string(), None, 100);
    assert_eq!(m.status, Status::Halted);
    assert_eq!(m.output, vec![1u8]);
}

#[test]
fn unmatched_close_jumps_to_program_start() {
    // increment, loop-close with nothing open: the close is paired with
    // index 0 and the nonzero cell keeps the jump going for ever, so the
    // step bound runs out with the machine still running.
    let m = run("Ook. Ook. Ook? Ook!".to_string(), None, 50);
    assert_eq!(m.status, Status::Running);
    assert!(m.output.is_empty());
}

#[test]
fn negative_cell_prints_its_low_byte() {
    let m = run("Ook. Ook! Ook! Ook.".to_string(), Some(-1), 100);
    assert_eq!(m.status, Status::Halted);
    assert_eq!(m.output, vec![255u8]);
}

#[test]
fn wide_cell_prints_its_low_byte() {
    let m = run("Ook. Ook! Ook! Ook.".to_string(), Some(258), 100);
    assert_eq!(m.status, Status::Halted);
    assert_eq!(m.output, vec![2u8]);
}

#[test]
fn mainloop_with_no_fuel_leaves_the_machine_running() {
    let p = ook_phrases();
    let ts = TokenSet {
        advance: &p[0],
        devance: &p[1],
        increment: &p[2],
        decrement: &p[3],
        set: &p[4],
        print: &p[5],
        jump_forward: &p[6],
        jump_back: &p[7],
    };
    let parsed = parse(&ts, "Ook. Ook.".to_string());
    let m = mainloop(parsed, None, 0);
    assert_eq!(m.status, Status::Running);
    assert_eq!(m.pc, 0);
}

#[test]
fn stepping_reports_output_input_and_halt_events() {
    let p = ook_phrases();
    let ts = TokenSet {
        advance: &p[0],
        devance: &p[1],
        increment: &p[2],
        decrement: &p[3],
        set: &p[4],
        print: &p[5],
        jump_forward: &p[6],
        jump_back: &p[7],
    };
    // increment, print, set-from-input, print.
    let parsed = parse(&ts, "Ook. Ook. Ook! Ook. Ook. Ook! Ook! Ook.".to_string());
    assert_eq!(
        parsed.tokens,
        vec![Instr::Increment, Instr::Print, Instr::SetFromInput, Instr::Print]
    );
    let mut m = Machine::new(parsed);
    assert_eq!(m.step(), StepEvent::Ran);
    assert_eq!(m.step(), StepEvent::Output(1));
    assert_eq!(m.step(), StepEvent::NeedInput);
    assert_eq!(m.status, Status::AwaitingInput);
    m.give_input(Some(9));
    assert_eq!(m.status, Status::Running);
    assert_eq!(m.step(), StepEvent::Output(9));
    assert_eq!(m.step(), StepEvent::Halted);
    assert_eq!(m.status, Status::Halted);
    assert_eq!(m.output, vec![1u8, 9u8]);
}
