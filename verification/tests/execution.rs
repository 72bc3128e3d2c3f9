use basm::compile::{convert_labels, split_tokens};
use basm::execute::{execute, initial_run, out, resume, Run, RunError};
use basm::token::Token;
use basm::value::Comparison;

const PLENTY: usize = 1_000_000;

fn compile(source: &str) -> Vec<Token> {
    let mut tokens = split_tokens(source).expect("source should tokenize");
    convert_labels(&mut tokens).expect("labels should resolve");
    tokens
}

fn run_program(source: &str) -> Run {
    execute(&compile(source), PLENTY).expect("program should run")
}

#[test]
fn mov_then_out_emits_the_value() {
    let run = run_program("mov r0, 10\nout \"{0}\"");
    assert_eq!(run.output, "10");
}

#[test]
fn sub_emits_difference_and_sets_flag_greater() {
    let run = run_program("mov r0, 7\nmov r1, 3\nsub r2, r0, r1\nout \"{2}\"");
    assert_eq!(run.output, "4");
    assert_eq!(run.flag, Comparison::Greater);
}

#[test]
fn jg_taken_and_jl_not_taken_after_positive_result() {
    // After `sub` leaves 4, the flag is Greater: `jl` falls through and
    // `jg` jumps over the poison move.
    let source = "mov r0, 7\nmov r1, 3\nsub r2, r0, r1\njl bad\njg good\nbad: mov r3, 99\ngood: out \"{3}\"";
    let run = run_program(source);
    assert_eq!(run.output, "0");
    assert_eq!(run.registers[3], 0);
}

#[test]
fn division_by_zero_aborts_with_no_output() {
    let tokens = compile("div r0, r0, r1\nout \"{0}\"");
    let result = execute(&tokens, PLENTY);
    assert!(matches!(result, Err(RunError::DivisionByZero)));
}

#[test]
fn remainder_by_zero_aborts_too() {
    let tokens = compile("mod r0, 5, 0");
    assert!(matches!(execute(&tokens, PLENTY), Err(RunError::DivisionByZero)));
}

#[test]
fn jump_resumes_at_instruction_after_the_marker() {
    // The jump lands one past the label's own no-op marker: the marker
    // costs a cycle only on first entry, and every later iteration costs
    // two cycles (add, jump).  After 8 cycles the add has run 4 times.
    let tokens = compile("count: add r0, r0, 1\njmp count");
    let run = execute(&tokens, 8).expect("program should pause");
    assert_eq!(run.registers[0], 4);
    assert_eq!(run.index, 2);
}

#[test]
fn brace_escape_and_unresolved_reference_fallback() {
    let run = run_program("out \"{{literal}\"");
    assert_eq!(run.output, "{literal}");
    let run = run_program("out \"{zz}\"");
    assert_eq!(run.output, "{zz");
}

#[test]
fn formatter_handles_plain_text_registers_and_trailing_brace() {
    let run = run_program("mov r2, -45\nout \"a{2}b\"");
    assert_eq!(run.output, "a-45b");
    let run = run_program("out \"tail{\"");
    assert_eq!(run.output, "tail{");
    let run = run_program("out \"{7\"");
    assert_eq!(run.output, "{7");
}

#[test]
fn bare_out_appends_one_newline() {
    let run = run_program("out hello");
    assert_eq!(run.output, "hello\n");
}

#[test]
fn cycle_budget_counts_every_instruction_and_pauses() {
    // Comments and label markers cost a cycle like anything else.
    let tokens = compile("/*a*/ /*b*/ here: mov r0, 1\nmov r1, 2");
    assert_eq!(tokens.len(), 5);
    let paused = execute(&tokens, 3).expect("run should pause");
    assert_eq!(paused.index, 3);
    assert_eq!(paused.registers[0], 0);
    let paused = execute(&tokens, 4).expect("run should pause");
    assert_eq!(paused.index, 4);
    assert_eq!(paused.registers[0], 1);
    assert_eq!(paused.registers[1], 0);
}

#[test]
fn paused_run_resumes_from_persisted_state() {
    let tokens = compile("mov r0, 1\nmov r1, 2\nmov r2, 3");
    let paused = execute(&tokens, 1).expect("run should pause");
    assert_eq!(paused.index, 1);
    let done = resume(&tokens, paused, PLENTY).expect("run should finish");
    assert_eq!(done.index, 3);
    assert_eq!(done.registers[0], 1);
    assert_eq!(done.registers[1], 2);
    assert_eq!(done.registers[2], 3);
}

#[test]
fn zero_budget_executes_nothing() {
    let tokens = compile("mov r0, 1");
    let paused = execute(&tokens, 0).expect("run should pause at once");
    assert_eq!(paused.index, 0);
    assert_eq!(paused.registers[0], 0);
}

#[test]
fn straight_line_program_visits_each_instruction_once_in_order() {
    let run = run_program("out a\nout b\nout c");
    assert_eq!(run.output, "a\nb\nc\n");
    assert_eq!(run.index, 3);
}

#[test]
fn registers_start_at_zero_and_flag_at_equal() {
    let fresh = initial_run();
    assert_eq!(fresh.registers.len(), 256);
    assert!(fresh.registers.iter().all(|r| *r == 0));
    assert_eq!(fresh.flag, Comparison::Equal);
    assert_eq!(fresh.index, 0);
    assert_eq!(fresh.output, "");
}

#[test]
fn arithmetic_wraps_and_flags_follow_the_result() {
    let run = run_program("mov r0, 9223372036854775807\nadd r0, r0, 1\nout \"{0}\"");
    assert_eq!(run.output, "-9223372036854775808");
    assert_eq!(run.flag, Comparison::Less);
}

#[test]
fn division_truncates_toward_zero() {
    let run = run_program("mov r0, -7\ndiv r1, r0, 2\nmod r2, r0, 2\nout \"{1} {2}\"");
    assert_eq!(run.output, "-3 -1");
}

#[test]
fn wrapping_division_of_minimum_by_minus_one() {
    let run = run_program("mov r0, -9223372036854775808\ndiv r1, r0, -1\nmod r2, r0, -1\nout \"{1} {2}\"");
    assert_eq!(run.output, "-9223372036854775808 0");
}

#[test]
fn cmp_sets_flag_from_three_way_comparison() {
    let run = run_program("cmp 1, 2");
    assert_eq!(run.flag, Comparison::Less);
    let run = run_program("cmp 5, 5");
    assert_eq!(run.flag, Comparison::Equal);
    let run = run_program("mov r1, -3\ncmp 2, r1");
    assert_eq!(run.flag, Comparison::Greater);
}

#[test]
fn mov_copies_current_register_value() {
    let run = run_program("mov r0, 5\nmov r1, r0\nmov r0, 9\nout \"{0} {1}\"");
    assert_eq!(run.output, "9 5");
}

#[test]
fn conditional_loop_counts_down() {
    let source = "mov r0, 3\nagain: sub r0, r0, 1\njg again\nout \"{0}\"";
    let run = run_program(source);
    assert_eq!(run.output, "0");
}

#[test]
fn formatter_reads_multi_digit_register_names() {
    let run = run_program("mov r200, 12\nout \"{200}\"");
    assert_eq!(run.output, "12");
}

#[test]
fn closing_brace_without_opener_is_ordinary_text() {
    let run = run_program("out \"a}b\"");
    assert_eq!(run.output, "a}b");
}

#[test]
fn empty_quoted_template_emits_nothing() {
    let run = run_program("out \"\"\nout done");
    assert_eq!(run.output, "done\n");
}

#[test]
fn plus_prefixed_reference_names_a_register() {
    let run = run_program("mov r5, 8\nout \"{+5}\"");
    assert_eq!(run.output, "8");
}

#[test]
fn out_formats_against_current_registers() {
    let registers = vec![0i64; 256];
    assert_eq!(out("x{0}y", &registers), "x0y");
    let mut registers = registers;
    registers[9] = -1;
    assert_eq!(out("{9}{9}", &registers), "-1-1");
}
