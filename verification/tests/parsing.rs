use basm::compile::error::{Error, ErrorKind};
use basm::compile::split_tokens;
use basm::token::{Label, Token};
use basm::value::Value;

fn parse(source: &str) -> Vec<Token> {
    split_tokens(source).expect("source should tokenize")
}

fn parse_err(source: &str) -> Error {
    split_tokens(source).expect_err("source should be rejected")
}

#[test]
fn empty_input_yields_empty_sequence() {
    assert_eq!(parse(""), Vec::new());
    assert_eq!(parse("   \n\t  "), Vec::new());
}

#[test]
fn mov_with_number_and_register_operands() {
    assert_eq!(
        parse("mov r0, 10"),
        vec![Token::Mov(0, Value::Number(10))]
    );
    assert_eq!(
        parse("mov r7, r255"),
        vec![Token::Mov(7, Value::Register(255))]
    );
}

#[test]
fn arithmetic_commands_build_their_tokens() {
    assert_eq!(
        parse("add r1, r2, 3"),
        vec![Token::Add(1, Value::Register(2), Value::Number(3))]
    );
    assert_eq!(
        parse("sub r1, 4, 5"),
        vec![Token::Sub(1, Value::Number(4), Value::Number(5))]
    );
    assert_eq!(
        parse("mul r9, r9, r9"),
        vec![Token::Mul(9, Value::Register(9), Value::Register(9))]
    );
    assert_eq!(
        parse("div r0, r1, r2"),
        vec![Token::Div(0, Value::Register(1), Value::Register(2))]
    );
    assert_eq!(
        parse("mod r0, r1, 7"),
        vec![Token::Mod(0, Value::Register(1), Value::Number(7))]
    );
}

#[test]
fn cmp_takes_two_plain_values() {
    assert_eq!(
        parse("cmp 3, r4"),
        vec![Token::Cmp(Value::Number(3), Value::Register(4))]
    );
}

#[test]
fn jumps_carry_symbolic_targets() {
    assert_eq!(
        parse("jmp start"),
        vec![Token::Jmp(Label::Base(String::from("start")))]
    );
    assert_eq!(
        parse("jl a\njg b\nje c"),
        vec![
            Token::Jl(Label::Base(String::from("a"))),
            Token::Jg(Label::Base(String::from("b"))),
            Token::Je(Label::Base(String::from("c"))),
        ]
    );
}

#[test]
fn label_declaration_keeps_name_before_colon() {
    assert_eq!(
        parse("loop: mov r0, 1"),
        vec![
            Token::Label(String::from("loop")),
            Token::Mov(0, Value::Number(1)),
        ]
    );
}

#[test]
fn quoted_out_is_verbatim_and_bare_out_gains_newline() {
    assert_eq!(
        parse("out \"hello\""),
        vec![Token::Out(String::from("hello"))]
    );
    assert_eq!(parse("out word"), vec![Token::Out(String::from("word\n"))]);
}

#[test]
fn quoted_out_escapes() {
    assert_eq!(
        parse("out \"a\\nb\\tc\\rd\\0e\\\\f\\\"g\""),
        vec![Token::Out(String::from("a\nb\tc\rd\0e\\f\"g"))]
    );
}

#[test]
fn block_comments_are_kept_as_tokens() {
    assert_eq!(
        parse("/* a comment */"),
        vec![Token::Comment(String::from(" a comment "))]
    );
    assert_eq!(
        parse("mov r0, 1 /*x*/ mov r1, 2"),
        vec![
            Token::Mov(0, Value::Number(1)),
            Token::Comment(String::from("x")),
            Token::Mov(1, Value::Number(2)),
        ]
    );
}

#[test]
fn negative_and_extreme_number_literals() {
    assert_eq!(
        parse("mov r0, -42"),
        vec![Token::Mov(0, Value::Number(-42))]
    );
    assert_eq!(
        parse("mov r0, 9223372036854775807"),
        vec![Token::Mov(0, Value::Number(i64::MAX))]
    );
    assert_eq!(
        parse("mov r0, -9223372036854775808"),
        vec![Token::Mov(0, Value::Number(i64::MIN))]
    );
}

#[test]
fn number_overflow_is_an_invalid_argument() {
    let e = parse_err("mov r0, 9223372036854775808");
    assert_eq!(e.kind, ErrorKind::InvalidArgument);
}

#[test]
fn register_index_above_255_is_invalid() {
    let e = parse_err("mov r0, r256");
    assert_eq!(e.kind, ErrorKind::InvalidRegister);
    let e = parse_err("mov rx, 1");
    assert_eq!(e.kind, ErrorKind::InvalidRegister);
}

#[test]
fn non_register_destination_is_invalid() {
    let e = parse_err("mov 5, 6");
    assert_eq!(e.kind, ErrorKind::InvalidDestination);
    let e = parse_err("add -1, r0, r1");
    assert_eq!(e.kind, ErrorKind::InvalidDestination);
}

#[test]
fn unknown_command_is_reported_with_position() {
    let e = parse_err("bogus x");
    assert_eq!(e, Error::new(ErrorKind::InvalidCommand, 1, 6));
}

#[test]
fn newline_inside_argument_list_is_end_of_line() {
    let e = parse_err("mov r0, \n5");
    assert_eq!(e.kind, ErrorKind::EndOfLine);
    let e = parse_err("mov r0 \n, 5");
    assert_eq!(e.kind, ErrorKind::EndOfLine);
}

#[test]
fn newline_that_ends_a_value_token_is_no_error() {
    // A newline may close the value itself; only a newline met while
    // looking for the separator or the next value is fatal.
    assert_eq!(parse("mov r0\n, 5"), vec![Token::Mov(0, Value::Number(5))]);
}

#[test]
fn truncated_argument_list_is_end_of_file() {
    let e = parse_err("mov r0,");
    assert_eq!(e.kind, ErrorKind::EndOfFile);
}

#[test]
fn unterminated_comment_is_end_of_file() {
    let e = parse_err("/* never closed");
    assert_eq!(e.kind, ErrorKind::EndOfFile);
}

#[test]
fn unterminated_string_is_end_of_file() {
    let e = parse_err("out \"open");
    assert_eq!(e.kind, ErrorKind::EndOfFile);
}

#[test]
fn unknown_escape_is_invalid() {
    let e = parse_err("out \"bad \\q\"");
    assert_eq!(e.kind, ErrorKind::InvalidEscape);
}

#[test]
fn second_colon_in_label_is_invalid() {
    let e = parse_err("na:me: mov r0, 1");
    assert_eq!(e.kind, ErrorKind::InvalidLabel);
}

#[test]
fn colon_in_command_middle_is_no_label() {
    let e = parse_err("name:extra mov r0, 1");
    assert_eq!(e.kind, ErrorKind::InvalidCommand);
}

#[test]
fn missing_separator_between_arguments_is_invalid() {
    let e = parse_err("mov r0 5");
    assert_eq!(e.kind, ErrorKind::InvalidArgument);
}

#[test]
fn plus_prefixed_numbers_parse_like_rust() {
    assert_eq!(parse("mov r0, +5"), vec![Token::Mov(0, Value::Number(5))]);
    assert_eq!(
        parse("mov r0, r+7"),
        vec![Token::Mov(0, Value::Register(7))]
    );
}
