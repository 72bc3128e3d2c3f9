use basm::compile::code::Code;
use basm::compile::error::ErrorKind;
use basm::value::{ArithOp, Comparison, Value};
use basm::str_eq;

fn registers_with(index: usize, value: i64) -> Vec<i64> {
    let mut registers = vec![0i64; 256];
    registers[index] = value;
    registers
}

#[test]
fn value_from_str_reads_numbers_and_registers() {
    let code = Code::from_str("");
    assert_eq!(Value::from_str("42", &code), Ok(Value::Number(42)));
    assert_eq!(Value::from_str("-1", &code), Ok(Value::Number(-1)));
    assert_eq!(Value::from_str("r0", &code), Ok(Value::Register(0)));
    assert_eq!(Value::from_str("r255", &code), Ok(Value::Register(255)));
}

#[test]
fn value_from_str_rejects_bad_tokens() {
    let code = Code::from_str("");
    assert_eq!(
        Value::from_str("r256", &code).unwrap_err().kind,
        ErrorKind::InvalidRegister
    );
    assert_eq!(
        Value::from_str("", &code).unwrap_err().kind,
        ErrorKind::InvalidArgument
    );
    assert_eq!(
        Value::from_str("12x", &code).unwrap_err().kind,
        ErrorKind::InvalidArgument
    );
}

#[test]
fn take_resolves_registers_and_passes_numbers() {
    let registers = registers_with(5, -9);
    assert_eq!(Value::Number(3).take(&registers), 3);
    assert_eq!(Value::Register(5).take(&registers), -9);
    assert_eq!(Value::Register(0).take(&registers), 0);
}

#[test]
fn perform_operation_applies_wrapping_arithmetic() {
    let registers = registers_with(1, 10);
    let left = Value::Register(1);
    let right = Value::Number(4);
    assert_eq!(
        left.perform_operation(&right, &registers, ArithOp::Add),
        Some(14)
    );
    assert_eq!(
        left.perform_operation(&right, &registers, ArithOp::Sub),
        Some(6)
    );
    assert_eq!(
        left.perform_operation(&right, &registers, ArithOp::Mul),
        Some(40)
    );
    assert_eq!(
        left.perform_operation(&right, &registers, ArithOp::Div),
        Some(2)
    );
    assert_eq!(
        left.perform_operation(&right, &registers, ArithOp::Mod),
        Some(2)
    );
    assert_eq!(
        left.perform_operation(&Value::Number(0), &registers, ArithOp::Div),
        None
    );
}

#[test]
fn compare_is_three_way() {
    let registers = registers_with(2, 7);
    assert_eq!(
        Value::Number(1).compare(&Value::Register(2), &registers),
        Comparison::Less
    );
    assert_eq!(
        Value::Register(2).compare(&Value::Number(7), &registers),
        Comparison::Equal
    );
    assert_eq!(
        Value::Number(8).compare(&Value::Register(2), &registers),
        Comparison::Greater
    );
    assert_eq!(
        Value::Number(-1).compare_zero(&registers),
        Comparison::Less
    );
}

#[test]
fn str_eq_compares_by_characters() {
    assert!(str_eq("", ""));
    assert!(str_eq("abc", "abc"));
    assert!(!str_eq("abc", "abd"));
    assert!(!str_eq("abc", "abcd"));
}
