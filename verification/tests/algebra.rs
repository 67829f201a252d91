//! The value algebra: constant folding, widening, deferral, degenerate
//! cases.

use dexflow::{BinaryOp, LastInstruction, Value};

fn num(v: &Value) -> i128 {
    match v {
        Value::Number(n) => *n,
        _ => panic!("expected a number"),
    }
}

#[test]
fn folds_every_operator_on_numbers() {
    let a = Value::Number(42);
    let b = Value::Number(21);
    assert_eq!(num(&Value::apply_binop(BinaryOp::Add, &a, &b)), 63);
    assert_eq!(num(&Value::apply_binop(BinaryOp::Sub, &a, &b)), 21);
    assert_eq!(num(&Value::apply_binop(BinaryOp::Mul, &a, &b)), 882);
    assert_eq!(num(&Value::apply_binop(BinaryOp::Div, &a, &b)), 2);
    assert_eq!(num(&Value::apply_binop(BinaryOp::Rem, &a, &b)), 0);
    assert_eq!(num(&Value::apply_binop(BinaryOp::And, &a, &b)), 42 & 21);
    assert_eq!(num(&Value::apply_binop(BinaryOp::Or, &a, &b)), 42 | 21);
    assert_eq!(num(&Value::apply_binop(BinaryOp::Xor, &a, &b)), 42 ^ 21);
    assert_eq!(
        num(&Value::apply_binop(BinaryOp::Shl, &Value::Number(1), &Value::Number(4))),
        16
    );
    assert_eq!(
        num(&Value::apply_binop(BinaryOp::Shr, &Value::Number(-8), &Value::Number(1))),
        -4
    );
}

#[test]
fn ushr_treats_the_operand_as_unsigned() {
    let r = Value::Number(-1).ushr(&Value::Number(1));
    assert_eq!(num(&r), i128::MAX);
    let r2 = Value::Number(16).ushr(&Value::Number(2));
    assert_eq!(num(&r2), 4);
}

#[test]
fn division_and_remainder_by_zero_are_invalid() {
    assert!(matches!(
        Value::apply_binop(BinaryOp::Div, &Value::Number(5), &Value::Number(0)),
        Value::Invalid
    ));
    assert!(matches!(
        Value::apply_binop(BinaryOp::Rem, &Value::Number(5), &Value::Number(0)),
        Value::Invalid
    ));
}

#[test]
fn out_of_range_shift_amounts_are_invalid() {
    assert!(matches!(
        Value::apply_binop(BinaryOp::Shl, &Value::Number(1), &Value::Number(128)),
        Value::Invalid
    ));
    assert!(matches!(
        Value::apply_binop(BinaryOp::Shr, &Value::Number(1), &Value::Number(-1)),
        Value::Invalid
    ));
}

#[test]
fn byte_char_and_boolean_widen_to_numbers() {
    assert_eq!(
        num(&Value::apply_binop(BinaryOp::Add, &Value::Byte(5), &Value::Char('A'))),
        5 + 65
    );
    assert_eq!(
        num(&Value::apply_binop(BinaryOp::Add, &Value::Boolean(true), &Value::Number(1))),
        2
    );
}

#[test]
fn try_get_number_projects_constants() {
    assert_eq!(Value::Number(9).try_get_number(), Some(9));
    assert_eq!(Value::Byte(200).try_get_number(), Some(200));
    assert_eq!(Value::Char('z').try_get_number(), Some('z' as i128));
    assert_eq!(Value::Boolean(false).try_get_number(), Some(0));
    assert_eq!(Value::String(String::from("7")).try_get_number(), None);
    assert_eq!(Value::Invalid.try_get_number(), None);
    assert_eq!(Value::Empty.try_get_number(), None);
}

#[test]
fn is_constant_holds_exactly_for_the_six_constants() {
    assert!(Value::String(String::new()).is_constant());
    assert!(Value::Number(0).is_constant());
    assert!(Value::Boolean(true).is_constant());
    assert!(Value::Char('a').is_constant());
    assert!(Value::Byte(0).is_constant());
    assert!(Value::Bytes(vec![1, 2]).is_constant());
    assert!(!Value::Unknown { ty: String::from("I") }.is_constant());
    assert!(!Value::Object { ty: String::from("I") }.is_constant());
    assert!(!Value::Invalid.is_constant());
    assert!(!Value::Empty.is_constant());
}

#[test]
fn an_operation_on_a_deferred_operand_defers() {
    let inner = LastInstruction::BinaryOperation {
        left: Value::Number(2),
        right: Value::Number(3),
        operation: BinaryOp::Mul,
    };
    let x = Value::Variable(Box::new(inner));
    let r = Value::apply_binop(BinaryOp::Add, &x, &Value::Number(4));
    match r {
        Value::Variable(b) => match *b {
            LastInstruction::BinaryOperation { left, right, operation } => {
                assert!(matches!(left, Value::Variable(_)));
                assert_eq!(num(&right), 4);
                assert_eq!(operation, BinaryOp::Add);
            },
            _ => panic!("expected a deferred binary operation"),
        },
        _ => panic!("expected a deferred value"),
    }
    let r2 = Value::apply_binop_lit(
        BinaryOp::Xor,
        &Value::Variable(Box::new(LastInstruction::BinaryOperation {
            left: Value::Empty,
            right: Value::Empty,
            operation: BinaryOp::Add,
        })),
        7,
    );
    assert!(matches!(r2, Value::Variable(_)));
}

#[test]
fn an_operation_on_unmodellable_operands_is_invalid() {
    let r = Value::apply_binop(
        BinaryOp::Add,
        &Value::Unknown { ty: String::from("I") },
        &Value::Number(1),
    );
    assert!(matches!(r, Value::Invalid));
    let r2 = Value::apply_binop_lit(BinaryOp::Add, &Value::Empty, 1);
    assert!(matches!(r2, Value::Invalid));
}

#[test]
fn wrapping_addition_at_the_word_boundary() {
    let r = Value::apply_binop(BinaryOp::Add, &Value::Number(i128::MAX), &Value::Number(1));
    assert_eq!(num(&r), i128::MIN);
}
