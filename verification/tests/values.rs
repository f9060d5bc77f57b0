use stack_vm::error::VMError;
use stack_vm::types::{VMArray, VMBinaryOp, VMCompare, Value};

fn show(value: &Value) -> String {
    format!("{:?}", value)
}

fn numbers(items: &[i32]) -> Value {
    Value::Array(items.iter().map(|n| Value::Number(*n)).collect())
}

fn message_of(r: Result<Value, VMError>) -> String {
    match r {
        Err(VMError::TypeError { message }) => message,
        Err(VMError::ExecutionError { message, .. }) => message,
        other => panic!("no message in {:?}", other),
    }
}

#[test]
fn add_sums_two_numbers() {
    let r = Value::Number(2).add(&Value::Number(40)).unwrap();
    assert_eq!(show(&r), "Number(42)");
}

#[test]
fn sub_takes_the_right_from_the_left() {
    let r = Value::Number(2).sub(&Value::Number(40)).unwrap();
    assert_eq!(show(&r), "Number(-38)");
}

#[test]
fn mul_multiplies_two_numbers() {
    let r = Value::Number(-6).mul(&Value::Number(7)).unwrap();
    assert_eq!(show(&r), "Number(-42)");
}

#[test]
fn div_rounds_toward_zero() {
    assert_eq!(show(&Value::Number(7).div(&Value::Number(2)).unwrap()), "Number(3)");
    assert_eq!(show(&Value::Number(-7).div(&Value::Number(2)).unwrap()), "Number(-3)");
    assert_eq!(show(&Value::Number(7).div(&Value::Number(-2)).unwrap()), "Number(-3)");
    assert_eq!(show(&Value::Number(-7).div(&Value::Number(-2)).unwrap()), "Number(3)");
    assert_eq!(show(&Value::Number(0).div(&Value::Number(5)).unwrap()), "Number(0)");
    assert_eq!(
        show(&Value::Number(i32::MIN).div(&Value::Number(1)).unwrap()),
        format!("Number({})", i32::MIN)
    );
}

#[test]
fn div_by_zero_is_its_own_error() {
    assert!(matches!(Value::Number(7).div(&Value::Number(0)), Err(VMError::DivisionByZero)));
    assert!(matches!(Value::Number(0).div(&Value::Number(0)), Err(VMError::DivisionByZero)));
}

#[test]
fn arithmetic_that_does_not_fit_is_an_error() {
    assert_eq!(message_of(Value::Number(i32::MAX).add(&Value::Number(1))), "Integer overflow");
    assert_eq!(message_of(Value::Number(i32::MIN).sub(&Value::Number(1))), "Integer overflow");
    assert_eq!(message_of(Value::Number(65536).mul(&Value::Number(65536))), "Integer overflow");
    assert_eq!(message_of(Value::Number(i32::MIN).div(&Value::Number(-1))), "Integer overflow");
    assert_eq!(
        show(&Value::Number(i32::MAX - 1).add(&Value::Number(1)).unwrap()),
        format!("Number({})", i32::MAX)
    );
}

#[test]
fn arithmetic_on_other_kinds_is_a_type_error() {
    assert_eq!(
        message_of(Value::Number(1).add(&Value::Boolean(true))),
        "Cannot add number and boolean"
    );
    assert_eq!(
        message_of(Value::Null.sub(&Value::Number(1))),
        "Cannot subtract null and number"
    );
    assert_eq!(
        message_of(numbers(&[1]).mul(&Value::Number(1))),
        "Cannot multiply array and number"
    );
    assert_eq!(
        message_of(Value::Boolean(false).div(&Value::Number(0))),
        "Cannot divide boolean and number"
    );
}

#[test]
fn comparisons_order_numbers() {
    assert_eq!(Value::Number(3).gt(&Value::Number(2)).unwrap(), true);
    assert_eq!(Value::Number(2).gt(&Value::Number(3)).unwrap(), false);
    assert_eq!(Value::Number(2).gt(&Value::Number(2)).unwrap(), false);
    assert_eq!(Value::Number(2).lt(&Value::Number(3)).unwrap(), true);
    assert_eq!(Value::Number(3).lt(&Value::Number(2)).unwrap(), false);
    assert_eq!(Value::Number(-1).lt(&Value::Number(-1)).unwrap(), false);
}

#[test]
fn comparisons_of_other_kinds_are_type_errors() {
    match Value::Number(1).lt(&Value::Null) {
        Err(VMError::TypeError { message }) => {
            assert_eq!(message, "Cannot compare number and null with <")
        }
        other => panic!("unexpected {:?}", other),
    }
    match Value::Boolean(true).gt(&Value::Boolean(false)) {
        Err(VMError::TypeError { message }) => {
            assert_eq!(message, "Cannot compare boolean and boolean with >")
        }
        other => panic!("unexpected {:?}", other),
    }
}

#[test]
fn equality_is_structural() {
    assert!(VMCompare::eq(&Value::Number(5), &Value::Number(5)));
    assert!(!VMCompare::eq(&Value::Number(5), &Value::Number(1)));
    assert!(VMCompare::eq(&Value::Boolean(true), &Value::Boolean(true)));
    assert!(!VMCompare::eq(&Value::Boolean(true), &Value::Boolean(false)));
    assert!(VMCompare::eq(&Value::Null, &Value::Null));
    assert!(VMCompare::eq(&numbers(&[1, 2, 3]), &numbers(&[1, 2, 3])));
    assert!(!VMCompare::eq(&numbers(&[1, 2, 3]), &numbers(&[1, 2])));
    assert!(!VMCompare::eq(&numbers(&[1, 2, 3]), &numbers(&[1, 2, 4])));
    assert!(VMCompare::eq(&numbers(&[]), &numbers(&[])));
    let nested = Value::Array(vec![numbers(&[1]), Value::Null]);
    let same = Value::Array(vec![numbers(&[1]), Value::Null]);
    let other = Value::Array(vec![numbers(&[2]), Value::Null]);
    assert!(VMCompare::eq(&nested, &same));
    assert!(!VMCompare::eq(&nested, &other));
}

#[test]
fn equality_across_kinds_is_false() {
    assert!(!VMCompare::eq(&Value::Number(1), &Value::Boolean(true)));
    assert!(!VMCompare::eq(&Value::Number(0), &Value::Null));
    assert!(!VMCompare::eq(&Value::Boolean(false), &Value::Null));
    assert!(!VMCompare::eq(&numbers(&[]), &Value::Null));
    assert!(!VMCompare::eq(&numbers(&[1]), &Value::Number(1)));
}

#[test]
fn truthiness_follows_the_kind() {
    assert!(Value::Number(1).is_truthy());
    assert!(!Value::Number(0).is_truthy());
    assert!(!Value::Number(-1).is_truthy());
    assert!(Value::Boolean(true).is_truthy());
    assert!(!Value::Boolean(false).is_truthy());
    assert!(numbers(&[0]).is_truthy());
    assert!(!numbers(&[]).is_truthy());
    assert!(!Value::Null.is_truthy());
}

#[test]
fn kind_names() {
    assert_eq!(Value::Number(1).kind_name(), "number");
    assert_eq!(Value::Boolean(true).kind_name(), "boolean");
    assert_eq!(numbers(&[]).kind_name(), "array");
    assert_eq!(Value::Null.kind_name(), "null");
}

#[test]
fn push_appends_to_an_array() {
    let mut array = numbers(&[1, 2]);
    array.push(Value::Number(3)).unwrap();
    assert_eq!(show(&array), "Array([Number(1), Number(2), Number(3)])");
}

#[test]
fn pop_takes_the_last_item() {
    let mut array = numbers(&[1, 2]);
    let item = array.pop().unwrap();
    assert_eq!(show(&item), "Number(2)");
    assert_eq!(show(&array), "Array([Number(1)])");
}

#[test]
fn pop_of_an_empty_array_is_an_index_error() {
    let mut array = numbers(&[]);
    assert!(matches!(array.pop(), Err(VMError::IndexError { index: 0, len: 0 })));
    assert_eq!(show(&array), "Array([])");
}

#[test]
fn get_copies_the_item_at_the_index() {
    let array = numbers(&[10, 20, 30]);
    assert_eq!(show(&array.get(Some(0)).unwrap()), "Number(10)");
    assert_eq!(show(&array.get(Some(2)).unwrap()), "Number(30)");
    assert_eq!(show(&array), "Array([Number(10), Number(20), Number(30)])");
}

#[test]
fn get_outside_the_array_is_an_index_error() {
    let array = numbers(&[10, 20, 30]);
    assert!(matches!(array.get(Some(3)), Err(VMError::IndexError { index: 3, len: 3 })));
    assert!(matches!(array.get(Some(-1)), Err(VMError::IndexError { index: -1, len: 3 })));
    assert!(matches!(array.get(None), Err(VMError::IndexError { index: -1, len: 3 })));
}

#[test]
fn set_replaces_the_item_at_the_index() {
    let mut array = numbers(&[10, 20, 30]);
    array.set(Some(1), Value::Boolean(true)).unwrap();
    assert_eq!(show(&array), "Array([Number(10), Boolean(true), Number(30)])");
}

#[test]
fn set_outside_the_array_is_an_index_error() {
    let mut array = numbers(&[10, 20, 30]);
    assert!(matches!(
        array.set(Some(3), Value::Null),
        Err(VMError::IndexError { index: 3, len: 3 })
    ));
    assert!(matches!(
        array.set(Some(-2), Value::Null),
        Err(VMError::IndexError { index: -2, len: 3 })
    ));
    assert!(matches!(array.set(None, Value::Null), Err(VMError::IndexError { index: -1, len: 3 })));
    assert_eq!(show(&array), "Array([Number(10), Number(20), Number(30)])");
}

#[test]
fn array_operations_on_other_kinds_fail() {
    let mut number = Value::Number(1);
    assert!(matches!(number.push(Value::Null), Err(VMError::NotAnArray)));
    assert!(matches!(number.pop(), Err(VMError::NotAnArray)));
    assert!(matches!(number.get(Some(0)), Err(VMError::NotAnArray)));
    assert!(matches!(number.set(Some(0), Value::Null), Err(VMError::NotAnArray)));
    assert_eq!(show(&number), "Number(1)");
}

#[test]
fn as_array_mut_gives_the_items_to_change() {
    let mut array = numbers(&[1]);
    array.as_array_mut().unwrap().push(Value::Number(2));
    assert_eq!(show(&array), "Array([Number(1), Number(2)])");
    let mut null = Value::Null;
    match null.as_array_mut() {
        Err(VMError::TypeError { message }) => assert_eq!(message, "Expected array, got null"),
        other => panic!("unexpected {:?}", other),
    }
}

#[test]
fn clone_copies_arrays_item_by_item() {
    let array = Value::Array(vec![numbers(&[1, 2]), Value::Boolean(false), Value::Null]);
    let mut copy = array.clone();
    assert!(VMCompare::eq(&array, &copy));
    copy.push(Value::Number(1)).unwrap();
    assert!(!VMCompare::eq(&array, &copy));
    assert_eq!(show(&array), "Array([Array([Number(1), Number(2)]), Boolean(false), Null])");
}

#[test]
fn spans_carry_offset_and_length() {
    match VMError::parse_error("let x".to_string(), "bad".to_string(), 3, 2) {
        VMError::ParseError { src, message, span } => {
            assert_eq!(src, "let x");
            assert_eq!(message, "bad");
            assert_eq!(span.offset(), 3);
            assert_eq!(span.len(), 2);
        }
        other => panic!("unexpected {:?}", other),
    }
    match VMError::tokenization_error("abc".to_string(), "worse".to_string(), 1, 0) {
        VMError::TokenizationError { src, message, span } => {
            assert_eq!(src, "abc");
            assert_eq!(message, "worse");
            assert_eq!(span.offset(), 1);
            assert_eq!(span.len(), 0);
        }
        other => panic!("unexpected {:?}", other),
    }
}
