use rbasic::value::{
    apply, calculate, order_numbers, order_texts, spelled_integer, Comparison, Operation,
    RBasicValue, Relation, ValueError,
};
use std::ops::{Neg, Not};

fn text(s: &str) -> RBasicValue {
    RBasicValue::String(s.to_string())
}

fn number(r: Result<RBasicValue, ValueError>) -> i32 {
    match r {
        Ok(RBasicValue::Number(n)) => n,
        other => panic!("no number: {:?}", other),
    }
}

#[test]
fn arithmetic_on_numbers() {
    assert_eq!(number(RBasicValue::Number(7) + RBasicValue::Number(5)), 12);
    assert_eq!(number(RBasicValue::Number(7) - RBasicValue::Number(5)), 2);
    assert_eq!(number(RBasicValue::Number(7) * RBasicValue::Number(5)), 35);
    assert_eq!(number(RBasicValue::Number(7) / RBasicValue::Number(5)), 1);
}

#[test]
fn division_rounds_towards_zero() {
    assert_eq!(number(RBasicValue::Number(-7) / RBasicValue::Number(2)), -3);
    assert_eq!(number(RBasicValue::Number(7) / RBasicValue::Number(-2)), -3);
    assert_eq!(number(RBasicValue::Number(-7) / RBasicValue::Number(-2)), 3);
    assert_eq!(number(RBasicValue::Number(0) / RBasicValue::Number(-2)), 0);
}

#[test]
fn division_by_zero_is_an_error() {
    assert_eq!(
        (RBasicValue::Number(1) / RBasicValue::Number(0)).unwrap_err(),
        ValueError::DivisionByZero
    );
    assert_eq!((RBasicValue::Number(1) / text("0")).unwrap_err(), ValueError::DivisionByZero);
}

#[test]
fn results_out_of_range_are_errors() {
    assert_eq!(
        (RBasicValue::Number(i32::MAX) + RBasicValue::Number(1)).unwrap_err(),
        ValueError::Overflow
    );
    assert_eq!(
        (RBasicValue::Number(i32::MIN) - RBasicValue::Number(1)).unwrap_err(),
        ValueError::Overflow
    );
    assert_eq!(
        (RBasicValue::Number(65536) * RBasicValue::Number(65536)).unwrap_err(),
        ValueError::Overflow
    );
    assert_eq!(
        (RBasicValue::Number(i32::MIN) / RBasicValue::Number(-1)).unwrap_err(),
        ValueError::Overflow
    );
    assert_eq!(RBasicValue::Number(i32::MIN).neg().unwrap_err(), ValueError::Overflow);
    assert_eq!(number(RBasicValue::Number(i32::MAX) + RBasicValue::Number(0)), i32::MAX);
}

#[test]
fn texts_are_joined_by_plus_only() {
    match text("foo") + text("bar") {
        Ok(RBasicValue::String(s)) => assert_eq!(s, "foobar"),
        other => panic!("no text: {:?}", other),
    }
    assert_eq!(
        (text("foo") - text("bar")).unwrap_err(),
        ValueError::Incompatible { op: Operation::Subtract }
    );
    assert_eq!(
        (text("foo") * text("bar")).unwrap_err(),
        ValueError::Incompatible { op: Operation::Multiply }
    );
    assert_eq!(
        (text("foo") / text("bar")).unwrap_err(),
        ValueError::Incompatible { op: Operation::Divide }
    );
}

#[test]
fn text_beside_a_number_counts_as_the_integer_it_spells() {
    assert_eq!(number(RBasicValue::Number(1) + text("41")), 42);
    assert_eq!(number(text("-3") * RBasicValue::Number(4)), -12);
    assert_eq!(number(text("+3") - RBasicValue::Number(4)), -1);
    assert_eq!(number(text("-2147483648") + RBasicValue::Number(0)), i32::MIN);
}

#[test]
fn text_that_spells_no_integer_is_a_coercion_error() {
    assert_eq!(
        (RBasicValue::Number(5) + text("foo")).unwrap_err(),
        ValueError::Coercion {
            op: Operation::Add,
            number: 5,
            text: "foo".to_string(),
            number_first: true
        }
    );
    assert_eq!(
        (text("1 ") / RBasicValue::Number(5)).unwrap_err(),
        ValueError::Coercion {
            op: Operation::Divide,
            number: 5,
            text: "1 ".to_string(),
            number_first: false
        }
    );
    for bad in ["", "+", "-", "2147483648", "-2147483649", "1_000", "٣"] {
        assert!((RBasicValue::Number(5) + text(bad)).is_err(), "{:?}", bad);
    }
}

#[test]
fn truth_values_cannot_be_computed_with() {
    assert_eq!(
        (RBasicValue::Bool(true) + RBasicValue::Bool(false)).unwrap_err(),
        ValueError::Incompatible { op: Operation::Add }
    );
    assert_eq!(
        (RBasicValue::Bool(true) + RBasicValue::Number(1)).unwrap_err(),
        ValueError::Incompatible { op: Operation::Add }
    );
    assert_eq!(
        (text("a") * RBasicValue::Bool(true)).unwrap_err(),
        ValueError::Incompatible { op: Operation::Multiply }
    );
}

#[test]
fn unary_operators() {
    assert_eq!(number(RBasicValue::Number(5).neg()), -5);
    assert_eq!(text("5").neg().unwrap_err(), ValueError::Negate);
    assert_eq!(RBasicValue::Bool(true).neg().unwrap_err(), ValueError::Negate);
    assert!(matches!(RBasicValue::Bool(true).not(), Ok(RBasicValue::Bool(false))));
    assert!(matches!(RBasicValue::Bool(false).not(), Ok(RBasicValue::Bool(true))));
    assert_eq!(RBasicValue::Number(1).not().unwrap_err(), ValueError::Not);
}

#[test]
fn comparisons_of_numbers() {
    let a = RBasicValue::Number(1);
    let b = RBasicValue::Number(2);
    assert_eq!(a.eq(&b), Ok(false));
    assert_eq!(a.neq(&b), Ok(true));
    assert_eq!(a.lt(&b), Ok(true));
    assert_eq!(a.gt(&b), Ok(false));
    assert_eq!(a.lteq(&b), Ok(true));
    assert_eq!(a.gteq(&b), Ok(false));
    assert_eq!(a.lteq(&a), Ok(true));
    assert_eq!(a.gteq(&a), Ok(true));
    assert_eq!(a.eq(&a), Ok(true));
}

#[test]
fn comparisons_of_texts_go_by_dictionary_order() {
    assert_eq!(text("abc").lt(&text("abd")), Ok(true));
    assert_eq!(text("ab").lt(&text("abc")), Ok(true));
    assert_eq!(text("b").gt(&text("abc")), Ok(true));
    assert_eq!(text("").lt(&text("a")), Ok(true));
    assert_eq!(text("abc").eq(&text("abc")), Ok(true));
    assert_eq!(text("10").lt(&text("9")), Ok(true));
    assert_eq!(text("é").gt(&text("z")), Ok(true));
    assert_eq!(text("abc").relate(&text("ab")), Ok(Relation::Greater));
}

#[test]
fn comparisons_of_truth_values_put_false_first() {
    let yes = RBasicValue::Bool(true);
    let no = RBasicValue::Bool(false);
    assert_eq!(no.lt(&yes), Ok(true));
    assert_eq!(yes.lt(&no), Ok(false));
    assert_eq!(yes.lt(&yes), Ok(false));
    assert_eq!(yes.gt(&no), Ok(true));
    assert_eq!(yes.eq(&yes), Ok(true));
    assert_eq!(yes.neq(&no), Ok(true));
    assert_eq!(yes.lteq(&yes), Ok(true));
}

#[test]
fn comparisons_across_types() {
    assert_eq!(RBasicValue::Number(10).gt(&text("9")), Ok(true));
    assert_eq!(text("9").lt(&RBasicValue::Number(10)), Ok(true));
    assert_eq!(text("7").eq(&RBasicValue::Number(7)), Ok(true));
    assert_eq!(
        RBasicValue::Number(1).eq(&text("one")).unwrap_err(),
        ValueError::Coercion {
            op: Operation::Compare,
            number: 1,
            text: "one".to_string(),
            number_first: true
        }
    );
    assert_eq!(
        RBasicValue::Number(1).eq(&RBasicValue::Bool(true)).unwrap_err(),
        ValueError::Incompatible { op: Operation::Compare }
    );
    assert_eq!(
        RBasicValue::Bool(true).decide(Comparison::Less, &text("true")).unwrap_err(),
        ValueError::Incompatible { op: Operation::Compare }
    );
}

#[test]
fn value_error_messages() {
    assert_eq!(ValueError::Negate.message(), "Cannot negate non-numeric values!");
    assert_eq!(ValueError::Not.message(), "Cannot apply unary not to non-Boolean values.");
    assert_eq!(
        (RBasicValue::Number(-5) + text("foo")).unwrap_err().message(),
        "Cannot add integer -5 and string foo"
    );
    assert_eq!(
        (text("foo") - RBasicValue::Number(2147483647)).unwrap_err().message(),
        "Cannot subtract string foo and integer 2147483647"
    );
    assert_eq!(
        (text("a") * text("b")).unwrap_err().message(),
        "Cannot multiply values of these types."
    );
    assert_eq!(ValueError::DivisionByZero.message(), "Cannot divide by zero.");
    assert_eq!(ValueError::Overflow.message(), "Result does not fit in 32 bits.");
    assert_eq!(
        (RBasicValue::Number(i32::MIN) / text("x")).unwrap_err().message(),
        "Cannot divide integer -2147483648 and string x"
    );
}

#[test]
fn operators_by_name() {
    assert_eq!(number(calculate(Operation::Add, 2, 3)), 5);
    assert_eq!(number(calculate(Operation::Subtract, 2, 3)), -1);
    assert_eq!(number(calculate(Operation::Multiply, 2, 3)), 6);
    assert_eq!(number(calculate(Operation::Divide, 7, 3)), 2);
    assert_eq!(
        calculate(Operation::Compare, 2, 3).unwrap_err(),
        ValueError::Incompatible { op: Operation::Compare }
    );
    assert_eq!(number(apply(Operation::Subtract, text("10"), RBasicValue::Number(4))), 6);
    assert_eq!(
        apply(Operation::Compare, text("a"), text("b")).unwrap_err(),
        ValueError::Incompatible { op: Operation::Compare }
    );
}

#[test]
fn orders_and_spelled_integers() {
    assert_eq!(order_numbers(-1, 1), Relation::Less);
    assert_eq!(order_numbers(1, 1), Relation::Equal);
    assert_eq!(order_numbers(i32::MAX, i32::MIN), Relation::Greater);
    assert_eq!(order_texts(&"a".to_string(), &"b".to_string()), Relation::Less);
    assert_eq!(order_texts(&"b".to_string(), &"a".to_string()), Relation::Greater);
    assert_eq!(order_texts(&"".to_string(), &"".to_string()), Relation::Equal);
    assert_eq!(order_texts(&"a".to_string(), &"".to_string()), Relation::Greater);
    assert_eq!(spelled_integer(&"-12".to_string()), Some(-12));
    assert_eq!(spelled_integer(&"12a".to_string()), None);
    assert_eq!(Operation::Divide.verb(), "divide");
}
