use stack_machine::error::RuntimeError;
use stack_machine::util::OneOrMore;
use stack_machine::Stack;
use stack_machine::Value;

use std::cmp::Ordering;

fn text(s: &str) -> Value {
    Value::Str(s.chars().collect())
}

#[test]
fn stack_push_pop_top() {
    let mut st = Stack::new();
    assert!(st.is_empty());
    assert_eq!(st.pop(), Err(RuntimeError::StackEmpty));
    st.push(Value::Integer(1));
    st.push(Value::Integer(2));
    assert_eq!(st.len(), 2);
    assert_eq!(st.top(), Ok(&Value::Integer(2)));
    assert_eq!(st.pop(), Ok(Value::Integer(2)));
    assert_eq!(st.into_vec(), vec![Value::Integer(1)]);
}

#[test]
fn stack_take_as_value_packs_many() {
    let mut st = Stack::new();
    assert_eq!(st.take_as_value(), Err(RuntimeError::StackEmpty));
    st.push(Value::Integer(7));
    assert_eq!(st.take_as_value(), Ok(Value::Integer(7)));
    st.push(Value::Integer(1));
    st.push(Value::Integer(2));
    assert_eq!(
        st.take_as_value(),
        Ok(Value::Array(vec![Value::Integer(1), Value::Integer(2)]))
    );
}

#[test]
fn stack_variable_slots() {
    let mut st = Stack::new();
    st.push_var('B');
    assert_eq!(st.pop(), Ok(Value::Integer(11)));
    st.push(Value::Integer(42));
    assert!(st.pop_var('Q').is_ok());
    st.push_var('Q');
    assert_eq!(st.pop(), Ok(Value::Integer(42)));
    assert_eq!(st.pop(), Ok(Value::Integer(42)));
}

#[test]
fn stack_copy_from_end() {
    let mut st = Stack::new();
    st.push(Value::Integer(5));
    st.push(Value::Integer(6));
    assert_eq!(st.get_from_end(0), Some(Value::Integer(6)));
    assert_eq!(st.get_from_end(1), Some(Value::Integer(5)));
    assert_eq!(st.get_from_end(2), None);
}

#[test]
fn one_or_more_collapses() {
    assert_eq!(
        OneOrMore::One(Value::Integer(3)).into_value(),
        Value::Integer(3)
    );
    assert_eq!(
        OneOrMore::More(vec![Value::Integer(1), Value::Integer(2)]).into_value(),
        Value::Array(vec![Value::Integer(1), Value::Integer(2)])
    );
}

#[test]
fn value_ordering() {
    let a = Value::Integer(1);
    let b = Value::Integer(2);
    assert_eq!(a.partial_cmp(&b), Some(Ordering::Less));
    assert_eq!(b.partial_cmp(&a), Some(Ordering::Greater));
    assert_eq!(a.partial_cmp(&Value::Integer(1)), Some(Ordering::Equal));
    // cross-variant pairs are not ordered
    assert_eq!(a.partial_cmp(&text("1")), None);
    assert_eq!(
        text("ab").partial_cmp(&text("b")),
        Some(Ordering::Less)
    );
    assert_eq!(
        Value::Array(vec![Value::Integer(1)]).partial_cmp(&Value::Array(vec![
            Value::Integer(1),
            Value::Integer(0),
        ])),
        Some(Ordering::Less)
    );
}

#[test]
fn value_equality_follows_the_ordering() {
    assert!(Value::Integer(3).eq_value(&Value::Integer(3)));
    assert!(!Value::Integer(3).eq_value(&Value::Integer(4)));
    // values of different variants never compare equal
    assert!(!Value::Integer(1).eq_value(&text("1")));
}

#[test]
fn value_truthiness() {
    assert!(!Value::Integer(0).truthy());
    assert!(!Value::Char('\0').truthy());
    assert!(!text("").truthy());
    assert!(!Value::Array(vec![]).truthy());
    assert!(Value::Integer(-1).truthy());
    assert!(text("x").truthy());
}

#[test]
fn value_arithmetic_directly() {
    assert_eq!(
        Value::Integer(2).add(Value::Integer(3)),
        Ok(Value::Integer(5))
    );
    assert_eq!(
        Value::Integer(2).mul(Value::Integer(3)),
        Ok(Value::Integer(6))
    );
    assert_eq!(
        text("ab").add(Value::Integer(7)),
        Ok(text("ab7"))
    );
    assert_eq!(
        Value::Integer(7).min(Value::Integer(3)),
        Ok(Value::Integer(3))
    );
    assert_eq!(
        Value::Integer(7).max(Value::Integer(3)),
        Ok(Value::Integer(7))
    );
    assert_eq!(
        Value::Integer(2).pow(Value::Integer(62)),
        Ok(Value::Integer(4611686018427387904))
    );
    match Value::Integer(2).pow(Value::Integer(63)) {
        Err(RuntimeError::InvalidOperation(_, name)) => assert_eq!(name, "pow"),
        other => panic!("expected invalid operation, got {:?}", other),
    }
}

#[test]
fn value_casts_directly() {
    assert_eq!(Value::Char('a').to_int(), Ok(Value::Integer(97)));
    assert_eq!(Value::Integer(-5).to_str(), Ok(text("-5")));
    assert_eq!(text("z").to_char(), Ok(Value::Char('z')));
    match Value::Integer(0xD800).to_char() {
        Err(RuntimeError::InvalidCast(_, name)) => assert_eq!(name, "char"),
        other => panic!("expected invalid cast, got {:?}", other),
    }
}
