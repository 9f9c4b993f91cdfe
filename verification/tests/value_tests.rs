use lib::{Span, Value};

#[test]
fn invert_values() {
    assert!(Value::<Span>::Bool(false).invert_val());
    assert!(Value::<Span>::NIL.invert_val());
    assert!(!Value::<Span>::Bool(true).invert_val());
    assert!(!Value::Num(Span::zero()).invert_val());
}
