use lib::{ErrorType, LangError, Span};

#[test]
fn exit_codes() {
    assert_eq!(LangError::compile(Span::zero(), "x".to_string()).exit_code(), 65);
    assert_eq!(LangError::runtime(Span::zero(), "x".to_string()).exit_code(), 70);
}

#[test]
fn error_type_names() {
    assert_eq!(ErrorType::CompileError.as_str(), "Compile Error");
    assert_eq!(ErrorType::RuntimeError.as_str(), "Runtime Error");
}

#[test]
fn error_fields() {
    let e = LangError::runtime(Span::init(4, 2), "bad".to_string());
    assert_eq!(e.span(), Span::init(4, 2));
    assert_eq!(e.message(), "bad");
    assert_eq!(e.error_type(), ErrorType::RuntimeError);
}

#[test]
fn span_to_loc_first_line() {
    let e = LangError::compile(Span::init(1, 1), String::new());
    assert_eq!(e.span_to_loc("ab\ncd"), (1, 1));
}

#[test]
fn span_to_loc_later_line_counts_from_newline() {
    let e = LangError::compile(Span::init(4, 1), String::new());
    assert_eq!(e.span_to_loc("ab\ncd"), (2, 2));
    let e = LangError::compile(Span::init(6, 1), String::new());
    assert_eq!(e.span_to_loc("a\nb\ncde"), (3, 3));
}

#[test]
fn span_to_loc_past_end() {
    let e = LangError::compile(Span::init(9, 1), String::new());
    assert_eq!(e.span_to_loc("ab\ncd"), (0, 0));
}
