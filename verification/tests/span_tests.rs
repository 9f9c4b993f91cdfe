use lib::Span;

#[test]
fn span_init_keeps_start_and_length() {
    let s = Span::init(7, 3);
    assert_eq!(s.start(), 7);
    assert_eq!(s.start_u32(), 7);
    assert_eq!(s.len(), 3);
    assert_eq!(s.end(), 10);
}

#[test]
fn span_init_truncates_to_field_widths() {
    let s = Span::init(5, 65536 + 4);
    assert_eq!(s.len(), 4);
}

#[test]
fn span_start_end_and_zero() {
    let s = Span::start_end(4, 9);
    assert_eq!(s.start(), 4);
    assert_eq!(s.len(), 5);
    let z = Span::zero();
    assert_eq!(z.start(), 0);
    assert_eq!(z.len(), 0);
    assert_eq!(Span::start_len(2, 1), Span::init(2, 1));
}

#[test]
fn span_set1_moves_to_one_byte() {
    let mut s = Span::init(10, 20);
    s.set1(3);
    assert_eq!(s.start(), 3);
    assert_eq!(s.len(), 1);
}
