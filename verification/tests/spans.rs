use ripc::{Span, Spanned, WithSpan};

#[test]
fn spans_carry_their_offsets() {
    let s = Span::new(2..5);
    assert_eq!(s.start, 2);
    assert_eq!(s.end, 5);
    assert_eq!(s.range(), Some(2..5));
}

#[test]
fn the_sentinel_has_no_range() {
    assert_eq!(Span::eof().range(), None);
    assert_eq!(Span::eof(), Span::new(0..0));
}

#[test]
fn joining_adjacent_spans_covers_both() {
    let left = Span::new(0..1);
    let right = Span::new(2..5);
    assert_eq!(left.join(right), Span::new(0..5));
}

#[test]
fn with_span_remembers_where_a_value_came_from() {
    let w = WithSpan::new(7usize, Span::new(3..4));
    assert_eq!(w.value, 7);
    assert_eq!(w.span(), Span::new(3..4));
}
