use yp::span::Span;

#[test]
fn test_merge() {
    let a = Span::new(1, 3);
    let res = a.merge(a);
    assert_eq!(res, a);

    let b = Span::new(0, 2);
    let res = a.merge(b);
    assert_eq!(res, Span::new(1, 2));

    let b = Span::new(0, 1);
    assert!(a.start() >= b.end());

    let b = Span::new(0, 4);
    let res = a.merge(b);
    assert_eq!(res, Span::new(1, 4));

    let b = Span::new(1, 4);
    let res = a.merge(b);
    assert_eq!(res, Span::new(1, 4));

    let b = Span::new(3, 4);
    let res = a.merge(b);
    assert_eq!(res, Span::new(1, 4));
}

#[test]
fn span_keeps_its_bounds() {
    let a = Span::new(2, 7);
    assert_eq!(a.start(), 2);
    assert_eq!(a.end(), 7);
}

#[test]
fn merge_in_reading_order_runs_from_first_start_to_second_end() {
    let a = Span::new(2, 5);
    let b = Span::new(9, 12);
    let m = a.merge(b);
    assert_eq!(m.start(), a.start());
    assert_eq!(m.end(), b.end());
}

#[test]
fn both_ways_to_merge_agree_on_spans_in_reading_order() {
    let spans = [Span::new(0, 2), Span::new(2, 3), Span::new(5, 9), Span::new(9, 10)];
    for i in 0..spans.len() {
        for j in i..spans.len() {
            let a = spans[i];
            let b = spans[j];
            let m = a.merge(b);
            assert_eq!(m.start(), a.start().min(b.start()));
            assert_eq!(m.end(), a.end().max(b.end()));
        }
    }
}
