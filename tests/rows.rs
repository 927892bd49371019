use simple_watch::rows::{frame_rows, row_count, scroll_corrected, TermMetrics};

#[test]
fn short_lines_take_one_row_each() {
    assert_eq!(row_count(b"a\nb\n", 80), 2);
    assert_eq!(row_count(b"one\ntwo\nthree\n", 10), 3);
}

#[test]
fn empty_buffer_takes_no_rows() {
    assert_eq!(row_count(b"", 80), 0);
    assert_eq!(row_count(b"", 1), 0);
}

#[test]
fn long_line_wraps() {
    let mut buf = vec![b'x'; 200];
    buf.push(b'\n');
    assert_eq!(row_count(&buf, 80), 3);
}

#[test]
fn line_of_exactly_the_width_counts_a_wrap_row() {
    let mut buf = vec![b'x'; 80];
    buf.push(b'\n');
    assert_eq!(row_count(&buf, 80), 2);
}

#[test]
fn trailing_partial_line_is_not_counted() {
    assert_eq!(row_count(b"abc", 80), 0);
    assert_eq!(row_count(b"a\nbc", 80), 1);
}

#[test]
fn width_change_is_measured_anew() {
    let mut buf = vec![b'y'; 90];
    buf.push(b'\n');
    assert_eq!(row_count(&buf, 80), 2);
    assert_eq!(row_count(&buf, 200), 1);
}

#[test]
fn scroll_from_bottom_row_adds_overflow() {
    assert_eq!(scroll_corrected(5, 23, 24), 9);
    assert_eq!(scroll_corrected(2, 23, 24), 3);
}

#[test]
fn no_scroll_keeps_count() {
    assert_eq!(scroll_corrected(5, 0, 24), 5);
    assert_eq!(scroll_corrected(4, 20, 24), 4);
    assert_eq!(scroll_corrected(0, 23, 24), 0);
}

#[test]
fn frame_sums_both_outputs() {
    let term = TermMetrics { width: 80, height: 24, cursor_row: 0 };
    assert_eq!(frame_rows(b"a\nb\n", b"e\n", term), 3);
    assert_eq!(frame_rows(b"", b"", term), 0);
}

#[test]
fn frame_near_bottom_is_scroll_corrected() {
    let term = TermMetrics { width: 80, height: 24, cursor_row: 22 };
    assert_eq!(frame_rows(b"a\nb\n", b"e\n", term), 4);
}
