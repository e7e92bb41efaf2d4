use scp_term::pager::Pager;

fn ten_lines() -> String {
    // Ten short lines; at width 120 the content width is 100, so nothing
    // wraps and the pager sees exactly ten lines.
    (0..10).map(|i| i.to_string()).collect::<Vec<_>>().join("\n")
}

fn max_of(p: &Pager) -> usize {
    p.max_offset()
}

#[test]
fn new_pager_starts_at_top() {
    let p = Pager::new(ten_lines(), 120, 4);
    assert_eq!(p.scroll_offset(), 0);
    assert_eq!(p.total_lines(), 10);
    assert_eq!(max_of(&p), 6);
}

#[test]
fn scroll_lines_moves_and_clamps() {
    let mut p = Pager::new(ten_lines(), 120, 4);
    p.scroll_lines(2);
    assert_eq!(p.scroll_offset(), 2);
    p.scroll_lines(3);
    assert_eq!(p.scroll_offset(), 5);
    p.scroll_lines(-1);
    assert_eq!(p.scroll_offset(), 4);
}

#[test]
fn huge_scrolls_land_on_the_bounds() {
    let mut p = Pager::new(ten_lines(), 120, 4);
    p.scroll_lines(1000000);
    assert_eq!(p.scroll_offset(), max_of(&p));
    p.scroll_lines(-1000000);
    assert_eq!(p.scroll_offset(), 0);
    p.scroll_lines(3);
    p.scroll_lines(-1000000);
    assert_eq!(p.scroll_offset(), 0);
}

#[test]
fn scroll_pages_moves_by_viewports() {
    let mut p = Pager::new(ten_lines(), 120, 3);
    p.scroll_pages(1);
    assert_eq!(p.scroll_offset(), 3);
    p.scroll_pages(1);
    assert_eq!(p.scroll_offset(), 6);
    p.scroll_pages(1);
    assert_eq!(p.scroll_offset(), 7);
    p.scroll_pages(-1);
    assert_eq!(p.scroll_offset(), 4);
    p.scroll_pages(-5);
    assert_eq!(p.scroll_offset(), 0);
}

#[test]
fn any_sequence_of_scrolls_stays_in_bounds() {
    let mut p = Pager::new(ten_lines(), 120, 4);
    let deltas: [i64; 8] = [5, -2, 100, -100, 7, 3, -1, 1000000];
    for d in deltas {
        p.scroll_lines(d);
        assert!(p.scroll_offset() <= max_of(&p));
        p.scroll_pages(d);
        assert!(p.scroll_offset() <= max_of(&p));
    }
}

#[test]
fn resize_taller_than_text_scrolls_to_top() {
    let mut p = Pager::new(ten_lines(), 120, 4);
    p.scroll_lines(6);
    assert_eq!(p.scroll_offset(), 6);
    p.resize(120, 50);
    assert_eq!(p.scroll_offset(), 0);
}

#[test]
fn resize_reclamps_offset() {
    let mut p = Pager::new(ten_lines(), 120, 4);
    p.scroll_lines(6);
    p.resize(120, 8);
    assert_eq!(p.scroll_offset(), 2);
}

#[test]
fn resize_rewraps_to_margin_reduced_width() {
    // A 25-character line at width 30 wraps to 10 columns: three pieces.
    let p = Pager::new("abcdefghijklmnopqrstuvwxy".to_string(), 30, 5);
    assert_eq!(p.total_lines(), 3);
    let v = p.visible_slice();
    assert_eq!(v, vec!["abcdefghij", "klmnopqrst", "uvwxy"]);
    // Narrow terminals keep at least one column.
    let q = Pager::new("abc".to_string(), 10, 5);
    assert_eq!(q.total_lines(), 3);
}

#[test]
fn visible_slice_shows_the_window() {
    let mut p = Pager::new(ten_lines(), 120, 4);
    assert_eq!(p.visible_slice(), vec!["0", "1", "2", "3"]);
    p.scroll_lines(7000);
    assert_eq!(p.scroll_offset(), 6);
    assert_eq!(p.visible_slice(), vec!["6", "7", "8", "9"]);
    p.resize(120, 100);
    assert_eq!(p.visible_slice().len(), 10);
}
