use hyperion::ui::{calculate_line_number_width, calculate_visual_cursor_position};

#[test]
fn test_calculate_line_number_width() {
    assert_eq!(calculate_line_number_width(9), 3);
    assert_eq!(calculate_line_number_width(99), 4);
    assert_eq!(calculate_line_number_width(999), 5);
}

#[test]
fn test_calculate_visual_cursor_position() {
    let (x, y) = calculate_visual_cursor_position(10, 5, 0, 0, 4);
    assert_eq!(x, 14);
    assert_eq!(y, 5);

    let (x, y) = calculate_visual_cursor_position(50, 5, 30, 0, 4);
    assert_eq!(x, 24);
    assert_eq!(y, 5);

    let (x, y) = calculate_visual_cursor_position(10, 25, 0, 10, 4);
    assert_eq!(x, 14);
    assert_eq!(y, 15);
}

#[test]
fn line_number_width_edges() {
    assert_eq!(calculate_line_number_width(0), 3);
    assert_eq!(calculate_line_number_width(1), 3);
    assert_eq!(calculate_line_number_width(10), 4);
    assert_eq!(calculate_line_number_width(100), 5);
    assert_eq!(calculate_line_number_width(usize::MAX), usize::MAX.to_string().len() + 2);
}

#[test]
fn visual_cursor_position_saturates_offsets() {
    let (x, y) = calculate_visual_cursor_position(3, 2, 5, 4, 3);
    assert_eq!((x, y), (3, 0));
}

use hyperion::search::SearchState;
use hyperion::ui::{highlight_segments, Segment};

fn seg(start: usize, end: usize, highlighted: bool) -> Segment {
    Segment { start, end, highlighted }
}

#[test]
fn highlight_marks_matches_of_the_line() {
    let lines = vec!["xabxab".to_string(), "ab".to_string()];
    let mut search = SearchState::new();
    search.search("ab", &lines);
    assert_eq!(
        highlight_segments(&lines[0], 0, 0, &search),
        vec![seg(0, 1, false), seg(1, 3, true), seg(3, 4, false), seg(4, 6, true)]
    );
    assert_eq!(highlight_segments(&lines[1], 1, 0, &search), vec![seg(0, 2, true)]);
}

#[test]
fn highlight_merges_overlapping_matches_and_counts_chars() {
    let lines = vec!["ááá b".to_string()];
    let mut search = SearchState::new();
    search.search("áá", &lines);
    assert_eq!(
        highlight_segments(&lines[0], 0, 0, &search),
        vec![seg(0, 3, true), seg(3, 5, false)]
    );
}

#[test]
fn highlight_with_horizontal_scroll() {
    let lines = vec!["abcabc".to_string()];
    let mut search = SearchState::new();
    search.search("bc", &lines);
    // the first match starts before the view and is not drawn
    assert_eq!(
        highlight_segments(&lines[0], 0, 2, &search),
        vec![seg(0, 2, false), seg(2, 4, true)]
    );
    assert_eq!(highlight_segments(&lines[0], 0, 6, &search), vec![]);
    assert_eq!(highlight_segments(&lines[0], 0, 9, &search), vec![]);
}

#[test]
fn no_highlight_without_active_search() {
    let search = SearchState::new();
    assert_eq!(highlight_segments("hello", 0, 1, &search), vec![seg(0, 4, false)]);
}
