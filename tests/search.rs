use hyperion::search::{Match, SearchState};

#[test]
fn test_search_find_matches() {
    let lines = vec![
        "hello world".to_string(),
        "hello rust".to_string(),
        "goodbye world".to_string(),
    ];

    let mut state = SearchState::new();
    let count = state.search("hello", &lines);

    assert_eq!(count, 2);
    assert_eq!(state.match_count(), 2);
}

#[test]
fn test_circular_navegation() {
    let lines = vec![" a b a".to_string()];
    let mut state = SearchState::new();

    state.search("a", &lines);

    assert_eq!(state.current_index(), Some(0));

    state.next_match();
    assert_eq!(state.current_index(), Some(1));

    state.previous_match();
    assert_eq!(state.current_index(), Some(0));
}

#[test]
fn test_search_utf8_overlapping() {
    let lines = vec!["ááá".to_string()];
    let mut state = SearchState::new();

    let count = state.search("áá", &lines);

    assert_eq!(count, 2);
    assert_eq!(state.matches()[0].start_col, 0);
    assert_eq!(state.matches()[0].end_col, 2);
    assert_eq!(state.matches()[1].start_col, 1);
    assert_eq!(state.matches()[1].end_col, 3);
}

#[test]
fn search_scenario_wraps_forward() {
    let lines = vec![" a b a".to_string()];
    let mut state = SearchState::new();
    assert_eq!(state.search("a", &lines), 2);
    assert_eq!(state.matches()[0], Match::new(0, 1, 2));
    assert_eq!(state.matches()[1], Match::new(0, 5, 6));
    assert_eq!(state.current_index(), Some(0));
    assert_eq!(state.next_match(), Some(&Match::new(0, 5, 6)));
    assert_eq!(state.current_index(), Some(1));
    assert_eq!(state.next_match(), Some(&Match::new(0, 1, 2)));
    assert_eq!(state.current_index(), Some(0));
}

#[test]
fn previous_match_wraps_to_last() {
    let lines = vec!["xx".to_string(), "x".to_string()];
    let mut state = SearchState::new();
    assert_eq!(state.search("x", &lines), 3);
    assert_eq!(state.previous_match(), Some(&Match::new(1, 0, 1)));
    assert_eq!(state.current_index(), Some(2));
    assert_eq!(state.current_match(), Some(&Match::new(1, 0, 1)));
}

#[test]
fn next_match_cycles_back_after_match_count_steps() {
    let lines = vec!["abab".to_string(), "b".to_string(), "ab".to_string()];
    let mut state = SearchState::new();
    state.search("b", &lines);
    let n = state.match_count();
    assert_eq!(n, 4);
    state.next_match();
    let start = state.current_index();
    for _ in 0..n {
        state.next_match();
    }
    assert_eq!(state.current_index(), start);
}

#[test]
fn match_count_equals_overlapping_positions() {
    let lines = vec!["aaaa".to_string(), "".to_string(), "baaab".to_string()];
    let mut state = SearchState::new();
    assert_eq!(state.search("aa", &lines), 5);
    let starts: Vec<(usize, usize)> = state.matches().iter().map(|m| (m.line, m.start_col)).collect();
    assert_eq!(starts, vec![(0, 0), (0, 1), (0, 2), (2, 1), (2, 2)]);
}

#[test]
fn empty_query_cancels_search() {
    let lines = vec!["abc".to_string()];
    let mut state = SearchState::new();
    state.search("b", &lines);
    assert!(state.is_active());
    assert_eq!(state.search("", &lines), 0);
    assert!(!state.is_active());
    assert_eq!(state.query(), None);
    assert_eq!(state.current_index(), None);
    assert_eq!(state.match_count(), 0);
}

#[test]
fn query_without_match_stays_active() {
    let lines = vec!["abc".to_string()];
    let mut state = SearchState::new();
    assert_eq!(state.search("zz", &lines), 0);
    assert!(state.is_active());
    assert_eq!(state.query(), Some(&"zz".to_string()));
    assert_eq!(state.current_index(), None);
    assert_eq!(state.current_match(), None);
    assert_eq!(state.next_match(), None);
    assert_eq!(state.previous_match(), None);
}

#[test]
fn search_is_case_sensitive_and_query_longer_than_line_finds_nothing() {
    let lines = vec!["Hello".to_string()];
    let mut state = SearchState::new();
    assert_eq!(state.search("hello", &lines), 0);
    assert_eq!(state.search("Hello!", &lines), 0);
    assert_eq!(state.search("Hello", &lines), 1);
}
