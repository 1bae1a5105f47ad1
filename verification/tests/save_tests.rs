use packard::save_state::{sort_newest_first, timestamp_less, GameState};

#[test]
fn test_create_game_state() {
    let state = GameState::new("test.psl".to_string(), "My Save".to_string());
    assert_eq!(state.metadata.story_file, "test.psl");
    assert_eq!(state.metadata.save_name, "My Save");
    assert_eq!(state.current_index, 0);
}

fn save(name: &str, stamp: &str) -> GameState {
    let mut g = GameState::new("story.psl".to_string(), name.to_string());
    g.metadata.timestamp = stamp.to_string();
    g
}

#[test]
fn saves_are_listed_newest_first_and_ties_keep_their_order() {
    let saves = vec![
        save("a", "2024-01-01 10:00:00"),
        save("b", "2024-03-01 09:00:00"),
        save("c", "2024-01-01 10:00:00"),
        save("d", "2023-12-31 23:59:59"),
        save("e", "2024-03-01 09:00:00"),
    ];
    let sorted = sort_newest_first(saves);
    let names: Vec<&str> = sorted.iter().map(|g| g.metadata.save_name.as_str()).collect();
    assert_eq!(names, vec!["b", "e", "a", "c", "d"]);
}

#[test]
fn timestamps_compare_as_strings() {
    assert!(timestamp_less("2024-01-01", "2024-01-02"));
    assert!(!timestamp_less("2024-01-02", "2024-01-01"));
    assert!(!timestamp_less("2024", "2024"));
    assert!(timestamp_less("2024", "2024-01"));
    assert!(timestamp_less("", "a"));
    for (a, b) in [("x", "y"), ("é", "z"), ("abc", "abd"), ("b", "ab")] {
        assert_eq!(timestamp_less(a, b), a < b, "{} {}", a, b);
    }
}

#[test]
fn a_fresh_save_is_stamped_now() {
    let state = GameState::new("s.psl".to_string(), "n".to_string());
    assert_eq!(state.metadata.timestamp.len(), 19);
    assert!(state.globals.is_empty());
    assert!(state.current_chapter.is_none() && state.current_section.is_none());
    let copy = state.duplicate();
    assert_eq!(copy.metadata.timestamp, state.metadata.timestamp);
}

#[test]
fn new_at_stores_the_given_time() {
    let state = GameState::new_at("test.psl".to_string(), "My Save".to_string(), "2024-05-06 07:08:09".to_string());
    assert_eq!(state.metadata.timestamp, "2024-05-06 07:08:09");
    assert_eq!(state.metadata.story_file, "test.psl");
    assert_eq!(state.metadata.save_name, "My Save");
    assert_eq!(state.current_index, 0);
    assert!(state.globals.is_empty());
}
