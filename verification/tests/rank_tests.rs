use hstr_rs::rank::rank;

fn entries(items: &[&str]) -> Vec<String> {
    items.iter().map(|x| x.to_string()).collect()
}

#[test]
fn rank_empty_history() {
    assert_eq!(rank(&Vec::new()), Vec::<String>::new());
}

#[test]
fn rank_single_entry() {
    assert_eq!(rank(&entries(&["ls"])), entries(&["ls"]));
}

#[test]
fn rank_deduplicates() {
    assert_eq!(rank(&entries(&["ls", "ls", "ls"])), entries(&["ls"]));
}

#[test]
fn rank_frequency_first() {
    assert_eq!(rank(&entries(&["a", "b", "a"])), entries(&["a", "b"]));
}

#[test]
fn rank_tie_breaks_by_recency() {
    // equal counts: the entry seen more recently comes first
    assert_eq!(rank(&entries(&["a", "b", "a", "b"])), entries(&["b", "a"]));
}

#[test]
fn rank_mixed_counts() {
    let history = entries(&["b", "a", "b", "c", "a", "b"]);
    assert_eq!(rank(&history), entries(&["b", "a", "c"]));
}

#[test]
fn rank_all_distinct_is_most_recent_first() {
    assert_eq!(rank(&entries(&["x", "y", "z"])), entries(&["z", "y", "x"]));
}

#[test]
fn rank_is_deterministic() {
    let history = entries(&["make", "ls", "make", "cd", "ls", "make"]);
    assert_eq!(rank(&history), rank(&history));
}

#[test]
fn rank_idempotent_on_uniform_history() {
    // a history of one repeated line ranks to itself under a second ranking
    let once = rank(&entries(&["ls", "ls", "ls"]));
    assert_eq!(rank(&once), once);
}
