use hstr::sort::unique;

#[test]
fn sort() {
    let vec = vec![3, 2, 4, 6, 2, 4, 3, 3, 4, 5, 6, 3, 2, 4, 5, 5, 3];
    let sorted_vec = hstr::sort::sort(vec);
    assert_eq!(sorted_vec, [3, 4, 5, 2, 6]);
}

#[test]
fn sort_sort() {
    let vec = vec![3, 2, 4, 6, 2, 4, 3, 3, 4, 5, 6, 3, 2, 4, 5, 5, 3];
    let sorted_vec = hstr::sort::sort(vec);
    assert_eq!(sorted_vec, [3, 4, 5, 2, 6]);
}

#[test]
fn sort_strings_by_frequency_then_recency() {
    let history: Vec<String> = vec!["ls", "cd", "ls", "make", "cd", "ls", "make"]
        .into_iter()
        .map(String::from)
        .collect();
    let ranked = hstr::sort::sort(history);
    // "ls" occurs three times; "cd" and "make" twice each, "make" more
    // recently.
    assert_eq!(ranked, ["ls", "make", "cd"]);
}

#[test]
fn sort_empty() {
    let history: Vec<String> = Vec::new();
    let ranked = hstr::sort::sort(history);
    assert!(ranked.is_empty());
}

#[test]
fn sort_equal_frequency_uses_recency() {
    let vec = vec![1, 2, 3];
    assert_eq!(hstr::sort::sort(vec), [3, 2, 1]);
}

#[test]
fn unique_keeps_first_occurrences() {
    let history: Vec<String> = vec!["b", "a", "b", "c", "a"].into_iter().map(String::from).collect();
    let deduped = unique(&history);
    assert_eq!(deduped, ["b", "a", "c"]);
}
