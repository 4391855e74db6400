use wty::diagnostic::Diagnostics;

#[test]
fn summaries_count_and_sort_by_frequency() {
    let mut d = Diagnostics::new();
    assert!(d.is_empty());
    d.increment_accepted_tag("noun".to_string(), "cat".to_string());
    d.increment_accepted_tag("verb".to_string(), "run".to_string());
    d.increment_accepted_tag("noun".to_string(), "dog".to_string());
    d.increment_accepted_tag("noun".to_string(), "fish".to_string());
    d.increment_accepted_tag("adj".to_string(), "blue".to_string());
    d.increment_rejected_tag("slang".to_string(), "cool".to_string());
    assert!(!d.is_empty());

    let accepted = d.accepted_summary();
    // Most frequent first; ties keep their first-occurrence order; each tag
    // reports its count and the first word it was seen on.
    assert_eq!(
        accepted,
        vec![
            ("noun".to_string(), (3usize, "cat".to_string())),
            ("verb".to_string(), (1usize, "run".to_string())),
            ("adj".to_string(), (1usize, "blue".to_string())),
        ]
    );
    let rejected = d.rejected_summary();
    assert_eq!(rejected, vec![("slang".to_string(), (1usize, "cool".to_string()))]);
}

#[test]
fn accepted_and_rejected_tags_are_kept_apart() {
    let mut d = Diagnostics::new();
    d.increment_rejected_tag("archaic".to_string(), "thou".to_string());
    assert!(d.accepted_summary().is_empty());
    assert_eq!(d.rejected_summary().len(), 1);
}
