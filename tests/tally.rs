use view_factor::tally::{HitTally, TargetCount};

fn entry(name: &str, hits: u64) -> TargetCount {
    TargetCount { name: name.to_string(), hits }
}

#[test]
fn new_tally_is_empty() {
    let t = HitTally::new();
    assert_eq!(t.len(), 0);
    assert!(t.into_entries().is_empty());
}

#[test]
fn tally_counts_hits_in_order_of_first_hit() {
    let mut t = HitTally::new();
    for name in ["right", "top", "right", "right", "left", "top"] {
        t.record(&name.to_string());
    }
    assert_eq!(t.len(), 3);
    assert_eq!(
        t.into_entries(),
        vec![entry("right", 3), entry("top", 2), entry("left", 1)]
    );
}
