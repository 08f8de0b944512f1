use bee_wire::key_range::{KeyRangeAuthority, MilestoneIndex, MilestoneKeyRange};

fn kr(key: &str, start: u32, end: u32) -> MilestoneKeyRange {
    MilestoneKeyRange::new(key.to_string(), MilestoneIndex(start), MilestoneIndex(end))
}

fn keys_at(auth: &KeyRangeAuthority, index: u32) -> Vec<String> {
    auth.lookup_active_keys(MilestoneIndex(index))
        .iter()
        .map(|r| r.public_key().clone())
        .collect()
}

fn abc_authority() -> KeyRangeAuthority {
    KeyRangeAuthority::new(vec![kr("A", 0, 100), kr("B", 50, 150), kr("C", 200, 300)])
}

#[test]
fn lookup_returns_overlapping_ranges() {
    let auth = abc_authority();
    assert_eq!(keys_at(&auth, 75), vec!["A".to_string(), "B".to_string()]);
    assert_eq!(keys_at(&auth, 160), Vec::<String>::new());
    assert_eq!(keys_at(&auth, 250), vec!["C".to_string()]);
}

#[test]
fn lookup_bounds_are_inclusive() {
    let auth = abc_authority();
    // 100 is A's end and inside B; 50 is B's start and inside A.
    assert_eq!(keys_at(&auth, 100), vec!["A".to_string(), "B".to_string()]);
    assert_eq!(keys_at(&auth, 50), vec!["A".to_string(), "B".to_string()]);
    assert_eq!(keys_at(&auth, 0), vec!["A".to_string()]);
    assert_eq!(keys_at(&auth, 150), vec!["B".to_string()]);
    assert_eq!(keys_at(&auth, 300), vec!["C".to_string()]);
    assert_eq!(keys_at(&auth, 301), Vec::<String>::new());
}

#[test]
fn construction_orders_by_start() {
    let auth = KeyRangeAuthority::new(vec![kr("C", 200, 300), kr("A", 0, 100), kr("B", 50, 150)]);
    assert_eq!(auth.len(), 3);
    assert_eq!(auth.get(0).public_key(), "A");
    assert_eq!(auth.get(1).public_key(), "B");
    assert_eq!(auth.get(2).public_key(), "C");
}

#[test]
fn ranges_sharing_a_start_are_both_retained() {
    let auth = KeyRangeAuthority::new(vec![kr("X", 10, 30), kr("Y", 10, 20)]);
    assert_eq!(auth.len(), 2);
    let keys = keys_at(&auth, 15);
    assert_eq!(keys.len(), 2);
    assert!(keys.contains(&"X".to_string()));
    assert!(keys.contains(&"Y".to_string()));
    // Past the shorter range's end only the longer one remains.
    assert_eq!(keys_at(&auth, 25), vec!["X".to_string()]);
}

#[test]
fn key_range_getters() {
    let range = kr("d85e5b1590d898d1e0cdebb2e3b5337c8b76270142663d78811683ba47c17c98", 7, 9);
    assert_eq!(
        range.public_key(),
        "d85e5b1590d898d1e0cdebb2e3b5337c8b76270142663d78811683ba47c17c98"
    );
    assert_eq!(range.start(), MilestoneIndex(7));
    assert_eq!(range.end(), MilestoneIndex(9));
    let copy = range.clone();
    assert_eq!(copy.public_key(), range.public_key());
}

#[test]
fn empty_authority_has_no_active_keys() {
    let auth = KeyRangeAuthority::new(vec![]);
    assert_eq!(auth.len(), 0);
    assert_eq!(keys_at(&auth, 0), Vec::<String>::new());
}
