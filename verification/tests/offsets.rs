use asterism::offsets::OffsetTracker;

#[test]
fn an_unknown_file_has_no_drift() {
    let t = OffsetTracker::new();
    assert_eq!(t.cumulative_before("a.md", 100), 0);
}

#[test]
fn drift_sums_entries_strictly_before_the_line() {
    let mut t = OffsetTracker::new();
    t.record("a.md", 3, 2);
    t.record("a.md", 9, -1);
    t.record("a.md", 20, 5);
    assert_eq!(t.cumulative_before("a.md", 3), 0);
    assert_eq!(t.cumulative_before("a.md", 4), 2);
    assert_eq!(t.cumulative_before("a.md", 9), 2);
    assert_eq!(t.cumulative_before("a.md", 10), 1);
    assert_eq!(t.cumulative_before("a.md", 21), 6);
}

#[test]
fn files_are_kept_apart() {
    let mut t = OffsetTracker::new();
    t.record("a.md", 3, 2);
    t.record("b.md", 1, 7);
    assert_eq!(t.cumulative_before("a.md", 10), 2);
    assert_eq!(t.cumulative_before("b.md", 10), 7);
    assert_eq!(t.cumulative_before("c.md", 10), 0);
}

#[test]
fn a_second_record_at_a_line_overwrites() {
    let mut t = OffsetTracker::new();
    t.record("a.md", 3, 2);
    t.record("a.md", 3, 10);
    assert_eq!(t.cumulative_before("a.md", 4), 10);
    t.record("a.md", 3, -4);
    assert_eq!(t.cumulative_before("a.md", 4), -4);
}

#[test]
fn saves_in_increasing_line_order_add_up() {
    let saves = [(2i64, 3i64), (5, -1), (8, 4), (13, 2)];
    for target in 0..16i64 {
        let mut t = OffsetTracker::new();
        for (k, (line, added)) in saves.iter().enumerate() {
            t.record("a.md", *line, *added);
            let expected: i128 = saves[..=k]
                .iter()
                .filter(|(l, _)| *l < target)
                .map(|(_, a)| *a as i128)
                .sum();
            assert_eq!(t.cumulative_before("a.md", target), expected);
        }
    }
}

#[test]
fn a_save_at_or_behind_the_line_leaves_the_drift() {
    let mut t = OffsetTracker::new();
    t.record("a.md", 2, 3);
    let before = t.cumulative_before("a.md", 5);
    t.record("a.md", 5, 100);
    assert_eq!(t.cumulative_before("a.md", 5), before);
    t.record("a.md", 6, 100);
    assert_eq!(t.cumulative_before("a.md", 5), before);
}

#[test]
fn reset_forgets_everything() {
    let mut t = OffsetTracker::new();
    t.record("a.md", 2, 3);
    t.record("b.md", 2, 3);
    t.reset();
    assert_eq!(t.cumulative_before("a.md", 10), 0);
    assert_eq!(t.cumulative_before("b.md", 10), 0);
}

#[test]
fn large_drifts_do_not_overflow() {
    let mut t = OffsetTracker::new();
    t.record("a.md", 1, i64::MAX);
    t.record("a.md", 2, i64::MAX);
    t.record("a.md", 3, i64::MIN);
    assert_eq!(t.cumulative_before("a.md", 3), 2 * (i64::MAX as i128));
    assert_eq!(t.cumulative_before("a.md", 4), i64::MAX as i128 - 1);
}
