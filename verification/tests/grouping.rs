use stonkscollect::grouping::{group_items, price_index_at, PeriodKey};

fn key(major: i64, minor: i64) -> PeriodKey {
    PeriodKey { major, minor }
}

#[test]
fn groups_periods_in_order_items_by_name_last_value_winning() {
    let keys = vec![key(20, 1), key(10, 1), key(20, 1), key(20, 0), key(20, 1)];
    let items: Vec<String> = ["Revenue", "Revenue", "Eps", "Revenue", "Revenue"].iter().map(|s| s.to_string()).collect();
    let groups = group_items(&keys, &items);
    assert_eq!(groups.len(), 3);
    assert_eq!(groups[0].key, key(10, 1));
    assert_eq!(groups[0].members, vec![1]);
    // annual and quarterly on the same date stay apart
    assert_eq!(groups[1].key, key(20, 0));
    assert_eq!(groups[1].members, vec![3]);
    assert_eq!(groups[2].key, key(20, 1));
    // Eps before Revenue; the later Revenue (index 4) stands
    assert_eq!(groups[2].members, vec![2, 4]);
}

#[test]
fn grouping_nothing_gives_no_groups() {
    assert!(group_items(&Vec::new(), &Vec::new()).is_empty());
}

#[test]
fn price_at_takes_the_latest_close_on_or_before() {
    let dates = vec![5, 9, 3, 9, 12];
    assert_eq!(price_index_at(&dates, 10), Some(3)); // last of the two day-9 bars
    assert_eq!(price_index_at(&dates, 5), Some(0));
    assert_eq!(price_index_at(&dates, 2), None);
    assert_eq!(price_index_at(&dates, 12), Some(4));
}
