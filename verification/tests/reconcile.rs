use stonkscollect::domain::{PeriodType, StatementKind};
use stonkscollect::reconcile::{group_facts, FactKey};

fn fact(source: &str, item: &str, end: i64) -> FactKey {
    FactKey {
        statement: StatementKind::Income,
        line_item: item.to_string(),
        period_type: PeriodType::Annual,
        period_end: end,
        source: source.to_string(),
    }
}

#[test]
fn edgar_is_canonical_when_present() {
    let facts = vec![fact("fmp", "Revenue", 100), fact("edgar", "Revenue", 100), fact("scrape", "Revenue", 100)];
    let groups = group_facts(&facts);
    assert_eq!(groups.len(), 1);
    assert_eq!(groups[0].canonical, 1);
    assert_eq!(groups[0].members, vec![0, 1, 2]);
}

#[test]
fn without_edgar_the_smallest_source_name_is_canonical() {
    let facts = vec![fact("scrape", "Revenue", 100), fact("fmp", "Revenue", 100)];
    let groups = group_facts(&facts);
    assert_eq!(groups[0].canonical, 1);
}

#[test]
fn distinct_periods_and_items_group_independently_in_key_order() {
    let facts = vec![
        fact("edgar", "Revenue", 200),
        fact("edgar", "NetIncome", 100),
        fact("fmp", "Revenue", 100),
        fact("fmp", "Revenue", 200),
    ];
    let groups = group_facts(&facts);
    assert_eq!(groups.len(), 3);
    // same statement and period type: NetIncome before Revenue, then by period end
    assert_eq!(groups[0].members, vec![1]);
    assert_eq!(groups[1].members, vec![2]);
    assert_eq!(groups[1].canonical, 2);
    assert_eq!(groups[2].members, vec![0, 3]);
    assert_eq!(groups[2].canonical, 0);
}

#[test]
fn no_facts_no_groups() {
    assert!(group_facts(&Vec::new()).is_empty());
}
