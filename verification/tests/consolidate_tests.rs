use member_loader::consolidate::{consolidate_parties, merge_parties, sorted_by_start};
use member_loader::domain::Party;

// Seconds since the epoch for midnight UTC of the named days.
const TS_2000_01_01: i64 = 946684800;
const TS_2001_01_01: i64 = 978307200;
const TS_2005_01_01: i64 = 1104537600;
const TS_2010_01_01: i64 = 1262304000;
const TS_2015_01_01: i64 = 1420070400;

fn party(name: &str, start: i64, end: Option<i64>) -> Party {
    Party { name: name.to_string(), start_date: start, end_date: end }
}

fn same(a: &Party, b: &Party) -> bool {
    a.name == b.name && a.start_date == b.start_date && a.end_date == b.end_date
}

fn same_list(a: &[Party], b: &[Party]) -> bool {
    a.len() == b.len() && a.iter().zip(b.iter()).all(|(x, y)| same(x, y))
}

#[test]
fn same_name_intervals_merge_to_one() {
    // {P, 2001..2005} and {P, 2010..} merge into {P, 2001..}.
    let raw = vec![
        party("P", TS_2010_01_01, None),
        party("P", TS_2001_01_01, Some(TS_2005_01_01)),
    ];
    let merged = consolidate_parties(&raw);
    assert_eq!(merged.len(), 1);
    assert!(same(&merged[0], &party("P", TS_2001_01_01, None)));
}

#[test]
fn distinct_name_boundaries_are_preserved() {
    // A, B, A stays three intervals: the two A intervals are not adjacent
    // once sorted by start date.
    let raw = vec![
        party("A", TS_2000_01_01, Some(TS_2005_01_01)),
        party("B", TS_2005_01_01, Some(TS_2010_01_01)),
        party("A", TS_2010_01_01, Some(TS_2015_01_01)),
    ];
    let merged = consolidate_parties(&raw);
    assert_eq!(merged.len(), 3);
    assert!(same_list(&merged, &raw));
}

#[test]
fn result_is_oldest_first() {
    let raw = vec![
        party("B", TS_2010_01_01, None),
        party("A", TS_2001_01_01, Some(TS_2005_01_01)),
    ];
    let merged = consolidate_parties(&raw);
    assert_eq!(merged.len(), 2);
    assert_eq!(merged[0].name, "A");
    assert_eq!(merged[1].name, "B");
}

#[test]
fn consolidation_is_idempotent() {
    let raw = vec![
        party("B", TS_2005_01_01, None),
        party("A", TS_2000_01_01, Some(TS_2001_01_01)),
        party("A", TS_2001_01_01, Some(TS_2005_01_01)),
        party("B", TS_2010_01_01, Some(TS_2015_01_01)),
    ];
    let once = consolidate_parties(&raw);
    let twice = consolidate_parties(&once);
    assert!(same_list(&once, &twice));
}

#[test]
fn empty_list_passes_through_unchanged() {
    let raw: Vec<Party> = vec![];
    let merged = consolidate_parties(&raw);
    assert!(merged.is_empty());
}

#[test]
fn single_interval_passes_through_unchanged() {
    let raw = vec![party("A", TS_2001_01_01, Some(TS_2005_01_01))];
    let merged = consolidate_parties(&raw);
    assert!(same_list(&merged, &raw));
}

#[test]
fn sort_is_stable_for_equal_starts() {
    let raw = vec![
        party("First", TS_2001_01_01, None),
        party("Second", TS_2001_01_01, None),
        party("Earlier", TS_2000_01_01, None),
    ];
    let sorted = sorted_by_start(&raw);
    assert_eq!(sorted[0].name, "Earlier");
    assert_eq!(sorted[1].name, "First");
    assert_eq!(sorted[2].name, "Second");
}

#[test]
fn merge_bridges_a_reappointment_gap() {
    // Already sorted: merge alone bridges the gap under one label, taking
    // the earlier start and the later end.
    let raw = vec![
        party("P", TS_2000_01_01, Some(TS_2001_01_01)),
        party("P", TS_2005_01_01, Some(TS_2010_01_01)),
    ];
    let merged = merge_parties(&raw);
    assert_eq!(merged.len(), 1);
    assert!(same(&merged[0], &party("P", TS_2000_01_01, Some(TS_2010_01_01))));
}
