use carmine_api::roster::merge_roster;

/// A seven-field roster record; field 1 is the decimal expiry timestamp.
fn record(tag: &str, expiry: &str) -> Vec<String> {
    vec![
        tag.to_string(),
        expiry.to_string(),
        "1".to_string(),
        "230584300921369395200".to_string(),
        "2087021424722619777119509474943472645767659996348769578120564519014510906823".to_string(),
        "159707947995249021625440365289670166666151266244448024459497380074681100821".to_string(),
        "0".to_string(),
    ]
}

fn roster(records: &[Vec<String>]) -> Vec<String> {
    let mut flat = Vec::new();
    for r in records {
        flat.extend(r.iter().cloned());
    }
    flat
}

#[test]
fn identical_fetch_leaves_cache_unchanged() {
    let a = record("1", "2000");
    let b = record("2", "3000");
    let cached = roster(&[a.clone(), b.clone()]);
    let merged = merge_roster(&cached, &cached, 1000);
    assert_eq!(merged, cached);
}

#[test]
fn superset_fetch_appends_only_the_new_record() {
    let a = record("1", "2000");
    let b = record("2", "3000");
    let c = record("3", "4000");
    let cached = roster(&[a.clone(), b.clone()]);
    let fetched = roster(&[a.clone(), b.clone(), c.clone()]);
    let merged = merge_roster(&cached, &fetched, 1000);
    assert_eq!(merged, roster(&[a.clone(), b.clone(), c.clone()]));

    // a later refresh after A's expiry has passed drops A and keeps B and C
    let merged_later = merge_roster(&merged, &fetched, 2500);
    assert_eq!(merged_later, roster(&[b, c]));
}

#[test]
fn malformed_length_is_rejected_wholesale() {
    let a = record("1", "2000");
    let b = record("2", "3000");
    let cached = roster(&[a.clone(), b.clone()]);
    // ten fields: not a multiple of the record width
    let fetched: Vec<String> = (0..10).map(|i| i.to_string()).collect();
    let merged = merge_roster(&cached, &fetched, 999_999_999);
    assert_eq!(merged, cached);
}

#[test]
fn empty_fetch_is_rejected_wholesale() {
    let a = record("1", "2000");
    let cached = roster(&[a.clone()]);
    let fetched: Vec<String> = Vec::new();
    let merged = merge_roster(&cached, &fetched, 1000);
    assert_eq!(merged, cached);
}

#[test]
fn duplicate_records_within_one_fetch_are_deduplicated() {
    let c = record("3", "4000");
    let cached: Vec<String> = Vec::new();
    let fetched = roster(&[c.clone(), c.clone()]);
    let merged = merge_roster(&cached, &fetched, 1000);
    assert_eq!(merged, roster(&[c]));
}

#[test]
fn records_differing_in_one_field_are_distinct() {
    let a = record("1", "2000");
    let mut a2 = record("1", "2000");
    a2[6] = "1".to_string();
    let cached = roster(&[a.clone()]);
    let fetched = roster(&[a2.clone()]);
    let merged = merge_roster(&cached, &fetched, 1000);
    assert_eq!(merged, roster(&[a, a2]));
}

#[test]
fn expiry_at_the_clock_is_dropped() {
    let a = record("1", "2000");
    let b = record("2", "3000");
    let cached: Vec<String> = Vec::new();
    let fetched = roster(&[a, b.clone()]);
    // expiry equal to now counts as expired
    let merged = merge_roster(&cached, &fetched, 2000);
    assert_eq!(merged, roster(&[b]));
}

#[test]
fn unparsable_expiry_is_dropped_as_malformed() {
    let bad = record("1", "not-a-number");
    let good = record("2", "3000");
    let cached: Vec<String> = Vec::new();
    let fetched = roster(&[bad, good.clone()]);
    let merged = merge_roster(&cached, &fetched, 1000);
    assert_eq!(merged, roster(&[good]));
}
