use peer_tracker::mempool::{
    answer_watch, earliest_spenders, MempoolObservation, WatchError, WatchedOutpoint,
};

fn seen(txid: &str, seen_at: u64) -> MempoolObservation {
    MempoolObservation { txid: txid.to_string(), seen_at }
}

#[test]
fn watch_lists_each_transaction_once_in_ascending_order() {
    let rows = vec![seen("A", 10), seen("A", 20), seen("B", 5)];
    let spenders = earliest_spenders(rows);
    let ids: Vec<&str> = spenders.iter().map(|s| s.txid.as_str()).collect();
    assert_eq!(ids, vec!["A", "B"]);
}

#[test]
fn watch_keeps_the_earliest_sighting() {
    assert_eq!(
        earliest_spenders(vec![seen("A", 10), seen("A", 20), seen("B", 5)]),
        vec![seen("A", 10), seen("B", 5)]
    );
    assert_eq!(
        earliest_spenders(vec![seen("A", 20), seen("B", 5), seen("A", 10), seen("A", 15)]),
        vec![seen("A", 10), seen("B", 5)]
    );
}

#[test]
fn watch_does_not_depend_on_the_order_of_the_rows() {
    let expected = vec![seen("aa", 1), seen("ab", 7), seen("b", 3)];
    let rows = vec![seen("b", 3), seen("ab", 9), seen("aa", 1), seen("ab", 7), seen("b", 4)];
    assert_eq!(earliest_spenders(rows.clone()), expected);
    let mut reversed = rows;
    reversed.reverse();
    assert_eq!(earliest_spenders(reversed), expected);
}

#[test]
fn watch_of_no_rows_is_empty() {
    assert_eq!(earliest_spenders(vec![]), vec![]);
}

#[test]
fn watch_of_equal_rows_keeps_one() {
    assert_eq!(earliest_spenders(vec![seen("A", 3), seen("A", 3), seen("A", 3)]), vec![seen("A", 3)]);
}

#[test]
fn transaction_ids_are_ordered_as_strings_are() {
    let ids = ["", "0", "00", "0a", "1", "A", "Z", "a", "ab", "b", "ff00", "ff01", "\u{e9}", "\u{4e2d}"];
    let mut rows: Vec<MempoolObservation> = ids.iter().rev().map(|id| seen(id, 1)).collect();
    rows.push(seen("a", 0));
    let spenders = earliest_spenders(rows);
    let listed: Vec<String> = spenders.iter().map(|s| s.txid.clone()).collect();
    let mut expected: Vec<String> = ids.iter().map(|id| id.to_string()).collect();
    expected.sort();
    assert_eq!(listed, expected);
    assert_eq!(spenders[7], seen("a", 0));
}

#[test]
fn a_prefix_comes_before_its_extensions() {
    assert_eq!(
        earliest_spenders(vec![seen("abc", 1), seen("ab", 2), seen("a", 3), seen("", 4)]),
        vec![seen("", 4), seen("a", 3), seen("ab", 2), seen("abc", 1)]
    );
}

#[test]
fn answer_watch_digests_the_rows_of_the_store() {
    assert_eq!(
        answer_watch(Ok(vec![seen("B", 5), seen("A", 20), seen("A", 10)])),
        Ok(vec![seen("A", 10), seen("B", 5)])
    );
    assert_eq!(answer_watch(Ok(vec![])), Ok(vec![]));
}

#[test]
fn answer_watch_passes_on_the_failure_of_the_store() {
    assert_eq!(
        answer_watch(Err("database is locked".to_string())),
        Err(WatchError::Store("database is locked".to_string()))
    );
}

#[test]
fn outpoint_clone_is_equal() {
    let outpoint = WatchedOutpoint { txid: "cd".repeat(32), vout: 4_000_000_000 };
    assert_eq!(outpoint.clone(), outpoint);
}
