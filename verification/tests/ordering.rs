use pow_search::solution::{finalize_solutions, sort_solutions};
use pow_search::Solution;

fn sol(nonce: u64, hex: &str) -> Solution {
    Solution { nonce, hash_hex: hex.to_string() }
}

#[test]
fn sort_orders_by_nonce() {
    let mut v = vec![sol(9, "c"), sol(2, "a"), sol(5, "b")];
    sort_solutions(&mut v);
    let nonces: Vec<u64> = v.iter().map(|s| s.nonce).collect();
    assert_eq!(nonces, vec![2, 5, 9]);
    assert_eq!(v[0].hash_hex, "a");
    assert_eq!(v[1].hash_hex, "b");
    assert_eq!(v[2].hash_hex, "c");
}

#[test]
fn sort_keeps_sorted_input_unchanged() {
    let mut v = vec![sol(1, "x"), sol(4, "y"), sol(6, "z")];
    sort_solutions(&mut v);
    let nonces: Vec<u64> = v.iter().map(|s| s.nonce).collect();
    assert_eq!(nonces, vec![1, 4, 6]);
}

#[test]
fn three_records_any_arrival_order_same_report() {
    let orders: [[u64; 3]; 6] =
        [[7, 3, 11], [7, 11, 3], [3, 7, 11], [3, 11, 7], [11, 7, 3], [11, 3, 7]];
    let mut reports = Vec::new();
    for order in orders.iter() {
        let mut v: Vec<Solution> = order.iter().map(|&n| sol(n, "h")).collect();
        finalize_solutions(&mut v, 2);
        reports.push(v.iter().map(|s| s.nonce).collect::<Vec<u64>>());
    }
    for r in reports.iter() {
        assert_eq!(r, &vec![3, 7]);
    }
}

#[test]
fn finalize_truncates_to_target() {
    let mut v = vec![sol(8, "d"), sol(1, "a"), sol(5, "c"), sol(2, "b")];
    finalize_solutions(&mut v, 3);
    let nonces: Vec<u64> = v.iter().map(|s| s.nonce).collect();
    assert_eq!(nonces, vec![1, 2, 5]);
}

#[test]
fn finalize_keeps_all_when_under_target() {
    let mut v = vec![sol(8, "d"), sol(1, "a")];
    finalize_solutions(&mut v, 5);
    let nonces: Vec<u64> = v.iter().map(|s| s.nonce).collect();
    assert_eq!(nonces, vec![1, 8]);
}
