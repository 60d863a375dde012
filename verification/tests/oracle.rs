use sha2::Digest;

use pow_search::digest::{check_solution, meets_difficulty, test_nonce};
use pow_search::Solution;

#[test]
fn digest_has_known_value() {
    // SHA-256("test:0") in lowercase hex
    let s = test_nonce("test", 0, 0).unwrap();
    assert_eq!(s.nonce, 0);
    assert_eq!(
        s.hash_hex,
        "d13a029069efc84c2f99c169af8f2d1dfb9eb6fc39be52929911ad2e242667c5"
    );
    let s = test_nonce("abc", 0, 7).unwrap();
    assert_eq!(
        s.hash_hex,
        "b490d822e84fb6f8c0b3027be75007ecd25ff3e52cf3eb27e376a499516a063e"
    );
}

#[test]
fn digest_matches_reference_library() {
    for nonce in [0u64, 1, 17, 99999] {
        let s = test_nonce("cross", 0, nonce).unwrap();
        let mut h = sha2::Sha256::new();
        h.update(format!("cross:{}", nonce).as_bytes());
        assert_eq!(s.hash_hex, hex::encode(h.finalize()));
    }
}

#[test]
fn meets_difficulty_counts_leading_zeros() {
    assert!(meets_difficulty("00ab12", 0));
    assert!(meets_difficulty("00ab12", 1));
    assert!(meets_difficulty("00ab12", 2));
    assert!(!meets_difficulty("00ab12", 3));
    assert!(!meets_difficulty("a0ab12", 1));
    // a string shorter than the difficulty cannot have that many leading
    // zeros, so it never qualifies
    assert!(!meets_difficulty("00", 5));
    assert!(!meets_difficulty("01", 5));
    assert!(!meets_difficulty("", 3));
    assert!(meets_difficulty("", 0));
}

#[test]
fn test_nonce_rejects_and_accepts_by_difficulty() {
    // SHA-256("test:10") begins with "06...": one leading zero
    assert!(test_nonce("test", 1, 10).is_some());
    assert!(test_nonce("test", 2, 10).is_none());
    // SHA-256("test:0") begins with "d1..."
    assert!(test_nonce("test", 1, 0).is_none());
}

#[test]
fn check_solution_audits_records() {
    let good = test_nonce("test", 1, 10).unwrap();
    assert!(check_solution("test", 1, &good));
    // a demand the digest does not meet
    assert!(!check_solution("test", 3, &good));
    // a tampered digest
    let bad = Solution { nonce: 10, hash_hex: "00".repeat(32) };
    assert!(!check_solution("test", 1, &bad));
    // a record claiming the wrong nonce
    let wrong = Solution { nonce: 11, hash_hex: good.hash_hex.clone() };
    assert!(!check_solution("test", 1, &wrong));
}

#[test]
fn reported_solutions_withstand_audit() {
    let report = pow_search::engine::run_search("test", 1, 3, 0, 200, 3, 10).unwrap();
    assert_eq!(report.solutions.len(), 3);
    for s in report.solutions.iter() {
        assert!(check_solution("test", 1, s));
    }
}
