use pow_search::float_safety;
use pow_search::int_safety::{
    alloc_records_buggy, avg_chunk_size_buggy, parse_port_buggy, read_at_offset_buggy, LabError,
};

#[test]
fn alloc_rejects_overflow_and_caps() {
    // 100_000 * 100_000 overflows u32
    assert_eq!(alloc_records_buggy(100_000, 100_000).unwrap_err(), LabError::Overflow);
    // 2_000 * 1_000 fits in u32 but exceeds the cap
    assert_eq!(alloc_records_buggy(2_000, 1_000).unwrap_err(), LabError::TooLarge);
    let buf = alloc_records_buggy(10, 10).unwrap();
    assert_eq!(buf.len(), 100);
    assert!(buf.iter().all(|&b| b == 0));
    assert_eq!(alloc_records_buggy(0, 12345).unwrap().len(), 0);
}

#[test]
fn read_rejects_negative_and_out_of_bounds() {
    let data = vec![1u8, 2, 3, 4, 5];
    assert_eq!(read_at_offset_buggy(&data, -1).unwrap_err(), LabError::NegativeOffset);
    assert_eq!(read_at_offset_buggy(&data, 5).unwrap_err(), LabError::OutOfBounds);
    assert_eq!(read_at_offset_buggy(&data, 2).unwrap(), 3);
    assert_eq!(read_at_offset_buggy(&data, 0).unwrap(), 1);
}

#[test]
fn parse_port_rejects_truncation() {
    // 70_000 would silently become 4_464 under an `as` cast
    assert_eq!(parse_port_buggy(70_000).unwrap_err(), LabError::InvalidPort);
    assert_eq!(parse_port_buggy(0).unwrap_err(), LabError::InvalidPort);
    assert_eq!(parse_port_buggy(65_535).unwrap(), 65_535);
    assert_eq!(parse_port_buggy(1).unwrap(), 1);
    assert_eq!(parse_port_buggy(8_080).unwrap(), 8_080);
}

#[test]
fn avg_rejects_divide_by_zero() {
    assert_eq!(avg_chunk_size_buggy(1024, 0).unwrap_err(), LabError::DivideByZero);
    assert_eq!(avg_chunk_size_buggy(1024, 4).unwrap(), 256);
    assert_eq!(avg_chunk_size_buggy(0, 3).unwrap(), 0);
}

#[test]
fn quota_check_is_exact_near_precision_limit() {
    // 2^53 + 1 of 2^53: over quota, which f64 arithmetic would miss
    let used = 9_007_199_254_740_993u64;
    let limit = 9_007_199_254_740_992u64;
    assert_eq!(float_safety::quota_check_buggy(used, limit).unwrap(), false);
    // comfortably under quota
    assert_eq!(float_safety::quota_check_buggy(8, 10).unwrap(), true);
    // exactly at the 90% boundary is not allowed
    assert_eq!(float_safety::quota_check_buggy(9, 10).unwrap(), false);
}

#[test]
fn quota_check_rejects_bad_inputs() {
    assert_eq!(
        float_safety::quota_check_buggy(5, 0).unwrap_err(),
        float_safety::LabError::InvalidInput
    );
    assert_eq!(
        float_safety::quota_check_buggy(u64::MAX, 10).unwrap_err(),
        float_safety::LabError::InvalidInput
    );
    assert_eq!(
        float_safety::quota_check_buggy(1, u64::MAX).unwrap_err(),
        float_safety::LabError::InvalidInput
    );
}
