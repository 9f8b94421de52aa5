use comic_cache::bytes_with_unit;

#[test]
fn one_and_a_half_billion_bytes_is_one_gb() {
    assert_eq!(bytes_with_unit(1_500_000_000), "1 GB");
}

#[test]
fn small_counts_stay_in_bytes() {
    assert_eq!(bytes_with_unit(0), "0 B");
    assert_eq!(bytes_with_unit(7), "7 B");
    assert_eq!(bytes_with_unit(1024), "1024 B");
}

#[test]
fn just_over_a_step_scales_once() {
    assert_eq!(bytes_with_unit(1025), "1 KB");
    assert_eq!(bytes_with_unit(1_048_576), "1024 KB");
    assert_eq!(bytes_with_unit(1_048_577 * 1024), "1024 MB");
    assert_eq!(bytes_with_unit(3 * 1024 * 1024 + 5), "3 MB");
}

#[test]
fn largest_counts_stop_at_terabytes() {
    assert_eq!(bytes_with_unit(u64::MAX), "16777215 TB");
    assert_eq!(bytes_with_unit(2 * 1024 * 1024 * 1024 * 1024), "2 TB");
}
