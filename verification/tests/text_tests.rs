//! Decimal rendering of numbers.

use ezpdb::text::{i64_text, u64_text};

#[test]
fn unsigned_values_render_as_display_does() {
    for v in [0u64, 7, 10, 4096, 1234567890, u64::MAX] {
        assert_eq!(u64_text(v), v.to_string());
    }
}

#[test]
fn signed_values_render_as_display_does() {
    for v in [0i64, 5, -5, -10, 987654321, i64::MIN, i64::MAX] {
        assert_eq!(i64_text(v), v.to_string());
    }
}
