use horde::policy::{email_is_valid, is_valid};
use horde::store::Database;

#[test]
fn non_expiring_address_is_always_valid() {
    assert!(is_valid(false, None, 0));
    assert!(is_valid(false, None, i64::MAX));
    assert!(is_valid(false, Some(-5), 1_000_000));
    assert!(is_valid(false, Some(5), 5));
}

#[test]
fn expiring_address_with_past_stamp_is_invalid() {
    assert!(!is_valid(true, Some(999), 1_000));
    assert!(!is_valid(true, Some(-1), 0));
}

#[test]
fn expiring_address_with_future_stamp_is_valid() {
    assert!(is_valid(true, Some(1_001), 1_000));
    assert!(is_valid(true, Some(i64::MAX), 0));
}

#[test]
fn expiring_address_without_stamp_is_invalid() {
    assert!(!is_valid(true, None, 0));
    assert!(!is_valid(true, None, i64::MIN));
}

#[test]
fn expiry_boundary_is_exclusive() {
    // Valid only strictly in the future: equality counts as expired.
    assert!(!is_valid(true, Some(1_000), 1_000));
}

#[test]
fn provisioned_record_is_valid_at_creation() {
    let mut db = Database::new();
    let domains = vec![String::from("horde.local")];
    let record = horde::service::generate_random_email(&mut db, &domains, 1_000).unwrap();
    assert!(email_is_valid(&record, 1_000));
    // ... and expired once its day has passed.
    assert!(!email_is_valid(&record, 1_000 + horde::service::DAY_MS));
}

#[test]
fn stored_record_follows_the_policy() {
    let mut db = Database::new();
    let e = db.create_email("p@horde.local", true, Some(5_000), 1_000).unwrap();
    let record = db.get_email_by_address("p@horde.local").unwrap().unwrap();
    assert!(email_is_valid(&record, 4_999));
    assert!(!email_is_valid(&record, 5_000));
    assert!(!email_is_valid(&record, 6_000));
    assert_eq!(record.uuid, e.uuid);
}
