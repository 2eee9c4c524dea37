use horde::errors::StorageError;
use horde::ident::generate_candidate;
use horde::store::Database;

fn is_local_char(c: char) -> bool {
    c.is_ascii_lowercase() || c.is_ascii_digit()
}

#[test]
fn candidate_matches_the_address_shape() {
    let domains = vec![String::from("horde.local"), String::from("example.org")];
    for _ in 0..50 {
        let s = generate_candidate(&domains).unwrap();
        let (local, domain) = s.split_once('@').unwrap();
        assert_eq!(local.len(), 10);
        assert!(local.chars().all(is_local_char));
        assert!(domains.iter().any(|d| d == domain));
    }
}

#[test]
fn candidate_with_one_domain_uses_it() {
    let domains = vec![String::from("only.example")];
    let s = generate_candidate(&domains).unwrap();
    assert!(s.ends_with("@only.example"));
    assert_eq!(s.len(), 10 + 1 + "only.example".len());
}

#[test]
fn empty_domain_list_is_a_validation_error() {
    let domains: Vec<String> = Vec::new();
    assert_eq!(generate_candidate(&domains).err().unwrap(), StorageError::Validation);
}

#[test]
fn random_email_rejects_empty_domain_list() {
    let db = Database::new();
    let domains: Vec<String> = Vec::new();
    assert_eq!(db.get_random_email(&domains).err().unwrap(), StorageError::Validation);
}

#[test]
fn random_email_avoids_stored_addresses() {
    let mut db = Database::new();
    let domains = vec![String::from("horde.local")];
    let first = db.get_random_email(&domains).unwrap();
    db.create_email(&first, false, None, 10).unwrap();
    let second = db.get_random_email(&domains).unwrap();
    assert_ne!(first, second);
}
