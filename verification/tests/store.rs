use horde::errors::StorageError;
use horde::records::AttachmentPayload;
use horde::store::{truncate, Database};

#[test]
fn created_address_is_found_with_all_fields() {
    let mut db = Database::new();
    let created = db.create_email("box@horde.local", true, Some(5_000), 1_234).unwrap();
    let found = db.get_email_by_address("box@horde.local").unwrap().unwrap();
    assert_eq!(found.id, created.id);
    assert_eq!(found.uuid, created.uuid);
    assert_eq!(found.email, created.email);
    assert_eq!(found.expire, created.expire);
    assert_eq!(found.expire_at, created.expire_at);
    assert_eq!(found.inserted_at, 1_234);
    assert_eq!(found.updated_at, 1_234);
    let by_token = db.get_email_by_uuid(created.uuid).unwrap().unwrap();
    assert_eq!(by_token.id, created.id);
    assert_eq!(by_token.email, "box@horde.local");
}

#[test]
fn duplicate_address_is_a_conflict_and_first_record_stays() {
    let mut db = Database::new();
    let first = db.create_email("dup@horde.local", false, None, 10).unwrap();
    let second = db.create_email("dup@horde.local", true, Some(99), 20);
    assert_eq!(second.err().unwrap(), StorageError::Conflict);
    let found = db.get_email_by_address("dup@horde.local").unwrap().unwrap();
    assert_eq!(found.id, first.id);
    assert_eq!(found.uuid, first.uuid);
    assert!(!found.expire);
    assert_eq!(found.expire_at, None);
    assert_eq!(found.inserted_at, 10);
}

#[test]
fn duplicate_token_is_a_conflict() {
    let mut db = Database::new();
    db.create_email_with_token(7, "a@horde.local", false, None, 1).unwrap();
    let r = db.create_email_with_token(7, "b@horde.local", false, None, 2);
    assert_eq!(r.err().unwrap(), StorageError::Conflict);
    assert!(db.get_email_by_address("b@horde.local").unwrap().is_none());
}

#[test]
fn fresh_tokens_differ_between_creates() {
    let mut db = Database::new();
    let a = db.create_email("one@horde.local", false, None, 1).unwrap();
    // A second create can only succeed because its random token differs.
    let b = db.create_email("two@horde.local", false, None, 2).unwrap();
    assert_ne!(a.uuid, b.uuid);
}

#[test]
fn message_requires_an_existing_address() {
    let mut db = Database::new();
    let r = db.create_message("s@example.com", "hello", "body", 42, 5);
    assert_eq!(r.err().unwrap(), StorageError::Conflict);
}

#[test]
fn attachment_requires_an_existing_message() {
    let mut db = Database::new();
    let r = db.create_attachment(
        "a.txt",
        "text/plain",
        AttachmentPayload::Inline(vec![1]),
        42,
        5,
    );
    assert_eq!(r.err().unwrap(), StorageError::Conflict);
}

#[test]
fn negative_external_size_is_a_validation_error() {
    let mut db = Database::new();
    let e = db.create_email("x@horde.local", false, None, 1).unwrap();
    let m = db.create_message("s@example.com", "s", "c", e.id, 2).unwrap();
    let r = db.create_attachment(
        "a.bin",
        "application/octet-stream",
        AttachmentPayload::External(String::from("/store/a.bin"), -1),
        m.id,
        3,
    );
    assert_eq!(r.err().unwrap(), StorageError::Validation);
}

#[test]
fn cascade_delete_removes_messages_and_attachments() {
    let mut db = Database::new();
    let e = db.create_email("full@horde.local", false, None, 1).unwrap();
    let mut message_tokens = Vec::new();
    let mut attachment_tokens = Vec::new();
    for i in 0..2_i64 {
        let m = db.create_message("s@example.com", "subject", "content", e.id, 10 + i).unwrap();
        message_tokens.push(m.uuid);
        for j in 0..2_i64 {
            let a = db
                .create_attachment(
                    "f.txt",
                    "text/plain",
                    AttachmentPayload::Inline(vec![0, 1, 2]),
                    m.id,
                    20 + j,
                )
                .unwrap();
            attachment_tokens.push(a.uuid);
        }
    }
    db.delete_email_by_uuid(e.uuid).unwrap();
    assert!(db.get_email_by_uuid(e.uuid).unwrap().is_none());
    for t in message_tokens {
        assert!(db.get_message_by_uuid(t).unwrap().is_none());
    }
    assert_eq!(attachment_tokens.len(), 4);
    for t in attachment_tokens {
        assert!(db.get_attachment_by_uuid(t).unwrap().is_none());
    }
}

#[test]
fn deleting_a_message_removes_its_attachments_only() {
    let mut db = Database::new();
    let e = db.create_email("m@horde.local", false, None, 1).unwrap();
    let m1 = db.create_message("s@example.com", "one", "c", e.id, 2).unwrap();
    let m2 = db.create_message("s@example.com", "two", "c", e.id, 3).unwrap();
    let a1 = db
        .create_attachment("a.txt", "text/plain", AttachmentPayload::Inline(vec![1]), m1.id, 4)
        .unwrap();
    let a2 = db
        .create_attachment("b.txt", "text/plain", AttachmentPayload::Inline(vec![2]), m2.id, 5)
        .unwrap();
    db.delete_message_by_uuid(m1.uuid).unwrap();
    assert!(db.get_message_by_uuid(m1.uuid).unwrap().is_none());
    assert!(db.get_attachment_by_uuid(a1.uuid).unwrap().is_none());
    assert!(db.get_message_by_uuid(m2.uuid).unwrap().is_some());
    assert!(db.get_attachment_by_uuid(a2.uuid).unwrap().is_some());
}

#[test]
fn deleting_an_absent_row_is_a_no_op() {
    let mut db = Database::new();
    db.create_email("keep@horde.local", false, None, 1).unwrap();
    db.delete_email_by_uuid(424_242).unwrap();
    db.delete_message_by_uuid(424_242).unwrap();
    db.delete_attachment(424_242).unwrap();
    assert!(db.get_email_by_address("keep@horde.local").unwrap().is_some());
}

#[test]
fn metadata_upsert_is_last_write_wins() {
    let mut db = Database::new();
    let e = db.create_email("meta@horde.local", false, None, 1).unwrap();
    db.set_email_meta(e.id, "k", "v1", 10).unwrap();
    db.set_email_meta(e.id, "k", "v2", 20).unwrap();
    let entries = db.get_email_meta(e.id).unwrap();
    let hits: Vec<_> = entries.iter().filter(|m| m.key == "k").collect();
    assert_eq!(hits.len(), 1);
    assert_eq!(hits[0].value, "v2");
    assert_eq!(hits[0].inserted_at, 10);
    assert_eq!(hits[0].updated_at, 20);
}

#[test]
fn metadata_keeps_distinct_keys_apart() {
    let mut db = Database::new();
    let e = db.create_email("meta2@horde.local", false, None, 1).unwrap();
    db.set_email_meta(e.id, "alpha", "1", 10).unwrap();
    db.set_email_meta(e.id, "beta", "2", 11).unwrap();
    let entries = db.get_email_meta(e.id).unwrap();
    assert_eq!(entries.len(), 2);
    assert_eq!(entries[0].key, "alpha");
    assert_eq!(entries[0].value, "1");
    assert_eq!(entries[1].key, "beta");
    assert_eq!(entries[1].value, "2");
}

#[test]
fn metadata_for_a_missing_address_is_a_conflict() {
    let mut db = Database::new();
    let r = db.set_email_meta(9_999, "k", "v", 1);
    assert_eq!(r.err().unwrap(), StorageError::Conflict);
}

#[test]
fn messages_list_newest_first_with_insertion_tie_break() {
    let mut db = Database::new();
    let e = db.create_email("list@horde.local", false, None, 1).unwrap();
    let m1 = db.create_message("s@example.com", "first", "c", e.id, 100).unwrap();
    let m2 = db.create_message("s@example.com", "second", "c", e.id, 100).unwrap();
    let m3 = db.create_message("s@example.com", "third", "c", e.id, 100).unwrap();
    let listed = db.get_messages_by_email_id(e.id).unwrap();
    // All three share a creation timestamp: insertion order breaks the tie,
    // newest first.
    assert_eq!(listed.len(), 3);
    assert_eq!(listed[0].id, m3.id);
    assert_eq!(listed[1].id, m2.id);
    assert_eq!(listed[2].id, m1.id);
}

#[test]
fn messages_list_orders_by_creation_time_first() {
    let mut db = Database::new();
    let e = db.create_email("times@horde.local", false, None, 1).unwrap();
    let early = db.create_message("s@example.com", "early", "c", e.id, 100).unwrap();
    let late = db.create_message("s@example.com", "late", "c", e.id, 300).unwrap();
    let middle = db.create_message("s@example.com", "middle", "c", e.id, 200).unwrap();
    let listed = db.get_messages_by_email_id(e.id).unwrap();
    assert_eq!(listed.len(), 3);
    assert_eq!(listed[0].id, late.id);
    assert_eq!(listed[1].id, middle.id);
    assert_eq!(listed[2].id, early.id);
}

#[test]
fn attachments_list_oldest_first() {
    let mut db = Database::new();
    let e = db.create_email("att@horde.local", false, None, 1).unwrap();
    let m = db.create_message("s@example.com", "s", "c", e.id, 2).unwrap();
    let a1 = db
        .create_attachment("one", "text/plain", AttachmentPayload::Inline(vec![1]), m.id, 50)
        .unwrap();
    let a2 = db
        .create_attachment("two", "text/plain", AttachmentPayload::Inline(vec![2]), m.id, 50)
        .unwrap();
    let a3 = db
        .create_attachment("zero", "text/plain", AttachmentPayload::Inline(vec![3]), m.id, 10)
        .unwrap();
    let listed = db.get_attachments_by_message_id(m.id).unwrap();
    assert_eq!(listed.len(), 3);
    assert_eq!(listed[0].id, a3.id);
    assert_eq!(listed[1].id, a1.id);
    assert_eq!(listed[2].id, a2.id);
}

#[test]
fn truncate_empties_the_engine() {
    let mut db = Database::new();
    let e = db.create_email("gone@horde.local", false, None, 1).unwrap();
    db.create_message("s@example.com", "s", "c", e.id, 2).unwrap();
    truncate(&mut db);
    assert!(db.get_email_by_address("gone@horde.local").unwrap().is_none());
    assert!(db.get_messages_by_email_id(e.id).unwrap().is_empty());
}

#[test]
fn end_to_end_provision_deliver_attach_delete() {
    let mut db = Database::new();
    let domains = vec![String::from("horde.local")];
    let record = horde::service::generate_random_email(&mut db, &domains, 1_000).unwrap();
    assert!(record.email.ends_with("@horde.local"));
    assert!(record.expire);
    assert_eq!(record.expire_at, Some(1_000 + horde::service::DAY_MS));

    let message = db
        .create_message("sender@example.com", "Hi", "welcome aboard", record.id, 2_000)
        .unwrap();
    assert_eq!(message.subject, "Hi");

    let attachment = db
        .create_attachment(
            "note.txt",
            "text/plain",
            AttachmentPayload::Inline(vec![b'a', b'b', b'c']),
            message.id,
            3_000,
        )
        .unwrap();
    let listed = db.get_attachments_by_message_id(message.id).unwrap();
    assert_eq!(listed.len(), 1);
    assert_eq!(listed[0].size, 3);
    assert_eq!(listed[0].filename, "note.txt");

    db.delete_email_by_uuid(record.uuid).unwrap();
    assert!(db.get_email_by_uuid(record.uuid).unwrap().is_none());
    assert!(db.get_message_by_uuid(message.uuid).unwrap().is_none());
    assert!(db.get_attachment_by_uuid(attachment.uuid).unwrap().is_none());
}

#[test]
fn provisioning_with_no_domains_is_a_validation_error() {
    let mut db = Database::new();
    let domains: Vec<String> = Vec::new();
    let r = horde::service::generate_random_email(&mut db, &domains, 0);
    assert_eq!(r.err().unwrap(), StorageError::Validation);
}
