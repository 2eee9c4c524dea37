use vstd::prelude::*;

use crate::find::{
    find_first, lemma_filter_all, lemma_filter_pairs, lemma_filter_single, lemma_filter_sorted,
    lemma_find_first_at, lemma_find_first_none, lemma_reverse_sorted, sorted_by, sorted_desc_by,
};
use crate::model::{
    att_key, attachment_by_uuid, attachment_keeps_under, attachment_of, email_by_address,
    message_by_uuid, message_keeps_owner, message_of, meta_of_owner, meta_pair,
    meta_pairs_unique, meta_upsert_post, msg_key, seq_has_message_outside, DbModel,
};
use crate::records::{AttachmentView, EmailView, MessageView, MetaEntryView};

verus! {

/// Law: an address just stored is found by a lookup with its address
/// string, as exactly the stored record — equal in every field.
pub proof fn lemma_created_address_is_found(db: DbModel, e: EmailView)
    requires
        db.wf(),
        !db.has_address(e.email),
    ensures
        find_first(db.with_email(e).emails, email_by_address(e.email)) == Some(e),
{
    let s = db.with_email(e).emails;
    let n = db.emails.len() as int;
    assert forall|j: int| 0 <= j < n implies !email_by_address(e.email)(s[j]) by {
        assert(s[j] == db.emails[j]);
        assert(!(db.emails[j].email == e.email));
    }
    assert(s[n] == e);
    assert(email_by_address(e.email)(s[n]));
    lemma_find_first_at(s, email_by_address(e.email), n);
}

/// Law: once an address is stored, its string is taken, so a second create
/// with the same string meets the conflict arm of the create contract and
/// leaves the state unchanged.
pub proof fn lemma_created_address_is_taken(db: DbModel, e: EmailView)
    ensures
        db.with_email(e).has_address(e.email),
{
    let s = db.with_email(e).emails;
    assert(s[db.emails.len() as int] == e);
}

/// Law: deleting an address deletes its mail. Every message the address
/// owned, and every attachment such a message owned, misses its token
/// lookup afterward.
pub proof fn lemma_cascade_unreachable(db: DbModel, eid: int)
    requires
        db.wf(),
    ensures
        forall|i: int|
            0 <= i < db.messages.len() && (#[trigger] db.messages[i]).email_id == eid
                ==> find_first(
                db.without_email(eid).messages,
                message_by_uuid(db.messages[i].uuid),
            ) is None,
        forall|i: int, j: int|
            0 <= i < db.messages.len() && 0 <= j < db.attachments.len() && (
            #[trigger] db.messages[i]).email_id == eid && (#[trigger] db.attachments[j]).message_id
                == db.messages[i].id ==> find_first(
                db.without_email(eid).attachments,
                attachment_by_uuid(db.attachments[j].uuid),
            ) is None,
{
    let t = db.without_email(eid).messages;
    let u = db.without_email(eid).attachments;
    assert forall|i: int|
        0 <= i < db.messages.len() && (#[trigger] db.messages[i]).email_id == eid implies
    find_first(t, message_by_uuid(db.messages[i].uuid)) is None by {
        let m = db.messages[i];
        assert forall|k: int| 0 <= k < t.len() implies !message_by_uuid(m.uuid)(
            #[trigger] t[k],
        ) by {
            assert(t.contains(t[k]));
            db.messages.lemma_filter_contains_rev(message_keeps_owner(eid), t[k]);
            let w = choose|w: int| 0 <= w < db.messages.len() && (#[trigger] db.messages[w])
                == t[k];
            if t[k].uuid == m.uuid {
                if w < i {
                    assert(db.messages[w].uuid != db.messages[i].uuid);
                } else if i < w {
                    assert(db.messages[i].uuid != db.messages[w].uuid);
                }
                assert(w == i);
                assert(false);
            }
        }
        lemma_find_first_none(t, message_by_uuid(m.uuid));
    }
    assert forall|i: int, j: int|
        0 <= i < db.messages.len() && 0 <= j < db.attachments.len() && (
        #[trigger] db.messages[i]).email_id == eid && (#[trigger] db.attachments[j]).message_id
            == db.messages[i].id implies find_first(
        u,
        attachment_by_uuid(db.attachments[j].uuid),
    ) is None by {
        let m = db.messages[i];
        let a = db.attachments[j];
        assert forall|k: int| 0 <= k < u.len() implies !attachment_by_uuid(a.uuid)(
            #[trigger] u[k],
        ) by {
            assert(u.contains(u[k]));
            db.attachments.lemma_filter_contains_rev(attachment_keeps_under(db.messages, eid), u[k]);
            let w = choose|w: int| 0 <= w < db.attachments.len() && (#[trigger] db.attachments[w])
                == u[k];
            if u[k].uuid == a.uuid {
                if w < j {
                    assert(db.attachments[w].uuid != db.attachments[j].uuid);
                } else if j < w {
                    assert(db.attachments[j].uuid != db.attachments[w].uuid);
                }
                assert(w == j);
                assert(u[k] == a);
                assert(seq_has_message_outside(db.messages, a.message_id, eid));
                let v = choose|v: int| 0 <= v < db.messages.len() && (#[trigger] db.messages[v]).id
                    == a.message_id && db.messages[v].email_id != eid;
                if v < i {
                    assert(db.messages[v].id != db.messages[i].id);
                } else if i < v {
                    assert(db.messages[i].id != db.messages[v].id);
                }
                assert(v == i);
                assert(false);
            }
        }
        lemma_find_first_none(u, attachment_by_uuid(a.uuid));
    }
}

/// Law: metadata upserts are last-write-wins over a unique key space.
/// After `(eid, key) := v1` and then `(eid, key) := v2`, the relation holds
/// exactly one row for the pair, and its value is `v2`.
pub proof fn lemma_meta_last_write_wins(
    s0: Seq<MetaEntryView>,
    s1: Seq<MetaEntryView>,
    s2: Seq<MetaEntryView>,
    eid: int,
    key: Seq<char>,
    v1: Seq<char>,
    v2: Seq<char>,
    t1: int,
    t2: int,
)
    requires
        meta_pairs_unique(s0),
        meta_upsert_post(s0, s1, eid, key, v1, t1),
        meta_upsert_post(s1, s2, eid, key, v2, t2),
    ensures
        s2.filter(meta_pair(eid, key)).len() == 1,
        s2.filter(meta_pair(eid, key))[0].value == v2,
{
    let p = meta_pair(eid, key);
    if exists|i: int| 0 <= i < s0.len() && (#[trigger] s0[i]).email_id == eid && s0[i].key == key {
        let i = choose|i: int|
            0 <= i < s0.len() && (#[trigger] s0[i]).email_id == eid && s0[i].key == key && s1
                == s0.update(i, MetaEntryView { value: v1, updated_at: t1, ..s0[i] });
        assert(s1[i].email_id == eid && s1[i].key == key);
        assert forall|j: int| 0 <= j < s1.len() && j != i implies !p(#[trigger] s1[j]) by {
            assert(s1[j] == s0[j]);
            if j < i {
                assert(!(s0[j].email_id == s0[i].email_id && s0[j].key == s0[i].key));
            } else {
                assert(!(s0[i].email_id == s0[j].email_id && s0[i].key == s0[j].key));
            }
        }
        let i2 = choose|i2: int|
            0 <= i2 < s1.len() && (#[trigger] s1[i2]).email_id == eid && s1[i2].key == key && s2
                == s1.update(i2, MetaEntryView { value: v2, updated_at: t2, ..s1[i2] });
        assert(i2 == i);
        assert(s2[i].email_id == eid && s2[i].key == key && s2[i].value == v2);
        assert forall|j: int| 0 <= j < s2.len() && j != i implies !p(#[trigger] s2[j]) by {
            assert(s2[j] == s1[j]);
        }
        lemma_filter_single(s2, p, i);
    } else {
        let n = s0.len() as int;
        assert(s1 == s0.push(
            MetaEntryView { email_id: eid, key, value: v1, inserted_at: t1, updated_at: t1 },
        ));
        assert(s1[n].email_id == eid && s1[n].key == key);
        assert forall|j: int| 0 <= j < s1.len() && j != n implies !p(#[trigger] s1[j]) by {
            assert(s1[j] == s0[j]);
            assert(!(s0[j].email_id == eid && s0[j].key == key));
        }
        let i2 = choose|i2: int|
            0 <= i2 < s1.len() && (#[trigger] s1[i2]).email_id == eid && s1[i2].key == key && s2
                == s1.update(i2, MetaEntryView { value: v2, updated_at: t2, ..s1[i2] });
        assert(i2 == n);
        assert(s2[n].email_id == eid && s2[n].key == key && s2[n].value == v2);
        assert forall|j: int| 0 <= j < s2.len() && j != n implies !p(#[trigger] s2[j]) by {
            assert(s2[j] == s1[j]);
        }
        lemma_filter_single(s2, p, n);
    }
}

/// Law: a metadata listing is a mapping: no two of its entries share a
/// key.
pub proof fn lemma_meta_listing_keys_unique(db: DbModel, eid: int)
    requires
        db.wf(),
    ensures
        forall|i: int, j: int|
            0 <= i < j < db.meta_of(eid).len() ==> #[trigger] db.meta_of(eid)[i].key != #[trigger] db.meta_of(eid)[j].key,
{
    lemma_filter_pairs(
        db.email_meta,
        |a: MetaEntryView, b: MetaEntryView| !(a.email_id == b.email_id && a.key == b.key),
        meta_of_owner(eid),
    );
    lemma_filter_all(db.email_meta, |m: MetaEntryView| true, meta_of_owner(eid));
    let f = db.meta_of(eid);
    assert forall|i: int, j: int| 0 <= i < j < f.len() implies #[trigger] f[i].key
        != #[trigger] f[j].key by {
        assert(f.contains(f[i]));
        db.email_meta.lemma_filter_contains_rev(meta_of_owner(eid), f[i]);
        assert(f.contains(f[j]));
        db.email_meta.lemma_filter_contains_rev(meta_of_owner(eid), f[j]);
        assert(f[i].email_id == eid && f[j].email_id == eid);
        assert(!(f[i].email_id == f[j].email_id && f[i].key == f[j].key));
    }
}

/// Law: a message listing is strictly newest-first: descending creation
/// time, ties broken by descending surrogate key, with no two entries
/// sharing a key.
pub proof fn lemma_messages_listing_newest_first(db: DbModel, eid: int)
    requires
        db.wf(),
    ensures
        sorted_desc_by(db.messages_of(eid), |m: MessageView| msg_key(m)),
{
    let key = |m: MessageView| msg_key(m);
    assert(sorted_by(db.messages, key));
    lemma_filter_sorted(db.messages, key, message_of(eid));
    lemma_reverse_sorted(db.messages.filter(message_of(eid)), key);
}

/// Law: an attachment listing is strictly oldest-first: ascending creation
/// time, ties broken by ascending surrogate key.
pub proof fn lemma_attachments_listing_oldest_first(db: DbModel, mid: int)
    requires
        db.wf(),
    ensures
        sorted_by(db.attachments_of(mid), |a: AttachmentView| att_key(a)),
{
    let key = |a: AttachmentView| att_key(a);
    assert(sorted_by(db.attachments, key));
    lemma_filter_sorted(db.attachments, key, attachment_of(mid));
}

} // verus!
