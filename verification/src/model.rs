use vstd::prelude::*;

use crate::find::{
    key_lt, lemma_filter_all, lemma_filter_pairs, lemma_insert_sorted, lemma_insertion_point,
    insertion_point, sorted_by,
};
use crate::records::{AttachmentView, EmailView, MessageView, MetaEntryView};

verus! {

/// Ordering key of a message listing: creation time, with the surrogate key
/// as the tie-breaker (later insertions have larger keys).
pub open spec fn msg_key(m: MessageView) -> (int, int) {
    (m.inserted_at, m.id)
}

/// Ordering key of an attachment listing.
pub open spec fn att_key(a: AttachmentView) -> (int, int) {
    (a.inserted_at, a.id)
}

/// The lookup predicate of an address token.
pub open spec fn email_by_uuid(uuid: int) -> spec_fn(EmailView) -> bool {
    |e: EmailView| e.uuid == uuid
}

/// The lookup predicate of an address string.
pub open spec fn email_by_address(addr: Seq<char>) -> spec_fn(EmailView) -> bool {
    |e: EmailView| e.email == addr
}

/// The lookup predicate of a message token.
pub open spec fn message_by_uuid(uuid: int) -> spec_fn(MessageView) -> bool {
    |m: MessageView| m.uuid == uuid
}

/// The lookup predicate of an attachment token.
pub open spec fn attachment_by_uuid(uuid: int) -> spec_fn(AttachmentView) -> bool {
    |a: AttachmentView| a.uuid == uuid
}

/// Keeps the address rows whose surrogate key is not `eid`.
pub open spec fn email_keeps(eid: int) -> spec_fn(EmailView) -> bool {
    |e: EmailView| e.id != eid
}

/// Keeps the message rows not owned by address `eid`.
pub open spec fn message_keeps_owner(eid: int) -> spec_fn(MessageView) -> bool {
    |m: MessageView| m.email_id != eid
}

/// Keeps the message rows whose surrogate key is not `mid`.
pub open spec fn message_keeps(mid: int) -> spec_fn(MessageView) -> bool {
    |m: MessageView| m.id != mid
}

/// Keeps the attachment rows not owned by message `mid`.
pub open spec fn attachment_keeps_owner(mid: int) -> spec_fn(AttachmentView) -> bool {
    |a: AttachmentView| a.message_id != mid
}

/// Keeps the attachment rows whose token is not `uuid`.
pub open spec fn attachment_keeps(uuid: int) -> spec_fn(AttachmentView) -> bool {
    |a: AttachmentView| a.uuid != uuid
}

/// Keeps the metadata rows not owned by address `eid`.
pub open spec fn meta_keeps_owner(eid: int) -> spec_fn(MetaEntryView) -> bool {
    |m: MetaEntryView| m.email_id != eid
}

/// Selects the message rows owned by address `eid`.
pub open spec fn message_of(eid: int) -> spec_fn(MessageView) -> bool {
    |m: MessageView| m.email_id == eid
}

/// Selects the attachment rows owned by message `mid`.
pub open spec fn attachment_of(mid: int) -> spec_fn(AttachmentView) -> bool {
    |a: AttachmentView| a.message_id == mid
}

/// Selects the metadata rows owned by address `eid`.
pub open spec fn meta_of_owner(eid: int) -> spec_fn(MetaEntryView) -> bool {
    |m: MetaEntryView| m.email_id == eid
}

/// Selects the metadata rows for the exact (owner, key) pair.
pub open spec fn meta_pair(eid: int, key: Seq<char>) -> spec_fn(MetaEntryView) -> bool {
    |m: MetaEntryView| m.email_id == eid && m.key == key
}

/// No two metadata rows carry the same (owner, key) pair.
pub open spec fn meta_pairs_unique(s: Seq<MetaEntryView>) -> bool {
    forall|i: int, j: int|
        0 <= i < j < s.len() ==> !(#[trigger] s[i].email_id == #[trigger] s[j].email_id
            && s[i].key == s[j].key)
}

/// What an upsert of `(eid, key) := value` at time `now` does to the
/// metadata relation: rewrite the value and update stamp of the row that
/// carries the pair, or append a new row when none does.
pub open spec fn meta_upsert_post(
    old: Seq<MetaEntryView>,
    new: Seq<MetaEntryView>,
    eid: int,
    key: Seq<char>,
    value: Seq<char>,
    now: int,
) -> bool {
    if exists|i: int| 0 <= i < old.len() && (#[trigger] old[i]).email_id == eid && old[i].key
        == key {
        exists|i: int|
            0 <= i < old.len() && (#[trigger] old[i]).email_id == eid && old[i].key == key && new
                == old.update(i, MetaEntryView { value, updated_at: now, ..old[i] })
    } else {
        new == old.push(
            MetaEntryView { email_id: eid, key, value, inserted_at: now, updated_at: now },
        )
    }
}

/// Among `ms`, some message has key `mid` and an owner other than `eid`.
pub open spec fn seq_has_message_outside(ms: Seq<MessageView>, mid: int, eid: int) -> bool {
    exists|i: int| 0 <= i < ms.len() && (#[trigger] ms[i]).id == mid && ms[i].email_id != eid
}

/// Keeps the attachment rows whose owning message (looked up in `ms`)
/// survives the deletion of address `eid`.
pub open spec fn attachment_keeps_under(ms: Seq<MessageView>, eid: int) -> spec_fn(
    AttachmentView,
) -> bool {
    |a: AttachmentView| seq_has_message_outside(ms, a.message_id, eid)
}

/// Mathematical state of the storage engine: the rows of its four
/// relations, and the next free surrogate key of each keyed relation.
#[verifier::ext_equal]
pub ghost struct DbModel {
    pub emails: Seq<EmailView>,
    pub messages: Seq<MessageView>,
    pub attachments: Seq<AttachmentView>,
    pub email_meta: Seq<MetaEntryView>,
    pub next_email_id: int,
    pub next_message_id: int,
    pub next_attachment_id: int,
}

impl DbModel {
    /// The state of a freshly created (or truncated) engine.
    pub open spec fn empty() -> DbModel {
        DbModel {
            emails: Seq::empty(),
            messages: Seq::empty(),
            attachments: Seq::empty(),
            email_meta: Seq::empty(),
            next_email_id: 1,
            next_message_id: 1,
            next_attachment_id: 1,
        }
    }

    /// Some address row carries the address string `addr`.
    pub open spec fn has_address(self, addr: Seq<char>) -> bool {
        exists|i: int| 0 <= i < self.emails.len() && (#[trigger] self.emails[i]).email == addr
    }

    /// Some address row has surrogate key `id`.
    pub open spec fn has_email_id(self, id: int) -> bool {
        exists|i: int| 0 <= i < self.emails.len() && (#[trigger] self.emails[i]).id == id
    }

    /// Some address row carries the token `uuid`.
    pub open spec fn has_email_uuid(self, uuid: int) -> bool {
        exists|i: int| 0 <= i < self.emails.len() && (#[trigger] self.emails[i]).uuid == uuid
    }

    /// Some message row has surrogate key `id`.
    pub open spec fn has_message_id(self, id: int) -> bool {
        exists|i: int| 0 <= i < self.messages.len() && (#[trigger] self.messages[i]).id == id
    }

    /// Some message row carries the token `uuid`.
    pub open spec fn has_message_uuid(self, uuid: int) -> bool {
        exists|i: int| 0 <= i < self.messages.len() && (#[trigger] self.messages[i]).uuid == uuid
    }

    /// Some attachment row carries the token `uuid`.
    pub open spec fn has_attachment_uuid(self, uuid: int) -> bool {
        exists|i: int| 0 <= i < self.attachments.len()
            && (#[trigger] self.attachments[i]).uuid == uuid
    }

    /// A metadata row for `(eid, key)` exists.
    pub open spec fn has_meta(self, eid: int, key: Seq<char>) -> bool {
        exists|i: int| 0 <= i < self.email_meta.len()
            && (#[trigger] self.email_meta[i]).email_id == eid && self.email_meta[i].key == key
    }

    /// Address rows: surrogate keys live below the next free key, and keys,
    /// tokens and address strings are pairwise distinct.
    pub open spec fn emails_wf(self) -> bool {
        &&& forall|i: int| 0 <= i < self.emails.len() ==> 0 < (#[trigger] self.emails[i]).id
            < self.next_email_id
        &&& forall|i: int, j: int|
            0 <= i < j < self.emails.len() ==> #[trigger] self.emails[i].id
                != #[trigger] self.emails[j].id && self.emails[i].uuid != self.emails[j].uuid
                && self.emails[i].email != self.emails[j].email
    }

    /// Message rows: fresh keys, distinct keys and tokens, every owner
    /// exists, and the relation is strictly ascending under [`msg_key`].
    pub open spec fn messages_wf(self) -> bool {
        &&& forall|i: int| 0 <= i < self.messages.len() ==> 0 < (#[trigger] self.messages[i]).id
            < self.next_message_id
        &&& forall|i: int, j: int|
            0 <= i < j < self.messages.len() ==> #[trigger] self.messages[i].id
                != #[trigger] self.messages[j].id && self.messages[i].uuid
                != self.messages[j].uuid
        &&& forall|i: int| 0 <= i < self.messages.len() ==> self.has_email_id(
            (#[trigger] self.messages[i]).email_id,
        )
        &&& sorted_by(self.messages, |m: MessageView| msg_key(m))
    }

    /// Attachment rows: fresh keys, distinct keys and tokens, every owner
    /// exists, recorded sizes match the payload, strictly ascending under
    /// [`att_key`].
    pub open spec fn attachments_wf(self) -> bool {
        &&& forall|i: int| 0 <= i < self.attachments.len() ==> 0 < (
        #[trigger] self.attachments[i]).id < self.next_attachment_id
        &&& forall|i: int, j: int|
            0 <= i < j < self.attachments.len() ==> #[trigger] self.attachments[i].id
                != #[trigger] self.attachments[j].id && self.attachments[i].uuid
                != self.attachments[j].uuid
        &&& forall|i: int| 0 <= i < self.attachments.len() ==> self.has_message_id(
            (#[trigger] self.attachments[i]).message_id,
        )
        &&& forall|i: int| 0 <= i < self.attachments.len() ==> (
        #[trigger] self.attachments[i]).size == self.attachments[i].payload.size_of()
        &&& forall|i: int| 0 <= i < self.attachments.len() ==> 0 <= (
        #[trigger] self.attachments[i]).size
        &&& sorted_by(self.attachments, |a: AttachmentView| att_key(a))
    }

    /// Metadata rows: every owner exists and (owner, key) pairs are unique.
    pub open spec fn meta_wf(self) -> bool {
        &&& forall|i: int| 0 <= i < self.email_meta.len() ==> self.has_email_id(
            (#[trigger] self.email_meta[i]).email_id,
        )
        &&& forall|i: int, j: int|
            0 <= i < j < self.email_meta.len() ==> !(#[trigger] self.email_meta[i].email_id
                == #[trigger] self.email_meta[j].email_id && self.email_meta[i].key
                == self.email_meta[j].key)
    }

    /// The engine's invariant: all four relations are well formed.
    pub open spec fn wf(self) -> bool {
        &&& self.emails_wf()
        &&& self.messages_wf()
        &&& self.attachments_wf()
        &&& self.meta_wf()
        &&& 0 < self.next_email_id <= i64::MAX
        &&& 0 < self.next_message_id <= i64::MAX
        &&& 0 < self.next_attachment_id <= i64::MAX
    }

    /// The state after inserting a new address row.
    pub open spec fn with_email(self, e: EmailView) -> DbModel {
        DbModel { emails: self.emails.push(e), next_email_id: self.next_email_id + 1, ..self }
    }

    /// The state after inserting a new message row, which takes its place
    /// in the ordered relation.
    pub open spec fn with_message(self, m: MessageView) -> DbModel {
        DbModel {
            messages: self.messages.insert(
                insertion_point(self.messages, |x: MessageView| msg_key(x), msg_key(m)),
                m,
            ),
            next_message_id: self.next_message_id + 1,
            ..self
        }
    }

    /// The state after inserting a new attachment row, which takes its
    /// place in the ordered relation.
    pub open spec fn with_attachment(self, a: AttachmentView) -> DbModel {
        DbModel {
            attachments: self.attachments.insert(
                insertion_point(self.attachments, |x: AttachmentView| att_key(x), att_key(a)),
                a,
            ),
            next_attachment_id: self.next_attachment_id + 1,
            ..self
        }
    }

    /// The state after deleting the address row with surrogate key `eid`:
    /// its messages, their attachments and its metadata go with it.
    pub open spec fn without_email(self, eid: int) -> DbModel {
        DbModel {
            emails: self.emails.filter(email_keeps(eid)),
            messages: self.messages.filter(message_keeps_owner(eid)),
            attachments: self.attachments.filter(attachment_keeps_under(self.messages, eid)),
            email_meta: self.email_meta.filter(meta_keeps_owner(eid)),
            ..self
        }
    }

    /// The state after deleting the message row with surrogate key `mid`:
    /// its attachments go with it.
    pub open spec fn without_message(self, mid: int) -> DbModel {
        DbModel {
            messages: self.messages.filter(message_keeps(mid)),
            attachments: self.attachments.filter(attachment_keeps_owner(mid)),
            ..self
        }
    }

    /// The state after deleting the attachment row with token `uuid`.
    pub open spec fn without_attachment_uuid(self, uuid: int) -> DbModel {
        DbModel { attachments: self.attachments.filter(attachment_keeps(uuid)), ..self }
    }

    /// The metadata rows of address `eid`, in row order.
    pub open spec fn meta_of(self, eid: int) -> Seq<MetaEntryView> {
        self.email_meta.filter(meta_of_owner(eid))
    }

    /// The message listing of address `eid`: its messages, newest first.
    pub open spec fn messages_of(self, eid: int) -> Seq<MessageView> {
        self.messages.filter(message_of(eid)).reverse()
    }

    /// The attachment listing of message `mid`: its attachments, oldest
    /// first.
    pub open spec fn attachments_of(self, mid: int) -> Seq<AttachmentView> {
        self.attachments.filter(attachment_of(mid))
    }
}

/// A fresh address row keeps the engine well formed.
pub proof fn lemma_with_email_wf(db: DbModel, e: EmailView)
    requires
        db.wf(),
        !db.has_address(e.email),
        !db.has_email_uuid(e.uuid),
        e.id == db.next_email_id,
        db.next_email_id < i64::MAX,
    ensures
        db.with_email(e).wf(),
{
    let db2 = db.with_email(e);
    let n = db.emails.len() as int;
    assert forall|i: int, j: int| 0 <= i < j < db2.emails.len() implies #[trigger] db2.emails[i].id
        != #[trigger] db2.emails[j].id && db2.emails[i].uuid != db2.emails[j].uuid
        && db2.emails[i].email != db2.emails[j].email by {
        if j == n {
            assert(db2.emails[i] == db.emails[i]);
            assert(db2.emails[j] == e);
        } else {
            assert(db2.emails[i] == db.emails[i]);
            assert(db2.emails[j] == db.emails[j]);
        }
    }
    assert forall|i: int| 0 <= i < db2.emails.len() implies 0 < (#[trigger] db2.emails[i]).id
        < db2.next_email_id by {
        if i < n {
            assert(db2.emails[i] == db.emails[i]);
        }
    }
    assert forall|i: int| 0 <= i < db2.messages.len() implies db2.has_email_id(
        (#[trigger] db2.messages[i]).email_id,
    ) by {
        assert(db.has_email_id(db.messages[i].email_id));
        let w = choose|w: int| 0 <= w < db.emails.len() && (#[trigger] db.emails[w]).id
            == db.messages[i].email_id;
        assert(db2.emails[w].id == db2.messages[i].email_id);
    }
    assert forall|i: int| 0 <= i < db2.email_meta.len() implies db2.has_email_id(
        (#[trigger] db2.email_meta[i]).email_id,
    ) by {
        assert(db.has_email_id(db.email_meta[i].email_id));
        let w = choose|w: int| 0 <= w < db.emails.len() && (#[trigger] db.emails[w]).id
            == db.email_meta[i].email_id;
        assert(db2.emails[w].id == db2.email_meta[i].email_id);
    }
}

/// Deleting an address row, with its cascade, keeps the engine well formed.
pub proof fn lemma_without_email_wf(db: DbModel, eid: int)
    requires
        db.wf(),
    ensures
        db.without_email(eid).wf(),
{
    let db2 = db.without_email(eid);
    lemma_filter_pairs(
        db.emails,
        |a: EmailView, b: EmailView| a.id != b.id && a.uuid != b.uuid && a.email != b.email,
        email_keeps(eid),
    );
    lemma_filter_all(
        db.emails,
        |e: EmailView| 0 < e.id < db.next_email_id,
        email_keeps(eid),
    );
    lemma_filter_pairs(
        db.messages,
        |a: MessageView, b: MessageView| a.id != b.id && a.uuid != b.uuid,
        message_keeps_owner(eid),
    );
    lemma_filter_pairs(
        db.messages,
        |a: MessageView, b: MessageView| key_lt(msg_key(a), msg_key(b)),
        message_keeps_owner(eid),
    );
    lemma_filter_all(
        db.messages,
        |m: MessageView| 0 < m.id < db.next_message_id,
        message_keeps_owner(eid),
    );
    lemma_filter_pairs(
        db.attachments,
        |a: AttachmentView, b: AttachmentView| a.id != b.id && a.uuid != b.uuid,
        attachment_keeps_under(db.messages, eid),
    );
    lemma_filter_pairs(
        db.attachments,
        |a: AttachmentView, b: AttachmentView| key_lt(att_key(a), att_key(b)),
        attachment_keeps_under(db.messages, eid),
    );
    lemma_filter_all(
        db.attachments,
        |a: AttachmentView| 0 < a.id < db.next_attachment_id && a.size == a.payload.size_of()
            && 0 <= a.size,
        attachment_keeps_under(db.messages, eid),
    );
    lemma_filter_pairs(
        db.email_meta,
        |a: MetaEntryView, b: MetaEntryView| !(a.email_id == b.email_id && a.key == b.key),
        meta_keeps_owner(eid),
    );
    assert forall|i: int| 0 <= i < db2.messages.len() implies db2.has_email_id(
        (#[trigger] db2.messages[i]).email_id,
    ) by {
        let m = db2.messages[i];
        assert(db2.messages.contains(m));
        db.messages.lemma_filter_contains_rev(message_keeps_owner(eid), m);
        assert(db.has_email_id(m.email_id));
        let w = choose|w: int| 0 <= w < db.emails.len() && (#[trigger] db.emails[w]).id
            == m.email_id;
        db.emails.lemma_filter_contains(email_keeps(eid), w);
        let v = choose|v: int| 0 <= v < db2.emails.len() && db2.emails[v] == db.emails[w];
        assert(db2.emails[v].id == m.email_id);
    }
    assert forall|i: int| 0 <= i < db2.email_meta.len() implies db2.has_email_id(
        (#[trigger] db2.email_meta[i]).email_id,
    ) by {
        let m = db2.email_meta[i];
        assert(db2.email_meta.contains(m));
        db.email_meta.lemma_filter_contains_rev(meta_keeps_owner(eid), m);
        assert(db.has_email_id(m.email_id));
        let w = choose|w: int| 0 <= w < db.emails.len() && (#[trigger] db.emails[w]).id
            == m.email_id;
        db.emails.lemma_filter_contains(email_keeps(eid), w);
        let v = choose|v: int| 0 <= v < db2.emails.len() && db2.emails[v] == db.emails[w];
        assert(db2.emails[v].id == m.email_id);
    }
    assert forall|i: int| 0 <= i < db2.attachments.len() implies db2.has_message_id(
        (#[trigger] db2.attachments[i]).message_id,
    ) by {
        let a = db2.attachments[i];
        assert(db2.attachments.contains(a));
        db.attachments.lemma_filter_contains_rev(attachment_keeps_under(db.messages, eid), a);
        assert(seq_has_message_outside(db.messages, a.message_id, eid));
        let w = choose|w: int| 0 <= w < db.messages.len() && (#[trigger] db.messages[w]).id
            == a.message_id && db.messages[w].email_id != eid;
        db.messages.lemma_filter_contains(message_keeps_owner(eid), w);
        let v = choose|v: int| 0 <= v < db2.messages.len() && db2.messages[v] == db.messages[w];
        assert(db2.messages[v].id == a.message_id);
    }
}

/// Deleting a message row, with its cascade, keeps the engine well formed.
pub proof fn lemma_without_message_wf(db: DbModel, mid: int)
    requires
        db.wf(),
    ensures
        db.without_message(mid).wf(),
{
    let db2 = db.without_message(mid);
    lemma_filter_pairs(
        db.messages,
        |a: MessageView, b: MessageView| a.id != b.id && a.uuid != b.uuid,
        message_keeps(mid),
    );
    lemma_filter_pairs(
        db.messages,
        |a: MessageView, b: MessageView| key_lt(msg_key(a), msg_key(b)),
        message_keeps(mid),
    );
    lemma_filter_all(
        db.messages,
        |m: MessageView| 0 < m.id < db.next_message_id,
        message_keeps(mid),
    );
    lemma_filter_pairs(
        db.attachments,
        |a: AttachmentView, b: AttachmentView| a.id != b.id && a.uuid != b.uuid,
        attachment_keeps_owner(mid),
    );
    lemma_filter_pairs(
        db.attachments,
        |a: AttachmentView, b: AttachmentView| key_lt(att_key(a), att_key(b)),
        attachment_keeps_owner(mid),
    );
    lemma_filter_all(
        db.attachments,
        |a: AttachmentView| 0 < a.id < db.next_attachment_id && a.size == a.payload.size_of()
            && 0 <= a.size,
        attachment_keeps_owner(mid),
    );
    assert forall|i: int| 0 <= i < db2.messages.len() implies db2.has_email_id(
        (#[trigger] db2.messages[i]).email_id,
    ) by {
        let m = db2.messages[i];
        assert(db2.messages.contains(m));
        db.messages.lemma_filter_contains_rev(message_keeps(mid), m);
        assert(db.has_email_id(m.email_id));
    }
    assert forall|i: int| 0 <= i < db2.attachments.len() implies db2.has_message_id(
        (#[trigger] db2.attachments[i]).message_id,
    ) by {
        let a = db2.attachments[i];
        assert(db2.attachments.contains(a));
        db.attachments.lemma_filter_contains_rev(attachment_keeps_owner(mid), a);
        assert(db.has_message_id(a.message_id));
        let w = choose|w: int| 0 <= w < db.messages.len() && (#[trigger] db.messages[w]).id
            == a.message_id;
        db.messages.lemma_filter_contains(message_keeps(mid), w);
        let v = choose|v: int| 0 <= v < db2.messages.len() && db2.messages[v] == db.messages[w];
        assert(db2.messages[v].id == a.message_id);
    }
}

/// Deleting an attachment row keeps the engine well formed.
pub proof fn lemma_without_attachment_wf(db: DbModel, uuid: int)
    requires
        db.wf(),
    ensures
        db.without_attachment_uuid(uuid).wf(),
{
    let db2 = db.without_attachment_uuid(uuid);
    lemma_filter_pairs(
        db.attachments,
        |a: AttachmentView, b: AttachmentView| a.id != b.id && a.uuid != b.uuid,
        attachment_keeps(uuid),
    );
    lemma_filter_pairs(
        db.attachments,
        |a: AttachmentView, b: AttachmentView| key_lt(att_key(a), att_key(b)),
        attachment_keeps(uuid),
    );
    lemma_filter_all(
        db.attachments,
        |a: AttachmentView| 0 < a.id < db.next_attachment_id && a.size == a.payload.size_of()
            && 0 <= a.size,
        attachment_keeps(uuid),
    );
    assert forall|i: int| 0 <= i < db2.attachments.len() implies db2.has_message_id(
        (#[trigger] db2.attachments[i]).message_id,
    ) by {
        let a = db2.attachments[i];
        assert(db2.attachments.contains(a));
        db.attachments.lemma_filter_contains_rev(attachment_keeps(uuid), a);
        assert(db.has_message_id(a.message_id));
        let w = choose|w: int| 0 <= w < db.messages.len() && (#[trigger] db.messages[w]).id
            == a.message_id;
        assert(db2.messages[w].id == a.message_id);
    }
}

/// Rewriting the value and update stamp of one metadata row keeps the
/// engine well formed.
pub proof fn lemma_meta_update_wf(db: DbModel, i: int, value: Seq<char>, now: int)
    requires
        db.wf(),
        0 <= i < db.email_meta.len(),
    ensures
        (DbModel {
            email_meta: db.email_meta.update(
                i,
                MetaEntryView { value, updated_at: now, ..db.email_meta[i] },
            ),
            ..db
        }).wf(),
{
    let db2 = DbModel {
        email_meta: db.email_meta.update(
            i,
            MetaEntryView { value, updated_at: now, ..db.email_meta[i] },
        ),
        ..db
    };
    let t = db2.email_meta;
    assert forall|p: int, q: int| 0 <= p < q < t.len() implies !(#[trigger] t[p].email_id
        == #[trigger] t[q].email_id && t[p].key == t[q].key) by {
        assert(t[p].email_id == db.email_meta[p].email_id && t[p].key == db.email_meta[p].key);
        assert(t[q].email_id == db.email_meta[q].email_id && t[q].key == db.email_meta[q].key);
    }
    assert forall|p: int| 0 <= p < t.len() implies db2.has_email_id(
        (#[trigger] t[p]).email_id,
    ) by {
        assert(t[p].email_id == db.email_meta[p].email_id);
        assert(db.has_email_id(db.email_meta[p].email_id));
        let w = choose|w: int| 0 <= w < db.emails.len() && (#[trigger] db.emails[w]).id
            == db.email_meta[p].email_id;
        assert(db2.emails[w].id == t[p].email_id);
    }
}

/// A fresh metadata row for a (owner, key) pair not yet present keeps the
/// engine well formed.
pub proof fn lemma_meta_push_wf(db: DbModel, m: MetaEntryView)
    requires
        db.wf(),
        db.has_email_id(m.email_id),
        !db.has_meta(m.email_id, m.key),
    ensures
        (DbModel { email_meta: db.email_meta.push(m), ..db }).wf(),
{
    let db2 = DbModel { email_meta: db.email_meta.push(m), ..db };
    let t = db2.email_meta;
    let n = db.email_meta.len() as int;
    assert forall|p: int, q: int| 0 <= p < q < t.len() implies !(#[trigger] t[p].email_id
        == #[trigger] t[q].email_id && t[p].key == t[q].key) by {
        if q == n {
            assert(t[p] == db.email_meta[p]);
            assert(t[q] == m);
        } else {
            assert(t[p] == db.email_meta[p]);
            assert(t[q] == db.email_meta[q]);
        }
    }
    assert forall|p: int| 0 <= p < t.len() implies db2.has_email_id(
        (#[trigger] t[p]).email_id,
    ) by {
        if p < n {
            assert(t[p] == db.email_meta[p]);
            assert(db.has_email_id(t[p].email_id));
        } else {
            assert(t[p] == m);
            assert(db.has_email_id(t[p].email_id));
        }
        let w = choose|w: int| 0 <= w < db.emails.len() && (#[trigger] db.emails[w]).id
            == t[p].email_id;
        assert(db2.emails[w].id == t[p].email_id);
    }
}

/// A fresh message row, inserted at its place in the order, keeps the
/// engine well formed.
pub proof fn lemma_with_message_wf(db: DbModel, m: MessageView)
    requires
        db.wf(),
        db.has_email_id(m.email_id),
        !db.has_message_uuid(m.uuid),
        m.id == db.next_message_id,
        db.next_message_id < i64::MAX,
    ensures
        db.with_message(m).wf(),
{
    let db2 = db.with_message(m);
    let key = |x: MessageView| msg_key(x);
    let k = msg_key(m);
    let p = insertion_point(db.messages, key, k);
    lemma_insertion_point(db.messages, key, k);
    assert forall|j: int| 0 <= j < p implies key_lt(key(db.messages[j]), k) by {
        assert(!key_lt(k, key(db.messages[j])));
        assert(db.messages[j].id < m.id);
    }
    assert forall|j: int| p <= j < db.messages.len() implies key_lt(k, key(db.messages[j])) by {
        if j > p {
            assert(key_lt(key(db.messages[p]), key(db.messages[j])));
        }
    }
    lemma_insert_sorted(db.messages, key, m, p);
    let t = db2.messages;
    let n = db.messages.len() as int;
    assert forall|i: int, j: int| 0 <= i < j < t.len() implies #[trigger] t[i].id
        != #[trigger] t[j].id && t[i].uuid != t[j].uuid by {
        assert(t[i] == if i < p { db.messages[i] } else if i == p { m } else {
            db.messages[i - 1]
        });
        assert(t[j] == if j < p { db.messages[j] } else if j == p { m } else {
            db.messages[j - 1]
        });
    }
    assert forall|i: int| 0 <= i < t.len() implies 0 < (#[trigger] t[i]).id
        < db2.next_message_id by {
        assert(t[i] == if i < p { db.messages[i] } else if i == p { m } else {
            db.messages[i - 1]
        });
    }
    assert forall|i: int| 0 <= i < t.len() implies db2.has_email_id(
        (#[trigger] t[i]).email_id,
    ) by {
        assert(t[i] == if i < p { db.messages[i] } else if i == p { m } else {
            db.messages[i - 1]
        });
        assert(db.has_email_id(t[i].email_id));
    }
    assert forall|i: int| 0 <= i < db2.attachments.len() implies db2.has_message_id(
        (#[trigger] db2.attachments[i]).message_id,
    ) by {
        assert(db.has_message_id(db.attachments[i].message_id));
        let w = choose|w: int| 0 <= w < db.messages.len() && (#[trigger] db.messages[w]).id
            == db.attachments[i].message_id;
        let v: int = if w < p {
            w
        } else {
            w + 1
        };
        assert(0 <= v < t.len());
        assert(t[v] == db.messages[w]);
        assert(db2.messages[v].id == db2.attachments[i].message_id);
    }
}

/// A fresh attachment row, inserted at its place in the order, keeps the
/// engine well formed.
pub proof fn lemma_with_attachment_wf(db: DbModel, a: AttachmentView)
    requires
        db.wf(),
        db.has_message_id(a.message_id),
        !db.has_attachment_uuid(a.uuid),
        a.id == db.next_attachment_id,
        db.next_attachment_id < i64::MAX,
        a.size == a.payload.size_of(),
        0 <= a.size,
    ensures
        db.with_attachment(a).wf(),
{
    let db2 = db.with_attachment(a);
    let key = |x: AttachmentView| att_key(x);
    let k = att_key(a);
    let p = insertion_point(db.attachments, key, k);
    lemma_insertion_point(db.attachments, key, k);
    assert forall|j: int| 0 <= j < p implies key_lt(key(db.attachments[j]), k) by {
        assert(!key_lt(k, key(db.attachments[j])));
        assert(db.attachments[j].id < a.id);
    }
    assert forall|j: int| p <= j < db.attachments.len() implies key_lt(
        k,
        key(db.attachments[j]),
    ) by {
        if j > p {
            assert(key_lt(key(db.attachments[p]), key(db.attachments[j])));
        }
    }
    lemma_insert_sorted(db.attachments, key, a, p);
    let t = db2.attachments;
    assert forall|i: int, j: int| 0 <= i < j < t.len() implies #[trigger] t[i].id
        != #[trigger] t[j].id && t[i].uuid != t[j].uuid by {
        assert(t[i] == if i < p { db.attachments[i] } else if i == p { a } else {
            db.attachments[i - 1]
        });
        assert(t[j] == if j < p { db.attachments[j] } else if j == p { a } else {
            db.attachments[j - 1]
        });
    }
    assert forall|i: int| 0 <= i < t.len() implies 0 < (#[trigger] t[i]).id
        < db2.next_attachment_id && t[i].size == t[i].payload.size_of() && 0 <= t[i].size by {
        assert(t[i] == if i < p { db.attachments[i] } else if i == p { a } else {
            db.attachments[i - 1]
        });
    }
    assert forall|i: int| 0 <= i < t.len() implies db2.has_message_id(
        (#[trigger] t[i]).message_id,
    ) by {
        assert(t[i] == if i < p { db.attachments[i] } else if i == p { a } else {
            db.attachments[i - 1]
        });
        assert(db.has_message_id(t[i].message_id));
        let w = choose|w: int| 0 <= w < db.messages.len() && (#[trigger] db.messages[w]).id
            == t[i].message_id;
        assert(db2.messages[w].id == t[i].message_id);
    }
}

} // verus!
