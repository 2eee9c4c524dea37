use vstd::prelude::*;

use crate::errors::StorageError;
use crate::find::{
    find_first, insertion_point, key_lt, lemma_find_first_at, lemma_find_first_none,
    lemma_insertion_point, seq_view,
};
use crate::model::{
    attachment_by_uuid, attachment_keeps, attachment_keeps_owner, attachment_keeps_under,
    attachment_of, email_by_address, email_by_uuid, email_keeps, message_by_uuid, message_keeps,
    message_keeps_owner, message_of, meta_keeps_owner, meta_of_owner, meta_upsert_post,
    seq_has_message_outside, DbModel,
};
use crate::model::{
    att_key, lemma_meta_push_wf, lemma_meta_update_wf, lemma_with_attachment_wf,
    lemma_with_email_wf, lemma_with_message_wf, lemma_without_attachment_wf,
    lemma_without_email_wf, lemma_without_message_wf, msg_key,
};
use crate::records::{
    opt_int, Attachment, AttachmentPayload, AttachmentView, Email, EmailView, Message,
    MessageView, MetaEntry, MetaEntryView,
};
use crate::ident::{generate_candidate, is_candidate};
use vstd::pervasive::VecAdditionalExecFns;

verus! {

/// The view of an optional record.
pub open spec fn opt_view<T: View>(o: Option<T>) -> Option<T::V> {
    match o {
        Some(x) => Some(x@),
        None => None,
    }
}

broadcast use crate::find::lemma_seq_view_index, crate::find::lemma_seq_view_len;

/// How many candidate draws [`Database::get_random_email`] makes before it
/// gives up. Exhausting it takes as many collisions in a row, practically
/// unreachable over the candidate space.
pub const GENERATION_ATTEMPTS: usize = 100;

/// Relies on uuid::Uuid::new_v4: a freshly drawn random token, returned as
/// its 128-bit value. Nothing is promised of a random draw.
#[verifier::external_body]
fn fresh_token() -> u128 {
    uuid::Uuid::new_v4().as_u128()
}

/// The storage engine: owns the relational state of addresses, messages,
/// attachments and metadata, and is its sole writer.
///
/// Every operation preserves the invariant [`DbModel::wf`] of the engine's
/// mathematical state: unique address strings and tokens, referential
/// integrity from attachments through messages to addresses, ordered
/// message and attachment relations, and unique (owner, key) metadata
/// pairs.
pub struct Database {
    emails: Vec<Email>,
    messages: Vec<Message>,
    attachments: Vec<Attachment>,
    email_meta: Vec<MetaEntry>,
    next_email_id: i64,
    next_message_id: i64,
    next_attachment_id: i64,
}

impl View for Database {
    type V = DbModel;

    closed spec fn view(&self) -> DbModel {
        DbModel {
            emails: seq_view(self.emails@),
            messages: seq_view(self.messages@),
            attachments: seq_view(self.attachments@),
            email_meta: seq_view(self.email_meta@),
            next_email_id: self.next_email_id as int,
            next_message_id: self.next_message_id as int,
            next_attachment_id: self.next_attachment_id as int,
        }
    }
}

impl Database {
    /// A new, empty storage engine.
    pub fn new() -> (db: Database)
        ensures
            db@ == DbModel::empty(),
            db@.wf(),
    {
        let db = Database {
            emails: Vec::new(),
            messages: Vec::new(),
            attachments: Vec::new(),
            email_meta: Vec::new(),
            next_email_id: 1,
            next_message_id: 1,
            next_attachment_id: 1,
        };
        proof {
            assert(db@.emails =~= DbModel::empty().emails);
            assert(db@.messages =~= DbModel::empty().messages);
            assert(db@.attachments =~= DbModel::empty().attachments);
            assert(db@.email_meta =~= DbModel::empty().email_meta);
            assert(db@ =~= DbModel::empty());
        }
        db
    }

    /// Whether some address row carries the address string `needle`.
    pub fn contains_address(&self, needle: &String) -> (r: bool)
        ensures
            r == self@.has_address(needle@),
    {
        let n = self.emails.len();
        let mut i: usize = 0;
        while i < n
            invariant
                i <= n,
                n == self.emails@.len(),
                forall|j: int| 0 <= j < i ==> (#[trigger] seq_view(self.emails@)[j]).email
                    != needle@,
            decreases n - i,
        {
            if self.emails[i].email == *needle {
                proof {
                    assert(self@.emails[i as int].email == needle@);
                }
                return true;
            }
            i = i + 1;
        }
        proof {
            assert(forall|j: int| 0 <= j < self@.emails.len() ==> (
            #[trigger] self@.emails[j]).email != needle@);
        }
        false
    }

    /// The position of the address row with token `uuid`, if any.
    fn find_email_index_by_uuid(&self, uuid: u128) -> (r: Option<usize>)
        ensures
            match r {
                Some(i) => i < self@.emails.len() && self@.emails[i as int].uuid == uuid as int,
                None => !self@.has_email_uuid(uuid as int),
            },
    {
        let n = self.emails.len();
        let mut i: usize = 0;
        while i < n
            invariant
                i <= n,
                n == self.emails@.len(),
                forall|j: int| 0 <= j < i ==> (#[trigger] seq_view(self.emails@)[j]).uuid
                    != uuid as int,
            decreases n - i,
        {
            if self.emails[i].uuid == uuid {
                return Some(i);
            }
            i = i + 1;
        }
        proof {
            assert(forall|j: int| 0 <= j < self@.emails.len() ==> (
            #[trigger] self@.emails[j]).uuid != uuid as int);
        }
        None
    }

    /// Whether some address row has surrogate key `id`.
    fn contains_email_id(&self, id: i64) -> (r: bool)
        ensures
            r == self@.has_email_id(id as int),
    {
        let n = self.emails.len();
        let mut i: usize = 0;
        while i < n
            invariant
                i <= n,
                n == self.emails@.len(),
                forall|j: int| 0 <= j < i ==> (#[trigger] seq_view(self.emails@)[j]).id != id as int,
            decreases n - i,
        {
            if self.emails[i].id == id {
                proof {
                    assert(self@.emails[i as int].id == id as int);
                }
                return true;
            }
            i = i + 1;
        }
        proof {
            assert(forall|j: int| 0 <= j < self@.emails.len() ==> (#[trigger] self@.emails[j]).id
                != id as int);
        }
        false
    }

    /// Point lookup of an address by its token. Absence is not an error.
    pub fn get_email_by_uuid(&self, uuid: u128) -> (r: Result<Option<Email>, StorageError>)
        ensures
            r is Ok,
            opt_view(r->Ok_0) == find_first(self@.emails, email_by_uuid(uuid as int)),
    {
        let n = self.emails.len();
        let mut i: usize = 0;
        while i < n
            invariant
                i <= n,
                n == self.emails@.len(),
                forall|j: int| 0 <= j < i ==> (#[trigger] seq_view(self.emails@)[j]).uuid
                    != uuid as int,
            decreases n - i,
        {
            if self.emails[i].uuid == uuid {
                proof {
                    assert(self@.emails[i as int] == self.emails@[i as int]@);
                    assert(email_by_uuid(uuid as int)(self@.emails[i as int]));
                    lemma_find_first_at(self@.emails, email_by_uuid(uuid as int), i as int);
                }
                return Ok(Some(self.emails[i].duplicate()));
            }
            i = i + 1;
        }
        proof {
            assert(forall|j: int| 0 <= j < self@.emails.len() ==> !email_by_uuid(uuid as int)(
                #[trigger] self@.emails[j],
            ));
            lemma_find_first_none(self@.emails, email_by_uuid(uuid as int));
        }
        Ok(None)
    }

    /// Point lookup of an address by its address string. Absence is not an
    /// error.
    pub fn get_email_by_address(&self, email: &str) -> (r: Result<Option<Email>, StorageError>)
        ensures
            r is Ok,
            opt_view(r->Ok_0) == find_first(self@.emails, email_by_address(email@)),
    {
        let needle: String = email.to_owned();
        let n = self.emails.len();
        let mut i: usize = 0;
        while i < n
            invariant
                i <= n,
                n == self.emails@.len(),
                needle@ == email@,
                forall|j: int| 0 <= j < i ==> (#[trigger] seq_view(self.emails@)[j]).email
                    != email@,
            decreases n - i,
        {
            if self.emails[i].email == needle {
                proof {
                    assert(self@.emails[i as int] == self.emails@[i as int]@);
                    assert(email_by_address(email@)(self@.emails[i as int]));
                    lemma_find_first_at(self@.emails, email_by_address(email@), i as int);
                }
                return Ok(Some(self.emails[i].duplicate()));
            }
            i = i + 1;
        }
        proof {
            assert(forall|j: int| 0 <= j < self@.emails.len() ==> !email_by_address(email@)(
                #[trigger] self@.emails[j],
            ));
            lemma_find_first_none(self@.emails, email_by_address(email@));
        }
        Ok(None)
    }

    /// Insert a new address row carrying the given token. Success is
    /// exact: the call succeeds if and only if the address string is new,
    /// the token is new, and the key space is not exhausted; a duplicate
    /// gives a conflict and exhaustion a storage failure, each leaving the
    /// state unchanged.
    pub fn create_email_with_token(
        &mut self,
        token: u128,
        email: &str,
        expire: bool,
        expire_at: Option<i64>,
        now: i64,
    ) -> (r: Result<Email, StorageError>)
        requires
            old(self)@.wf(),
        ensures
            final(self)@.wf(),
            r is Ok <==> !old(self)@.has_address(email@) && !old(self)@.has_email_uuid(
                token as int,
            ) && old(self)@.next_email_id < i64::MAX,
            r is Err ==> final(self)@ == old(self)@,
            old(self)@.has_address(email@) || old(self)@.has_email_uuid(token as int) ==> r is Err
                && r->Err_0 == StorageError::Conflict,
            r is Err && !old(self)@.has_address(email@) && !old(self)@.has_email_uuid(token as int)
                ==> r->Err_0 == StorageError::Io,
            r is Ok ==> r->Ok_0@ == (EmailView {
                id: old(self)@.next_email_id,
                uuid: token as int,
                email: email@,
                expire,
                expire_at: opt_int(expire_at),
                inserted_at: now as int,
                updated_at: now as int,
            }) && final(self)@ == old(self)@.with_email(r->Ok_0@),
    {
        let needle: String = email.to_owned();
        if self.contains_address(&needle) {
            return Err(StorageError::Conflict);
        }
        match self.find_email_index_by_uuid(token) {
            Some(i) => {
                proof {
                    assert(self@.emails[i as int].uuid == token as int);
                }
                return Err(StorageError::Conflict);
            },
            None => {},
        }
        if self.next_email_id == i64::MAX {
            return Err(StorageError::Io);
        }
        let id = self.next_email_id;
        self.next_email_id = id + 1;
        let rec = Email {
            id,
            uuid: token,
            email: needle,
            expire,
            expire_at,
            inserted_at: now,
            updated_at: now,
        };
        let out = rec.duplicate();
        self.emails.push(rec);
        proof {
            assert(self@.emails =~= old(self)@.emails.push(out@));
            assert(self@ =~= old(self)@.with_email(out@));
            lemma_with_email_wf(old(self)@, out@);
        }
        Ok(out)
    }

    /// Where a message created at `ts` with surrogate key `id` belongs in
    /// the ordered relation.
    fn msg_insert_index(&self, ts: i64, id: i64) -> (r: usize)
        ensures
            r <= self@.messages.len(),
            forall|j: int|
                0 <= j < r ==> !key_lt(
                    (ts as int, id as int),
                    msg_key(#[trigger] self@.messages[j]),
                ),
            r < self@.messages.len() ==> key_lt(
                (ts as int, id as int),
                msg_key(self@.messages[r as int]),
            ),
    {
        let n = self.messages.len();
        let mut i: usize = 0;
        while i < n
            invariant
                i <= n,
                n == self.messages@.len(),
                forall|j: int|
                    0 <= j < i ==> !key_lt(
                        (ts as int, id as int),
                        msg_key(#[trigger] seq_view(self.messages@)[j]),
                    ),
            decreases n - i,
        {
            let m = &self.messages[i];
            if ts < m.inserted_at || (ts == m.inserted_at && id < m.id) {
                return i;
            }
            i = i + 1;
        }
        i
    }

    /// Insert a new message row carrying the given token. Success is
    /// exact: the call succeeds if and only if the owning address exists,
    /// the token is new, and the key space is not exhausted; a missing
    /// owner or a duplicate token gives a conflict and exhaustion a
    /// storage failure, each leaving the state unchanged.
    pub fn create_message_with_token(
        &mut self,
        token: u128,
        from: &str,
        subject: &str,
        content: &str,
        email_id: i64,
        now: i64,
    ) -> (r: Result<Message, StorageError>)
        requires
            old(self)@.wf(),
        ensures
            final(self)@.wf(),
            r is Ok <==> old(self)@.has_email_id(email_id as int) && !old(self)@.has_message_uuid(
                token as int,
            ) && old(self)@.next_message_id < i64::MAX,
            r is Err ==> final(self)@ == old(self)@,
            !old(self)@.has_email_id(email_id as int) || old(self)@.has_message_uuid(token as int)
                ==> r is Err && r->Err_0 == StorageError::Conflict,
            r is Err && old(self)@.has_email_id(email_id as int) && !old(self)@.has_message_uuid(
                token as int,
            ) ==> r->Err_0 == StorageError::Io,
            r is Ok ==> r->Ok_0@ == (MessageView {
                id: old(self)@.next_message_id,
                uuid: token as int,
                from: from@,
                subject: subject@,
                content: content@,
                email_id: email_id as int,
                inserted_at: now as int,
                updated_at: now as int,
            }) && final(self)@ == old(self)@.with_message(r->Ok_0@),
    {
        if !self.contains_email_id(email_id) {
            return Err(StorageError::Conflict);
        }
        match self.find_message_index_by_uuid(token) {
            Some(i) => {
                proof {
                    assert(self@.messages[i as int].uuid == token as int);
                }
                return Err(StorageError::Conflict);
            },
            None => {},
        }
        if self.next_message_id == i64::MAX {
            return Err(StorageError::Io);
        }
        let id = self.next_message_id;
        let pos = self.msg_insert_index(now, id);
        self.next_message_id = id + 1;
        let rec = Message {
            id,
            uuid: token,
            from: from.to_owned(),
            subject: subject.to_owned(),
            content: content.to_owned(),
            email_id,
            inserted_at: now,
            updated_at: now,
        };
        let out = rec.duplicate();
        proof {
            let s = old(self)@.messages;
            let key = |x: MessageView| msg_key(x);
            let k = (now as int, id as int);
            lemma_insertion_point(s, key, k);
            let ip = insertion_point(s, key, k);
            if (pos as int) < ip {
                assert(key_lt(k, key(s[pos as int])));
                assert(false);
            }
            if ip < pos as int {
                assert(key_lt(k, key(s[ip])));
                assert(false);
            }
            assert(msg_key(out@) == k);
        }
        self.messages.insert(pos, rec);
        proof {
            assert(self@.messages =~= old(self)@.messages.insert(pos as int, out@));
            assert(self@ =~= old(self)@.with_message(out@));
            lemma_with_message_wf(old(self)@, out@);
        }
        Ok(out)
    }

    /// Insert a new address row under a freshly drawn random token. The
    /// token-exact variant is [`Database::create_email_with_token`]; this
    /// one states what holds whatever token the draw returns: a duplicate
    /// address string is always a conflict, an error leaves the state
    /// unchanged, and on success the returned record is the row that was
    /// appended.
    pub fn create_email(
        &mut self,
        email: &str,
        expire: bool,
        expire_at: Option<i64>,
        now: i64,
    ) -> (r: Result<Email, StorageError>)
        requires
            old(self)@.wf(),
        ensures
            final(self)@.wf(),
            old(self)@.has_address(email@) ==> r is Err && r->Err_0 == StorageError::Conflict,
            old(self)@.emails.len() == 0 && old(self)@.next_email_id < i64::MAX ==> r is Ok,
            r is Err && !old(self)@.has_address(email@) && old(self)@.next_email_id < i64::MAX
                ==> r->Err_0 == StorageError::Conflict,
            r is Err ==> final(self)@ == old(self)@,
            r is Ok ==> !old(self)@.has_address(email@) && r->Ok_0@.email == email@
                && r->Ok_0@.expire == expire && r->Ok_0@.expire_at == opt_int(expire_at)
                && r->Ok_0@.inserted_at == now as int && r->Ok_0@.updated_at == now as int
                && r->Ok_0@.id == old(self)@.next_email_id && final(self)@ == old(
                self,
            )@.with_email(r->Ok_0@),
    {
        let token = fresh_token();
        self.create_email_with_token(token, email, expire, expire_at, now)
    }

    /// Insert a new message row under a freshly drawn random token. The
    /// token-exact variant is [`Database::create_message_with_token`]: a
    /// missing owner is always a conflict, an error leaves the state
    /// unchanged, and on success the returned record is the row that took
    /// its place in the ordered relation.
    pub fn create_message(
        &mut self,
        from: &str,
        subject: &str,
        content: &str,
        email_id: i64,
        now: i64,
    ) -> (r: Result<Message, StorageError>)
        requires
            old(self)@.wf(),
        ensures
            final(self)@.wf(),
            !old(self)@.has_email_id(email_id as int) ==> r is Err && r->Err_0
                == StorageError::Conflict,
            old(self)@.has_email_id(email_id as int) && old(self)@.messages.len() == 0 && old(
                self,
            )@.next_message_id < i64::MAX ==> r is Ok,
            r is Err && old(self)@.has_email_id(email_id as int) && old(self)@.next_message_id
                < i64::MAX ==> r->Err_0 == StorageError::Conflict,
            r is Err ==> final(self)@ == old(self)@,
            r is Ok ==> old(self)@.has_email_id(email_id as int) && r->Ok_0@.from == from@
                && r->Ok_0@.subject == subject@ && r->Ok_0@.content == content@
                && r->Ok_0@.email_id == email_id as int && r->Ok_0@.inserted_at == now as int
                && r->Ok_0@.updated_at == now as int && r->Ok_0@.id == old(self)@.next_message_id
                && final(self)@ == old(self)@.with_message(r->Ok_0@),
    {
        let token = fresh_token();
        self.create_message_with_token(token, from, subject, content, email_id, now)
    }

    /// Insert a new attachment row under a freshly drawn random token. The
    /// token-exact variant is [`Database::create_attachment_with_token`]:
    /// a malformed payload size is always rejected first, a missing owner
    /// is a conflict, an error leaves the state unchanged, and on success
    /// the returned record is the row that took its place in the ordered
    /// relation, its size equal to the size the payload declares.
    pub fn create_attachment(
        &mut self,
        filename: &str,
        content_type: &str,
        payload: AttachmentPayload,
        message_id: i64,
        now: i64,
    ) -> (r: Result<Attachment, StorageError>)
        requires
            old(self)@.wf(),
        ensures
            final(self)@.wf(),
            !(0 <= payload@.size_of() <= i64::MAX) ==> r is Err && r->Err_0
                == StorageError::Validation,
            0 <= payload@.size_of() <= i64::MAX && !old(self)@.has_message_id(message_id as int)
                ==> r is Err && r->Err_0 == StorageError::Conflict,
            0 <= payload@.size_of() <= i64::MAX && old(self)@.has_message_id(message_id as int)
                && old(self)@.attachments.len() == 0 && old(self)@.next_attachment_id < i64::MAX
                ==> r is Ok,
            r is Err && 0 <= payload@.size_of() <= i64::MAX && old(self)@.has_message_id(
                message_id as int,
            ) && old(self)@.next_attachment_id < i64::MAX ==> r->Err_0 == StorageError::Conflict,
            r is Err ==> final(self)@ == old(self)@,
            r is Ok ==> old(self)@.has_message_id(message_id as int) && r->Ok_0@.filename
                == filename@ && r->Ok_0@.content_type == content_type@ && r->Ok_0@.payload
                == payload@ && r->Ok_0@.size == payload@.size_of() && r->Ok_0@.message_id
                == message_id as int && r->Ok_0@.inserted_at == now as int
                && r->Ok_0@.updated_at == now as int && r->Ok_0@.id == old(
                self,
            )@.next_attachment_id && final(self)@ == old(self)@.with_attachment(r->Ok_0@),
    {
        let token = fresh_token();
        self.create_attachment_with_token(token, filename, content_type, payload, message_id, now)
    }

    /// Produce a random address that no address row carries yet: draw
    /// candidates and retry on collision with the stored addresses. An
    /// empty domain list is rejected before any randomness is drawn; after
    /// too many collisions in a row (practically unreachable over the
    /// candidate space) the call gives up with a conflict. The stored
    /// address check of this engine cannot fail, so the loop never faces
    /// an ambiguous outcome to resolve.
    pub fn get_random_email(&self, domains: &Vec<String>) -> (r: Result<String, StorageError>)
        ensures
            (domains@.len() == 0) <==> (r is Err && r->Err_0 == StorageError::Validation),
            domains@.len() > 0 && self@.emails.len() == 0 ==> r is Ok,
            r is Ok ==> is_candidate(r->Ok_0@, domains@) && !self@.has_address(r->Ok_0@),
            r is Err && domains@.len() > 0 ==> r->Err_0 == StorageError::Conflict,
    {
        if domains.len() == 0 {
            return Err(StorageError::Validation);
        }
        let mut attempts: usize = 0;
        while attempts < GENERATION_ATTEMPTS
            invariant
                domains@.len() > 0,
                attempts > 0 ==> self@.emails.len() > 0,
            decreases GENERATION_ATTEMPTS - attempts,
        {
            match generate_candidate(domains) {
                Ok(candidate) => {
                    if !self.contains_address(&candidate) {
                        return Ok(candidate);
                    }
                },
                Err(_) => {
                    proof {
                        assert(false);
                    }
                },
            }
            attempts = attempts + 1;
        }
        Err(StorageError::Conflict)
    }

    /// Whether some message row has surrogate key `id`.
    fn contains_message_id(&self, id: i64) -> (r: bool)
        ensures
            r == self@.has_message_id(id as int),
    {
        let n = self.messages.len();
        let mut i: usize = 0;
        while i < n
            invariant
                i <= n,
                n == self.messages@.len(),
                forall|j: int| 0 <= j < i ==> (#[trigger] seq_view(self.messages@)[j]).id
                    != id as int,
            decreases n - i,
        {
            if self.messages[i].id == id {
                proof {
                    assert(self@.messages[i as int].id == id as int);
                }
                return true;
            }
            i = i + 1;
        }
        proof {
            assert(forall|j: int| 0 <= j < self@.messages.len() ==> (
            #[trigger] self@.messages[j]).id != id as int);
        }
        false
    }

    /// The position of the attachment row with token `uuid`, if any;
    /// nothing before it matches.
    fn find_attachment_index_by_uuid(&self, uuid: u128) -> (r: Option<usize>)
        ensures
            match r {
                Some(i) => i < self@.attachments.len() && self@.attachments[i as int].uuid
                    == uuid as int && forall|j: int|
                    0 <= j < i ==> (#[trigger] self@.attachments[j]).uuid != uuid as int,
                None => !self@.has_attachment_uuid(uuid as int),
            },
    {
        let n = self.attachments.len();
        let mut i: usize = 0;
        while i < n
            invariant
                i <= n,
                n == self.attachments@.len(),
                forall|j: int| 0 <= j < i ==> (#[trigger] seq_view(self.attachments@)[j]).uuid
                    != uuid as int,
            decreases n - i,
        {
            if self.attachments[i].uuid == uuid {
                return Some(i);
            }
            i = i + 1;
        }
        proof {
            assert(forall|j: int| 0 <= j < self@.attachments.len() ==> (
            #[trigger] self@.attachments[j]).uuid != uuid as int);
        }
        None
    }

    /// Where an attachment created at `ts` with surrogate key `id` belongs
    /// in the ordered relation.
    fn att_insert_index(&self, ts: i64, id: i64) -> (r: usize)
        ensures
            r <= self@.attachments.len(),
            forall|j: int|
                0 <= j < r ==> !key_lt(
                    (ts as int, id as int),
                    att_key(#[trigger] self@.attachments[j]),
                ),
            r < self@.attachments.len() ==> key_lt(
                (ts as int, id as int),
                att_key(self@.attachments[r as int]),
            ),
    {
        let n = self.attachments.len();
        let mut i: usize = 0;
        while i < n
            invariant
                i <= n,
                n == self.attachments@.len(),
                forall|j: int|
                    0 <= j < i ==> !key_lt(
                        (ts as int, id as int),
                        att_key(#[trigger] seq_view(self.attachments@)[j]),
                    ),
            decreases n - i,
        {
            let a = &self.attachments[i];
            if ts < a.inserted_at || (ts == a.inserted_at && id < a.id) {
                return i;
            }
            i = i + 1;
        }
        i
    }

    /// Insert a new attachment row carrying the given token, with its
    /// payload inline or stored externally. A payload whose declared size
    /// is negative or beyond the size column is rejected before anything
    /// else; then success is exact as for messages: the owning message
    /// must exist, the token must be new, and the key space must not be
    /// exhausted. The recorded size always equals the size the payload
    /// declares.
    pub fn create_attachment_with_token(
        &mut self,
        token: u128,
        filename: &str,
        content_type: &str,
        payload: AttachmentPayload,
        message_id: i64,
        now: i64,
    ) -> (r: Result<Attachment, StorageError>)
        requires
            old(self)@.wf(),
        ensures
            final(self)@.wf(),
            r is Ok <==> 0 <= payload@.size_of() <= i64::MAX && old(self)@.has_message_id(
                message_id as int,
            ) && !old(self)@.has_attachment_uuid(token as int) && old(self)@.next_attachment_id
                < i64::MAX,
            r is Err ==> final(self)@ == old(self)@,
            !(0 <= payload@.size_of() <= i64::MAX) ==> r is Err && r->Err_0
                == StorageError::Validation,
            0 <= payload@.size_of() <= i64::MAX && (!old(self)@.has_message_id(message_id as int)
                || old(self)@.has_attachment_uuid(token as int)) ==> r is Err && r->Err_0
                == StorageError::Conflict,
            r is Err && 0 <= payload@.size_of() <= i64::MAX && old(self)@.has_message_id(
                message_id as int,
            ) && !old(self)@.has_attachment_uuid(token as int) ==> r->Err_0 == StorageError::Io,
            r is Ok ==> r->Ok_0@ == (AttachmentView {
                id: old(self)@.next_attachment_id,
                uuid: token as int,
                filename: filename@,
                content_type: content_type@,
                size: payload@.size_of(),
                payload: payload@,
                message_id: message_id as int,
                inserted_at: now as int,
                updated_at: now as int,
            }) && final(self)@ == old(self)@.with_attachment(r->Ok_0@),
    {
        let size: i64 = match &payload {
            AttachmentPayload::Inline(data) => {
                if data.len() as u64 > i64::MAX as u64 {
                    return Err(StorageError::Validation);
                }
                data.len() as i64
            },
            AttachmentPayload::External(_, declared) => {
                if *declared < 0 {
                    return Err(StorageError::Validation);
                }
                *declared
            },
        };
        if !self.contains_message_id(message_id) {
            return Err(StorageError::Conflict);
        }
        match self.find_attachment_index_by_uuid(token) {
            Some(i) => {
                proof {
                    assert(self@.attachments[i as int].uuid == token as int);
                }
                return Err(StorageError::Conflict);
            },
            None => {},
        }
        if self.next_attachment_id == i64::MAX {
            return Err(StorageError::Io);
        }
        let id = self.next_attachment_id;
        let pos = self.att_insert_index(now, id);
        self.next_attachment_id = id + 1;
        let rec = Attachment {
            id,
            uuid: token,
            filename: filename.to_owned(),
            content_type: content_type.to_owned(),
            size,
            payload,
            message_id,
            inserted_at: now,
            updated_at: now,
        };
        let out = rec.duplicate();
        proof {
            let s = old(self)@.attachments;
            let key = |x: AttachmentView| att_key(x);
            let k = (now as int, id as int);
            lemma_insertion_point(s, key, k);
            let ip = insertion_point(s, key, k);
            if (pos as int) < ip {
                assert(key_lt(k, key(s[pos as int])));
                assert(false);
            }
            if ip < pos as int {
                assert(key_lt(k, key(s[ip])));
                assert(false);
            }
            assert(att_key(out@) == k);
        }
        self.attachments.insert(pos, rec);
        proof {
            assert(self@.attachments =~= old(self)@.attachments.insert(pos as int, out@));
            assert(self@ =~= old(self)@.with_attachment(out@));
            lemma_with_attachment_wf(old(self)@, out@);
        }
        Ok(out)
    }

    /// Point lookup of a message by its token. Absence is not an error.
    pub fn get_message_by_uuid(&self, uuid: u128) -> (r: Result<Option<Message>, StorageError>)
        ensures
            r is Ok,
            opt_view(r->Ok_0) == find_first(self@.messages, message_by_uuid(uuid as int)),
    {
        match self.find_message_index_by_uuid(uuid) {
            Some(i) => {
                proof {
                    assert(message_by_uuid(uuid as int)(self@.messages[i as int]));
                    lemma_find_first_at(self@.messages, message_by_uuid(uuid as int), i as int);
                }
                Ok(Some(self.messages[i].duplicate()))
            },
            None => {
                proof {
                    assert(forall|j: int|
                        0 <= j < self@.messages.len() ==> !message_by_uuid(uuid as int)(
                            #[trigger] self@.messages[j],
                        ));
                    lemma_find_first_none(self@.messages, message_by_uuid(uuid as int));
                }
                Ok(None)
            },
        }
    }

    /// Point lookup of an attachment by its token. Absence is not an
    /// error.
    pub fn get_attachment_by_uuid(&self, uuid: u128) -> (r: Result<
        Option<Attachment>,
        StorageError,
    >)
        ensures
            r is Ok,
            opt_view(r->Ok_0) == find_first(self@.attachments, attachment_by_uuid(uuid as int)),
    {
        match self.find_attachment_index_by_uuid(uuid) {
            Some(i) => {
                proof {
                    assert(attachment_by_uuid(uuid as int)(self@.attachments[i as int]));
                    lemma_find_first_at(
                        self@.attachments,
                        attachment_by_uuid(uuid as int),
                        i as int,
                    );
                }
                Ok(Some(self.attachments[i].duplicate()))
            },
            None => {
                proof {
                    assert(forall|j: int|
                        0 <= j < self@.attachments.len() ==> !attachment_by_uuid(uuid as int)(
                            #[trigger] self@.attachments[j],
                        ));
                    lemma_find_first_none(self@.attachments, attachment_by_uuid(uuid as int));
                }
                Ok(None)
            },
        }
    }

    /// Delete the address row with surrogate key `id`, cascading to its
    /// messages, their attachments, and its metadata. Deleting an absent
    /// row is a successful no-op.
    pub fn delete_email_by_id(&mut self, id: i64) -> (r: Result<(), StorageError>)
        requires
            old(self)@.wf(),
        ensures
            final(self)@.wf(),
            r is Ok,
            final(self)@ == old(self)@.without_email(id as int),
    {
        filter_attachments_cascade(&mut self.attachments, &self.messages, id);
        filter_messages_keep_owner(&mut self.messages, id);
        filter_emails_keep(&mut self.emails, id);
        filter_meta_keep_owner(&mut self.email_meta, id);
        proof {
            lemma_without_email_wf(old(self)@, id as int);
            assert(self@ =~= old(self)@.without_email(id as int));
        }
        Ok(())
    }

    /// Delete the address row with token `uuid`, cascading as
    /// [`Database::delete_email_by_id`] does. Deleting an absent row is a
    /// successful no-op.
    pub fn delete_email_by_uuid(&mut self, uuid: u128) -> (r: Result<(), StorageError>)
        requires
            old(self)@.wf(),
        ensures
            final(self)@.wf(),
            r is Ok,
            match find_first(old(self)@.emails, email_by_uuid(uuid as int)) {
                Some(e) => final(self)@ == old(self)@.without_email(e.id),
                None => final(self)@ == old(self)@,
            },
    {
        match self.find_email_index_by_uuid(uuid) {
            Some(i) => {
                let id = self.emails[i].id;
                proof {
                    lemma_find_first_at(self@.emails, email_by_uuid(uuid as int), i as int);
                }
                self.delete_email_by_id(id)
            },
            None => {
                proof {
                    assert(forall|j: int|
                        0 <= j < self@.emails.len() ==> !email_by_uuid(uuid as int)(
                            #[trigger] self@.emails[j],
                        ));
                    lemma_find_first_none(self@.emails, email_by_uuid(uuid as int));
                }
                Ok(())
            },
        }
    }

    /// Delete the message row with surrogate key `id`, cascading to its
    /// attachments. Deleting an absent row is a successful no-op.
    pub fn delete_message_by_id(&mut self, id: i64) -> (r: Result<(), StorageError>)
        requires
            old(self)@.wf(),
        ensures
            final(self)@.wf(),
            r is Ok,
            final(self)@ == old(self)@.without_message(id as int),
    {
        filter_attachments_keep_owner(&mut self.attachments, id);
        filter_messages_keep(&mut self.messages, id);
        proof {
            lemma_without_message_wf(old(self)@, id as int);
            assert(self@ =~= old(self)@.without_message(id as int));
        }
        Ok(())
    }

    /// Delete the message row with token `uuid`, cascading to its
    /// attachments. Deleting an absent row is a successful no-op.
    pub fn delete_message_by_uuid(&mut self, uuid: u128) -> (r: Result<(), StorageError>)
        requires
            old(self)@.wf(),
        ensures
            final(self)@.wf(),
            r is Ok,
            match find_first(old(self)@.messages, message_by_uuid(uuid as int)) {
                Some(m) => final(self)@ == old(self)@.without_message(m.id),
                None => final(self)@ == old(self)@,
            },
    {
        match self.find_message_index_by_uuid(uuid) {
            Some(i) => {
                let id = self.messages[i].id;
                proof {
                    lemma_find_first_at(self@.messages, message_by_uuid(uuid as int), i as int);
                }
                self.delete_message_by_id(id)
            },
            None => {
                proof {
                    assert(forall|j: int|
                        0 <= j < self@.messages.len() ==> !message_by_uuid(uuid as int)(
                            #[trigger] self@.messages[j],
                        ));
                    lemma_find_first_none(self@.messages, message_by_uuid(uuid as int));
                }
                Ok(())
            },
        }
    }

    /// Delete the attachment row with token `uuid`. Deleting an absent row
    /// is a successful no-op.
    pub fn delete_attachment(&mut self, uuid: u128) -> (r: Result<(), StorageError>)
        requires
            old(self)@.wf(),
        ensures
            final(self)@.wf(),
            r is Ok,
            final(self)@ == old(self)@.without_attachment_uuid(uuid as int),
    {
        filter_attachments_keep_uuid(&mut self.attachments, uuid);
        proof {
            lemma_without_attachment_wf(old(self)@, uuid as int);
            assert(self@ =~= old(self)@.without_attachment_uuid(uuid as int));
        }
        Ok(())
    }

    /// The position of the metadata row for `(email_id, key)`, if any.
    fn find_meta_index(&self, email_id: i64, key: &String) -> (r: Option<usize>)
        ensures
            match r {
                Some(i) => i < self@.email_meta.len() && self@.email_meta[i as int].email_id
                    == email_id as int && self@.email_meta[i as int].key == key@,
                None => !self@.has_meta(email_id as int, key@),
            },
    {
        let n = self.email_meta.len();
        let mut i: usize = 0;
        while i < n
            invariant
                i <= n,
                n == self.email_meta@.len(),
                forall|j: int|
                    0 <= j < i ==> !((#[trigger] seq_view(self.email_meta@)[j]).email_id
                        == email_id as int && seq_view(self.email_meta@)[j].key == key@),
            decreases n - i,
        {
            if self.email_meta[i].email_id == email_id && self.email_meta[i].key == *key {
                return Some(i);
            }
            i = i + 1;
        }
        proof {
            assert(forall|j: int|
                0 <= j < self@.email_meta.len() ==> !((#[trigger] self@.email_meta[j]).email_id
                    == email_id as int && self@.email_meta[j].key == key@));
        }
        None
    }

    /// Upsert one metadata entry of an address: if a row for the (owner,
    /// key) pair exists its value is rewritten and its update stamp bumped,
    /// else a new row is inserted. Never a duplicate pair. Fails, leaving
    /// the state unchanged, only when neither the pair nor the owner
    /// exists.
    pub fn set_email_meta(&mut self, email_id: i64, key: &str, value: &str, now: i64) -> (r:
        Result<(), StorageError>)
        requires
            old(self)@.wf(),
        ensures
            final(self)@.wf(),
            r is Ok <==> old(self)@.has_meta(email_id as int, key@) || old(self)@.has_email_id(
                email_id as int,
            ),
            r is Err ==> r->Err_0 == StorageError::Conflict && final(self)@ == old(self)@,
            r is Ok ==> meta_upsert_post(
                old(self)@.email_meta,
                final(self)@.email_meta,
                email_id as int,
                key@,
                value@,
                now as int,
            ) && final(self)@ == (DbModel {
                email_meta: final(self)@.email_meta,
                ..old(self)@
            }),
            old(self)@.has_meta(email_id as int, key@) ==> exists|i: int|
                0 <= i < old(self)@.email_meta.len() && (#[trigger] old(
                    self,
                )@.email_meta[i]).email_id == email_id as int && old(self)@.email_meta[i].key
                    == key@ && final(self)@ == (DbModel {
                    email_meta: old(self)@.email_meta.update(
                        i,
                        MetaEntryView {
                            value: value@,
                            updated_at: now as int,
                            ..old(self)@.email_meta[i]
                        },
                    ),
                    ..old(self)@
                }),
            !old(self)@.has_meta(email_id as int, key@) && old(self)@.has_email_id(email_id as int)
                ==> final(self)@ == (DbModel {
                email_meta: old(self)@.email_meta.push(
                    MetaEntryView {
                        email_id: email_id as int,
                        key: key@,
                        value: value@,
                        inserted_at: now as int,
                        updated_at: now as int,
                    },
                ),
                ..old(self)@
            }),
    {
        let needle: String = key.to_owned();
        match self.find_meta_index(email_id, &needle) {
            Some(i) => {
                let mut e = self.email_meta[i].duplicate();
                e.value = value.to_owned();
                e.updated_at = now;
                let ghost ev = e@;
                self.email_meta.set(i, e);
                proof {
                    assert(self@.email_meta =~= old(self)@.email_meta.update(i as int, ev));
                    assert(ev == (MetaEntryView {
                        value: value@,
                        updated_at: now as int,
                        ..old(self)@.email_meta[i as int]
                    }));
                    lemma_meta_update_wf(old(self)@, i as int, value@, now as int);
                    assert(self@ =~= (DbModel {
                        email_meta: old(self)@.email_meta.update(i as int, ev),
                        ..old(self)@
                    }));
                }
                Ok(())
            },
            None => {
                if !self.contains_email_id(email_id) {
                    return Err(StorageError::Conflict);
                }
                let rec = MetaEntry {
                    email_id,
                    key: needle,
                    value: value.to_owned(),
                    inserted_at: now,
                    updated_at: now,
                };
                let ghost rv = rec@;
                self.email_meta.push(rec);
                proof {
                    assert(self@.email_meta =~= old(self)@.email_meta.push(rv));
                    lemma_meta_push_wf(old(self)@, rv);
                    assert(self@ =~= (DbModel {
                        email_meta: old(self)@.email_meta.push(rv),
                        ..old(self)@
                    }));
                }
                Ok(())
            },
        }
    }

    /// The metadata rows of an address, in row order. Keys are unique, and
    /// an address without metadata (or an absent address) has none.
    pub fn get_email_meta(&self, email_id: i64) -> (r: Result<Vec<MetaEntry>, StorageError>)
        ensures
            r is Ok,
            seq_view(r->Ok_0@) == self@.meta_of(email_id as int),
    {
        let ghost orig = self.email_meta@;
        let mut out: Vec<MetaEntry> = Vec::new();
        let n = self.email_meta.len();
        let mut i: usize = 0;
        while i < n
            invariant
                i <= n,
                n == orig.len(),
                self.email_meta@ == orig,
                seq_view(out@) == seq_view(orig).take(i as int).filter(
                    meta_of_owner(email_id as int),
                ),
            decreases n - i,
        {
            proof {
                assert(seq_view(orig).take(i + 1 as int) =~= seq_view(orig).take(i as int).push(
                    orig[i as int]@,
                ));
                seq_view(orig).take(i as int).lemma_filter_push(
                    orig[i as int]@,
                    meta_of_owner(email_id as int),
                );
            }
            if self.email_meta[i].email_id == email_id {
                let ghost k0 = seq_view(out@);
                let d = self.email_meta[i].duplicate();
                out.push(d);
                proof {
                    assert(seq_view(out@) =~= k0.push(d@));
                }
            }
            i = i + 1;
        }
        proof {
            assert(seq_view(orig).take(n as int) =~= seq_view(orig));
        }
        Ok(out)
    }

    /// The messages of an address, newest first: ordered by descending
    /// creation time, ties broken by descending surrogate key. An absent
    /// address has none.
    pub fn get_messages_by_email_id(&self, email_id: i64) -> (r: Result<Vec<Message>, StorageError>)
        ensures
            r is Ok,
            seq_view(r->Ok_0@) == self@.messages_of(email_id as int),
    {
        let ghost orig = self.messages@;
        let mut tmp: Vec<Message> = Vec::new();
        let n = self.messages.len();
        let mut i: usize = 0;
        while i < n
            invariant
                i <= n,
                n == orig.len(),
                self.messages@ == orig,
                seq_view(tmp@) == seq_view(orig).take(i as int).filter(message_of(email_id as int)),
            decreases n - i,
        {
            proof {
                assert(seq_view(orig).take(i + 1 as int) =~= seq_view(orig).take(i as int).push(
                    orig[i as int]@,
                ));
                seq_view(orig).take(i as int).lemma_filter_push(
                    orig[i as int]@,
                    message_of(email_id as int),
                );
            }
            if self.messages[i].email_id == email_id {
                let ghost k0 = seq_view(tmp@);
                let d = self.messages[i].duplicate();
                tmp.push(d);
                proof {
                    assert(seq_view(tmp@) =~= k0.push(d@));
                }
            }
            i = i + 1;
        }
        proof {
            assert(seq_view(orig).take(n as int) =~= seq_view(orig));
        }
        let ghost ff = seq_view(tmp@);
        let mut out: Vec<Message> = Vec::new();
        proof {
            assert(seq_view(tmp@) =~= ff.take(tmp@.len() as int));
            assert(seq_view(out@) =~= ff.skip(tmp@.len() as int).reverse());
        }
        while tmp.len() > 0
            invariant
                tmp@.len() <= ff.len(),
                seq_view(tmp@) == ff.take(tmp@.len() as int),
                seq_view(out@) == ff.skip(tmp@.len() as int).reverse(),
            decreases tmp.len(),
        {
            let ghost l = tmp@.len() as int;
            let ghost o0 = seq_view(out@);
            let ghost t0 = tmp@;
            let x = match tmp.pop() {
                Some(x) => x,
                None => {
                    proof {
                        assert(false);
                    }
                    return Err(StorageError::Io);
                },
            };
            out.push(x);
            proof {
                assert(x == t0[l - 1]);
                assert(seq_view(t0)[l - 1] == t0[l - 1]@);
                assert(x@ == ff[l - 1]);
                assert(seq_view(tmp@) =~= ff.take(l - 1));
                assert(seq_view(out@) =~= o0.push(x@));
                assert(seq_view(out@) =~= ff.skip(l - 1).reverse());
            }
        }
        proof {
            assert(ff.skip(0) =~= ff);
            assert(seq_view(out@) == ff.reverse());
        }
        Ok(out)
    }

    /// The attachments of a message, oldest first: ordered by ascending
    /// creation time, ties broken by ascending surrogate key. An absent
    /// message has none.
    pub fn get_attachments_by_message_id(&self, message_id: i64) -> (r: Result<
        Vec<Attachment>,
        StorageError,
    >)
        ensures
            r is Ok,
            seq_view(r->Ok_0@) == self@.attachments_of(message_id as int),
    {
        let ghost orig = self.attachments@;
        let mut out: Vec<Attachment> = Vec::new();
        let n = self.attachments.len();
        let mut i: usize = 0;
        while i < n
            invariant
                i <= n,
                n == orig.len(),
                self.attachments@ == orig,
                seq_view(out@) == seq_view(orig).take(i as int).filter(
                    attachment_of(message_id as int),
                ),
            decreases n - i,
        {
            proof {
                assert(seq_view(orig).take(i + 1 as int) =~= seq_view(orig).take(i as int).push(
                    orig[i as int]@,
                ));
                seq_view(orig).take(i as int).lemma_filter_push(
                    orig[i as int]@,
                    attachment_of(message_id as int),
                );
            }
            if self.attachments[i].message_id == message_id {
                let ghost k0 = seq_view(out@);
                let d = self.attachments[i].duplicate();
                out.push(d);
                proof {
                    assert(seq_view(out@) =~= k0.push(d@));
                }
            }
            i = i + 1;
        }
        proof {
            assert(seq_view(orig).take(n as int) =~= seq_view(orig));
        }
        Ok(out)
    }

    /// The position of the message row with token `uuid`, if any; nothing
    /// before it matches.
    fn find_message_index_by_uuid(&self, uuid: u128) -> (r: Option<usize>)
        ensures
            match r {
                Some(i) => i < self@.messages.len() && self@.messages[i as int].uuid == uuid as int
                    && forall|j: int| 0 <= j < i ==> (#[trigger] self@.messages[j]).uuid
                    != uuid as int,
                None => !self@.has_message_uuid(uuid as int),
            },
    {
        let n = self.messages.len();
        let mut i: usize = 0;
        while i < n
            invariant
                i <= n,
                n == self.messages@.len(),
                forall|j: int| 0 <= j < i ==> (#[trigger] seq_view(self.messages@)[j]).uuid
                    != uuid as int,
            decreases n - i,
        {
            if self.messages[i].uuid == uuid {
                return Some(i);
            }
            i = i + 1;
        }
        proof {
            assert(forall|j: int| 0 <= j < self@.messages.len() ==> (
            #[trigger] self@.messages[j]).uuid != uuid as int);
        }
        None
    }
}

/// Empty the engine: drop every address, message, attachment and metadata
/// row and start the surrogate key counters over.
pub fn truncate(db: &mut Database)
    ensures
        final(db)@ == DbModel::empty(),
        final(db)@.wf(),
{
    *db = Database::new();
}

/// Keep the address rows whose surrogate key is not `id`.
fn filter_emails_keep(v: &mut Vec<Email>, id: i64)
    ensures
        seq_view(final(v)@) == seq_view(old(v)@).filter(email_keeps(id as int)),
{
    broadcast use Seq::lemma_filter_push;

    let ghost orig = v@;
    let mut kept: Vec<Email> = Vec::new();
    let n = v.len();
    let mut i: usize = 0;
    while i < n
        invariant
            i <= n,
            n == orig.len(),
            v@ == orig,
            seq_view(kept@) == seq_view(orig).take(i as int).filter(email_keeps(id as int)),
        decreases n - i,
    {
        proof {
            assert(seq_view(orig).take(i + 1 as int) =~= seq_view(orig).take(i as int).push(
                orig[i as int]@,
            ));
            seq_view(orig).take(i as int).lemma_filter_push(orig[i as int]@, email_keeps(id as int));
        }
        if v[i].id != id {
            let ghost k0 = seq_view(kept@);
            let d = v[i].duplicate();
            kept.push(d);
            proof {
                assert(seq_view(kept@) =~= k0.push(d@));
            }
        }
        i = i + 1;
    }
    proof {
        assert(seq_view(orig).take(n as int) =~= seq_view(orig));
    }
    *v = kept;
}

/// Keep the message rows not owned by address `eid`.
fn filter_messages_keep_owner(v: &mut Vec<Message>, eid: i64)
    ensures
        seq_view(final(v)@) == seq_view(old(v)@).filter(message_keeps_owner(eid as int)),
{
    broadcast use Seq::lemma_filter_push;

    let ghost orig = v@;
    let mut kept: Vec<Message> = Vec::new();
    let n = v.len();
    let mut i: usize = 0;
    while i < n
        invariant
            i <= n,
            n == orig.len(),
            v@ == orig,
            seq_view(kept@) == seq_view(orig).take(i as int).filter(message_keeps_owner(eid as int)),
        decreases n - i,
    {
        proof {
            assert(seq_view(orig).take(i + 1 as int) =~= seq_view(orig).take(i as int).push(
                orig[i as int]@,
            ));
            seq_view(orig).take(i as int).lemma_filter_push(orig[i as int]@, message_keeps_owner(eid as int));
        }
        if v[i].email_id != eid {
            let ghost k0 = seq_view(kept@);
            let d = v[i].duplicate();
            kept.push(d);
            proof {
                assert(seq_view(kept@) =~= k0.push(d@));
            }
        }
        i = i + 1;
    }
    proof {
        assert(seq_view(orig).take(n as int) =~= seq_view(orig));
    }
    *v = kept;
}

/// Keep the message rows whose surrogate key is not `mid`.
fn filter_messages_keep(v: &mut Vec<Message>, mid: i64)
    ensures
        seq_view(final(v)@) == seq_view(old(v)@).filter(message_keeps(mid as int)),
{
    broadcast use Seq::lemma_filter_push;

    let ghost orig = v@;
    let mut kept: Vec<Message> = Vec::new();
    let n = v.len();
    let mut i: usize = 0;
    while i < n
        invariant
            i <= n,
            n == orig.len(),
            v@ == orig,
            seq_view(kept@) == seq_view(orig).take(i as int).filter(message_keeps(mid as int)),
        decreases n - i,
    {
        proof {
            assert(seq_view(orig).take(i + 1 as int) =~= seq_view(orig).take(i as int).push(
                orig[i as int]@,
            ));
            seq_view(orig).take(i as int).lemma_filter_push(orig[i as int]@, message_keeps(mid as int));
        }
        if v[i].id != mid {
            let ghost k0 = seq_view(kept@);
            let d = v[i].duplicate();
            kept.push(d);
            proof {
                assert(seq_view(kept@) =~= k0.push(d@));
            }
        }
        i = i + 1;
    }
    proof {
        assert(seq_view(orig).take(n as int) =~= seq_view(orig));
    }
    *v = kept;
}

/// Keep the attachment rows not owned by message `mid`.
fn filter_attachments_keep_owner(v: &mut Vec<Attachment>, mid: i64)
    ensures
        seq_view(final(v)@) == seq_view(old(v)@).filter(attachment_keeps_owner(mid as int)),
{
    broadcast use Seq::lemma_filter_push;

    let ghost orig = v@;
    let mut kept: Vec<Attachment> = Vec::new();
    let n = v.len();
    let mut i: usize = 0;
    while i < n
        invariant
            i <= n,
            n == orig.len(),
            v@ == orig,
            seq_view(kept@) == seq_view(orig).take(i as int).filter(
                attachment_keeps_owner(mid as int),
            ),
        decreases n - i,
    {
        proof {
            assert(seq_view(orig).take(i + 1 as int) =~= seq_view(orig).take(i as int).push(
                orig[i as int]@,
            ));
            seq_view(orig).take(i as int).lemma_filter_push(orig[i as int]@, attachment_keeps_owner(mid as int));
        }
        if v[i].message_id != mid {
            let ghost k0 = seq_view(kept@);
            let d = v[i].duplicate();
            kept.push(d);
            proof {
                assert(seq_view(kept@) =~= k0.push(d@));
            }
        }
        i = i + 1;
    }
    proof {
        assert(seq_view(orig).take(n as int) =~= seq_view(orig));
    }
    *v = kept;
}

/// Keep the attachment rows whose token is not `uuid`.
fn filter_attachments_keep_uuid(v: &mut Vec<Attachment>, uuid: u128)
    ensures
        seq_view(final(v)@) == seq_view(old(v)@).filter(attachment_keeps(uuid as int)),
{
    broadcast use Seq::lemma_filter_push;

    let ghost orig = v@;
    let mut kept: Vec<Attachment> = Vec::new();
    let n = v.len();
    let mut i: usize = 0;
    while i < n
        invariant
            i <= n,
            n == orig.len(),
            v@ == orig,
            seq_view(kept@) == seq_view(orig).take(i as int).filter(attachment_keeps(uuid as int)),
        decreases n - i,
    {
        proof {
            assert(seq_view(orig).take(i + 1 as int) =~= seq_view(orig).take(i as int).push(
                orig[i as int]@,
            ));
            seq_view(orig).take(i as int).lemma_filter_push(orig[i as int]@, attachment_keeps(uuid as int));
        }
        if v[i].uuid != uuid {
            let ghost k0 = seq_view(kept@);
            let d = v[i].duplicate();
            kept.push(d);
            proof {
                assert(seq_view(kept@) =~= k0.push(d@));
            }
        }
        i = i + 1;
    }
    proof {
        assert(seq_view(orig).take(n as int) =~= seq_view(orig));
    }
    *v = kept;
}

/// Keep the metadata rows not owned by address `eid`.
fn filter_meta_keep_owner(v: &mut Vec<MetaEntry>, eid: i64)
    ensures
        seq_view(final(v)@) == seq_view(old(v)@).filter(meta_keeps_owner(eid as int)),
{
    broadcast use Seq::lemma_filter_push;

    let ghost orig = v@;
    let mut kept: Vec<MetaEntry> = Vec::new();
    let n = v.len();
    let mut i: usize = 0;
    while i < n
        invariant
            i <= n,
            n == orig.len(),
            v@ == orig,
            seq_view(kept@) == seq_view(orig).take(i as int).filter(meta_keeps_owner(eid as int)),
        decreases n - i,
    {
        proof {
            assert(seq_view(orig).take(i + 1 as int) =~= seq_view(orig).take(i as int).push(
                orig[i as int]@,
            ));
            seq_view(orig).take(i as int).lemma_filter_push(orig[i as int]@, meta_keeps_owner(eid as int));
        }
        if v[i].email_id != eid {
            let ghost k0 = seq_view(kept@);
            let d = v[i].duplicate();
            kept.push(d);
            proof {
                assert(seq_view(kept@) =~= k0.push(d@));
            }
        }
        i = i + 1;
    }
    proof {
        assert(seq_view(orig).take(n as int) =~= seq_view(orig));
    }
    *v = kept;
}

/// Some message in `mv` has key `mid` and an owner other than `eid`.
fn message_outside_exists(mv: &Vec<Message>, mid: i64, eid: i64) -> (r: bool)
    ensures
        r == seq_has_message_outside(seq_view(mv@), mid as int, eid as int),
{
    let n = mv.len();
    let mut i: usize = 0;
    while i < n
        invariant
            i <= n,
            n == mv@.len(),
            forall|j: int|
                0 <= j < i ==> !((#[trigger] seq_view(mv@)[j]).id == mid as int
                    && seq_view(mv@)[j].email_id != eid as int),
        decreases n - i,
    {
        if mv[i].id == mid && mv[i].email_id != eid {
            proof {
                assert(seq_view(mv@)[i as int].id == mid as int);
            }
            return true;
        }
        i = i + 1;
    }
    proof {
        assert(forall|j: int|
            0 <= j < seq_view(mv@).len() ==> !((#[trigger] seq_view(mv@)[j]).id == mid as int
                && seq_view(mv@)[j].email_id != eid as int));
    }
    false
}

/// Keep the attachment rows whose owning message (looked up in `mv`)
/// survives the deletion of address `eid`.
fn filter_attachments_cascade(v: &mut Vec<Attachment>, mv: &Vec<Message>, eid: i64)
    ensures
        seq_view(final(v)@) == seq_view(old(v)@).filter(
            attachment_keeps_under(seq_view(mv@), eid as int),
        ),
{
    broadcast use Seq::lemma_filter_push;

    let ghost orig = v@;
    let mut kept: Vec<Attachment> = Vec::new();
    let n = v.len();
    let mut i: usize = 0;
    while i < n
        invariant
            i <= n,
            n == orig.len(),
            v@ == orig,
            seq_view(kept@) == seq_view(orig).take(i as int).filter(
                attachment_keeps_under(seq_view(mv@), eid as int),
            ),
        decreases n - i,
    {
        proof {
            assert(seq_view(orig).take(i + 1 as int) =~= seq_view(orig).take(i as int).push(
                orig[i as int]@,
            ));
            seq_view(orig).take(i as int).lemma_filter_push(orig[i as int]@, attachment_keeps_under(seq_view(mv@), eid as int));
        }
        if message_outside_exists(mv, v[i].message_id, eid) {
            let ghost k0 = seq_view(kept@);
            let d = v[i].duplicate();
            kept.push(d);
            proof {
                assert(seq_view(kept@) =~= k0.push(d@));
            }
        }
        i = i + 1;
    }
    proof {
        assert(seq_view(orig).take(n as int) =~= seq_view(orig));
    }
    *v = kept;
}

} // verus!
