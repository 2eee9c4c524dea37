use vstd::prelude::*;

verus! {

/// The mathematical value of an optional timestamp.
pub open spec fn opt_int(o: Option<i64>) -> Option<int> {
    match o {
        Some(t) => Some(t as int),
        None => None,
    }
}

/// Mathematical value of an [`Email`] record.
pub ghost struct EmailView {
    pub id: int,
    pub uuid: int,
    pub email: Seq<char>,
    pub expire: bool,
    pub expire_at: Option<int>,
    pub inserted_at: int,
    pub updated_at: int,
}

/// A disposable mailbox address.
///
/// `id` is the machine-generated surrogate key; `uuid` is the externally
/// visible random token. The address string `email` is globally unique.
pub struct Email {
    pub id: i64,
    pub uuid: u128,
    pub email: String,
    pub expire: bool,
    pub expire_at: Option<i64>,
    pub inserted_at: i64,
    pub updated_at: i64,
}

impl View for Email {
    type V = EmailView;

    open spec fn view(&self) -> EmailView {
        EmailView {
            id: self.id as int,
            uuid: self.uuid as int,
            email: self.email@,
            expire: self.expire,
            expire_at: opt_int(self.expire_at),
            inserted_at: self.inserted_at as int,
            updated_at: self.updated_at as int,
        }
    }
}

impl Email {
    /// A field-for-field copy.
    pub fn duplicate(&self) -> (r: Email)
        ensures
            r@ == self@,
    {
        Email {
            id: self.id,
            uuid: self.uuid,
            email: self.email.clone(),
            expire: self.expire,
            expire_at: self.expire_at,
            inserted_at: self.inserted_at,
            updated_at: self.updated_at,
        }
    }
}

/// Mathematical value of a [`Message`] record.
pub ghost struct MessageView {
    pub id: int,
    pub uuid: int,
    pub from: Seq<char>,
    pub subject: Seq<char>,
    pub content: Seq<char>,
    pub email_id: int,
    pub inserted_at: int,
    pub updated_at: int,
}

/// A message delivered to an address. It cannot exist without its owning
/// address; deleting the address removes it.
pub struct Message {
    pub id: i64,
    pub uuid: u128,
    pub from: String,
    pub subject: String,
    pub content: String,
    pub email_id: i64,
    pub inserted_at: i64,
    pub updated_at: i64,
}

impl View for Message {
    type V = MessageView;

    open spec fn view(&self) -> MessageView {
        MessageView {
            id: self.id as int,
            uuid: self.uuid as int,
            from: self.from@,
            subject: self.subject@,
            content: self.content@,
            email_id: self.email_id as int,
            inserted_at: self.inserted_at as int,
            updated_at: self.updated_at as int,
        }
    }
}

impl Message {
    /// A field-for-field copy.
    pub fn duplicate(&self) -> (r: Message)
        ensures
            r@ == self@,
    {
        Message {
            id: self.id,
            uuid: self.uuid,
            from: self.from.clone(),
            subject: self.subject.clone(),
            content: self.content.clone(),
            email_id: self.email_id,
            inserted_at: self.inserted_at,
            updated_at: self.updated_at,
        }
    }
}

/// Mathematical value of an [`AttachmentPayload`].
pub ghost enum PayloadView {
    Inline(Seq<u8>),
    External(Seq<char>, int),
}

impl PayloadView {
    /// The byte size the payload declares: the length of the inline bytes,
    /// or the size recorded for the externally stored bytes.
    pub open spec fn size_of(self) -> int {
        match self {
            PayloadView::Inline(data) => data.len() as int,
            PayloadView::External(_, size) => size,
        }
    }
}

/// Where an attachment's bytes live: either inline in the row, or in an
/// external byte store under a path. One tagged variant, so the cascade and
/// integrity rules apply uniformly to both representations.
pub enum AttachmentPayload {
    /// The bytes themselves.
    Inline(Vec<u8>),
    /// A path into the external byte store, with the declared byte size of
    /// what was stored there.
    External(String, i64),
}

impl View for AttachmentPayload {
    type V = PayloadView;

    open spec fn view(&self) -> PayloadView {
        match self {
            AttachmentPayload::Inline(data) => PayloadView::Inline(data@),
            AttachmentPayload::External(path, size) => PayloadView::External(
                path@,
                *size as int,
            ),
        }
    }
}

impl AttachmentPayload {
    /// A field-for-field copy.
    pub fn duplicate(&self) -> (r: AttachmentPayload)
        ensures
            r@ == self@,
    {
        match self {
            AttachmentPayload::Inline(data) => {
                let mut out: Vec<u8> = Vec::new();
                let n = data.len();
                let mut i: usize = 0;
                while i < n
                    invariant
                        i <= n,
                        n == data@.len(),
                        out@ == data@.take(i as int),
                    decreases n - i,
                {
                    out.push(data[i]);
                    proof {
                        assert(out@ =~= data@.take(i + 1 as int));
                    }
                    i = i + 1;
                }
                proof {
                    assert(out@ =~= data@);
                }
                AttachmentPayload::Inline(out)
            },
            AttachmentPayload::External(path, size) => {
                AttachmentPayload::External(path.clone(), *size)
            },
        }
    }
}

/// Mathematical value of an [`Attachment`] record.
pub ghost struct AttachmentView {
    pub id: int,
    pub uuid: int,
    pub filename: Seq<char>,
    pub content_type: Seq<char>,
    pub size: int,
    pub payload: PayloadView,
    pub message_id: int,
    pub inserted_at: int,
    pub updated_at: int,
}

/// A file attached to a message. It cannot exist without its owning
/// message; deleting the message removes it. Its `size` always equals the
/// size its payload declares.
pub struct Attachment {
    pub id: i64,
    pub uuid: u128,
    pub filename: String,
    pub content_type: String,
    pub size: i64,
    pub payload: AttachmentPayload,
    pub message_id: i64,
    pub inserted_at: i64,
    pub updated_at: i64,
}

impl View for Attachment {
    type V = AttachmentView;

    open spec fn view(&self) -> AttachmentView {
        AttachmentView {
            id: self.id as int,
            uuid: self.uuid as int,
            filename: self.filename@,
            content_type: self.content_type@,
            size: self.size as int,
            payload: self.payload@,
            message_id: self.message_id as int,
            inserted_at: self.inserted_at as int,
            updated_at: self.updated_at as int,
        }
    }
}

impl Attachment {
    /// A field-for-field copy.
    pub fn duplicate(&self) -> (r: Attachment)
        ensures
            r@ == self@,
    {
        Attachment {
            id: self.id,
            uuid: self.uuid,
            filename: self.filename.clone(),
            content_type: self.content_type.clone(),
            size: self.size,
            payload: self.payload.duplicate(),
            message_id: self.message_id,
            inserted_at: self.inserted_at,
            updated_at: self.updated_at,
        }
    }
}

/// Mathematical value of a [`MetaEntry`].
pub ghost struct MetaEntryView {
    pub email_id: int,
    pub key: Seq<char>,
    pub value: Seq<char>,
    pub inserted_at: int,
    pub updated_at: int,
}

/// One free-form metadata entry of an address: a key/value pair, unique per
/// (owning address, key).
pub struct MetaEntry {
    pub email_id: i64,
    pub key: String,
    pub value: String,
    pub inserted_at: i64,
    pub updated_at: i64,
}

impl View for MetaEntry {
    type V = MetaEntryView;

    open spec fn view(&self) -> MetaEntryView {
        MetaEntryView {
            email_id: self.email_id as int,
            key: self.key@,
            value: self.value@,
            inserted_at: self.inserted_at as int,
            updated_at: self.updated_at as int,
        }
    }
}

impl MetaEntry {
    /// A field-for-field copy.
    pub fn duplicate(&self) -> (r: MetaEntry)
        ensures
            r@ == self@,
    {
        MetaEntry {
            email_id: self.email_id,
            key: self.key.clone(),
            value: self.value.clone(),
            inserted_at: self.inserted_at,
            updated_at: self.updated_at,
        }
    }
}

} // verus!
