//! Messages of a mailbox, and the records in which the service sends them.
//!
//! A record holds each field as the service sent it, or `None` where the
//! service sent none. Decoding a record checks that every field a message
//! needs is there, reads the date, and drops an empty HTML part.

use crate::error::{DecodeError, Field};
use crate::timestamp::Timestamp;
use vstd::prelude::*;

verus! {

/// What is known of a file attached to a message. The file itself is
/// fetched by an operation of its own.
#[derive(Clone, Debug, PartialEq, Eq)]
pub struct Attachment {
    pub filename: String,
    pub content_type: String,
    pub size: usize,
}

/// An entry of a mailbox listing: enough to show the message and to ask
/// for it in full.
#[derive(Clone, Debug, PartialEq, Eq)]
pub struct RawMessage {
    pub id: usize,
    pub from: String,
    pub subject: String,
    pub timestamp: Timestamp,
}

/// A message in full.
#[derive(Clone, Debug, PartialEq, Eq)]
pub struct Message {
    pub id: usize,
    pub from: String,
    pub subject: String,
    pub timestamp: Timestamp,
    pub attachments: Vec<Attachment>,
    pub body: String,
    /// The text part of the body.
    pub text_body: String,
    /// The HTML part of the body, if it has one that is not empty.
    pub html_body: Option<String>,
}

/// The record of an attachment, as sent.
#[derive(Clone, Debug, PartialEq, Eq)]
pub struct AttachmentWrapper {
    pub filename: Option<String>,
    pub content_type: Option<String>,
    pub size: Option<usize>,
}

/// The record of a listing entry, as sent.
#[derive(Clone, Debug, PartialEq, Eq)]
pub struct RawMessageWrapper {
    pub id: Option<usize>,
    pub from: Option<String>,
    pub subject: Option<String>,
    pub date: Option<String>,
}

/// The record of a message in full, as sent.
#[derive(Clone, Debug, PartialEq, Eq)]
pub struct MessageWrapper {
    pub id: Option<usize>,
    pub from: Option<String>,
    pub subject: Option<String>,
    pub date: Option<String>,
    pub attachments: Option<Vec<AttachmentWrapper>>,
    pub body: Option<String>,
    pub text_body: Option<String>,
    pub html_body: Option<String>,
}

/// The mathematical value of an [`Attachment`].
pub struct AttachmentView {
    pub filename: Seq<char>,
    pub content_type: Seq<char>,
    pub size: nat,
}

/// The mathematical value of a [`RawMessage`].
pub struct RawMessageView {
    pub id: nat,
    pub from: Seq<char>,
    pub subject: Seq<char>,
    pub timestamp: Timestamp,
}

/// The mathematical value of a [`Message`].
pub struct MessageView {
    pub id: nat,
    pub from: Seq<char>,
    pub subject: Seq<char>,
    pub timestamp: Timestamp,
    pub attachments: Seq<AttachmentView>,
    pub body: Seq<char>,
    pub text_body: Seq<char>,
    pub html_body: Option<Seq<char>>,
}

/// The mathematical value of an [`AttachmentWrapper`].
pub struct AttachmentRecord {
    pub filename: Option<Seq<char>>,
    pub content_type: Option<Seq<char>>,
    pub size: Option<nat>,
}

/// The mathematical value of a [`RawMessageWrapper`].
pub struct RawMessageRecord {
    pub id: Option<nat>,
    pub from: Option<Seq<char>>,
    pub subject: Option<Seq<char>>,
    pub date: Option<Seq<char>>,
}

/// The mathematical value of a [`MessageWrapper`].
pub struct MessageRecord {
    pub id: Option<nat>,
    pub from: Option<Seq<char>>,
    pub subject: Option<Seq<char>>,
    pub date: Option<Seq<char>>,
    pub attachments: Option<Seq<AttachmentRecord>>,
    pub body: Option<Seq<char>>,
    pub text_body: Option<Seq<char>>,
    pub html_body: Option<Seq<char>>,
}

/// The characters of a text field, if the field is there.
pub open spec fn text_of(field: Option<String>) -> Option<Seq<char>> {
    match field {
        Some(text) => Some(text@),
        None => None,
    }
}

/// The value of a number field, if the field is there.
pub open spec fn number_of(field: Option<usize>) -> Option<nat> {
    match field {
        Some(number) => Some(number as nat),
        None => None,
    }
}

impl View for Attachment {
    type V = AttachmentView;

    open spec fn view(&self) -> AttachmentView {
        AttachmentView {
            filename: self.filename@,
            content_type: self.content_type@,
            size: self.size as nat,
        }
    }
}

impl DeepView for Attachment {
    type V = AttachmentView;

    open spec fn deep_view(&self) -> AttachmentView {
        self@
    }
}

impl View for RawMessage {
    type V = RawMessageView;

    open spec fn view(&self) -> RawMessageView {
        RawMessageView {
            id: self.id as nat,
            from: self.from@,
            subject: self.subject@,
            timestamp: self.timestamp,
        }
    }
}

impl DeepView for RawMessage {
    type V = RawMessageView;

    open spec fn deep_view(&self) -> RawMessageView {
        self@
    }
}

impl View for Message {
    type V = MessageView;

    open spec fn view(&self) -> MessageView {
        MessageView {
            id: self.id as nat,
            from: self.from@,
            subject: self.subject@,
            timestamp: self.timestamp,
            attachments: self.attachments.deep_view(),
            body: self.body@,
            text_body: self.text_body@,
            html_body: text_of(self.html_body),
        }
    }
}

impl DeepView for Message {
    type V = MessageView;

    open spec fn deep_view(&self) -> MessageView {
        self@
    }
}

impl View for AttachmentWrapper {
    type V = AttachmentRecord;

    open spec fn view(&self) -> AttachmentRecord {
        AttachmentRecord {
            filename: text_of(self.filename),
            content_type: text_of(self.content_type),
            size: number_of(self.size),
        }
    }
}

impl DeepView for AttachmentWrapper {
    type V = AttachmentRecord;

    open spec fn deep_view(&self) -> AttachmentRecord {
        self@
    }
}

impl View for RawMessageWrapper {
    type V = RawMessageRecord;

    open spec fn view(&self) -> RawMessageRecord {
        RawMessageRecord {
            id: number_of(self.id),
            from: text_of(self.from),
            subject: text_of(self.subject),
            date: text_of(self.date),
        }
    }
}

impl DeepView for RawMessageWrapper {
    type V = RawMessageRecord;

    open spec fn deep_view(&self) -> RawMessageRecord {
        self@
    }
}

impl View for MessageWrapper {
    type V = MessageRecord;

    open spec fn view(&self) -> MessageRecord {
        MessageRecord {
            id: number_of(self.id),
            from: text_of(self.from),
            subject: text_of(self.subject),
            date: text_of(self.date),
            attachments: match self.attachments {
                Some(records) => Some(records.deep_view()),
                None => None,
            },
            body: text_of(self.body),
            text_body: text_of(self.text_body),
            html_body: text_of(self.html_body),
        }
    }
}

impl DeepView for MessageWrapper {
    type V = MessageRecord;

    open spec fn deep_view(&self) -> MessageRecord {
        self@
    }
}

impl MessageView {
    /// An HTML part that is there is not empty.
    pub open spec fn wf(self) -> bool {
        self.html_body != Some(Seq::<char>::empty())
    }
}

/// The HTML part of a message whose record holds `html_body`: an empty
/// part counts as none; anything else stays as it is.
pub open spec fn normalized_html(html_body: Option<Seq<char>>) -> Option<Seq<char>> {
    match html_body {
        Some(text) => if text.len() == 0 {
            None
        } else {
            Some(text)
        },
        None => None,
    }
}

/// What the date of a record reads as: `None` where the record has no date
/// or the date is not in the service's form.
pub open spec fn date_read(date: Option<Seq<char>>) -> Option<Timestamp> {
    match date {
        Some(text) => Timestamp::parsed(text),
        None => None,
    }
}

/// The attachment that a record stands for, or the first field it lacks.
pub open spec fn decode_attachment(record: AttachmentRecord) -> Result<
    AttachmentView,
    DecodeError,
> {
    if record.filename is None {
        Err(DecodeError::MissingField(Field::Filename))
    } else if record.content_type is None {
        Err(DecodeError::MissingField(Field::ContentType))
    } else if record.size is None {
        Err(DecodeError::MissingField(Field::Size))
    } else {
        Ok(
            AttachmentView {
                filename: record.filename->0,
                content_type: record.content_type->0,
                size: record.size->0,
            },
        )
    }
}

/// Decodes every record of a list with `decode`: the results in the order
/// of the records if every record decodes, and else the error of the first
/// record that does not.
pub open spec fn decode_each<R, T>(
    records: Seq<R>,
    decode: spec_fn(R) -> Result<T, DecodeError>,
) -> Result<Seq<T>, DecodeError>
    decreases records.len(),
{
    if records.len() == 0 {
        Ok(Seq::empty())
    } else {
        match decode_each(records.drop_last(), decode) {
            Err(error) => Err(error),
            Ok(front) => match decode(records.last()) {
                Err(error) => Err(error),
                Ok(item) => Ok(front.push(item)),
            },
        }
    }
}

/// The attachments that a list of records stands for, in the order of the
/// records, or what is wrong with the first record that is wrong.
pub open spec fn decode_attachments(records: Seq<AttachmentRecord>) -> Result<
    Seq<AttachmentView>,
    DecodeError,
> {
    decode_each(records, |record: AttachmentRecord| decode_attachment(record))
}

/// The listing entry that a record stands for when its date reads as
/// `timestamp`: the first field that the record lacks is an error, and so
/// is a date that does not read.
pub open spec fn decode_summary(record: RawMessageRecord, timestamp: Option<Timestamp>) -> Result<
    RawMessageView,
    DecodeError,
> {
    if record.id is None {
        Err(DecodeError::MissingField(Field::Id))
    } else if record.from is None {
        Err(DecodeError::MissingField(Field::From))
    } else if record.subject is None {
        Err(DecodeError::MissingField(Field::Subject))
    } else if record.date is None {
        Err(DecodeError::MissingField(Field::Date))
    } else if timestamp is None {
        Err(DecodeError::MalformedTimestamp)
    } else {
        Ok(
            RawMessageView {
                id: record.id->0,
                from: record.from->0,
                subject: record.subject->0,
                timestamp: timestamp->0,
            },
        )
    }
}

/// The message that a record stands for when its date reads as
/// `timestamp`. The fields are looked at in the order of the record; the
/// first that is missing, in the record or in one of its attachments, is
/// an error, and after them a date that does not read. An HTML part may be
/// missing; an empty one counts as missing.
pub open spec fn decode_message(record: MessageRecord, timestamp: Option<Timestamp>) -> Result<
    MessageView,
    DecodeError,
> {
    if record.id is None {
        Err(DecodeError::MissingField(Field::Id))
    } else if record.from is None {
        Err(DecodeError::MissingField(Field::From))
    } else if record.subject is None {
        Err(DecodeError::MissingField(Field::Subject))
    } else if record.date is None {
        Err(DecodeError::MissingField(Field::Date))
    } else if record.attachments is None {
        Err(DecodeError::MissingField(Field::Attachments))
    } else if decode_attachments(record.attachments->0) is Err {
        Err(decode_attachments(record.attachments->0)->Err_0)
    } else if record.body is None {
        Err(DecodeError::MissingField(Field::Body))
    } else if record.text_body is None {
        Err(DecodeError::MissingField(Field::TextBody))
    } else if timestamp is None {
        Err(DecodeError::MalformedTimestamp)
    } else {
        Ok(
            MessageView {
                id: record.id->0,
                from: record.from->0,
                subject: record.subject->0,
                timestamp: timestamp->0,
                attachments: decode_attachments(record.attachments->0)->Ok_0,
                body: record.body->0,
                text_body: record.text_body->0,
                html_body: normalized_html(record.html_body),
            },
        )
    }
}

/// The listing entry that a record stands for, its date read in the
/// service's form.
pub open spec fn decoded_summary(record: RawMessageRecord) -> Result<RawMessageView, DecodeError> {
    decode_summary(record, date_read(record.date))
}

/// The message that a record stands for, its date read in the service's
/// form.
pub open spec fn decoded_message(record: MessageRecord) -> Result<MessageView, DecodeError> {
    decode_message(record, date_read(record.date))
}

/// The listing entries that a list of records stands for, in the order of
/// the records, or what is wrong with the first record that is wrong.
pub open spec fn decode_summaries(records: Seq<RawMessageRecord>) -> Result<
    Seq<RawMessageView>,
    DecodeError,
> {
    decode_each(records, |record: RawMessageRecord| decoded_summary(record))
}

/// The mathematical value of the outcome of an operation.
pub open spec fn deep<T: DeepView, E>(outcome: Result<T, E>) -> Result<T::V, E> {
    match outcome {
        Ok(value) => Ok(value.deep_view()),
        Err(error) => Err(error),
    }
}

/// Decoding a list keeps or fails as a whole. Where it succeeds, there is
/// one result for each record, at the record's place. Where it fails, it
/// fails with the error of the first record that does not decode.
pub proof fn lemma_decode_each<R, T>(records: Seq<R>, decode: spec_fn(R) -> Result<T, DecodeError>)
    ensures
        match decode_each(records, decode) {
            Ok(items) => {
                &&& items.len() == records.len()
                &&& forall|i: int|
                    0 <= i < records.len() ==> decode(#[trigger] records[i]) == Ok::<
                        T,
                        DecodeError,
                    >(items[i])
            },
            Err(error) => exists|i: int|
                {
                    &&& 0 <= i < records.len()
                    &&& decode(#[trigger] records[i]) == Err::<T, DecodeError>(error)
                    &&& forall|j: int| 0 <= j < i ==> decode(#[trigger] records[j]) is Ok
                },
        },
    decreases records.len(),
{
    if records.len() > 0 {
        let front = records.drop_last();
        lemma_decode_each(front, decode);
        match decode_each(front, decode) {
            Err(error) => {
                let i = choose|i: int|
                    {
                        &&& 0 <= i < front.len()
                        &&& decode(#[trigger] front[i]) == Err::<T, DecodeError>(error)
                        &&& forall|j: int| 0 <= j < i ==> decode(#[trigger] front[j]) is Ok
                    };
                assert(records[i] == front[i]);
                assert forall|j: int| 0 <= j < i implies decode(#[trigger] records[j]) is Ok by {
                    assert(records[j] == front[j]);
                }
            },
            Ok(items) => {
                assert forall|j: int| 0 <= j < front.len() implies decode(
                    #[trigger] records[j],
                ) == Ok::<T, DecodeError>(items[j]) by {
                    assert(records[j] == front[j]);
                }
                match decode(records.last()) {
                    Err(error) => {
                        let i = records.len() - 1;
                        assert(decode(records[i]) == Err::<T, DecodeError>(error));
                    },
                    Ok(item) => {},
                }
            },
        }
    }
}

/// Decoding distributes over a record added at the end.
pub proof fn lemma_decode_each_push<R, T>(
    records: Seq<R>,
    record: R,
    decode: spec_fn(R) -> Result<T, DecodeError>,
)
    ensures
        decode_each(records.push(record), decode) == match decode_each(records, decode) {
            Err(error) => Err(error),
            Ok(front) => match decode(record) {
                Err(error) => Err(error),
                Ok(item) => Ok(front.push(item)),
            },
        },
{
    assert(records.push(record).drop_last() == records);
}

impl Attachment {
    /// Decodes the record of an attachment.
    pub fn from_wrapper(wrapper: &AttachmentWrapper) -> (attachment: Result<
        Attachment,
        DecodeError,
    >)
        ensures
            deep(attachment) == decode_attachment(wrapper@),
    {
        let filename = match &wrapper.filename {
            Some(text) => text.clone(),
            None => { return Err(DecodeError::MissingField(Field::Filename)); },
        };
        let content_type = match &wrapper.content_type {
            Some(text) => text.clone(),
            None => { return Err(DecodeError::MissingField(Field::ContentType)); },
        };
        let size: usize = match wrapper.size {
            Some(number) => number,
            None => { return Err(DecodeError::MissingField(Field::Size)); },
        };
        Ok(Attachment { filename, content_type, size })
    }

    /// Decodes the records of the attachments of one message, keeping
    /// their order.
    pub fn from_wrappers(wrappers: &Vec<AttachmentWrapper>) -> (attachments: Result<
        Vec<Attachment>,
        DecodeError,
    >)
        ensures
            deep(attachments) == decode_attachments(wrappers.deep_view()),
    {
        let mut decoded: Vec<Attachment> = Vec::new();
        let mut i: usize = 0;
        assert(wrappers.deep_view().take(0).len() == 0);
        assert(decoded.deep_view() =~= Seq::<AttachmentView>::empty());
        while i < wrappers.len()
            invariant
                i <= wrappers.len(),
                decode_attachments(wrappers.deep_view().take(i as int)) == Ok::<
                    Seq<AttachmentView>,
                    DecodeError,
                >(decoded.deep_view()),
            decreases wrappers.len() - i,
        {
            proof {
                let records = wrappers.deep_view();
                assert(records.take(i + 1) == records.take(i as int).push(records[i as int]));
                lemma_decode_each_push(
                    records.take(i as int),
                    records[i as int],
                    |record: AttachmentRecord| decode_attachment(record),
                );
            }
            match Attachment::from_wrapper(&wrappers[i]) {
                Ok(attachment) => {
                    let ghost before = decoded.deep_view();
                    decoded.push(attachment);
                    assert(decoded.deep_view() =~= before.push(attachment@));
                },
                Err(error) => {
                    proof {
                        lemma_decode_each_prefix_error(
                            wrappers.deep_view(),
                            i + 1,
                            |record: AttachmentRecord| decode_attachment(record),
                        );
                    }
                    return Err(error);
                },
            }
            i += 1;
        }
        assert(wrappers.deep_view().take(i as int) == wrappers.deep_view());
        Ok(decoded)
    }
}

/// Where a front part of a list does not decode, the list fails as its
/// front part does.
pub proof fn lemma_decode_each_prefix_error<R, T>(
    records: Seq<R>,
    length: int,
    decode: spec_fn(R) -> Result<T, DecodeError>,
)
    requires
        0 <= length <= records.len(),
        decode_each(records.take(length), decode) is Err,
    ensures
        decode_each(records, decode) == decode_each(records.take(length), decode),
    decreases records.len() - length,
{
    if length < records.len() {
        assert(records.take(length + 1) == records.take(length).push(records[length]));
        lemma_decode_each_push(records.take(length), records[length], decode);
        lemma_decode_each_prefix_error(records, length + 1, decode);
    } else {
        assert(records.take(length) == records);
    }
}

impl RawMessage {
    /// Decodes the record of a listing entry whose date reads as
    /// `timestamp`: `None` for a date that does not read.
    pub fn from_fields(wrapper: &RawMessageWrapper, timestamp: Option<Timestamp>) -> (summary:
        Result<RawMessage, DecodeError>)
        ensures
            deep(summary) == decode_summary(wrapper@, timestamp),
    {
        let id: usize = match wrapper.id {
            Some(number) => number,
            None => { return Err(DecodeError::MissingField(Field::Id)); },
        };
        let from = match &wrapper.from {
            Some(text) => text.clone(),
            None => { return Err(DecodeError::MissingField(Field::From)); },
        };
        let subject = match &wrapper.subject {
            Some(text) => text.clone(),
            None => { return Err(DecodeError::MissingField(Field::Subject)); },
        };
        if wrapper.date.is_none() {
            return Err(DecodeError::MissingField(Field::Date));
        }
        let timestamp = match timestamp {
            Some(read) => read,
            None => { return Err(DecodeError::MalformedTimestamp); },
        };
        Ok(RawMessage { id, from, subject, timestamp })
    }

    /// Decodes the record of a listing entry.
    pub fn from_wrapper(wrapper: &RawMessageWrapper) -> (summary: Result<RawMessage, DecodeError>)
        ensures
            deep(summary) == decoded_summary(wrapper@),
    {
        RawMessage::from_fields(wrapper, read_date(&wrapper.date))
    }

    /// Decodes the records of a listing, keeping their order.
    pub fn from_wrappers(wrappers: &Vec<RawMessageWrapper>) -> (summaries: Result<
        Vec<RawMessage>,
        DecodeError,
    >)
        ensures
            deep(summaries) == decode_summaries(wrappers.deep_view()),
    {
        let mut decoded: Vec<RawMessage> = Vec::new();
        let mut i: usize = 0;
        assert(wrappers.deep_view().take(0).len() == 0);
        assert(decoded.deep_view() =~= Seq::<RawMessageView>::empty());
        while i < wrappers.len()
            invariant
                i <= wrappers.len(),
                decode_summaries(wrappers.deep_view().take(i as int)) == Ok::<
                    Seq<RawMessageView>,
                    DecodeError,
                >(decoded.deep_view()),
            decreases wrappers.len() - i,
        {
            proof {
                let records = wrappers.deep_view();
                assert(records.take(i + 1) == records.take(i as int).push(records[i as int]));
                lemma_decode_each_push(
                    records.take(i as int),
                    records[i as int],
                    |record: RawMessageRecord| decoded_summary(record),
                );
            }
            match RawMessage::from_wrapper(&wrappers[i]) {
                Ok(summary) => {
                    let ghost before = decoded.deep_view();
                    decoded.push(summary);
                    assert(decoded.deep_view() =~= before.push(summary@));
                },
                Err(error) => {
                    proof {
                        lemma_decode_each_prefix_error(
                            wrappers.deep_view(),
                            i + 1,
                            |record: RawMessageRecord| decoded_summary(record),
                        );
                    }
                    return Err(error);
                },
            }
            i += 1;
        }
        assert(wrappers.deep_view().take(i as int) == wrappers.deep_view());
        Ok(decoded)
    }
}

/// Reads the date of a record, if it has one that reads.
fn read_date(date: &Option<String>) -> (timestamp: Option<Timestamp>)
    ensures
        timestamp == date_read(text_of(*date)),
{
    match date {
        Some(text) => match Timestamp::parse(text.as_str()) {
            Ok(read) => Some(read),
            Err(_) => None,
        },
        None => None,
    }
}

/// Drops an HTML part that is empty.
pub fn normalize_html(html_body: &Option<String>) -> (normalized: Option<String>)
    ensures
        text_of(normalized) == normalized_html(text_of(*html_body)),
{
    match html_body {
        Some(text) => if text.as_str().is_empty() {
            None
        } else {
            Some(text.clone())
        },
        None => None,
    }
}

impl Message {
    /// Decodes the record of a message whose date reads as `timestamp`:
    /// `None` for a date that does not read.
    pub fn from_fields(wrapper: &MessageWrapper, timestamp: Option<Timestamp>) -> (message: Result<
        Message,
        DecodeError,
    >)
        ensures
            deep(message) == decode_message(wrapper@, timestamp),
            message matches Ok(decoded) ==> decoded@.wf(),
    {
        let id: usize = match wrapper.id {
            Some(number) => number,
            None => { return Err(DecodeError::MissingField(Field::Id)); },
        };
        let from = match &wrapper.from {
            Some(text) => text.clone(),
            None => { return Err(DecodeError::MissingField(Field::From)); },
        };
        let subject = match &wrapper.subject {
            Some(text) => text.clone(),
            None => { return Err(DecodeError::MissingField(Field::Subject)); },
        };
        if wrapper.date.is_none() {
            return Err(DecodeError::MissingField(Field::Date));
        }
        let attachments = match &wrapper.attachments {
            Some(records) => match Attachment::from_wrappers(records) {
                Ok(decoded) => decoded,
                Err(error) => { return Err(error); },
            },
            None => { return Err(DecodeError::MissingField(Field::Attachments)); },
        };
        let body = match &wrapper.body {
            Some(text) => text.clone(),
            None => { return Err(DecodeError::MissingField(Field::Body)); },
        };
        let text_body = match &wrapper.text_body {
            Some(text) => text.clone(),
            None => { return Err(DecodeError::MissingField(Field::TextBody)); },
        };
        let timestamp = match timestamp {
            Some(read) => read,
            None => { return Err(DecodeError::MalformedTimestamp); },
        };
        let html_body = normalize_html(&wrapper.html_body);
        Ok(Message { id, from, subject, timestamp, attachments, body, text_body, html_body })
    }

    /// Decodes the record of a message.
    pub fn from_wrapper(wrapper: &MessageWrapper) -> (message: Result<Message, DecodeError>)
        ensures
            deep(message) == decoded_message(wrapper@),
            message matches Ok(decoded) ==> decoded@.wf(),
    {
        Message::from_fields(wrapper, read_date(&wrapper.date))
    }
}

} // verus!
