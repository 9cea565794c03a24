//! The ways in which an operation on a mailbox can fail.

use vstd::prelude::*;

verus! {

/// A field of a record that the service sends.
#[derive(Clone, Copy, Debug, PartialEq, Eq, Hash, Structural)]
pub enum Field {
    Id,
    From,
    Subject,
    Date,
    Attachments,
    Filename,
    ContentType,
    Size,
    Body,
    TextBody,
}

impl Field {
    /// The name of the field as the service writes it.
    pub open spec fn wire_name(self) -> Seq<char> {
        match self {
            Field::Id => "id"@,
            Field::From => "from"@,
            Field::Subject => "subject"@,
            Field::Date => "date"@,
            Field::Attachments => "attachments"@,
            Field::Filename => "filename"@,
            Field::ContentType => "content_type"@,
            Field::Size => "size"@,
            Field::Body => "body"@,
            Field::TextBody => "text_body"@,
        }
    }

    /// The name of the field as the service writes it.
    pub fn name(&self) -> (name: &'static str)
        ensures
            name@ == self.wire_name(),
    {
        match self {
            Field::Id => "id",
            Field::From => "from",
            Field::Subject => "subject",
            Field::Date => "date",
            Field::Attachments => "attachments",
            Field::Filename => "filename",
            Field::ContentType => "content_type",
            Field::Size => "size",
            Field::Body => "body",
            Field::TextBody => "text_body",
        }
    }
}

/// Why a record of the service could not be turned into a message.
#[derive(Clone, Copy, Debug, PartialEq, Eq, Hash, Structural)]
pub enum DecodeError {
    /// The record lacks a field that every record must have.
    MissingField(Field),
    /// The `date` of the record is not written as year, month, day, hour,
    /// minute and second.
    MalformedTimestamp,
}

/// Why an operation on a mailbox failed. `E` is the failure that the
/// transport reports for an exchange.
#[derive(Clone, Debug, PartialEq, Eq)]
pub enum TempmailError<E> {
    /// The exchange with the service failed; this covers an answer that
    /// the service refused to give for the identity, message or file.
    Transport(E),
    /// The service answered with a record that is no message.
    Decode(DecodeError),
}

} // verus!
