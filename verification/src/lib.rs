//! A client core for a disposable-mailbox web service.
//!
//! The crate holds everything about the service that can be decided without
//! touching the network: which mailbox an identity names, which query each
//! operation sends, how a reply is turned into messages, and in which order
//! a full listing asks for its messages. The caller performs the exchanges
//! and hands the replies back.

pub mod domain;
pub mod encoding;
pub mod error;
pub mod identity;
pub mod mailbox;
pub mod message;
pub mod query;
pub mod sample;
pub mod timestamp;

pub use domain::Domain;
pub use error::{DecodeError, Field, TempmailError};
pub use identity::Tempmail;
pub use mailbox::{Hydration, Step};
pub use message::{
    Attachment, AttachmentWrapper, Message, MessageWrapper, RawMessage, RawMessageWrapper,
};
pub use sample::Sample;
pub use timestamp::Timestamp;
