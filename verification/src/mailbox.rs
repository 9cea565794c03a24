//! The operations on a mailbox, each up to the exchange with the service.
//!
//! An operation names the query to send (see the `query` module) and turns
//! what the transport hands back into its result. Listing the messages in
//! full takes one exchange for the listing and one for each message; it is
//! given as steps, each of which names the next query or ends the
//! operation.

use crate::error::TempmailError;
use crate::identity::{Tempmail, TempmailView};
use crate::message::{
    decode_summaries, decoded_message, deep, Message, MessageRecord, MessageView, MessageWrapper,
    RawMessage, RawMessageRecord, RawMessageView, RawMessageWrapper,
};
use crate::query::read_query;
use vstd::prelude::*;

verus! {

/// The result of listing a mailbox when the transport hands back `reply`:
/// the failure of the transport, or the entries that the records stand
/// for, in the order of the records.
pub open spec fn list_outcome<E>(reply: Result<Seq<RawMessageRecord>, E>) -> Result<
    Seq<RawMessageView>,
    TempmailError<E>,
> {
    match reply {
        Err(failure) => Err(TempmailError::Transport(failure)),
        Ok(records) => match decode_summaries(records) {
            Err(error) => Err(TempmailError::Decode(error)),
            Ok(summaries) => Ok(summaries),
        },
    }
}

/// The result of reading a message in full when the transport hands back
/// `reply`.
pub open spec fn read_outcome<E>(reply: Result<MessageRecord, E>) -> Result<
    MessageView,
    TempmailError<E>,
> {
    match reply {
        Err(failure) => Err(TempmailError::Transport(failure)),
        Ok(record) => match decoded_message(record) {
            Err(error) => Err(TempmailError::Decode(error)),
            Ok(message) => Ok(message),
        },
    }
}

/// The result of downloading a file when the transport hands back `reply`:
/// the bytes as they came.
pub open spec fn download_outcome<E>(reply: Result<Seq<u8>, E>) -> Result<
    Seq<u8>,
    TempmailError<E>,
> {
    match reply {
        Err(failure) => Err(TempmailError::Transport(failure)),
        Ok(bytes) => Ok(bytes),
    }
}

/// A listing of full messages that is under way: the entries of the
/// mailbox, and the messages read so far, which are fewer.
#[derive(Debug, PartialEq, Eq)]
pub struct Hydration {
    summaries: Vec<RawMessage>,
    messages: Vec<Message>,
}

/// The mathematical value of a [`Hydration`].
pub struct HydrationView {
    pub summaries: Seq<RawMessageView>,
    pub messages: Seq<MessageView>,
}

impl View for Hydration {
    type V = HydrationView;

    closed spec fn view(&self) -> HydrationView {
        HydrationView {
            summaries: self.summaries.deep_view(),
            messages: self.messages.deep_view(),
        }
    }
}

impl Hydration {
    #[verifier::type_invariant]
    spec fn unfinished(self) -> bool {
        self.messages.len() < self.summaries.len()
    }

    /// Number of messages read so far.
    pub fn done(&self) -> (count: usize)
        ensures
            count == self@.messages.len(),
            count < self@.summaries.len(),
    {
        proof {
            use_type_invariant(self);
        }
        self.messages.len()
    }

    /// Number of entries in the mailbox.
    pub fn total(&self) -> (count: usize)
        ensures
            count == self@.summaries.len(),
    {
        self.summaries.len()
    }
}

/// What a listing of full messages does next.
#[derive(Debug, PartialEq, Eq)]
pub enum Step<E> {
    /// Send `query`, and hand the reply to the next step with `pending`.
    Fetch { query: String, pending: Hydration },
    /// The operation has ended with this result.
    Done(Result<Vec<Message>, TempmailError<E>>),
}

/// The mathematical value of a [`Step`].
pub enum StepView<E> {
    Fetch { query: Seq<char>, pending: HydrationView },
    Done(Result<Seq<MessageView>, TempmailError<E>>),
}

impl<E> View for Step<E> {
    type V = StepView<E>;

    open spec fn view(&self) -> StepView<E> {
        match self {
            Step::Fetch { query, pending } => StepView::Fetch { query: query@, pending: pending@ },
            Step::Done(outcome) => StepView::Done(deep(*outcome)),
        }
    }
}

/// The step that follows when `messages` have been read of the mailbox
/// with the entries `summaries`: the end, if there is a message for each
/// entry, and else the query for the first entry that has none yet.
pub open spec fn step_after<E>(
    identity: TempmailView,
    summaries: Seq<RawMessageView>,
    messages: Seq<MessageView>,
) -> StepView<E> {
    if messages.len() >= summaries.len() {
        StepView::Done(Ok(messages))
    } else {
        StepView::Fetch {
            query: read_query(identity, summaries[messages.len() as int].id),
            pending: HydrationView { summaries, messages },
        }
    }
}

/// The first step of listing the messages in full, when the transport
/// hands back `reply` to the query that lists the mailbox.
pub open spec fn first_step<E>(
    identity: TempmailView,
    reply: Result<Seq<RawMessageRecord>, E>,
) -> StepView<E> {
    match list_outcome(reply) {
        Err(error) => StepView::Done(Err(error)),
        Ok(summaries) => step_after(identity, summaries, Seq::empty()),
    }
}

/// The step after `pending`, when the transport hands back `reply` to the
/// query that `pending` came with: a failure ends the operation, a message
/// is added to those read.
pub open spec fn next_step<E>(
    identity: TempmailView,
    pending: HydrationView,
    reply: Result<MessageRecord, E>,
) -> StepView<E> {
    match read_outcome(reply) {
        Err(error) => StepView::Done(Err(error)),
        Ok(message) => step_after(identity, pending.summaries, pending.messages.push(message)),
    }
}

impl Tempmail {
    /// Ends the listing of the mailbox: takes what the transport handed
    /// back to `raw_messages_query`, and gives the entries of the mailbox
    /// in the order of the reply. An empty mailbox is no failure.
    pub fn get_raw_messages<E>(&self, reply: Result<Vec<RawMessageWrapper>, E>) -> (summaries:
        Result<Vec<RawMessage>, TempmailError<E>>)
        ensures
            deep(summaries) == list_outcome(deep(reply)),
    {
        match reply {
            Err(failure) => Err(TempmailError::Transport(failure)),
            Ok(records) => match RawMessage::from_wrappers(&records) {
                Err(error) => Err(TempmailError::Decode(error)),
                Ok(summaries) => Ok(summaries),
            },
        }
    }

    /// Ends the reading of a message: takes what the transport handed back
    /// to `read_query`, and gives the message.
    pub fn read_raw_messsage<E>(&self, reply: Result<MessageWrapper, E>) -> (message: Result<
        Message,
        TempmailError<E>,
    >)
        ensures
            deep(message) == read_outcome(deep(reply)),
            message matches Ok(read) ==> read@.wf(),
    {
        match reply {
            Err(failure) => Err(TempmailError::Transport(failure)),
            Ok(record) => match Message::from_wrapper(&record) {
                Err(error) => Err(TempmailError::Decode(error)),
                Ok(message) => Ok(message),
            },
        }
    }

    /// Ends the download of a file: takes what the transport handed back
    /// to `attachment_query`, and gives the bytes of the file as they came.
    pub fn get_attachment<E>(&self, reply: Result<Vec<u8>, E>) -> (file: Result<
        Vec<u8>,
        TempmailError<E>,
    >)
        ensures
            match reply {
                Ok(bytes) => file == Ok::<Vec<u8>, TempmailError<E>>(bytes),
                Err(failure) => file == Err::<Vec<u8>, TempmailError<E>>(
                    TempmailError::Transport(failure),
                ),
            },
    {
        match reply {
            Err(failure) => Err(TempmailError::Transport(failure)),
            Ok(bytes) => Ok(bytes),
        }
    }

    /// The step that follows when `messages` have been read.
    fn step_after<E>(&self, summaries: Vec<RawMessage>, messages: Vec<Message>) -> (step: Step<E>)
        ensures
            step@ == step_after::<E>(self@, summaries.deep_view(), messages.deep_view()),
    {
        if messages.len() >= summaries.len() {
            Step::Done(Ok(messages))
        } else {
            let query = self.read_query(summaries[messages.len()].id);
            Step::Fetch { query, pending: Hydration { summaries, messages } }
        }
    }

    /// Begins the listing of the messages in full: takes what the
    /// transport handed back to `raw_messages_query`.
    pub fn get_messages<E>(&self, reply: Result<Vec<RawMessageWrapper>, E>) -> (step: Step<E>)
        ensures
            step@ == first_step(self@, deep(reply)),
    {
        match self.get_raw_messages(reply) {
            Err(error) => Step::Done(Err(error)),
            Ok(summaries) => {
                let messages: Vec<Message> = Vec::new();
                assert(messages.deep_view() =~= Seq::<MessageView>::empty());
                self.step_after(summaries, messages)
            },
        }
    }

    /// Goes on with the listing of the messages in full: takes what the
    /// transport handed back to the query that came with `pending`.
    pub fn next_message<E>(&self, pending: Hydration, reply: Result<MessageWrapper, E>) -> (step:
        Step<E>)
        ensures
            step@ == next_step(self@, pending@, deep(reply)),
    {
        match self.read_raw_messsage(reply) {
            Err(error) => Step::Done(Err(error)),
            Ok(message) => {
                let Hydration { summaries, mut messages } = pending;
                let ghost before = messages.deep_view();
                messages.push(message);
                assert(messages.deep_view() =~= before.push(message@));
                self.step_after(summaries, messages)
            },
        }
    }
}

/// The messages that a run of replies stands for, in the order of the
/// replies, or the failure of the first reply that fails.
pub open spec fn hydrate_each<E>(replies: Seq<Result<MessageRecord, E>>) -> Result<
    Seq<MessageView>,
    TempmailError<E>,
>
    decreases replies.len(),
{
    if replies.len() == 0 {
        Ok(Seq::empty())
    } else {
        match read_outcome(replies[0]) {
            Err(error) => Err(error),
            Ok(message) => match hydrate_each(replies.drop_first()) {
                Err(error) => Err(error),
                Ok(rest) => Ok(seq![message] + rest),
            },
        }
    }
}

/// Number of replies that are looked at: all of them, or those up to the
/// first that fails, that one counted.
pub open spec fn replies_taken<E>(replies: Seq<Result<MessageRecord, E>>) -> nat
    decreases replies.len(),
{
    if replies.len() == 0 {
        0
    } else if read_outcome(replies[0]) is Err {
        1
    } else {
        1 + replies_taken(replies.drop_first())
    }
}

/// The step that is reached from `step` when the transport hands back
/// `replies`, one for each query in turn. Replies that are left over when
/// the operation has ended are not looked at.
pub open spec fn run<E>(
    identity: TempmailView,
    step: StepView<E>,
    replies: Seq<Result<MessageRecord, E>>,
) -> StepView<E>
    decreases replies.len(),
{
    match step {
        StepView::Done(_) => step,
        StepView::Fetch { query, pending } => if replies.len() == 0 {
            step
        } else {
            run(identity, next_step(identity, pending, replies[0]), replies.drop_first())
        },
    }
}

/// The queries that are sent from `step` on when the transport hands back
/// `replies`, in the order in which they are sent.
pub open spec fn queries_sent<E>(
    identity: TempmailView,
    step: StepView<E>,
    replies: Seq<Result<MessageRecord, E>>,
) -> Seq<Seq<char>>
    decreases replies.len(),
{
    match step {
        StepView::Done(_) => Seq::empty(),
        StepView::Fetch { query, pending } => if replies.len() == 0 {
            seq![query]
        } else {
            seq![query] + queries_sent(
                identity,
                next_step(identity, pending, replies[0]),
                replies.drop_first(),
            )
        },
    }
}

/// The result of a run of replies, reply by reply. Where every reply
/// stands for a message, the result holds the message of each reply at the
/// reply's place. Where one does not, the result is the failure of the
/// first such reply, and that reply is the last that is looked at.
pub proof fn lemma_hydrate_each<E>(replies: Seq<Result<MessageRecord, E>>)
    ensures
        replies_taken(replies) <= replies.len(),
        match hydrate_each(replies) {
            Ok(messages) => {
                &&& replies_taken(replies) == replies.len()
                &&& messages.len() == replies.len()
                &&& forall|i: int|
                    0 <= i < replies.len() ==> read_outcome(#[trigger] replies[i]) == Ok::<
                        MessageView,
                        TempmailError<E>,
                    >(messages[i])
            },
            Err(error) => {
                &&& replies_taken(replies) >= 1
                &&& read_outcome(replies[replies_taken(replies) - 1]) == Err::<
                    MessageView,
                    TempmailError<E>,
                >(error)
                &&& forall|i: int|
                    0 <= i < replies_taken(replies) - 1 ==> read_outcome(#[trigger] replies[i])
                        is Ok
            },
        },
    decreases replies.len(),
{
    if replies.len() > 0 {
        let rest = replies.drop_first();
        lemma_hydrate_each(rest);
        match read_outcome(replies[0]) {
            Err(error) => {},
            Ok(message) => {
                match hydrate_each(rest) {
                    Ok(messages) => {
                        let all = seq![message] + messages;
                        assert forall|i: int| 0 <= i < replies.len() implies read_outcome(
                            #[trigger] replies[i],
                        ) == Ok::<MessageView, TempmailError<E>>(all[i]) by {
                            if i > 0 {
                                assert(replies[i] == rest[i - 1]);
                            }
                        }
                    },
                    Err(error) => {
                        let taken = replies_taken(replies) as int;
                        assert(replies[taken - 1] == rest[taken - 2]);
                        assert forall|i: int| 0 <= i < taken - 1 implies read_outcome(
                            #[trigger] replies[i],
                        ) is Ok by {
                            if i > 0 {
                                assert(replies[i] == rest[i - 1]);
                            }
                        }
                    },
                }
            },
        }
    }
}

/// A listing in full that has read `messages` and is handed a reply for
/// each entry that is left reads the entries in their order, and stops at
/// the first reply that fails.
proof fn lemma_run_from<E>(
    identity: TempmailView,
    summaries: Seq<RawMessageView>,
    messages: Seq<MessageView>,
    replies: Seq<Result<MessageRecord, E>>,
)
    requires
        messages.len() + replies.len() == summaries.len(),
    ensures
        run(identity, step_after::<E>(identity, summaries, messages), replies) == StepView::Done(
            match hydrate_each(replies) {
                Ok(rest) => Ok(messages + rest),
                Err(error) => Err(error),
            },
        ),
        queries_sent(identity, step_after::<E>(identity, summaries, messages), replies).len()
            == replies_taken(replies),
        forall|i: int|
            0 <= i < replies_taken(replies) ==> #[trigger] queries_sent(
                identity,
                step_after::<E>(identity, summaries, messages),
                replies,
            )[i] == read_query(identity, summaries[messages.len() + i].id),
    decreases replies.len(),
{
    let step = step_after::<E>(identity, summaries, messages);
    if replies.len() == 0 {
        assert(messages + Seq::<MessageView>::empty() =~= messages);
    } else {
        let rest = replies.drop_first();
        let pending = HydrationView { summaries, messages };
        match read_outcome(replies[0]) {
            Err(error) => {
                assert(run(identity, StepView::<E>::Done(Err(error)), rest) == StepView::<
                    E,
                >::Done(Err(error)));
                assert(queries_sent(identity, StepView::<E>::Done(Err(error)), rest)
                    =~= Seq::<Seq<char>>::empty());
            },
            Ok(message) => {
                let longer = messages.push(message);
                lemma_run_from(identity, summaries, longer, rest);
                match hydrate_each(rest) {
                    Ok(tail) => {
                        assert(longer + tail =~= messages + (seq![message] + tail));
                    },
                    Err(error) => {},
                }
                let later = queries_sent(
                    identity,
                    step_after::<E>(identity, summaries, longer),
                    rest,
                );
                let sent = queries_sent(identity, step, replies);
                assert(sent == seq![step->query] + later);
                assert forall|i: int| 0 <= i < replies_taken(replies) implies #[trigger] sent[i]
                    == read_query(identity, summaries[messages.len() + i].id) by {
                    if i > 0 {
                        assert(sent[i] == later[i - 1]);
                    }
                }
            },
        }
    }
}

/// The result of listing the messages in full when the transport hands
/// back `listed` to the query that lists the mailbox and `replies` to the
/// queries that follow: what listing the mailbox and then reading each
/// entry in turn gives, up to the first failure.
pub open spec fn messages_outcome<E>(
    listed: Result<Seq<RawMessageRecord>, E>,
    replies: Seq<Result<MessageRecord, E>>,
) -> Result<Seq<MessageView>, TempmailError<E>> {
    match list_outcome(listed) {
        Err(error) => Err(error),
        Ok(_) => hydrate_each(replies),
    }
}

/// Listing the messages in full is listing the mailbox and then reading
/// each entry, in the order of the listing, up to the first failure. When
/// the transport hands back a reply for each entry in turn, the queries
/// sent are those for the entries in their order, up to the entry whose
/// reply fails; the result is the messages in the order of the entries, or
/// that first failure as it is; and no entry after a failure is asked
/// for. A listing that fails ends the operation before any message is
/// asked for.
pub proof fn lemma_listing_in_order<E>(
    identity: TempmailView,
    listed: Result<Seq<RawMessageRecord>, E>,
    replies: Seq<Result<MessageRecord, E>>,
)
    requires
        list_outcome(listed) matches Ok(summaries) ==> replies.len() == summaries.len(),
    ensures
        run(identity, first_step(identity, listed), replies) == StepView::Done(
            messages_outcome(listed, replies),
        ),
        queries_sent(identity, first_step(identity, listed), replies) == match list_outcome(
            listed,
        ) {
            Err(_) => Seq::empty(),
            Ok(summaries) => Seq::new(
                replies_taken(replies),
                |i: int| read_query(identity, summaries[i].id),
            ),
        },
{
    match list_outcome(listed) {
        Err(error) => {
            let step = StepView::<E>::Done(Err(error));
            assert(run(identity, step, replies) == step);
            assert(queries_sent(identity, step, replies) =~= Seq::<Seq<char>>::empty());
        },
        Ok(summaries) => {
            let none = Seq::<MessageView>::empty();
            lemma_run_from(identity, summaries, none, replies);
            match hydrate_each(replies) {
                Ok(rest) => {
                    assert(none + rest =~= rest);
                },
                Err(error) => {},
            }
            assert(queries_sent(identity, step_after::<E>(identity, summaries, none), replies)
                =~= Seq::new(
                replies_taken(replies),
                |i: int| read_query(identity, summaries[i].id),
            ));
        },
    }
}

/// An empty mailbox lists as no messages, with no query sent for any.
pub proof fn lemma_empty_mailbox<E>(identity: TempmailView)
    ensures
        list_outcome::<E>(Ok(Seq::empty())) == Ok::<Seq<RawMessageView>, TempmailError<E>>(
            Seq::empty(),
        ),
        first_step::<E>(identity, Ok(Seq::empty())) == StepView::<E>::Done(Ok(Seq::empty())),
{
}

} // verus!
