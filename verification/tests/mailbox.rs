use tempmail::{
    DecodeError, Domain, Field, Message, MessageWrapper, RawMessageWrapper, Step, Tempmail,
    TempmailError,
};

fn mail() -> Tempmail {
    Tempmail::new("bob", Some(Domain::SecMailOrg))
}

fn summary_record(id: usize) -> RawMessageWrapper {
    RawMessageWrapper {
        id: Some(id),
        from: Some(format!("sender{id}@example.com")),
        subject: Some(format!("subject {id}")),
        date: Some("2023-01-15 10:30:00".to_string()),
    }
}

fn message_record(id: usize) -> MessageWrapper {
    MessageWrapper {
        id: Some(id),
        from: Some(format!("sender{id}@example.com")),
        subject: Some(format!("subject {id}")),
        date: Some("2023-01-15 10:30:00".to_string()),
        attachments: Some(Vec::new()),
        body: Some(format!("body {id}")),
        text_body: Some(format!("body {id}")),
        html_body: Some(String::new()),
    }
}

/// Runs a listing in full against scripted replies; gives the result and
/// the queries that were sent for messages.
fn drive(
    listed: Result<Vec<RawMessageWrapper>, String>,
    replies: Vec<Result<MessageWrapper, String>>,
) -> (Result<Vec<Message>, TempmailError<String>>, Vec<String>) {
    let mail = mail();
    let mut sent = Vec::new();
    let mut replies = replies.into_iter();
    let mut step = mail.get_messages(listed);
    loop {
        match step {
            Step::Done(result) => return (result, sent),
            Step::Fetch { query, pending } => {
                sent.push(query);
                let reply = replies.next().expect("a reply for every query");
                step = mail.next_message(pending, reply);
            }
        }
    }
}

fn read_query(id: usize) -> String {
    format!("action=readMesage&login=bob&domain=1secmail.org&id={id}")
}

#[test]
fn listing_decodes_the_entries_in_order() {
    let reply: Result<_, String> = Ok(vec![summary_record(3), summary_record(1), summary_record(2)]);
    let summaries = mail().get_raw_messages(reply).unwrap();
    assert_eq!(summaries.iter().map(|s| s.id).collect::<Vec<_>>(), vec![3, 1, 2]);
    assert_eq!(summaries[0].subject, "subject 3");
    assert_eq!(summaries[0].timestamp.seconds, 1_673_778_600);
}

#[test]
fn empty_mailbox_lists_as_no_entries() {
    let reply: Result<Vec<RawMessageWrapper>, String> = Ok(Vec::new());
    assert_eq!(mail().get_raw_messages(reply), Ok(Vec::new()));
}

#[test]
fn empty_mailbox_lists_as_no_messages() {
    let (result, sent) = drive(Ok(Vec::new()), Vec::new());
    assert_eq!(result, Ok(Vec::new()));
    assert!(sent.is_empty());
}

#[test]
fn listing_hands_on_the_failure_of_the_transport() {
    let reply: Result<Vec<RawMessageWrapper>, String> = Err("connection reset".to_string());
    assert_eq!(
        mail().get_raw_messages(reply),
        Err(TempmailError::Transport("connection reset".to_string()))
    );
}

#[test]
fn listing_fails_on_a_record_that_is_no_entry() {
    let mut broken = summary_record(2);
    broken.date = Some("15/01/2023".to_string());
    let reply: Result<_, String> = Ok(vec![summary_record(1), broken]);
    assert_eq!(
        mail().get_raw_messages(reply),
        Err(TempmailError::Decode(DecodeError::MalformedTimestamp))
    );
    let mut broken = summary_record(2);
    broken.from = None;
    let reply: Result<_, String> = Ok(vec![broken]);
    assert_eq!(
        mail().get_raw_messages(reply),
        Err(TempmailError::Decode(DecodeError::MissingField(Field::From)))
    );
}

#[test]
fn reading_decodes_and_normalizes_the_message() {
    let reply: Result<_, String> = Ok(message_record(7));
    let message = mail().read_raw_messsage(reply).unwrap();
    assert_eq!(message.id, 7);
    assert_eq!(message.body, "body 7");
    assert_eq!(message.html_body, None);
    let mut record = message_record(7);
    record.html_body = Some("<p>hi</p>".to_string());
    let reply: Result<_, String> = Ok(record);
    assert_eq!(mail().read_raw_messsage(reply).unwrap().html_body, Some("<p>hi</p>".to_string()));
    let mut record = message_record(7);
    record.html_body = None;
    let reply: Result<_, String> = Ok(record);
    assert_eq!(mail().read_raw_messsage(reply).unwrap().html_body, None);
}

#[test]
fn reading_hands_on_failures() {
    let reply: Result<MessageWrapper, u16> = Err(404);
    assert_eq!(mail().read_raw_messsage(reply), Err(TempmailError::Transport(404)));
    let mut record = message_record(7);
    record.date = Some("15/01/2023".to_string());
    let reply: Result<MessageWrapper, u16> = Ok(record);
    assert_eq!(
        mail().read_raw_messsage(reply),
        Err(TempmailError::Decode(DecodeError::MalformedTimestamp))
    );
}

#[test]
fn attachment_bytes_come_back_unchanged() {
    let bytes: Vec<u8> = (0..=255).chain([0, 0, 255, 13, 10, 37]).collect();
    let reply: Result<Vec<u8>, String> = Ok(bytes.clone());
    assert_eq!(mail().get_attachment(reply), Ok(bytes));
    let reply: Result<Vec<u8>, String> = Ok(Vec::new());
    assert_eq!(mail().get_attachment(reply), Ok(Vec::new()));
    let reply: Result<Vec<u8>, String> = Ok("%41+é".as_bytes().to_vec());
    assert_eq!(mail().get_attachment(reply), Ok("%41+é".as_bytes().to_vec()));
}

#[test]
fn attachment_download_hands_on_the_failure_of_the_transport() {
    let reply: Result<Vec<u8>, String> = Err("no such file".to_string());
    assert_eq!(
        mail().get_attachment(reply),
        Err(TempmailError::Transport("no such file".to_string()))
    );
}

#[test]
fn three_entries_are_read_in_the_order_of_the_listing() {
    let listed = Ok(vec![summary_record(30), summary_record(10), summary_record(20)]);
    let replies = vec![Ok(message_record(30)), Ok(message_record(10)), Ok(message_record(20))];
    let (result, sent) = drive(listed, replies);
    assert_eq!(sent, vec![read_query(30), read_query(10), read_query(20)]);
    let messages = result.unwrap();
    assert_eq!(messages.iter().map(|m| m.id).collect::<Vec<_>>(), vec![30, 10, 20]);
    assert_eq!(messages[1].body, "body 10");
}

#[test]
fn failure_of_the_second_entry_ends_the_listing() {
    let listed = Ok(vec![summary_record(30), summary_record(10), summary_record(20)]);
    let replies =
        vec![Ok(message_record(30)), Err("timed out".to_string()), Ok(message_record(20))];
    let (result, sent) = drive(listed, replies);
    assert_eq!(sent, vec![read_query(30), read_query(10)]);
    assert_eq!(result, Err(TempmailError::Transport("timed out".to_string())));
}

#[test]
fn message_that_does_not_decode_ends_the_listing() {
    let listed = Ok(vec![summary_record(1), summary_record(2), summary_record(3)]);
    let mut broken = message_record(1);
    broken.text_body = None;
    let replies = vec![Ok(broken), Ok(message_record(2)), Ok(message_record(3))];
    let (result, sent) = drive(listed, replies);
    assert_eq!(sent, vec![read_query(1)]);
    assert_eq!(result, Err(TempmailError::Decode(DecodeError::MissingField(Field::TextBody))));
}

#[test]
fn failed_listing_reads_no_message() {
    let (result, sent) = drive(Err("offline".to_string()), vec![Ok(message_record(1))]);
    assert!(sent.is_empty());
    assert_eq!(result, Err(TempmailError::Transport("offline".to_string())));
    let mut broken = summary_record(1);
    broken.id = None;
    let (result, sent) = drive(Ok(vec![summary_record(2), broken]), Vec::new());
    assert!(sent.is_empty());
    assert_eq!(result, Err(TempmailError::Decode(DecodeError::MissingField(Field::Id))));
}

#[test]
fn steps_count_the_messages_read() {
    let mail = mail();
    let listed: Result<_, String> = Ok(vec![summary_record(5), summary_record(6)]);
    let step = mail.get_messages(listed);
    let Step::Fetch { query, pending } = step else { panic!("two entries are to be read") };
    assert_eq!(query, read_query(5));
    assert_eq!((pending.done(), pending.total()), (0, 2));
    let step: Step<String> = mail.next_message(pending, Ok(message_record(5)));
    let Step::Fetch { query, pending } = step else { panic!("one entry is left") };
    assert_eq!(query, read_query(6));
    assert_eq!((pending.done(), pending.total()), (1, 2));
    let step: Step<String> = mail.next_message(pending, Ok(message_record(6)));
    let Step::Done(Ok(messages)) = step else { panic!("both entries are read") };
    assert_eq!(messages.len(), 2);
}

#[test]
fn listing_in_full_equals_listing_then_reading_each() {
    let mail = mail();
    let ids = [4usize, 8, 15, 16, 23, 42];
    let listed: Result<_, String> = Ok(ids.iter().map(|&id| summary_record(id)).collect());
    let summaries = mail.get_raw_messages(listed.clone()).unwrap();
    let one_by_one: Vec<Message> = summaries
        .iter()
        .map(|s| mail.read_raw_messsage::<String>(Ok(message_record(s.id))).unwrap())
        .collect();
    let replies = ids.iter().map(|&id| Ok(message_record(id))).collect();
    let (result, sent) = drive(listed, replies);
    assert_eq!(result, Ok(one_by_one));
    assert_eq!(sent, summaries.iter().map(|s| mail.read_query(s.id)).collect::<Vec<_>>());
}
