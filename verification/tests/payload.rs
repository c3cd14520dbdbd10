use chat_graph::model::{Message, Participant, Thread, Timestamp};
use chat_graph::markup::parse_document;
use chat_graph::payload::{
    batch_operations, message_to_params, message_value, participant_to_params,
    participant_value, CREATE_MESSAGES, UPSERT_PARTICIPANTS,
};
use chat_graph::transcript::parse_transcript;
use neo4rs::{BoltList, BoltMap, BoltString, BoltType};

fn person(name: &str, phone: &str) -> Participant {
    Participant { name: name.to_string(), phone: phone.to_string() }
}

fn text(value: &str) -> BoltType {
    BoltType::String(BoltString::new(value))
}

fn list(items: Vec<BoltType>) -> BoltType {
    let mut list = BoltList::new();
    for item in items {
        list.push(item);
    }
    BoltType::List(list)
}

fn record(entries: Vec<(&str, BoltType)>) -> BoltType {
    let mut map = BoltMap::new();
    for (key, value) in entries {
        map.put(BoltString::new(key), value);
    }
    BoltType::Map(map)
}

fn thread(secs: i64, nanos: u32) -> Thread {
    let alice = person("Alice", "+1");
    let me = person("Me", "+2");
    Thread {
        messages: vec![Message {
            from: alice.clone(),
            to: vec![me.clone()],
            timestamp: Timestamp { secs, nanos },
            content: "Hello".to_string(),
        }],
        participants: vec![alice, me],
        labels: Vec::new(),
    }
}

#[test]
fn every_participant_of_every_thread_is_sent() {
    let batch = vec![thread(0, 0), thread(60, 0)];
    let alice = record(vec![("phone", text("+1")), ("name", text("Alice"))]);
    let me = record(vec![("phone", text("+2")), ("name", text("Me"))]);
    assert_eq!(
        participant_to_params(&batch),
        list(vec![alice.clone(), me.clone(), alice, me])
    );
    assert_eq!(participant_to_params(&[]), list(Vec::new()));
}

#[test]
fn every_message_is_sent_with_its_time_as_text() {
    let batch = vec![thread(0, 0), thread(1609534800, 250_000_000)];
    let first = record(vec![
        ("from_phone", text("+1")),
        ("to_phones", list(vec![text("+2")])),
        ("content", text("Hello")),
        ("timestamp", text("1970-01-01T00:00:00+00:00")),
    ]);
    let second = record(vec![
        ("from_phone", text("+1")),
        ("to_phones", list(vec![text("+2")])),
        ("content", text("Hello")),
        ("timestamp", text("2021-01-01T21:00:00.250+00:00")),
    ]);
    assert_eq!(message_to_params(&batch), Some(list(vec![first, second])));
    assert_eq!(message_to_params(&[]), Some(list(Vec::new())));
}

#[test]
fn a_time_that_is_no_instant_cannot_be_sent() {
    let batch = vec![thread(0, 0), thread(0, 2_000_000_000)];
    assert_eq!(message_to_params(&batch), None);
    assert!(batch_operations(&batch).is_none());
    assert_eq!(message_to_params(&[thread(i64::MAX, 0)]), None);
}

#[test]
fn a_batch_is_written_by_two_operations() {
    let operations = batch_operations(&[thread(0, 0)]).unwrap();
    assert!(operations.participants.has_param_key("participants"));
    assert!(!operations.participants.has_param_key("messages"));
    assert!(operations.messages.has_param_key("messages"));
    assert!(!operations.messages.has_param_key("participants"));
}

#[test]
fn a_record_is_made_of_a_message_and_the_text_of_its_time() {
    let message = Message {
        from: person("Me", "+2"),
        to: vec![person("Alice", "+1"), person("Bob", "+3")],
        timestamp: Timestamp { secs: 0, nanos: 0 },
        content: "Hello".to_string(),
    };
    assert_eq!(
        message_value(&message, "any text"),
        record(vec![
            ("from_phone", text("+2")),
            ("to_phones", list(vec![text("+1"), text("+3")])),
            ("content", text("Hello")),
            ("timestamp", text("any text")),
        ])
    );
    let alone = Message { to: Vec::new(), ..message };
    assert_eq!(
        message_value(&alone, ""),
        record(vec![
            ("from_phone", text("+2")),
            ("to_phones", list(Vec::new())),
            ("content", text("Hello")),
            ("timestamp", text("")),
        ])
    );
    assert_eq!(
        participant_value(&person("Alice", "+1")),
        record(vec![("phone", text("+1")), ("name", text("Alice"))])
    );
}

#[test]
fn a_message_node_is_made_before_its_recipients_are_looked_up() {
    let node = CREATE_MESSAGES.find("CREATE (m:Message").unwrap();
    let sent = CREATE_MESSAGES.find("CREATE (from)-[:SENT]->(m)").unwrap();
    let recipients = CREATE_MESSAGES.find("UNWIND message.to_phones").unwrap();
    let link = CREATE_MESSAGES.find("CREATE (m)-[:TO]->(to)").unwrap();
    assert!(node < sent && sent < recipients && recipients < link);
    assert_eq!(CREATE_MESSAGES.matches("CREATE (m:Message").count(), 1);
    assert!(UPSERT_PARTICIPANTS.contains("MERGE (p:Participant {phone: participant.phone})"));
    assert!(UPSERT_PARTICIPANTS.contains("SET p.name = participant.name"));
}

#[test]
fn what_the_parsers_give_can_be_written() {
    let html = "<div class=\"message\"><abbr class=\"dt\" title=\"2021-01-01T13:00:00.000-08:00\"></abbr><cite class=\"sender\"><a class=\"tel\" href=\"tel:+1\"><span class=\"fn\">Alice</span></a></cite><q>Hello</q></div><div class=\"message\"><cite class=\"sender\"><a class=\"tel\" href=\"tel:+1\"><span class=\"fn\">Alice</span></a></cite><q>undated</q></div>";
    let first = parse_document(html).unwrap();
    let second = parse_transcript(&vec!["Jan 1, 2021, 1:00:00 PM: Alice: Hello".to_string()]);
    assert!(batch_operations(&[first, second]).is_some());
}
