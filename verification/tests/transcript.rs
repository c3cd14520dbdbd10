use chat_graph::model::{Participant, Timestamp};
use chat_graph::transcript::{
    apply, classify, event_of, finish, head_of, parse_transcript, start, step, LineEvent,
};

fn lines(text: &[&str]) -> Vec<String> {
    text.iter().map(|line| line.to_string()).collect()
}

fn person(name: &str, phone: &str) -> Participant {
    Participant { name: name.to_string(), phone: phone.to_string() }
}

#[test]
fn a_line_without_a_time_continues_the_message_before_it() {
    let thread = parse_transcript(&lines(&["Jan 1, 2021, 1:00:00 PM: Alice: Hello", "world"]));
    assert_eq!(thread.messages.len(), 1);
    assert_eq!(thread.messages[0].content, "Hello\nworld");
    assert_eq!(thread.messages[0].from, person("Alice", "Alice"));
    assert_eq!(thread.messages[0].to, vec![person("Me", "Unknown")]);
    assert_eq!(thread.messages[0].timestamp, Timestamp { secs: 1609506000, nanos: 0 });
    assert_eq!(thread.participants, vec![person("Alice", "Alice")]);
}

#[test]
fn a_time_that_both_formats_read_is_taken_as_the_zoned_format_reads_it() {
    // The plain text is read by the format with a zone name too, whose zone
    // is then empty; the line starts a message all the same.
    let plain = classify("Jan 1, 2021, 1:00:00 PM: Alice: Hello");
    let zoned = classify("Jan 1, 2021, 1:00:00 PM PST: Alice: Hello");
    assert_eq!(plain, zoned);
    assert_eq!(
        plain,
        LineEvent::Starts {
            time: Timestamp { secs: 1609506000, nanos: 0 },
            sender: "Alice".to_string(),
            content: "Hello".to_string(),
        }
    );
}

#[test]
fn every_timed_line_starts_a_message() {
    let thread = parse_transcript(&lines(&[
        "Jan 1, 2021, 1:00:00 PM: Alice: Hello",
        "Jan 1, 2021, 1:01:00 PM: Bob: Hi: there",
        "and more",
        "",
        "Jan 1, 2021, 1:02:00 PM: Alice: Bye",
    ]));
    assert_eq!(thread.messages.len(), 3);
    assert_eq!(thread.messages[1].content, "Hi: there\nand more\n");
    assert_eq!(thread.messages[1].timestamp, Timestamp { secs: 1609506060, nanos: 0 });
    assert_eq!(thread.messages[2].content, "Bye");
    assert_eq!(thread.participants, vec![person("Alice", "Alice"), person("Bob", "Bob")]);
}

#[test]
fn a_label_line_replaces_the_labels() {
    let thread = parse_transcript(&lines(&[
        "Labels: Inbox, Text",
        "Jan 1, 2021, 1:00:00 PM: Alice: Hello",
        "Labels: Archive",
    ]));
    assert_eq!(thread.labels, vec!["Archive"]);
    assert_eq!(thread.messages.len(), 1);
    assert_eq!(thread.messages[0].content, "Hello");
}

#[test]
fn a_deleted_line_is_dropped() {
    let thread = parse_transcript(&lines(&[
        "Jan 1, 2021, 1:00:00 PM: Alice: Hello",
        "Deleted: Jan 1, 2021, 1:00:30 PM: Alice: oops",
        "world",
    ]));
    assert_eq!(thread.messages.len(), 1);
    assert_eq!(thread.messages[0].content, "Hello\nworld");
}

#[test]
fn a_timed_line_without_sender_and_content_ends_the_message_and_is_dropped() {
    let thread = parse_transcript(&lines(&[
        "Jan 1, 2021, 1:00:00 PM: Alice: Hello",
        "Jan 1, 2021, 1:01:00 PM: no sender",
        "lost",
    ]));
    assert_eq!(thread.messages.len(), 1);
    assert_eq!(thread.messages[0].content, "Hello");
    assert_eq!(classify("Jan 1, 2021, 1:01:00 PM: no sender"), LineEvent::Malformed);
    assert_eq!(classify("Jan 1, 2021, 1:01:00 PM"), LineEvent::Malformed);
}

#[test]
fn a_line_with_nothing_to_continue_is_dropped() {
    let thread = parse_transcript(&lines(&["world", "again"]));
    assert!(thread.messages.is_empty());
    assert!(thread.participants.is_empty());
    assert!(thread.labels.is_empty());
    assert!(parse_transcript(&Vec::new()).messages.is_empty());
}

#[test]
fn lines_are_classified() {
    assert_eq!(
        classify("Labels: Inbox, Text"),
        LineEvent::Labels(vec!["Inbox".to_string(), "Text".to_string()])
    );
    assert_eq!(classify("Deleted: anything"), LineEvent::Deleted);
    assert_eq!(classify("world"), LineEvent::Continues);
    assert_eq!(classify("note: this is no time"), LineEvent::Continues);
    assert_eq!(classify(""), LineEvent::Continues);
}

#[test]
fn the_state_machine_goes_line_by_line() {
    let state = start();
    assert_eq!(state.current, None);
    let state = step(state, "Jan 1, 2021, 1:00:00 PM: Alice: Hello");
    assert!(state.messages.is_empty());
    assert_eq!(state.current.as_ref().unwrap().content, "Hello");
    let state = apply(state, LineEvent::Continues, "world");
    assert_eq!(state.current.as_ref().unwrap().content, "Hello\nworld");
    let state = apply(state, LineEvent::Malformed, "ignored");
    assert_eq!(state.messages.len(), 1);
    assert_eq!(state.current, None);
    let thread = finish(state);
    assert_eq!(thread.messages.len(), 1);
    assert_eq!(thread.messages[0].content, "Hello\nworld");
}

#[test]
fn an_event_follows_from_the_line_and_the_time_read_at_its_front() {
    let time = Timestamp { secs: 7, nanos: 0 };
    assert_eq!(
        event_of("anything: Alice: Hello: there", Some(time)),
        LineEvent::Starts {
            time,
            sender: "Alice".to_string(),
            content: "Hello: there".to_string(),
        }
    );
    assert_eq!(event_of("anything: Alice", Some(time)), LineEvent::Malformed);
    assert_eq!(event_of("anything", Some(time)), LineEvent::Malformed);
    assert_eq!(event_of("anything: Alice: Hello", None), LineEvent::Continues);
    assert_eq!(
        event_of("Labels: a, b, a", Some(time)),
        LineEvent::Labels(vec!["a".to_string(), "b".to_string()])
    );
    assert_eq!(event_of("Deleted: x: y: z", Some(time)), LineEvent::Deleted);
    assert_eq!(event_of("Deleted: x: y: z", None), LineEvent::Deleted);
}

#[test]
fn the_time_of_a_line_stands_before_its_first_delimiter() {
    assert_eq!(head_of("Jan 1, 2021, 1:00:00 PM: Alice: Hello"), "Jan 1, 2021, 1:00:00 PM");
    assert_eq!(head_of("world"), "world");
    assert_eq!(head_of(": x"), "");
}

#[test]
fn a_label_line_keeps_no_label_twice() {
    let thread = parse_transcript(&lines(&["Labels: Inbox, Text, Inbox"]));
    assert_eq!(thread.labels, vec!["Inbox", "Text"]);
}
