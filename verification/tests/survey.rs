use chat_graph::model::{Participant, Thread};
use chat_graph::survey::{is_export_name, RunTotals};

fn person(name: &str, phone: &str) -> Participant {
    Participant { name: name.to_string(), phone: phone.to_string() }
}

fn thread(people: Vec<Participant>) -> Thread {
    Thread { messages: Vec::new(), participants: people, labels: Vec::new() }
}

#[test]
fn exports_are_known_by_their_names() {
    assert!(is_export_name("Alice - Text - 2021-01-01T21_00_00Z.html"));
    assert!(is_export_name("Group Conversation - 2021-01-01T21_00_00Z.html"));
    assert!(!is_export_name("Alice - Voicemail - 2021-01-01T21_00_00Z.html"));
    assert!(!is_export_name(""));
}

#[test]
fn a_run_counts_files_and_distinct_participants() {
    let mut totals = RunTotals::new();
    assert_eq!(totals.unique_participants(), 0);
    assert!(totals.has_room(0));
    totals.record(&thread(vec![person("Alice", "+1"), person("Me", "+2")]));
    totals.record(&thread(vec![person("Bob", "+3"), person("Me", "+2")]));
    assert_eq!(totals.files_processed, 2);
    assert_eq!(totals.messages_extracted, 0);
    assert_eq!(totals.unique_participants(), 3);
    assert_eq!(
        totals.participants,
        vec![person("Alice", "+1"), person("Me", "+2"), person("Bob", "+3")]
    );
}

#[test]
fn full_counts_have_no_room() {
    let totals = RunTotals {
        files_processed: 1,
        messages_extracted: usize::MAX - 1,
        participants: Vec::new(),
    };
    assert!(totals.has_room(1));
    assert!(!totals.has_room(2));
}
