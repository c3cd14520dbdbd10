use chat_graph::model::Participant;
use chat_graph::resolve::{
    find_participant, infer_recipients, merge_into, resolve_participants,
};

fn person(name: &str, phone: &str) -> Participant {
    Participant { name: name.to_string(), phone: phone.to_string() }
}

#[test]
fn five_senders_with_two_identifiers_give_two_participants() {
    let senders = vec![
        person("Alice", "+1"),
        person("Me", "+2"),
        person("Alice", "+1"),
        person("Me", "+2"),
        person("Alice", "+1"),
    ];
    let (people, me) = resolve_participants(&senders);
    assert_eq!(people, vec![person("Alice", "+1"), person("Me", "+2")]);
    assert_eq!(me, person("Me", "+2"));
}

#[test]
fn the_name_last_seen_with_an_identifier_stays() {
    let senders = vec![person("Al", "+1"), person("Bob", "+3"), person("Alice", "+1")];
    let (people, _) = resolve_participants(&senders);
    assert_eq!(people, vec![person("Alice", "+1"), person("Bob", "+3")]);
}

#[test]
fn the_owner_is_the_last_sender_named_so_or_the_default() {
    let (_, me) = resolve_participants(&vec![person("Alice", "+1")]);
    assert_eq!(me, person("Me", "Unknown"));
    assert_eq!(me, Participant::default_self());
    let (_, me) = resolve_participants(&vec![person("Me", "+2"), person("Me", "+9")]);
    assert_eq!(me, person("Me", "+9"));
    let (people, me) = resolve_participants(&Vec::new());
    assert!(people.is_empty());
    assert_eq!(me, person("Me", "Unknown"));
}

#[test]
fn a_message_of_the_owner_goes_to_everyone_else() {
    let people = vec![person("Alice", "+1"), person("Me", "+2"), person("Bob", "+3")];
    let me = person("Me", "+2");
    assert_eq!(
        infer_recipients(&people[1], &people, &me),
        vec![person("Alice", "+1"), person("Bob", "+3")]
    );
}

#[test]
fn a_message_of_anyone_else_goes_to_the_owner_alone() {
    let people = vec![person("Alice", "+1"), person("Me", "+2"), person("Bob", "+3")];
    let me = person("Me", "+2");
    assert_eq!(infer_recipients(&people[0], &people, &me), vec![person("Me", "+2")]);
    assert_eq!(infer_recipients(&people[2], &people, &me), vec![person("Me", "+2")]);
}

#[test]
fn the_owner_alone_in_a_thread_writes_to_nobody() {
    let people = vec![person("Me", "+2")];
    let me = person("Me", "+2");
    assert!(infer_recipients(&people[0], &people, &me).is_empty());
}

#[test]
fn participants_are_found_by_identifier() {
    let people = vec![person("Alice", "+1"), person("Me", "+2")];
    assert_eq!(find_participant(&people, "+2"), Some(1));
    assert_eq!(find_participant(&people, "+1"), Some(0));
    assert_eq!(find_participant(&people, "+3"), None);
}

#[test]
fn a_participant_is_put_in_by_identifier() {
    let mut people = vec![person("Al", "+1"), person("Bob", "+3")];
    merge_into(&mut people, &person("Alice", "+1"));
    assert_eq!(people, vec![person("Alice", "+1"), person("Bob", "+3")]);
    merge_into(&mut people, &person("Alice", "+4"));
    assert_eq!(
        people,
        vec![person("Alice", "+1"), person("Bob", "+3"), person("Alice", "+4")]
    );
}
