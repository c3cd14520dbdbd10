use chat_graph::markup::{
    build_thread, compile_selectors, identifier, parse_document, sender_participant, ParseError,
    RawBlock, RawDocument, RawSender,
};
use chat_graph::model::{Participant, Timestamp};

fn person(name: &str, phone: &str) -> Participant {
    Participant { name: name.to_string(), phone: phone.to_string() }
}

fn block(time: Option<&str>, phone: Option<&str>, name: Option<&str>, content: &str) -> RawBlock {
    RawBlock {
        time: time.map(|t| t.to_string()),
        sender: Some(RawSender {
            link: phone.map(|p| format!("tel:{}", p)),
            name: name.map(|n| n.to_string()),
        }),
        content: content.to_string(),
    }
}

const CONVERSATION: &str = r#"<html><head><title>Alice</title></head><body>
<div class="hChatLog hfeed">
<div class="message"><abbr class="dt" title="2021-01-01T13:00:00.000-08:00">Jan 1</abbr>:
<cite class="sender vcard"><a class="tel" href="tel:+15550001"><span class="fn">Alice</span></a></cite>:
<q>Hello</q></div>
<div class="message"><abbr class="dt" title="2021-01-01T13:01:00.000-08:00">Jan 1</abbr>:
<cite class="sender vcard"><a class="tel" href="tel:+15550002"><abbr class="fn" title="">Me</abbr></a></cite>:
<q>Hi <b>there</b>, Alice</q></div>
<div class="message"><abbr class="dt" title="2021-01-01T13:02:00.000-08:00">Jan 1</abbr>:
<cite class="sender vcard"><a class="tel" href="tel:+15550001"><span class="fn">Alice</span></a></cite>:
<q>Bye</q></div>
</div>
<div class="tags">Labels: <a rel="tag" href="http://example.com/inbox">Inbox</a>, <a rel="tag" href="http://example.com/text">Text</a></div>
</body></html>"#;

#[test]
fn a_conversation_gives_its_thread() {
    let thread = parse_document(CONVERSATION).unwrap();
    assert_eq!(thread.message_count(), 3);
    assert_eq!(
        thread.participants,
        vec![person("Alice", "+15550001"), person("Me", "+15550002")]
    );
    assert_eq!(thread.labels, vec!["Inbox", "Text"]);
    assert_eq!(thread.messages[0].from, person("Alice", "+15550001"));
    assert_eq!(thread.messages[0].to, vec![person("Me", "+15550002")]);
    assert_eq!(thread.messages[0].content, "Hello");
    assert_eq!(thread.messages[0].timestamp, Timestamp { secs: 1609534800, nanos: 0 });
    assert_eq!(thread.messages[1].from, person("Me", "+15550002"));
    assert_eq!(thread.messages[1].to, vec![person("Alice", "+15550001")]);
    assert_eq!(thread.messages[1].content, "Hi there, Alice");
    assert_eq!(thread.messages[1].timestamp, Timestamp { secs: 1609534860, nanos: 0 });
    assert_eq!(thread.messages[2].content, "Bye");
}

#[test]
fn many_blocks_of_two_identifiers_give_two_participants() {
    let thread = parse_document(CONVERSATION).unwrap();
    assert_eq!(thread.messages.len(), 3);
    assert_eq!(thread.participants.len(), 2);
}

#[test]
fn a_document_without_message_blocks_gives_an_empty_thread() {
    let thread = parse_document("<html><body><p>nothing</p></body></html>").unwrap();
    assert_eq!(thread.message_count(), 0);
    assert!(thread.participants.is_empty());
    assert!(thread.labels.is_empty());
    let thread = parse_document("").unwrap();
    assert_eq!(thread.message_count(), 0);
}

#[test]
fn a_block_without_a_time_is_dated_at_the_epoch() {
    let html = r#"<div class="message"><cite class="sender"><a class="tel" href="tel:+1"><span class="fn">Alice</span></a></cite><q>Hello</q></div>
<div class="message"><abbr class="dt" title="not a time"></abbr><cite class="sender"><a class="tel" href="tel:+1"><span class="fn">Alice</span></a></cite><q>Again</q></div>"#;
    let thread = parse_document(html).unwrap();
    assert_eq!(thread.messages.len(), 2);
    assert_eq!(thread.messages[0].timestamp, Timestamp { secs: 0, nanos: 0 });
    assert_eq!(thread.messages[0].content, "Hello");
    assert_eq!(thread.messages[1].timestamp, Timestamp::epoch());
    assert_eq!(thread.messages[1].content, "Again");
}

#[test]
fn a_block_without_a_sender_block_fails_the_document() {
    let html = r#"<div class="message"><cite class="sender"><a class="tel" href="tel:+1"><span class="fn">Alice</span></a></cite><q>Hello</q></div>
<div class="message"><q>orphan</q></div>"#;
    assert_eq!(parse_document(html), Err(ParseError::MissingSender { block: 1 }));
}

#[test]
fn missing_fields_of_a_sender_get_their_defaults() {
    let html = r#"<div class="message"><cite class="sender"></cite></div>"#;
    let thread = parse_document(html).unwrap();
    assert_eq!(thread.participants, vec![person("", "Unknown")]);
    assert_eq!(thread.messages[0].from, person("", "Unknown"));
    assert_eq!(thread.messages[0].content, "");
    // The sender carries the default owner's identifier, so it is the owner.
    assert!(thread.messages[0].to.is_empty());
}

#[test]
fn an_identifier_is_what_follows_the_prefix_of_the_link() {
    assert_eq!(identifier(Some("tel:+15550001")), "+15550001");
    assert_eq!(identifier(Some("mailto:a@example.com")), "Unknown");
    assert_eq!(identifier(Some("tel:")), "");
    assert_eq!(identifier(None), "Unknown");
    let raw = RawSender { link: Some("tel:+1".to_string()), name: None };
    assert_eq!(sender_participant(&raw), person("", "+1"));
}

#[test]
fn the_selectors_are_accepted() {
    assert!(compile_selectors().is_some());
}

#[test]
fn a_thread_is_built_in_two_passes() {
    // The owner is named only in the last block, and still the first
    // message goes to that owner.
    let raw = RawDocument {
        blocks: vec![
            block(None, Some("+1"), Some("Alice"), "one"),
            block(None, Some("+3"), Some("Bob"), "two"),
            block(None, Some("+2"), Some("Me"), "three"),
        ],
        tags: Some("Labels: Group".to_string()),
    };
    let thread = build_thread(&raw).unwrap();
    assert_eq!(thread.messages[0].to, vec![person("Me", "+2")]);
    assert_eq!(thread.messages[1].to, vec![person("Me", "+2")]);
    assert_eq!(thread.messages[2].to, vec![person("Alice", "+1"), person("Bob", "+3")]);
    assert_eq!(thread.labels, vec!["Group"]);
}

#[test]
fn without_a_named_owner_every_message_goes_to_the_default_owner() {
    let raw = RawDocument {
        blocks: vec![block(None, Some("+1"), Some("Alice"), "one")],
        tags: None,
    };
    let thread = build_thread(&raw).unwrap();
    assert_eq!(thread.participants, vec![person("Alice", "+1")]);
    assert_eq!(thread.messages[0].to, vec![person("Me", "Unknown")]);
    assert!(thread.labels.is_empty());
}

#[test]
fn the_first_block_without_a_sender_is_reported() {
    let raw = RawDocument {
        blocks: vec![
            block(None, Some("+1"), Some("Alice"), "one"),
            RawBlock { time: None, sender: None, content: String::new() },
            RawBlock { time: None, sender: None, content: String::new() },
        ],
        tags: None,
    };
    assert_eq!(build_thread(&raw), Err(ParseError::MissingSender { block: 1 }));
}

#[test]
fn rendering_a_thread_and_parsing_it_again_keeps_count_and_participants() {
    let thread = parse_document(CONVERSATION).unwrap();
    let mut html = String::new();
    for message in &thread.messages {
        html.push_str(&format!(
            "<div class=\"message\"><cite class=\"sender\"><a class=\"tel\" href=\"tel:{}\"><span class=\"fn\">{}</span></a></cite><q>{}</q></div>",
            message.from.phone, message.from.name, message.content
        ));
    }
    let again = parse_document(&html).unwrap();
    assert_eq!(again.message_count(), thread.message_count());
    assert_eq!(again.participants, thread.participants);
}
