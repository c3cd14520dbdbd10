//! The parser for structured-markup documents.
//!
//! A document is parsed into a tree, the tree is asked for its message
//! blocks and for what each block carries ([`RawBlock`]), and from those the
//! thread is built in two passes: the participants and the owner first, then
//! the messages, whose recipients depend on both.

use crate::clock::{
    markup_time, offset_instant, parse_markup_time, times_writable, writable_time,
    MARKUP_TIME_FORMAT,
};
use crate::dom::{
    attribute, attribute_of, document_matches, first_match, parse_html, parse_selector,
    parsed_document, parsed_selector, select_all, select_first, text_nodes, text_of,
};
use crate::labels::{labels_of, parse_labels};
use crate::model::{
    epoch, Message, MessageView, Participant, ParticipantView, Thread, ThreadView, UNKNOWN_ID,
};
use crate::resolve::{
    distinct_identifiers, find_participant, has_identifier, infer_recipients,
    law_participants_deduplicated, lemma_others, lemma_position_from, merged, others,
    position_from, position_of, recipients_of, resolve_participants, resolved_participants,
    resolved_self, well_formed,
};
use crate::text::{join_all, joined, strip_prefix};
use vstd::prelude::*;

verus! {

/// The selector of a message block.
pub const MESSAGE_SELECTOR: &'static str = ".message";

/// The selector, within a message block, of the element that carries the
/// time.
pub const TIME_SELECTOR: &'static str = ".dt";

/// The selector, within a message block, of the sender block.
pub const SENDER_SELECTOR: &'static str = ".sender";

/// The selector, within a message block, of the content.
pub const CONTENT_SELECTOR: &'static str = "q";

/// The selector of the element that lists the labels.
pub const TAGS_SELECTOR: &'static str = ".tags";

/// The selector, within a sender block, of the link that carries the
/// identifier.
pub const LINK_SELECTOR: &'static str = "a.tel";

/// The selector, within a sender block, of the element that carries the
/// name.
pub const NAME_SELECTOR: &'static str = "span.fn, abbr.fn";

/// The attribute of the time element that holds the time.
pub const TIME_ATTRIBUTE: &'static str = "title";

/// The attribute of the link that holds the identifier.
pub const LINK_ATTRIBUTE: &'static str = "href";

/// What stands before the identifier in the link.
pub const LINK_PREFIX: &'static str = "tel:";

/// Why a document gives no thread.
#[derive(Clone, Copy, Debug, PartialEq, Eq, Structural)]
pub enum ParseError {
    /// The message block with this index has no sender block.
    MissingSender { block: usize },
    /// One of the selectors was not accepted.
    Selector,
}

/// What a sender block carries.
#[derive(Debug, PartialEq, Eq)]
pub struct RawSender {
    /// The target of the link, if there is a link with a target.
    pub link: Option<String>,
    /// The first text of the name element, if there is one with text.
    pub name: Option<String>,
}

/// The value of a [`RawSender`].
pub struct RawSenderView {
    pub link: Option<Seq<char>>,
    pub name: Option<Seq<char>>,
}

impl DeepView for RawSender {
    type V = RawSenderView;

    open spec fn deep_view(&self) -> RawSenderView {
        RawSenderView { link: self.link.deep_view(), name: self.name.deep_view() }
    }
}

/// What a message block carries.
#[derive(Debug, PartialEq, Eq)]
pub struct RawBlock {
    /// The time attribute of the time element, if there is one.
    pub time: Option<String>,
    /// The sender block, if there is one.
    pub sender: Option<RawSender>,
    /// The text of the content element; empty where there is none.
    pub content: String,
}

/// The value of a [`RawBlock`].
pub struct RawBlockView {
    pub time: Option<Seq<char>>,
    pub sender: Option<RawSenderView>,
    pub content: Seq<char>,
}

impl DeepView for RawBlock {
    type V = RawBlockView;

    open spec fn deep_view(&self) -> RawBlockView {
        RawBlockView {
            time: self.time.deep_view(),
            sender: self.sender.deep_view(),
            content: self.content@,
        }
    }
}

/// What a document carries.
#[derive(Debug, PartialEq, Eq)]
pub struct RawDocument {
    /// Its message blocks, in order.
    pub blocks: Vec<RawBlock>,
    /// The text of its first label element, if there is one.
    pub tags: Option<String>,
}

/// The value of a [`RawDocument`].
pub struct RawDocumentView {
    pub blocks: Seq<RawBlockView>,
    pub tags: Option<Seq<char>>,
}

impl DeepView for RawDocument {
    type V = RawDocumentView;

    open spec fn deep_view(&self) -> RawDocumentView {
        RawDocumentView { blocks: self.blocks.deep_view(), tags: self.tags.deep_view() }
    }
}

/// The selectors that the parser asks the tree with.
pub struct Selectors {
    pub message: scraper::Selector,
    pub time: scraper::Selector,
    pub sender: scraper::Selector,
    pub content: scraper::Selector,
    pub tags: scraper::Selector,
    pub link: scraper::Selector,
    pub name: scraper::Selector,
}

/// The parser's selectors, or `None` where one of them is not accepted.
pub open spec fn selectors() -> Option<Selectors> {
    if parsed_selector(MESSAGE_SELECTOR@).is_some() && parsed_selector(TIME_SELECTOR@).is_some()
        && parsed_selector(SENDER_SELECTOR@).is_some() && parsed_selector(
        CONTENT_SELECTOR@,
    ).is_some() && parsed_selector(TAGS_SELECTOR@).is_some() && parsed_selector(
        LINK_SELECTOR@,
    ).is_some() && parsed_selector(NAME_SELECTOR@).is_some() {
        Some(
            Selectors {
                message: parsed_selector(MESSAGE_SELECTOR@).unwrap(),
                time: parsed_selector(TIME_SELECTOR@).unwrap(),
                sender: parsed_selector(SENDER_SELECTOR@).unwrap(),
                content: parsed_selector(CONTENT_SELECTOR@).unwrap(),
                tags: parsed_selector(TAGS_SELECTOR@).unwrap(),
                link: parsed_selector(LINK_SELECTOR@).unwrap(),
                name: parsed_selector(NAME_SELECTOR@).unwrap(),
            },
        )
    } else {
        None
    }
}

/// The first of `pieces`, if there is any.
pub open spec fn first_piece(pieces: Seq<Seq<char>>) -> Option<Seq<char>> {
    if pieces.len() > 0 {
        Some(pieces[0])
    } else {
        None
    }
}

/// What the sender block `element` carries.
pub open spec fn raw_sender_of(
    element: scraper::ElementRef<'static>,
    with: Selectors,
) -> RawSenderView {
    RawSenderView {
        link: match first_match(element, with.link) {
            Some(link) => attribute_of(link, LINK_ATTRIBUTE@),
            None => None,
        },
        name: match first_match(element, with.name) {
            Some(name) => first_piece(text_of(name)),
            None => None,
        },
    }
}

/// What the message block `element` carries.
pub open spec fn raw_block_of(
    element: scraper::ElementRef<'static>,
    with: Selectors,
) -> RawBlockView {
    RawBlockView {
        time: match first_match(element, with.time) {
            Some(time) => attribute_of(time, TIME_ATTRIBUTE@),
            None => None,
        },
        sender: match first_match(element, with.sender) {
            Some(sender) => Some(raw_sender_of(sender, with)),
            None => None,
        },
        content: match first_match(element, with.content) {
            Some(content) => joined(text_of(content)),
            None => Seq::empty(),
        },
    }
}

/// What the document `doc` carries.
pub open spec fn raw_document_of(doc: scraper::Html, with: Selectors) -> RawDocumentView {
    let blocks = document_matches(doc, with.message);
    let tags = document_matches(doc, with.tags);
    RawDocumentView {
        blocks: Seq::new(blocks.len(), |i: int| raw_block_of(blocks[i], with)),
        tags: if tags.len() > 0 {
            Some(joined(text_of(tags[0])))
        } else {
            None
        },
    }
}

/// The identifier that a link target gives: what follows [`LINK_PREFIX`],
/// and [`UNKNOWN_ID`] where there is no target or it does not begin so.
pub open spec fn identifier_of(link: Option<Seq<char>>) -> Seq<char> {
    match link {
        Some(target) => if LINK_PREFIX@.is_prefix_of(target) {
            target.skip(LINK_PREFIX@.len() as int)
        } else {
            UNKNOWN_ID@
        },
        None => UNKNOWN_ID@,
    }
}

/// The participant that a sender block stands for.
pub open spec fn sender_of(raw: RawSenderView) -> ParticipantView {
    ParticipantView {
        name: match raw.name {
            Some(name) => name,
            None => Seq::empty(),
        },
        phone: identifier_of(raw.link),
    }
}

/// The index of the first of `blocks`, from `start` on, that has no sender
/// block.
pub open spec fn missing_sender_from(blocks: Seq<RawBlockView>, start: int) -> Option<int>
    decreases blocks.len() - start,
{
    if start < 0 || start >= blocks.len() {
        None
    } else if blocks[start].sender.is_none() {
        Some(start)
    } else {
        missing_sender_from(blocks, start + 1)
    }
}

/// The senders of `blocks`, in order.
pub open spec fn senders_of(blocks: Seq<RawBlockView>) -> Seq<ParticipantView> {
    Seq::new(blocks.len(), |i: int| sender_of(blocks[i].sender.unwrap()))
}

/// The message of a block sent by `sender`, in a thread of `people` owned
/// by `me`.
pub open spec fn message_of(
    block: RawBlockView,
    sender: ParticipantView,
    people: Seq<ParticipantView>,
    me: ParticipantView,
) -> MessageView {
    let from = match position_of(people, sender.phone) {
        Some(k) => people[k],
        None => me,
    };
    MessageView {
        from,
        to: recipients_of(from, people, me),
        timestamp: markup_time(block.time),
        content: block.content,
    }
}

/// The labels of a document whose label element has the text `tags`.
pub open spec fn labels_of_tags(tags: Option<Seq<char>>) -> Seq<Seq<char>> {
    match tags {
        Some(text) => labels_of(text),
        None => Seq::empty(),
    }
}

/// The thread of a document that carries `raw`; the error where one of its
/// message blocks has no sender block.
pub open spec fn thread_of(raw: RawDocumentView) -> Result<ThreadView, ParseError> {
    match missing_sender_from(raw.blocks, 0) {
        Some(i) => Err(ParseError::MissingSender { block: i as usize }),
        None => {
            let senders = senders_of(raw.blocks);
            let people = resolved_participants(senders);
            let me = resolved_self(senders);
            Ok(
                ThreadView {
                    messages: Seq::new(
                        raw.blocks.len(),
                        |i: int| message_of(raw.blocks[i], senders[i], people, me),
                    ),
                    participants: people,
                    labels: labels_of_tags(raw.tags),
                },
            )
        },
    }
}

/// The thread of the document with the text `html`.
pub open spec fn document_thread(html: Seq<char>) -> Result<ThreadView, ParseError> {
    match selectors() {
        Some(with) => thread_of(raw_document_of(parsed_document(html), with)),
        None => Err(ParseError::Selector),
    }
}

/// Whether `r` is the outcome `expected`.
pub open spec fn is_outcome(
    r: Result<Thread, ParseError>,
    expected: Result<ThreadView, ParseError>,
) -> bool {
    match r {
        Ok(thread) => expected == Ok::<ThreadView, ParseError>(thread.deep_view()),
        Err(e) => expected == Err::<ThreadView, ParseError>(e),
    }
}

/// A thread that a document gives is well formed.
pub proof fn law_thread_well_formed(raw: RawDocumentView)
    requires
        thread_of(raw).is_ok(),
    ensures
        well_formed(thread_of(raw).unwrap()),
{
    let thread = thread_of(raw).unwrap();
    let senders = senders_of(raw.blocks);
    let people = resolved_participants(senders);
    let me = resolved_self(senders);
    law_participants_deduplicated(senders);
    lemma_others(people, me.phone);
    assert forall|i: int| 0 <= i < thread.messages.len() implies has_identifier(
        thread.participants,
        (#[trigger] thread.messages[i]).from.phone,
    ) && distinct_identifiers(thread.messages[i].to) by {
        assert(has_identifier(senders, senders[i].phone));
        assert(has_identifier(people, senders[i].phone));
        lemma_position_from(people, senders[i].phone, 0);
        let k = position_of(people, senders[i].phone).unwrap();
        assert(thread.messages[i] == message_of(raw.blocks[i], senders[i], people, me));
        assert(thread.messages[i].from == people[k]);
    }
}

/// The parser's selectors, or `None` where one of them is not accepted.
pub fn compile_selectors() -> (r: Option<Selectors>)
    ensures
        r == selectors(),
{
    let message = parse_selector(MESSAGE_SELECTOR);
    let time = parse_selector(TIME_SELECTOR);
    let sender = parse_selector(SENDER_SELECTOR);
    let content = parse_selector(CONTENT_SELECTOR);
    let tags = parse_selector(TAGS_SELECTOR);
    let link = parse_selector(LINK_SELECTOR);
    let name = parse_selector(NAME_SELECTOR);
    match (message, time, sender, content, tags, link, name) {
        (
            Some(message),
            Some(time),
            Some(sender),
            Some(content),
            Some(tags),
            Some(link),
            Some(name),
        ) => Some(Selectors { message, time, sender, content, tags, link, name }),
        _ => None,
    }
}

/// What the sender block `element` carries.
fn extract_sender<'a>(element: scraper::ElementRef<'a>, with: &Selectors) -> (r: RawSender)
    ensures
        r.deep_view() == raw_sender_of(element, *with),
{
    let link = match select_first(element, &with.link) {
        Some(link) => attribute(link, LINK_ATTRIBUTE),
        None => None,
    };
    let name = match select_first(element, &with.name) {
        Some(name) => {
            let mut pieces = text_nodes(name);
            if pieces.len() > 0 {
                let ghost all = pieces.deep_view();
                let first = pieces.swap_remove(0);
                assert(first@ == all[0]);
                Some(first)
            } else {
                None
            }
        },
        None => None,
    };
    RawSender { link, name }
}

/// What the message block `element` carries.
fn extract_block<'a>(element: scraper::ElementRef<'a>, with: &Selectors) -> (r: RawBlock)
    ensures
        r.deep_view() == raw_block_of(element, *with),
{
    let time = match select_first(element, &with.time) {
        Some(time) => attribute(time, TIME_ATTRIBUTE),
        None => None,
    };
    let sender = match select_first(element, &with.sender) {
        Some(sender) => Some(extract_sender(sender, with)),
        None => None,
    };
    let content = match select_first(element, &with.content) {
        Some(content) => {
            let pieces = text_nodes(content);
            join_all(&pieces)
        },
        None => String::new(),
    };
    RawBlock { time, sender, content }
}

/// What the document `doc` carries.
fn extract_document(doc: &scraper::Html, with: &Selectors) -> (r: RawDocument)
    ensures
        r.deep_view() == raw_document_of(*doc, *with),
{
    let elements = select_all(doc, &with.message);
    let mut blocks: Vec<RawBlock> = Vec::new();
    let mut i: usize = 0;
    while i < elements.len()
        invariant
            i <= elements.len(),
            blocks.len() == i,
            forall|k: int|
                0 <= k < i ==> (#[trigger] blocks@[k]).deep_view() == raw_block_of(
                    elements@[k],
                    *with,
                ),
        decreases elements.len() - i,
    {
        let block = extract_block(elements[i], with);
        blocks.push(block);
        i += 1;
    }
    let found = select_all(doc, &with.tags);
    let tags = if found.len() > 0 {
        let pieces = text_nodes(found[0]);
        Some(join_all(&pieces))
    } else {
        None
    };
    let r = RawDocument { blocks, tags };
    assert(r.deep_view().blocks =~= raw_document_of(*doc, *with).blocks);
    r
}

/// The identifier that a link target gives.
pub fn identifier(link: Option<&str>) -> (r: String)
    ensures
        r@ == identifier_of(
            match link {
                Some(target) => Some(target@),
                None => None,
            },
        ),
{
    match link {
        Some(target) => match strip_prefix(target, LINK_PREFIX) {
            Some(rest) => rest,
            None => UNKNOWN_ID.to_owned(),
        },
        None => UNKNOWN_ID.to_owned(),
    }
}

/// The participant that a sender block stands for.
pub fn sender_participant(raw: &RawSender) -> (p: Participant)
    ensures
        p.deep_view() == sender_of(raw.deep_view()),
{
    let phone = match &raw.link {
        Some(target) => identifier(Some(target.as_str())),
        None => identifier(None),
    };
    let name = match &raw.name {
        Some(name) => name.clone(),
        None => String::new(),
    };
    Participant { name, phone }
}

/// The thread of a document that carries `raw`; the error where one of its
/// message blocks has no sender block.
pub fn build_thread(raw: &RawDocument) -> (r: Result<Thread, ParseError>)
    ensures
        is_outcome(r, thread_of(raw.deep_view())),
        r matches Ok(thread) ==> well_formed(thread.deep_view()),
        r matches Ok(thread) ==> times_writable(thread.deep_view()),
{
    let ghost blocks = raw.deep_view().blocks;
    let n = raw.blocks.len();
    let mut senders: Vec<Participant> = Vec::new();
    let mut i: usize = 0;
    while i < n
        invariant
            i <= n,
            n == raw.blocks.len(),
            blocks == raw.deep_view().blocks,
            senders.len() == i,
            missing_sender_from(blocks, 0) == missing_sender_from(blocks, i as int),
            forall|k: int| 0 <= k < i ==> (#[trigger] blocks[k]).sender.is_some(),
            forall|k: int|
                0 <= k < i ==> (#[trigger] senders@[k]).deep_view() == sender_of(
                    blocks[k].sender.unwrap(),
                ),
        decreases n - i,
    {
        match &raw.blocks[i].sender {
            Some(sender) => {
                let p = sender_participant(sender);
                senders.push(p);
            },
            None => {
                return Err(ParseError::MissingSender { block: i });
            },
        }
        i += 1;
    }
    assert(senders.deep_view() =~= senders_of(blocks));
    let (people, me) = resolve_participants(&senders);
    let mut messages: Vec<Message> = Vec::new();
    let mut j: usize = 0;
    while j < n
        invariant
            j <= n,
            n == raw.blocks.len(),
            n == senders.len(),
            blocks == raw.deep_view().blocks,
            messages.len() == j,
            senders.deep_view() == senders_of(blocks),
            forall|k: int| 0 <= k < j ==> writable_time((#[trigger] messages@[k]).timestamp),
            forall|k: int|
                0 <= k < j ==> (#[trigger] messages@[k]).deep_view() == message_of(
                    blocks[k],
                    senders_of(blocks)[k],
                    people.deep_view(),
                    me.deep_view(),
                ),
        decreases n - j,
    {
        let block = &raw.blocks[j];
        assert(senders.deep_view()[j as int] == senders@[j as int].deep_view());
        let from = match find_participant(&people, senders[j].phone.as_str()) {
            Some(k) => people[k].clone(),
            None => me.clone(),
        };
        let to = infer_recipients(&from, &people, &me);
        let timestamp = match &block.time {
            Some(title) => parse_markup_time(Some(title.as_str())),
            None => parse_markup_time(None),
        };
        let message = Message { from, to, timestamp, content: block.content.clone() };
        messages.push(message);
        j += 1;
    }
    let labels = match &raw.tags {
        Some(text) => parse_labels(text.as_str()),
        None => Vec::new(),
    };
    let thread = Thread { messages, participants: people, labels };
    proof {
        let expected = thread_of(raw.deep_view());
        assert(expected.is_ok());
        assert(thread.deep_view().messages =~= expected.unwrap().messages);
        assert(thread.deep_view().labels =~= expected.unwrap().labels);
        law_thread_well_formed(raw.deep_view());
        assert forall|k: int| 0 <= k < thread.deep_view().messages.len() implies writable_time(
            (#[trigger] thread.deep_view().messages[k]).timestamp,
        ) by {
            assert(thread.deep_view().messages[k].timestamp == thread.messages@[k].timestamp);
        }
    }
    Ok(thread)
}

/// The thread of the document with the text `html`.
pub fn parse_document(html: &str) -> (r: Result<Thread, ParseError>)
    ensures
        is_outcome(r, document_thread(html@)),
        r matches Ok(thread) ==> well_formed(thread.deep_view()),
        r matches Ok(thread) ==> times_writable(thread.deep_view()),
{
    match compile_selectors() {
        Some(with) => {
            let doc = parse_html(html);
            let raw = extract_document(&doc, &with);
            build_thread(&raw)
        },
        None => Err(ParseError::Selector),
    }
}

/// Every message block of a document that gives a thread gives one message
/// of it, in order.
pub proof fn law_one_message_per_block(raw: RawDocumentView)
    requires
        thread_of(raw).is_ok(),
    ensures
        thread_of(raw).unwrap().messages.len() == raw.blocks.len(),
{
}

/// In a thread, a message of the owner goes to all the participants but the
/// owner, and a message of anyone else goes to the owner alone.
pub proof fn law_direction(raw: RawDocumentView, i: int)
    requires
        thread_of(raw).is_ok(),
        0 <= i < raw.blocks.len(),
    ensures
        ({
            let thread = thread_of(raw).unwrap();
            let me = resolved_self(senders_of(raw.blocks));
            let message = thread.messages[i];
            &&& message.from.phone == me.phone ==> message.to == others(
                thread.participants,
                me.phone,
            )
            &&& message.from.phone != me.phone ==> message.to == seq![me]
        }),
{
}

/// None of those of `people` that remain without the one identified by
/// `phone` has that identifier.
pub proof fn lemma_others_exclude(people: Seq<ParticipantView>, phone: Seq<char>)
    ensures
        forall|k: int|
            0 <= k < others(people, phone).len() ==> (#[trigger] others(people, phone)[k]).phone
                != phone,
    decreases people.len(),
{
    if people.len() > 0 {
        let rest = others(people.drop_last(), phone);
        lemma_others_exclude(people.drop_last(), phone);
        assert forall|k: int| 0 <= k < others(people, phone).len() implies (#[trigger] others(
            people,
            phone,
        )[k]).phone != phone by {
            if k < rest.len() {
                assert(others(people, phone)[k] == rest[k]);
            }
        }
    }
}

/// In a thread, no message goes to its own sender.
pub proof fn law_sender_is_no_recipient(raw: RawDocumentView, i: int)
    requires
        thread_of(raw).is_ok(),
        0 <= i < raw.blocks.len(),
    ensures
        ({
            let message = thread_of(raw).unwrap().messages[i];
            forall|k: int|
                0 <= k < message.to.len() ==> (#[trigger] message.to[k]).phone
                    != message.from.phone
        }),
{
    let thread = thread_of(raw).unwrap();
    let me = resolved_self(senders_of(raw.blocks));
    lemma_others_exclude(thread.participants, me.phone);
}

/// In a thread, the sender of every message is one of its participants.
pub proof fn law_sender_is_participant(raw: RawDocumentView, i: int)
    requires
        thread_of(raw).is_ok(),
        0 <= i < raw.blocks.len(),
    ensures
        ({
            let thread = thread_of(raw).unwrap();
            exists|k: int|
                0 <= k < thread.participants.len() && (#[trigger] thread.participants[k])
                    == thread.messages[i].from
        }),
{
    let senders = senders_of(raw.blocks);
    let people = resolved_participants(senders);
    law_participants_deduplicated(senders);
    assert(senders[i].phone == senders[i].phone);
    assert(has_identifier(senders, senders[i].phone));
    assert(has_identifier(people, senders[i].phone));
    lemma_position_from(people, senders[i].phone, 0);
    let k = position_of(people, senders[i].phone).unwrap();
    let thread = thread_of(raw).unwrap();
    assert(thread.participants == people);
    assert(thread.messages[i] == message_of(
        raw.blocks[i],
        senders[i],
        people,
        resolved_self(senders),
    ));
    assert(0 <= k < thread.participants.len() && thread.participants[k]
        == thread.messages[i].from);
}

/// A message block without a time, or with one that cannot be read, still
/// gives its message, dated at the epoch.
pub proof fn law_unread_time_is_epoch(raw: RawDocumentView, i: int)
    requires
        thread_of(raw).is_ok(),
        0 <= i < raw.blocks.len(),
        raw.blocks[i].time.is_none() || offset_instant(
            raw.blocks[i].time.unwrap(),
            MARKUP_TIME_FORMAT@,
        ).is_none(),
    ensures
        thread_of(raw).unwrap().messages.len() == raw.blocks.len(),
        thread_of(raw).unwrap().messages[i].timestamp == epoch(),
        thread_of(raw).unwrap().messages[i].content == raw.blocks[i].content,
{
}

/// What `missing_sender_from` finds is the first block without a sender
/// block, and where it finds none every block has one.
pub proof fn lemma_missing_sender_from(blocks: Seq<RawBlockView>, start: int)
    requires
        0 <= start,
    ensures
        match missing_sender_from(blocks, start) {
            Some(i) => start <= i < blocks.len() && blocks[i].sender.is_none() && forall|j: int|
                start <= j < i ==> (#[trigger] blocks[j]).sender.is_some(),
            None => forall|j: int|
                start <= j < blocks.len() ==> (#[trigger] blocks[j]).sender.is_some(),
        },
    decreases blocks.len() - start,
{
    if start < blocks.len() && blocks[start].sender.is_some() {
        lemma_missing_sender_from(blocks, start + 1);
    }
}

/// A document gives a thread unless one of its message blocks has no sender
/// block; then the first such block is reported.
pub proof fn law_only_a_missing_sender_fails(raw: RawDocumentView)
    ensures
        thread_of(raw).is_ok() <==> forall|i: int|
            0 <= i < raw.blocks.len() ==> (#[trigger] raw.blocks[i]).sender.is_some(),
        thread_of(raw).is_err() ==> exists|k: int|
            0 <= k < raw.blocks.len() && (#[trigger] raw.blocks[k]).sender.is_none() && (forall|
                i: int,
            |
                0 <= i < k ==> (#[trigger] raw.blocks[i]).sender.is_some()) && thread_of(raw)
                == Err::<ThreadView, ParseError>(ParseError::MissingSender { block: k as usize }),
{
    lemma_missing_sender_from(raw.blocks, 0);
    if thread_of(raw).is_err() {
        let k = missing_sender_from(raw.blocks, 0).unwrap();
        assert(raw.blocks[k].sender.is_none());
    }
}

/// The message block that carries what `message` holds, with `time` as the
/// text of its time.
pub open spec fn block_of(message: MessageView, time: Option<Seq<char>>) -> RawBlockView {
    RawBlockView {
        time,
        sender: Some(
            RawSenderView {
                link: Some(LINK_PREFIX@ + message.from.phone),
                name: Some(message.from.name),
            },
        ),
        content: message.content,
    }
}

/// What a document carries that is written from `thread`: one message block
/// for each message, in order, with the texts `times` for their times, and
/// `tags` as the text of its label element.
pub open spec fn document_of(
    thread: ThreadView,
    times: Seq<Option<Seq<char>>>,
    tags: Option<Seq<char>>,
) -> RawDocumentView {
    RawDocumentView {
        blocks: Seq::new(thread.messages.len(), |i: int| block_of(thread.messages[i], times[i])),
        tags,
    }
}

/// Where two sequences of participants carry the same identifiers in the
/// same places, an identifier is found in both at the same place.
pub proof fn lemma_position_by_identifiers(
    a: Seq<ParticipantView>,
    b: Seq<ParticipantView>,
    phone: Seq<char>,
    start: int,
)
    requires
        a.len() == b.len(),
        forall|k: int| 0 <= k < a.len() ==> (#[trigger] a[k]).phone == b[k].phone,
    ensures
        position_from(a, phone, start) == position_from(b, phone, start),
    decreases a.len() - start,
{
    if 0 <= start < a.len() && a[start].phone != phone {
        lemma_position_by_identifiers(a, b, phone, start + 1);
    }
}

/// The senders of the messages of a thread, resolved again, give the
/// participants of the thread: `again`, which holds for each sender the
/// participant of `people` with the sender's identifier, resolves as
/// `senders` does.
proof fn lemma_resolved_again(
    senders: Seq<ParticipantView>,
    again: Seq<ParticipantView>,
    people: Seq<ParticipantView>,
    n: int,
)
    requires
        0 <= n <= senders.len(),
        again.len() == senders.len(),
        people == resolved_participants(senders),
        forall|i: int|
            0 <= i < senders.len() ==> position_of(people, (#[trigger] senders[i]).phone).is_some()
                && again[i] == people[position_of(people, senders[i].phone).unwrap()],
    ensures
        resolved_participants(again.take(n)).len() == resolved_participants(senders.take(n)).len(),
        forall|k: int|
            #![trigger resolved_participants(again.take(n))[k]]
            0 <= k < resolved_participants(senders.take(n)).len() ==> {
                let first = resolved_participants(senders.take(n))[k];
                let second = resolved_participants(again.take(n))[k];
                &&& second.phone == first.phone
                &&& position_of(people, first.phone).is_some()
                &&& second == people[position_of(people, first.phone).unwrap()]
            },
    decreases n,
{
    if n > 0 {
        lemma_resolved_again(senders, again, people, n - 1);
        let a = resolved_participants(senders.take(n - 1));
        let b = resolved_participants(again.take(n - 1));
        let s = senders[n - 1];
        let f = again[n - 1];
        assert(senders.take(n).drop_last() =~= senders.take(n - 1));
        assert(again.take(n).drop_last() =~= again.take(n - 1));
        assert(senders.take(n).last() == s);
        assert(again.take(n).last() == f);
        lemma_position_from(people, s.phone, 0);
        assert(f.phone == s.phone);
        assert forall|k: int| 0 <= k < a.len() implies (#[trigger] a[k]).phone == b[k].phone by {
            assert(b[k].phone == a[k].phone);
        }
        lemma_position_by_identifiers(a, b, s.phone, 0);
        lemma_position_from(a, s.phone, 0);
        let a2 = resolved_participants(senders.take(n));
        let b2 = resolved_participants(again.take(n));
        assert(a2 == merged(a, s));
        assert(b2 == merged(b, f));
        assert forall|k: int|
            #![trigger b2[k]]
            0 <= k < a2.len() implies {
            &&& b2[k].phone == a2[k].phone
            &&& position_of(people, a2[k].phone).is_some()
            &&& b2[k] == people[position_of(people, a2[k].phone).unwrap()]
        } by {
            match position_of(a, s.phone) {
                Some(i) => {
                    if k != i {
                        assert(b[k].phone == a[k].phone);
                    }
                },
                None => {
                    if k < a.len() {
                        assert(b[k].phone == a[k].phone);
                    }
                },
            }
        }
    }
}

/// A thread that is written out as a document, each message as a block with
/// its sender's identifier and name and its content, and read again, has as
/// many messages as before, from the same senders and with the same
/// contents, and the same participants.
pub proof fn law_written_and_read_again(
    raw: RawDocumentView,
    times: Seq<Option<Seq<char>>>,
    tags: Option<Seq<char>>,
)
    requires
        thread_of(raw).is_ok(),
        times.len() == raw.blocks.len(),
    ensures
        ({
            let thread = thread_of(raw).unwrap();
            let again = thread_of(document_of(thread, times, tags));
            &&& again.is_ok()
            &&& again.unwrap().messages.len() == thread.messages.len()
            &&& again.unwrap().participants == thread.participants
            &&& forall|i: int|
                0 <= i < thread.messages.len() ==> (#[trigger] again.unwrap().messages[i]).from
                    == thread.messages[i].from && again.unwrap().messages[i].content
                    == thread.messages[i].content
        }),
{
    let thread = thread_of(raw).unwrap();
    let written = document_of(thread, times, tags);
    let senders = senders_of(raw.blocks);
    let people = resolved_participants(senders);
    let me = resolved_self(senders);
    lemma_missing_sender_from(written.blocks, 0);
    assert(thread_of(written).is_ok());
    let again = senders_of(written.blocks);
    law_participants_deduplicated(senders);
    assert forall|i: int| 0 <= i < senders.len() implies position_of(
        people,
        (#[trigger] senders[i]).phone,
    ).is_some() && again[i] == people[position_of(people, senders[i].phone).unwrap()] by {
        assert(has_identifier(senders, senders[i].phone));
        assert(has_identifier(people, senders[i].phone));
        lemma_position_from(people, senders[i].phone, 0);
        let from = thread.messages[i].from;
        assert(from == people[position_of(people, senders[i].phone).unwrap()]);
        let link = LINK_PREFIX@ + from.phone;
        assert(LINK_PREFIX@.is_prefix_of(link));
        assert(link.skip(LINK_PREFIX@.len() as int) =~= from.phone);
        assert(written.blocks[i] == block_of(thread.messages[i], times[i]));
        assert(again[i] == sender_of(written.blocks[i].sender.unwrap()));
    }
    lemma_resolved_again(senders, again, people, senders.len() as int);
    assert(senders.take(senders.len() as int) =~= senders);
    assert(again.take(senders.len() as int) =~= again);
    let people2 = resolved_participants(again);
    assert(people2 =~= people) by {
        assert forall|k: int| 0 <= k < people.len() implies people2[k] == people[k] by {
            lemma_position_from(people, people[k].phone, 0);
            let j = position_of(people, people[k].phone).unwrap();
            if j < k {
                assert(people[j].phone != people[k].phone);
            }
        }
    }
    let me2 = resolved_self(again);
    assert forall|i: int| 0 <= i < thread.messages.len() implies (#[trigger] thread_of(
        written,
    ).unwrap().messages[i]).from == thread.messages[i].from && thread_of(
        written,
    ).unwrap().messages[i].content == thread.messages[i].content by {
        let from = thread.messages[i].from;
        assert(again[i] == from);
        lemma_position_from(people, from.phone, 0);
        let j = position_of(people, from.phone).unwrap();
        let k = position_of(people, senders[i].phone).unwrap();
        lemma_position_from(people, senders[i].phone, 0);
        assert(from == people[k]);
        if j < k {
            assert(people[j].phone != people[k].phone);
        }
        assert(thread_of(written).unwrap().messages[i] == message_of(
            written.blocks[i],
            again[i],
            people2,
            me2,
        ));
    }
}

/// Every member of the resolved participants is one of the senders.
pub proof fn lemma_resolved_are_senders(senders: Seq<ParticipantView>)
    ensures
        forall|k: int|
            0 <= k < resolved_participants(senders).len() ==> senders.contains(
                #[trigger] resolved_participants(senders)[k],
            ),
    decreases senders.len(),
{
    if senders.len() > 0 {
        let front = senders.drop_last();
        let before = resolved_participants(front);
        let after = resolved_participants(senders);
        lemma_resolved_are_senders(front);
        lemma_position_from(before, senders.last().phone, 0);
        assert(senders[senders.len() - 1] == senders.last());
        assert forall|k: int| 0 <= k < after.len() implies senders.contains(
            #[trigger] after[k],
        ) by {
            if after[k] != senders.last() {
                assert(k < before.len() && after[k] == before[k]);
                assert(front.contains(before[k]));
                let j = choose|j: int| 0 <= j < front.len() && front[j] == before[k];
                assert(senders[j] == before[k]);
            }
        }
    }
}

/// Whether `p` is the sender of one of the messages.
pub open spec fn sends(messages: Seq<MessageView>, p: ParticipantView) -> bool {
    exists|i: int| 0 <= i < messages.len() && (#[trigger] messages[i]).from == p
}

/// Any thread whose participants have distinct identifiers and are exactly
/// the senders of its messages, written out as a document and read again,
/// has as many messages as before and the same set of participants.
pub proof fn law_any_thread_written_and_read_again(
    thread: ThreadView,
    times: Seq<Option<Seq<char>>>,
    tags: Option<Seq<char>>,
)
    requires
        distinct_identifiers(thread.participants),
        forall|i: int|
            0 <= i < thread.messages.len() ==> thread.participants.contains(
                (#[trigger] thread.messages[i]).from,
            ),
        forall|k: int|
            0 <= k < thread.participants.len() ==> sends(
                thread.messages,
                #[trigger] thread.participants[k],
            ),
        times.len() == thread.messages.len(),
    ensures
        ({
            let again = thread_of(document_of(thread, times, tags));
            &&& again.is_ok()
            &&& again.unwrap().messages.len() == thread.messages.len()
            &&& again.unwrap().participants.len() == thread.participants.len()
            &&& again.unwrap().participants.to_set() == thread.participants.to_set()
        }),
{
    let written = document_of(thread, times, tags);
    let from = senders_of(written.blocks);
    let people = resolved_participants(from);
    lemma_missing_sender_from(written.blocks, 0);
    assert(thread_of(written).is_ok());
    assert(thread_of(written).unwrap().participants == people);
    assert forall|i: int| 0 <= i < from.len() implies #[trigger] from[i]
        == thread.messages[i].from by {
        let sender = thread.messages[i].from;
        let link = LINK_PREFIX@ + sender.phone;
        assert(LINK_PREFIX@.is_prefix_of(link));
        assert(link.skip(LINK_PREFIX@.len() as int) =~= sender.phone);
        assert(written.blocks[i] == block_of(thread.messages[i], times[i]));
    }
    law_participants_deduplicated(from);
    lemma_resolved_are_senders(from);
    assert forall|p: ParticipantView| people.contains(p) implies thread.participants.contains(
        p,
    ) by {
        let k = choose|k: int| 0 <= k < people.len() && people[k] == p;
        assert(from.contains(people[k]));
        let j = choose|j: int| 0 <= j < from.len() && from[j] == p;
        assert(thread.participants.contains(thread.messages[j].from));
    }
    assert forall|p: ParticipantView| thread.participants.contains(p) implies people.contains(
        p,
    ) by {
        let k = choose|k: int| 0 <= k < thread.participants.len() && thread.participants[k] == p;
        assert(sends(thread.messages, thread.participants[k]));
        let j = choose|j: int|
            0 <= j < thread.messages.len() && (#[trigger] thread.messages[j]).from == p;
        assert(from[j] == p);
        assert(has_identifier(from, from[j].phone));
        assert(has_identifier(people, p.phone));
        let m = choose|m: int| 0 <= m < people.len() && (#[trigger] people[m]).phone == p.phone;
        assert(from.contains(people[m]));
        let n = choose|n: int| 0 <= n < from.len() && from[n] == people[m];
        assert(thread.participants.contains(thread.messages[n].from));
        let q = choose|q: int|
            0 <= q < thread.participants.len() && thread.participants[q] == people[m];
        if q != k {
            if q < k {
                assert(thread.participants[q].phone != thread.participants[k].phone);
            } else {
                assert(thread.participants[k].phone != thread.participants[q].phone);
            }
        }
        assert(people[m] == p);
    }
    assert(people.to_set() =~= thread.participants.to_set());
    assert(people.no_duplicates()) by {
        assert forall|i: int, j: int| 0 <= i < people.len() && 0 <= j < people.len() && i
            != j implies people[i] != people[j] by {
            if i < j {
                assert(people[i].phone != people[j].phone);
            } else {
                assert(people[j].phone != people[i].phone);
            }
        }
    }
    assert(thread.participants.no_duplicates()) by {
        assert forall|i: int, j: int|
            0 <= i < thread.participants.len() && 0 <= j < thread.participants.len() && i
                != j implies thread.participants[i] != thread.participants[j] by {
            if i < j {
                assert(thread.participants[i].phone != thread.participants[j].phone);
            } else {
                assert(thread.participants[j].phone != thread.participants[i].phone);
            }
        }
    }
    people.unique_seq_to_set();
    thread.participants.unique_seq_to_set();
}

} // verus!
