//! The parser for line-oriented transcripts.
//!
//! A transcript is read line by line. A line that begins with a time starts
//! a message; a line that does not continues the message before it. The
//! parser is a state machine whose state is the labels and messages read so
//! far and the message in progress, and whose transition, [`step`], is a
//! function of the state and the line.

use crate::clock::{line_time, parse_line_time, times_writable, writable_time};
use crate::labels::{labels_of, parse_labels};
use crate::model::{
    default_self, Message, MessageView, Participant, ParticipantView, Thread, ThreadView,
    Timestamp,
};
use crate::resolve::{
    has_identifier, law_participants_deduplicated, resolve_participants, resolved_participants,
    well_formed,
};
use crate::text::{split_once, split_once_at, starts_with};
use vstd::prelude::*;

verus! {

/// What a line that sets the labels begins with.
pub const LABEL_MARKER: &'static str = "Labels:";

/// What a line that records a deleted message begins with.
pub const DELETED_MARKER: &'static str = "Deleted:";

/// What parts the time, the sender and the content of a line.
pub const DELIMITER: &'static str = ": ";

/// What parts the lines of a message's content.
pub const LINE_BREAK: &'static str = "\n";

/// What a line means to the parser.
#[derive(Debug, PartialEq, Eq)]
pub enum LineEvent {
    /// The line sets the labels.
    Labels(Vec<String>),
    /// The line records a deleted message.
    Deleted,
    /// The line begins with a time and starts a message.
    Starts { time: Timestamp, sender: String, content: String },
    /// The line begins with a time, but has no sender and content.
    Malformed,
    /// The line does not begin with a time.
    Continues,
}

/// The value of a [`LineEvent`].
pub enum LineEventView {
    Labels(Seq<Seq<char>>),
    Deleted,
    Starts { time: Timestamp, sender: Seq<char>, content: Seq<char> },
    Malformed,
    Continues,
}

impl DeepView for LineEvent {
    type V = LineEventView;

    open spec fn deep_view(&self) -> LineEventView {
        match self {
            LineEvent::Labels(labels) => LineEventView::Labels(labels.deep_view()),
            LineEvent::Deleted => LineEventView::Deleted,
            LineEvent::Starts { time, sender, content } => LineEventView::Starts {
                time: *time,
                sender: sender@,
                content: content@,
            },
            LineEvent::Malformed => LineEventView::Malformed,
            LineEvent::Continues => LineEventView::Continues,
        }
    }
}

/// What may be the time of a line: what stands before its first delimiter,
/// or all of it where it has none.
pub open spec fn time_prefix(line: Seq<char>) -> Seq<char> {
    match split_once(line, DELIMITER@) {
        Some(parts) => parts.0,
        None => line,
    }
}

/// The sender and the content of a line: what stands between its first two
/// delimiters, and what follows the second; `None` where it has no two
/// delimiters.
pub open spec fn sender_and_content(line: Seq<char>) -> Option<(Seq<char>, Seq<char>)> {
    match split_once(line, DELIMITER@) {
        Some(parts) => split_once(parts.1, DELIMITER@),
        None => None,
    }
}

/// What `line` means to the parser where `head_time` is what was read as
/// a time at its front.
pub open spec fn event_for(line: Seq<char>, head_time: Option<Timestamp>) -> LineEventView {
    if LABEL_MARKER@.is_prefix_of(line) {
        LineEventView::Labels(labels_of(line))
    } else if DELETED_MARKER@.is_prefix_of(line) {
        LineEventView::Deleted
    } else {
        match head_time {
            Some(time) => match sender_and_content(line) {
                Some(parts) => LineEventView::Starts { time, sender: parts.0, content: parts.1 },
                None => LineEventView::Malformed,
            },
            None => LineEventView::Continues,
        }
    }
}

/// What `line` means to the parser.
pub open spec fn classified(line: Seq<char>) -> LineEventView {
    event_for(line, line_time(time_prefix(line)))
}

/// Whether the time of the message that the event starts, if it starts
/// one, can be written as RFC 3339 text.
pub open spec fn event_writable(event: LineEventView) -> bool {
    event matches LineEventView::Starts { time, .. } ==> writable_time(time)
}

/// The parser's state.
#[derive(Debug, PartialEq, Eq)]
pub struct LineState {
    /// The labels set by the last label line.
    pub labels: Vec<String>,
    /// The messages that are complete.
    pub messages: Vec<Message>,
    /// The message that further lines may continue.
    pub current: Option<Message>,
}

/// The value of a [`LineState`].
pub struct LineStateView {
    pub labels: Seq<Seq<char>>,
    pub messages: Seq<MessageView>,
    pub current: Option<MessageView>,
}

impl DeepView for LineState {
    type V = LineStateView;

    open spec fn deep_view(&self) -> LineStateView {
        LineStateView {
            labels: self.labels.deep_view(),
            messages: self.messages.deep_view(),
            current: self.current.deep_view(),
        }
    }
}

/// Whether the time of every message of the state, the one in progress
/// too, can be written as RFC 3339 text.
pub open spec fn state_writable(state: LineStateView) -> bool {
    &&& forall|i: int|
        0 <= i < state.messages.len() ==> writable_time((#[trigger] state.messages[i]).timestamp)
    &&& state.current matches Some(message) ==> writable_time(message.timestamp)
}

/// The state before the first line.
pub open spec fn initial_state() -> LineStateView {
    LineStateView { labels: Seq::empty(), messages: Seq::empty(), current: None }
}

/// The complete messages of `state` and, after them, its message in
/// progress.
pub open spec fn flushed(state: LineStateView) -> Seq<MessageView> {
    match state.current {
        Some(message) => state.messages.push(message),
        None => state.messages,
    }
}

/// The participant that a transcript's sender stands for: the text serves
/// as name and as identifier.
pub open spec fn line_sender(sender: Seq<char>) -> ParticipantView {
    ParticipantView { name: sender, phone: sender }
}

/// The message that a line starts. A transcript does not say to whom a
/// message goes: the recipient is the default owner.
pub open spec fn started(time: Timestamp, sender: Seq<char>, content: Seq<char>) -> MessageView {
    MessageView { from: line_sender(sender), to: seq![default_self()], timestamp: time, content }
}

/// `message` with `line` as a further line of its content.
pub open spec fn continued(message: MessageView, line: Seq<char>) -> MessageView {
    MessageView {
        from: message.from,
        to: message.to,
        timestamp: message.timestamp,
        content: message.content + LINE_BREAK@ + line,
    }
}

/// The state after `line` where `event` is what the line means.
pub open spec fn applied(
    state: LineStateView,
    event: LineEventView,
    line: Seq<char>,
) -> LineStateView {
    match event {
        LineEventView::Labels(labels) => LineStateView {
            labels,
            messages: state.messages,
            current: state.current,
        },
        LineEventView::Deleted => state,
        LineEventView::Starts { time, sender, content } => LineStateView {
            labels: state.labels,
            messages: flushed(state),
            current: Some(started(time, sender, content)),
        },
        LineEventView::Malformed => LineStateView {
            labels: state.labels,
            messages: flushed(state),
            current: None,
        },
        LineEventView::Continues => LineStateView {
            labels: state.labels,
            messages: state.messages,
            current: match state.current {
                Some(message) => Some(continued(message, line)),
                None => None,
            },
        },
    }
}

/// The state after `line`.
pub open spec fn next_state(state: LineStateView, line: Seq<char>) -> LineStateView {
    applied(state, classified(line), line)
}

/// The state after `lines`, in order, from `state` on.
pub open spec fn state_after(state: LineStateView, lines: Seq<Seq<char>>) -> LineStateView
    decreases lines.len(),
{
    if lines.len() == 0 {
        state
    } else {
        next_state(state_after(state, lines.drop_last()), lines.last())
    }
}

/// The senders of `messages`, in order.
pub open spec fn senders(messages: Seq<MessageView>) -> Seq<ParticipantView> {
    Seq::new(messages.len(), |i: int| messages[i].from)
}

/// The thread that the input gives when it ends in `state`.
pub open spec fn finished(state: LineStateView) -> ThreadView {
    let messages = flushed(state);
    ThreadView {
        messages,
        participants: resolved_participants(senders(messages)),
        labels: state.labels,
    }
}

/// The thread of a transcript with the lines `lines`.
pub open spec fn transcript_thread(lines: Seq<Seq<char>>) -> ThreadView {
    finished(state_after(initial_state(), lines))
}

/// A line that starts a message, a line after it that does not begin with a
/// time and is no label or deleted line, and then the end of the input give
/// one message, whose content is that of the first line, a line break, and
/// the whole second line.
pub proof fn law_continuation_accumulates(first: Seq<char>, second: Seq<char>)
    requires
        classified(first) is Starts,
        classified(second) is Continues,
    ensures
        transcript_thread(seq![first, second]).messages.len() == 1,
        transcript_thread(seq![first, second]).messages[0].content == classified(
            first,
        )->Starts_content + LINE_BREAK@ + second,
        LINE_BREAK@ == seq!['\n'],
{
    let lines = seq![first, second];
    assert(lines.drop_last() =~= seq![first]);
    assert(lines.drop_last().drop_last() =~= Seq::<Seq<char>>::empty());
    reveal_with_fuel(state_after, 3);
    reveal_strlit("\n");
    assert(LINE_BREAK@ =~= seq!['\n']);
}

/// No line other than one that starts a message adds a message, and no
/// line removes one: after any line, the messages read before it are still
/// there, in order.
pub proof fn law_lines_keep_messages(state: LineStateView, line: Seq<char>)
    ensures
        flushed(state).len() <= flushed(next_state(state, line)).len() <= flushed(state).len()
            + 1,
        forall|i: int|
            0 <= i < state.messages.len() ==> flushed(next_state(state, line))[i]
                == #[trigger] state.messages[i],
{
}

/// The thread that the input gives, in whatever state it ends, is well
/// formed where every message of the state goes to one recipient, as every
/// message that a line starts does.
pub proof fn law_transcript_well_formed(state: LineStateView)
    requires
        forall|i: int|
            0 <= i < flushed(state).len() ==> (#[trigger] flushed(state)[i]).to.len() == 1,
    ensures
        well_formed(finished(state)),
{
    let messages = flushed(state);
    let from = senders(messages);
    law_participants_deduplicated(from);
    assert forall|i: int| 0 <= i < messages.len() implies has_identifier(
        resolved_participants(from),
        (#[trigger] messages[i]).from.phone,
    ) by {
        assert(from[i].phone == messages[i].from.phone);
        assert(has_identifier(from, messages[i].from.phone));
    }
}

/// Every message of the state after some lines goes to one recipient.
pub proof fn lemma_one_recipient(lines: Seq<Seq<char>>)
    ensures
        forall|i: int|
            0 <= i < flushed(state_after(initial_state(), lines)).len() ==> (#[trigger] flushed(
                state_after(initial_state(), lines),
            )[i]).to.len() == 1,
    decreases lines.len(),
{
    if lines.len() > 0 {
        lemma_one_recipient(lines.drop_last());
        let before = state_after(initial_state(), lines.drop_last());
        let after = state_after(initial_state(), lines);
        assert(after == next_state(before, lines.last()));
        assert forall|i: int| 0 <= i < flushed(after).len() implies (#[trigger] flushed(
            after,
        )[i]).to.len() == 1 by {
            if i < flushed(before).len() {
                assert(flushed(before)[i].to.len() == 1);
            }
        }
    }
}

/// The thread of a transcript is well formed.
pub proof fn law_transcript_thread_well_formed(lines: Seq<Seq<char>>)
    ensures
        well_formed(transcript_thread(lines)),
{
    lemma_one_recipient(lines);
    law_transcript_well_formed(state_after(initial_state(), lines));
}

/// The state before the first line.
pub fn start() -> (state: LineState)
    ensures
        state.deep_view() == initial_state(),
        state_writable(state.deep_view()),
{
    let state = LineState { labels: Vec::new(), messages: Vec::new(), current: None };
    assert(state.labels.deep_view() =~= Seq::empty());
    assert(state.messages.deep_view() =~= Seq::empty());
    state
}

/// What may be the time of a line: what stands before its first delimiter,
/// or all of it where it has none.
pub fn head_of(line: &str) -> (head: String)
    ensures
        head@ == time_prefix(line@),
{
    match split_once_at(line, DELIMITER) {
        Some((head, _)) => head,
        None => line.to_owned(),
    }
}

/// What `line` means to the parser where `head_time` is what was read as
/// a time at its front.
pub fn event_of(line: &str, head_time: Option<Timestamp>) -> (event: LineEvent)
    ensures
        event.deep_view() == event_for(line@, head_time),
        (head_time matches Some(time) ==> writable_time(time)) ==> event_writable(
            event.deep_view(),
        ),
{
    if starts_with(line, LABEL_MARKER) {
        return LineEvent::Labels(parse_labels(line));
    }
    if starts_with(line, DELETED_MARKER) {
        return LineEvent::Deleted;
    }
    let time = match head_time {
        Some(time) => time,
        None => {
            return LineEvent::Continues;
        },
    };
    match split_once_at(line, DELIMITER) {
        Some((_, rest)) => match split_once_at(rest.as_str(), DELIMITER) {
            Some((sender, content)) => LineEvent::Starts { time, sender, content },
            None => LineEvent::Malformed,
        },
        None => LineEvent::Malformed,
    }
}

/// What `line` means to the parser.
pub fn classify(line: &str) -> (event: LineEvent)
    ensures
        event.deep_view() == classified(line@),
        event_writable(event.deep_view()),
{
    let head = head_of(line);
    let head_time = parse_line_time(head.as_str());
    event_of(line, head_time)
}

/// A line whose event starts no message that cannot be written leaves a
/// state in which every message can be written.
pub proof fn lemma_applied_writable(state: LineStateView, event: LineEventView, line: Seq<char>)
    requires
        state_writable(state),
        event_writable(event),
    ensures
        state_writable(applied(state, event, line)),
{
    let next = applied(state, event, line);
    assert forall|i: int| 0 <= i < next.messages.len() implies writable_time(
        (#[trigger] next.messages[i]).timestamp,
    ) by {
        if i < state.messages.len() {
            assert(next.messages[i] == state.messages[i]);
        }
    }
}

/// The state after `line` where `event` is what the line means.
pub fn apply(state: LineState, event: LineEvent, line: &str) -> (next: LineState)
    ensures
        next.deep_view() == applied(state.deep_view(), event.deep_view(), line@),
        state_writable(state.deep_view()) && event_writable(event.deep_view())
            ==> state_writable(next.deep_view()),
{
    proof {
        if state_writable(state.deep_view()) && event_writable(event.deep_view()) {
            lemma_applied_writable(state.deep_view(), event.deep_view(), line@);
        }
    }
    let LineState { labels, messages, current } = state;
    match event {
        LineEvent::Labels(found) => LineState { labels: found, messages, current },
        LineEvent::Deleted => LineState { labels, messages, current },
        LineEvent::Starts { time, sender, content } => {
            let messages = flush(messages, current);
            let mut to: Vec<Participant> = Vec::new();
            to.push(Participant::default_self());
            assert(to.deep_view() =~= seq![default_self()]);
            let from = Participant { name: sender.clone(), phone: sender };
            let message = Message { from, to, timestamp: time, content };
            LineState { labels, messages, current: Some(message) }
        },
        LineEvent::Malformed => {
            let messages = flush(messages, current);
            LineState { labels, messages, current: None }
        },
        LineEvent::Continues => match current {
            Some(message) => {
                let Message { from, to, timestamp, content } = message;
                let mut content = content;
                content.append(LINE_BREAK);
                content.append(line);
                let message = Message { from, to, timestamp, content };
                LineState { labels, messages, current: Some(message) }
            },
            None => LineState { labels, messages, current: None },
        },
    }
}

/// `messages` and, after them, `current`, if there is one.
fn flush(messages: Vec<Message>, current: Option<Message>) -> (r: Vec<Message>)
    ensures
        r.deep_view() == match current {
            Some(message) => messages.deep_view().push(message.deep_view()),
            None => messages.deep_view(),
        },
{
    let mut r = messages;
    match current {
        Some(message) => {
            let ghost before = r.deep_view();
            r.push(message);
            assert(r.deep_view() =~= before.push(message.deep_view()));
        },
        None => {},
    }
    r
}

/// The state after `line`.
pub fn step(state: LineState, line: &str) -> (next: LineState)
    ensures
        next.deep_view() == next_state(state.deep_view(), line@),
        state_writable(state.deep_view()) ==> state_writable(next.deep_view()),
{
    let event = classify(line);
    apply(state, event, line)
}

/// The thread that the input gives when it ends in `state`.
pub fn finish(state: LineState) -> (thread: Thread)
    ensures
        thread.deep_view() == finished(state.deep_view()),
        state_writable(state.deep_view()) ==> times_writable(thread.deep_view()),
{
    proof {
        if state_writable(state.deep_view()) {
            let view = state.deep_view();
            assert forall|i: int| 0 <= i < flushed(view).len() implies writable_time(
                (#[trigger] flushed(view)[i]).timestamp,
            ) by {
                if i < view.messages.len() {
                    assert(flushed(view)[i] == view.messages[i]);
                }
            }
        }
    }
    let LineState { labels, messages, current } = state;
    let messages = flush(messages, current);
    let mut from: Vec<Participant> = Vec::new();
    let mut i: usize = 0;
    while i < messages.len()
        invariant
            i <= messages.len(),
            from.len() == i,
            forall|k: int|
                0 <= k < i ==> (#[trigger] from@[k]).deep_view() == messages@[k].deep_view().from,
        decreases messages.len() - i,
    {
        from.push(messages[i].from.clone());
        i += 1;
    }
    assert(from.deep_view() =~= senders(messages.deep_view()));
    let (participants, _) = resolve_participants(&from);
    Thread { messages, participants, labels }
}

/// The thread of a transcript with the lines `lines`.
pub fn parse_transcript(lines: &Vec<String>) -> (thread: Thread)
    ensures
        thread.deep_view() == transcript_thread(lines.deep_view()),
        well_formed(thread.deep_view()),
        times_writable(thread.deep_view()),
{
    let mut state = start();
    let mut i: usize = 0;
    assert(lines.deep_view().take(0) =~= Seq::empty());
    while i < lines.len()
        invariant
            i <= lines.len(),
            state.deep_view() == state_after(initial_state(), lines.deep_view().take(i as int)),
            state_writable(state.deep_view()),
        decreases lines.len() - i,
    {
        let ghost next = lines.deep_view().take(i + 1);
        assert(next.drop_last() =~= lines.deep_view().take(i as int));
        assert(next.last() == lines@[i as int]@);
        state = step(state, lines[i].as_str());
        i += 1;
    }
    assert(lines.deep_view().take(lines.len() as int) =~= lines.deep_view());
    proof {
        law_transcript_thread_well_formed(lines.deep_view());
    }
    finish(state)
}

} // verus!
