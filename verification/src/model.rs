//! The conversation model: participants, messages and threads, each with the
//! mathematical value that contracts speak of.

use vstd::prelude::*;

verus! {

/// The display name that marks the archive's owner.
pub const SELF_NAME: &'static str = "Me";

/// The identifier that stands for one that the document does not give.
pub const UNKNOWN_ID: &'static str = "Unknown";

/// An instant: seconds since 1970-01-01T00:00:00Z and the nanoseconds within
/// that second.
#[derive(Clone, Copy, Debug, PartialEq, Eq, Structural)]
pub struct Timestamp {
    pub secs: i64,
    pub nanos: u32,
}

/// The instant that a message gets whose time cannot be read.
pub open spec fn epoch() -> Timestamp {
    Timestamp { secs: 0, nanos: 0 }
}

impl Timestamp {
    /// The instant that a message gets whose time cannot be read.
    pub fn epoch() -> (t: Timestamp)
        ensures
            t == epoch(),
    {
        Timestamp { secs: 0, nanos: 0 }
    }
}

/// A person in a conversation. `phone` identifies the person; `name` is what
/// the document calls them.
#[derive(Debug, PartialEq, Eq, Hash)]
pub struct Participant {
    pub name: String,
    pub phone: String,
}

/// The value of a [`Participant`].
pub struct ParticipantView {
    pub name: Seq<char>,
    pub phone: Seq<char>,
}

impl DeepView for Participant {
    type V = ParticipantView;

    open spec fn deep_view(&self) -> ParticipantView {
        ParticipantView { name: self.name@, phone: self.phone@ }
    }
}

impl Clone for Participant {
    fn clone(&self) -> (r: Participant)
        ensures
            r == *self,
    {
        Participant { name: self.name.clone(), phone: self.phone.clone() }
    }
}

/// The participant that stands for the archive's owner where no message
/// names them.
pub open spec fn default_self() -> ParticipantView {
    ParticipantView { name: SELF_NAME@, phone: UNKNOWN_ID@ }
}

impl Participant {
    /// The participant that stands for the archive's owner where no message
    /// names them.
    pub fn default_self() -> (p: Participant)
        ensures
            p.deep_view() == default_self(),
    {
        Participant { name: SELF_NAME.to_owned(), phone: UNKNOWN_ID.to_owned() }
    }
}

/// One message of a conversation.
#[derive(Debug, PartialEq, Eq)]
pub struct Message {
    pub from: Participant,
    pub to: Vec<Participant>,
    pub timestamp: Timestamp,
    pub content: String,
}

/// The value of a [`Message`].
pub struct MessageView {
    pub from: ParticipantView,
    pub to: Seq<ParticipantView>,
    pub timestamp: Timestamp,
    pub content: Seq<char>,
}

impl DeepView for Message {
    type V = MessageView;

    open spec fn deep_view(&self) -> MessageView {
        MessageView {
            from: self.from.deep_view(),
            to: self.to.deep_view(),
            timestamp: self.timestamp,
            content: self.content@,
        }
    }
}

/// The conversation held in one document.
#[derive(Debug, PartialEq, Eq)]
pub struct Thread {
    pub messages: Vec<Message>,
    pub participants: Vec<Participant>,
    pub labels: Vec<String>,
}

/// The value of a [`Thread`].
pub struct ThreadView {
    pub messages: Seq<MessageView>,
    pub participants: Seq<ParticipantView>,
    pub labels: Seq<Seq<char>>,
}

impl DeepView for Thread {
    type V = ThreadView;

    open spec fn deep_view(&self) -> ThreadView {
        ThreadView {
            messages: self.messages.deep_view(),
            participants: self.participants.deep_view(),
            labels: self.labels.deep_view(),
        }
    }
}

impl Thread {
    /// The number of messages of the thread.
    pub fn message_count(&self) -> (n: usize)
        ensures
            n == self.deep_view().messages.len(),
    {
        self.messages.len()
    }
}

} // verus!
