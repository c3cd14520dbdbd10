//! What a run over a directory of exports keeps count of: which files are
//! exports at all, and how many files, messages and distinct participants
//! the run has seen.

use crate::model::{Participant, ParticipantView, Thread, ThreadView};
use crate::resolve::{merge_into, merged};
use crate::text::{contains, first_occurrence};
use vstd::prelude::*;

verus! {

/// What the name of the export of a conversation between two holds.
pub const TEXT_LABEL: &'static str = "- Text -";

/// What the name of the export of a group conversation holds.
pub const GROUP_CONVERSATION_LABEL: &'static str = "Group Conversation -";

/// Whether a file of this name is the export of a conversation.
pub open spec fn names_export(name: Seq<char>) -> bool {
    first_occurrence(name, TEXT_LABEL@).is_some() || first_occurrence(
        name,
        GROUP_CONVERSATION_LABEL@,
    ).is_some()
}

/// Whether a file of this name is the export of a conversation.
pub fn is_export_name(name: &str) -> (r: bool)
    ensures
        r == names_export(name@),
{
    contains(name, TEXT_LABEL) || contains(name, GROUP_CONVERSATION_LABEL)
}

/// `people` with each of `more` put in, in order.
pub open spec fn merged_all(people: Seq<ParticipantView>, more: Seq<ParticipantView>) -> Seq<
    ParticipantView,
>
    decreases more.len(),
{
    if more.len() == 0 {
        people
    } else {
        merged(merged_all(people, more.drop_last()), more.last())
    }
}

/// The counts of a run.
#[derive(Debug, PartialEq, Eq)]
pub struct RunTotals {
    /// The number of files read.
    pub files_processed: usize,
    /// The number of messages in them.
    pub messages_extracted: usize,
    /// Their participants, one for each identifier.
    pub participants: Vec<Participant>,
}

/// The value of a [`RunTotals`].
pub struct RunTotalsView {
    pub files_processed: nat,
    pub messages_extracted: nat,
    pub participants: Seq<ParticipantView>,
}

impl DeepView for RunTotals {
    type V = RunTotalsView;

    open spec fn deep_view(&self) -> RunTotalsView {
        RunTotalsView {
            files_processed: self.files_processed as nat,
            messages_extracted: self.messages_extracted as nat,
            participants: self.participants.deep_view(),
        }
    }
}

/// The counts after one more file, which gave `thread`.
pub open spec fn recorded(totals: RunTotalsView, thread: ThreadView) -> RunTotalsView {
    RunTotalsView {
        files_processed: totals.files_processed + 1,
        messages_extracted: totals.messages_extracted + thread.messages.len(),
        participants: merged_all(totals.participants, thread.participants),
    }
}

impl RunTotals {
    /// The counts before the first file.
    pub fn new() -> (totals: RunTotals)
        ensures
            totals.deep_view() == (RunTotalsView {
                files_processed: 0,
                messages_extracted: 0,
                participants: Seq::empty(),
            }),
    {
        let totals = RunTotals {
            files_processed: 0,
            messages_extracted: 0,
            participants: Vec::new(),
        };
        assert(totals.participants.deep_view() =~= Seq::empty());
        totals
    }

    /// Whether the counts have room for one more file with this many
    /// messages.
    pub fn has_room(&self, messages: usize) -> (r: bool)
        ensures
            r == (self.files_processed < usize::MAX && self.messages_extracted + messages
                <= usize::MAX),
    {
        self.files_processed < usize::MAX && messages <= usize::MAX - self.messages_extracted
    }

    /// Counts one more file, which gave `thread`.
    pub fn record(&mut self, thread: &Thread)
        requires
            old(self).files_processed < usize::MAX,
            old(self).messages_extracted + thread.messages.len() <= usize::MAX,
        ensures
            final(self).deep_view() == recorded(old(self).deep_view(), thread.deep_view()),
    {
        self.files_processed = self.files_processed + 1;
        self.messages_extracted = self.messages_extracted + thread.messages.len();
        let ghost start = self.participants.deep_view();
        let mut i: usize = 0;
        assert(thread.participants.deep_view().take(0) =~= Seq::empty());
        while i < thread.participants.len()
            invariant
                i <= thread.participants.len(),
                self.files_processed == old(self).files_processed + 1,
                self.messages_extracted == old(self).messages_extracted + thread.messages.len(),
                self.participants.deep_view() == merged_all(
                    start,
                    thread.participants.deep_view().take(i as int),
                ),
            decreases thread.participants.len() - i,
        {
            let ghost next = thread.participants.deep_view().take(i + 1);
            assert(next.drop_last() =~= thread.participants.deep_view().take(i as int));
            assert(next.last() == thread.participants@[i as int].deep_view());
            merge_into(&mut self.participants, &thread.participants[i]);
            i += 1;
        }
        assert(thread.participants.deep_view().take(thread.participants.len() as int)
            =~= thread.participants.deep_view());
    }

    /// The number of distinct participants seen.
    pub fn unique_participants(&self) -> (n: usize)
        ensures
            n == self.deep_view().participants.len(),
    {
        self.participants.len()
    }
}

} // verus!
