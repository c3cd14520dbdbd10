//! What a batch of threads sends to the graph store: first the participants
//! of all its threads, to be merged by identifier, then the messages of all
//! its threads, to be created and linked to their senders and recipients.
//! The second operation finds the participants that the first one wrote.

use crate::bolt::{
    bolt_items, bolt_value, list_value, map_value, new_list, new_map, new_query, no_entries,
    push_item, put_entry, query_params, query_text, text_value, with_param, BoltValue,
};
use crate::clock::{rfc3339_text, times_writable, writable_time, write_rfc3339};
use crate::model::{Message, MessageView, Participant, ParticipantView, Thread, ThreadView};
use vstd::prelude::*;

verus! {

/// The statement that merges the participants of a batch.
pub const UPSERT_PARTICIPANTS: &'static str =
    "UNWIND $participants AS participant
         MERGE (p:Participant {phone: participant.phone})
         SET p.name = participant.name";

/// The statement that creates the messages of a batch: one node for each
/// message, linked from its sender, and then one link to each recipient.
pub const CREATE_MESSAGES: &'static str =
    "UNWIND $messages AS message
         MATCH (from:Participant {phone: message.from_phone})
         CREATE (m:Message {content: message.content, timestamp: message.timestamp})
         CREATE (from)-[:SENT]->(m)
         WITH message, m
         UNWIND message.to_phones AS to_phone
         MATCH (to:Participant {phone: to_phone})
         CREATE (m)-[:TO]->(to)";

/// The name of the parameter that carries the participants.
pub const PARTICIPANTS_PARAMETER: &'static str = "participants";

/// The name of the parameter that carries the messages.
pub const MESSAGES_PARAMETER: &'static str = "messages";

/// The participants of all the threads of `batch`, thread by thread; one
/// that several threads list comes once for each.
pub open spec fn participants_of(batch: Seq<ThreadView>) -> Seq<ParticipantView>
    decreases batch.len(),
{
    if batch.len() == 0 {
        Seq::empty()
    } else {
        participants_of(batch.drop_last()) + batch.last().participants
    }
}

/// The messages of all the threads of `batch`, thread by thread.
pub open spec fn messages_of(batch: Seq<ThreadView>) -> Seq<MessageView>
    decreases batch.len(),
{
    if batch.len() == 0 {
        Seq::empty()
    } else {
        messages_of(batch.drop_last()) + batch.last().messages
    }
}

/// The record that the store gets of a participant.
pub open spec fn participant_record(p: ParticipantView) -> BoltValue {
    BoltValue::Record(
        no_entries().insert("phone"@, BoltValue::Text(p.phone)).insert(
            "name"@,
            BoltValue::Text(p.name),
        ),
    )
}

/// The identifiers of `people`, each as a text value.
pub open spec fn phone_values(people: Seq<ParticipantView>) -> Seq<BoltValue> {
    Seq::new(people.len(), |i: int| BoltValue::Text(people[i].phone))
}

/// Whether the time of `m` can be written as RFC 3339 text.
pub open spec fn writable(m: MessageView) -> bool {
    writable_time(m.timestamp)
}

/// The record that the store gets of a message whose time is written as
/// `time`.
pub open spec fn message_record_with(m: MessageView, time: Seq<char>) -> BoltValue {
    BoltValue::Record(
        no_entries().insert("from_phone"@, BoltValue::Text(m.from.phone)).insert(
            "to_phones"@,
            BoltValue::List(phone_values(m.to)),
        ).insert("content"@, BoltValue::Text(m.content)).insert(
            "timestamp"@,
            BoltValue::Text(time),
        ),
    )
}

/// The record that the store gets of a message whose time can be written.
pub open spec fn message_record(m: MessageView) -> BoltValue {
    message_record_with(
        m,
        rfc3339_text(m.timestamp.secs as int, m.timestamp.nanos as int).unwrap(),
    )
}

/// The value of the participants parameter for `batch`.
pub open spec fn participant_params(batch: Seq<ThreadView>) -> BoltValue {
    let people = participants_of(batch);
    BoltValue::List(Seq::new(people.len(), |i: int| participant_record(people[i])))
}

/// Whether the time of every message of `messages` can be written.
pub open spec fn all_writable(messages: Seq<MessageView>) -> bool {
    forall|i: int| 0 <= i < messages.len() ==> writable(#[trigger] messages[i])
}

/// The value of the messages parameter for `batch`, or `None` where the
/// time of one of its messages cannot be written.
pub open spec fn message_params(batch: Seq<ThreadView>) -> Option<BoltValue> {
    let messages = messages_of(batch);
    if all_writable(messages) {
        Some(BoltValue::List(Seq::new(messages.len(), |i: int| message_record(messages[i]))))
    } else {
        None
    }
}

/// The messages of threads whose times can all be written can all be
/// written.
pub proof fn lemma_messages_writable(batch: Seq<ThreadView>)
    requires
        forall|i: int| 0 <= i < batch.len() ==> times_writable(#[trigger] batch[i]),
    ensures
        all_writable(messages_of(batch)),
    decreases batch.len(),
{
    if batch.len() > 0 {
        let front = batch.drop_last();
        assert forall|i: int| 0 <= i < front.len() implies times_writable(#[trigger] front[i]) by {
            assert(front[i] == batch[i]);
        }
        lemma_messages_writable(front);
        let all = messages_of(batch);
        let before = messages_of(front);
        assert(times_writable(batch[batch.len() - 1]));
        assert forall|k: int| 0 <= k < all.len() implies writable(#[trigger] all[k]) by {
            if k < before.len() {
                assert(all[k] == before[k]);
            } else {
                assert(all[k] == batch.last().messages[k - before.len()]);
            }
        }
    }
}

/// A batch of threads whose times can all be written, as those of the
/// threads that the parsers give can, has its messages parameter.
pub proof fn law_parsed_batches_are_written(batch: Seq<ThreadView>)
    requires
        forall|i: int| 0 <= i < batch.len() ==> times_writable(#[trigger] batch[i]),
    ensures
        message_params(batch).is_some(),
{
    lemma_messages_writable(batch);
}

/// The participants of all the threads of `batch`, thread by thread.
fn collect_participants<'a>(batch: &'a [Thread]) -> (r: Vec<&'a Participant>)
    ensures
        r.deep_view() == participants_of(batch.deep_view()),
{
    let mut r: Vec<&'a Participant> = Vec::new();
    let mut i: usize = 0;
    assert(batch.deep_view().take(0) =~= Seq::empty());
    assert(r.deep_view() =~= Seq::empty());
    while i < batch.len()
        invariant
            i <= batch.len(),
            r.deep_view() == participants_of(batch.deep_view().take(i as int)),
        decreases batch.len() - i,
    {
        let thread = &batch[i];
        let ghost base = r.deep_view();
        let ghost next = batch.deep_view().take(i + 1);
        assert(next.drop_last() =~= batch.deep_view().take(i as int));
        assert(next.last() == thread.deep_view());
        let mut j: usize = 0;
        assert(base + thread.participants.deep_view().take(0) =~= base);
        while j < thread.participants.len()
            invariant
                j <= thread.participants.len(),
                r.deep_view() == base + thread.participants.deep_view().take(j as int),
            decreases thread.participants.len() - j,
        {
            let ghost before = r.deep_view();
            r.push(&thread.participants[j]);
            assert(r.deep_view() =~= before.push(thread.participants@[j as int].deep_view()));
            assert(r.deep_view() =~= base + thread.participants.deep_view().take(j + 1));
            j += 1;
        }
        assert(thread.participants.deep_view().take(thread.participants.len() as int)
            =~= thread.participants.deep_view());
        i += 1;
    }
    assert(batch.deep_view().take(batch.len() as int) =~= batch.deep_view());
    r
}

/// The messages of all the threads of `batch`, thread by thread.
fn collect_messages<'a>(batch: &'a [Thread]) -> (r: Vec<&'a Message>)
    ensures
        r.deep_view() == messages_of(batch.deep_view()),
{
    let mut r: Vec<&'a Message> = Vec::new();
    let mut i: usize = 0;
    assert(batch.deep_view().take(0) =~= Seq::empty());
    assert(r.deep_view() =~= Seq::empty());
    while i < batch.len()
        invariant
            i <= batch.len(),
            r.deep_view() == messages_of(batch.deep_view().take(i as int)),
        decreases batch.len() - i,
    {
        let thread = &batch[i];
        let ghost base = r.deep_view();
        let ghost next = batch.deep_view().take(i + 1);
        assert(next.drop_last() =~= batch.deep_view().take(i as int));
        assert(next.last() == thread.deep_view());
        let mut j: usize = 0;
        assert(base + thread.messages.deep_view().take(0) =~= base);
        while j < thread.messages.len()
            invariant
                j <= thread.messages.len(),
                r.deep_view() == base + thread.messages.deep_view().take(j as int),
            decreases thread.messages.len() - j,
        {
            let ghost before = r.deep_view();
            r.push(&thread.messages[j]);
            assert(r.deep_view() =~= before.push(thread.messages@[j as int].deep_view()));
            assert(r.deep_view() =~= base + thread.messages.deep_view().take(j + 1));
            j += 1;
        }
        assert(thread.messages.deep_view().take(thread.messages.len() as int)
            =~= thread.messages.deep_view());
        i += 1;
    }
    assert(batch.deep_view().take(batch.len() as int) =~= batch.deep_view());
    r
}

/// The record that the store gets of a participant: identifier and name.
pub fn participant_value(p: &Participant) -> (r: neo4rs::BoltType)
    ensures
        bolt_value(r) == participant_record(p.deep_view()),
{
    let mut map = new_map();
    put_entry(&mut map, "phone", text_value(p.phone.as_str()));
    put_entry(&mut map, "name", text_value(p.name.as_str()));
    map_value(map)
}

/// The record that the store gets of a message whose time is written as
/// `time`: the sender's identifier, the recipients' identifiers, in order,
/// the content and the time.
pub fn message_value(m: &Message, time: &str) -> (r: neo4rs::BoltType)
    ensures
        bolt_value(r) == message_record_with(m.deep_view(), time@),
{
    let mut to_phones = new_list();
    let mut j: usize = 0;
    assert(bolt_items(to_phones) =~= phone_values(m.to.deep_view().take(0)));
    while j < m.to.len()
        invariant
            j <= m.to.len(),
            bolt_items(to_phones) == phone_values(m.to.deep_view().take(j as int)),
        decreases m.to.len() - j,
    {
        push_item(&mut to_phones, text_value(m.to[j].phone.as_str()));
        assert(bolt_items(to_phones) =~= phone_values(m.to.deep_view().take(j + 1)));
        j += 1;
    }
    assert(m.to.deep_view().take(m.to.len() as int) =~= m.to.deep_view());
    let mut map = new_map();
    put_entry(&mut map, "from_phone", text_value(m.from.phone.as_str()));
    put_entry(&mut map, "to_phones", list_value(to_phones));
    put_entry(&mut map, "content", text_value(m.content.as_str()));
    put_entry(&mut map, "timestamp", text_value(time));
    map_value(map)
}

/// The value of the participants parameter for `batch`: a list with one
/// record, of identifier and name, for each participant of each thread.
pub fn participant_to_params(batch: &[Thread]) -> (r: neo4rs::BoltType)
    ensures
        bolt_value(r) == participant_params(batch.deep_view()),
{
    let people = collect_participants(batch);
    let ghost views = people.deep_view();
    let mut list = new_list();
    let mut i: usize = 0;
    while i < people.len()
        invariant
            i <= people.len(),
            views == people.deep_view(),
            bolt_items(list) == Seq::new(i as nat, |k: int| participant_record(views[k])),
        decreases people.len() - i,
    {
        let record = participant_value(people[i]);
        assert(bolt_value(record) == participant_record(views[i as int]));
        push_item(&mut list, record);
        assert(bolt_items(list) =~= Seq::new(
            (i + 1) as nat,
            |k: int| participant_record(views[k]),
        ));
        i += 1;
    }
    list_value(list)
}

/// The value of the messages parameter for `batch`: a list with one record,
/// of the sender's identifier, the recipients' identifiers, the content and
/// the time as RFC 3339 text, for each message of each thread; `None` where
/// the time of a message cannot be written.
pub fn message_to_params(batch: &[Thread]) -> (r: Option<neo4rs::BoltType>)
    ensures
        match r {
            Some(value) => message_params(batch.deep_view()) == Some(bolt_value(value)),
            None => message_params(batch.deep_view()).is_none(),
        },
        (forall|i: int| 0 <= i < batch.len() ==> times_writable(#[trigger] batch.deep_view()[i]))
            ==> r.is_some(),
{
    let ghost promised = forall|i: int|
        0 <= i < batch.len() ==> times_writable(#[trigger] batch.deep_view()[i]);
    proof {
        if promised {
            lemma_messages_writable(batch.deep_view());
        }
    }
    let messages = collect_messages(batch);
    let ghost views = messages.deep_view();
    let mut list = new_list();
    let mut i: usize = 0;
    while i < messages.len()
        invariant
            i <= messages.len(),
            views == messages.deep_view(),
            views == messages_of(batch.deep_view()),
            promised == (forall|k: int|
                0 <= k < batch.len() ==> times_writable(#[trigger] batch.deep_view()[k])),
            promised ==> all_writable(views),
            forall|k: int| 0 <= k < i ==> writable(#[trigger] views[k]),
            bolt_items(list) == Seq::new(i as nat, |k: int| message_record(views[k])),
        decreases messages.len() - i,
    {
        let m = messages[i];
        assert(views[i as int] == m.deep_view());
        let time = match write_rfc3339(m.timestamp) {
            Some(text) => text,
            None => {
                assert(!writable(views[i as int]));
                return None;
            },
        };
        let record = message_value(m, time.as_str());
        assert(bolt_value(record) == message_record(views[i as int]));
        push_item(&mut list, record);
        assert(bolt_items(list) =~= Seq::new((i + 1) as nat, |k: int| message_record(views[k])));
        i += 1;
    }
    Some(list_value(list))
}

/// The two operations that write a batch, in the order in which they must
/// run.
pub struct BatchOperations {
    /// Merges the participants; runs first.
    pub participants: neo4rs::Query,
    /// Creates the messages; runs second.
    pub messages: neo4rs::Query,
}

/// The two operations that write `batch`, or `None` where the time of one
/// of its messages cannot be written.
pub fn batch_operations(batch: &[Thread]) -> (r: Option<BatchOperations>)
    ensures
        match r {
            Some(operations) => {
                &&& query_text(operations.participants) == UPSERT_PARTICIPANTS@
                &&& query_params(operations.participants) == no_entries().insert(
                    PARTICIPANTS_PARAMETER@,
                    participant_params(batch.deep_view()),
                )
                &&& query_text(operations.messages) == CREATE_MESSAGES@
                &&& message_params(batch.deep_view()).is_some()
                &&& query_params(operations.messages) == no_entries().insert(
                    MESSAGES_PARAMETER@,
                    message_params(batch.deep_view()).unwrap(),
                )
            },
            None => message_params(batch.deep_view()).is_none(),
        },
        (forall|i: int| 0 <= i < batch.len() ==> times_writable(#[trigger] batch.deep_view()[i]))
            ==> r.is_some(),
{
    let people = participant_to_params(batch);
    match message_to_params(batch) {
        Some(messages) => Some(
            BatchOperations {
                participants: with_param(
                    new_query(UPSERT_PARTICIPANTS),
                    PARTICIPANTS_PARAMETER,
                    people,
                ),
                messages: with_param(new_query(CREATE_MESSAGES), MESSAGES_PARAMETER, messages),
            },
        ),
        None => None,
    }
}

} // verus!
