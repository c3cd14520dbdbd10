//! Who takes part in a thread, who its owner is, and to whom each message
//! goes.
//!
//! Two participants are the same person where their identifiers (`phone`)
//! are equal; the name is informational.

use crate::model::{default_self, Participant, ParticipantView, ThreadView, SELF_NAME};
use crate::text::same_text;
use vstd::prelude::*;

verus! {

/// The index of the first of `people`, from `start` on, whose identifier is
/// `phone`.
pub open spec fn position_from(people: Seq<ParticipantView>, phone: Seq<char>, start: int) -> Option<
    int,
>
    decreases people.len() - start,
{
    if start < 0 || start >= people.len() {
        None
    } else if people[start].phone == phone {
        Some(start)
    } else {
        position_from(people, phone, start + 1)
    }
}

/// The index of the first of `people` whose identifier is `phone`.
pub open spec fn position_of(people: Seq<ParticipantView>, phone: Seq<char>) -> Option<int> {
    position_from(people, phone, 0)
}

/// `people` with `p` put in: in the place of the one with the same
/// identifier, whose name it so replaces, or else at the end.
pub open spec fn merged(people: Seq<ParticipantView>, p: ParticipantView) -> Seq<ParticipantView> {
    match position_of(people, p.phone) {
        Some(i) => people.update(i, p),
        None => people.push(p),
    }
}

/// The participants of a thread whose messages were sent, in order, by
/// `senders`: one for each identifier, in the order in which the identifiers
/// first appear, each with the name that it was last seen with.
pub open spec fn resolved_participants(senders: Seq<ParticipantView>) -> Seq<ParticipantView>
    decreases senders.len(),
{
    if senders.len() == 0 {
        Seq::empty()
    } else {
        merged(resolved_participants(senders.drop_last()), senders.last())
    }
}

/// The owner of a thread whose messages were sent, in order, by `senders`:
/// the last sender named as the owner, or the default one.
pub open spec fn resolved_self(senders: Seq<ParticipantView>) -> ParticipantView
    decreases senders.len(),
{
    if senders.len() == 0 {
        default_self()
    } else if senders.last().name == SELF_NAME@ {
        senders.last()
    } else {
        resolved_self(senders.drop_last())
    }
}

/// Those of `people` whose identifier is not `phone`, in order.
pub open spec fn others(people: Seq<ParticipantView>, phone: Seq<char>) -> Seq<ParticipantView>
    decreases people.len(),
{
    if people.len() == 0 {
        Seq::empty()
    } else {
        let rest = others(people.drop_last(), phone);
        if people.last().phone != phone {
            rest.push(people.last())
        } else {
            rest
        }
    }
}

/// To whom a message of `sender` goes: to everyone else where the owner
/// sent it, to the owner alone where anyone else did.
pub open spec fn recipients_of(
    sender: ParticipantView,
    people: Seq<ParticipantView>,
    me: ParticipantView,
) -> Seq<ParticipantView> {
    if sender.phone == me.phone {
        others(people, me.phone)
    } else {
        seq![me]
    }
}

/// The identifiers of `people`, in order.
pub open spec fn identifiers(people: Seq<ParticipantView>) -> Seq<Seq<char>> {
    Seq::new(people.len(), |i: int| people[i].phone)
}

/// Whether no two of `people` have the same identifier.
pub open spec fn distinct_identifiers(people: Seq<ParticipantView>) -> bool {
    forall|i: int, j: int|
        0 <= i < j < people.len() ==> (#[trigger] people[i]).phone != (#[trigger] people[j]).phone
}

/// Whether one of `people` has the identifier `phone`.
pub open spec fn has_identifier(people: Seq<ParticipantView>, phone: Seq<char>) -> bool {
    exists|i: int| 0 <= i < people.len() && (#[trigger] people[i]).phone == phone
}

/// What `position_from` finds is the first with that identifier, and where
/// it finds none there is none.
pub proof fn lemma_position_from(people: Seq<ParticipantView>, phone: Seq<char>, start: int)
    requires
        0 <= start,
    ensures
        match position_from(people, phone, start) {
            Some(i) => start <= i < people.len() && people[i].phone == phone && forall|j: int|
                start <= j < i ==> (#[trigger] people[j]).phone != phone,
            None => forall|j: int|
                start <= j < people.len() ==> (#[trigger] people[j]).phone != phone,
        },
    decreases people.len() - start,
{
    if start < people.len() && people[start].phone != phone {
        lemma_position_from(people, phone, start + 1);
    }
}

/// Putting a participant in keeps the identifiers distinct, keeps every
/// identifier that was there, and adds the new one.
pub proof fn lemma_merged(people: Seq<ParticipantView>, p: ParticipantView)
    requires
        distinct_identifiers(people),
    ensures
        distinct_identifiers(merged(people, p)),
        forall|phone: Seq<char>|
            has_identifier(merged(people, p), phone) <==> (has_identifier(people, phone) || phone
                == p.phone),
        merged(people, p).len() == if has_identifier(people, p.phone) {
            people.len()
        } else {
            people.len() + 1
        },
{
    lemma_position_from(people, p.phone, 0);
    let after = merged(people, p);
    match position_of(people, p.phone) {
        Some(k) => {
            assert(people[k].phone == p.phone);
            assert forall|phone: Seq<char>| has_identifier(after, phone) <==> (has_identifier(
                people,
                phone,
            ) || phone == p.phone) by {
                if has_identifier(after, phone) {
                    let i = choose|i: int| 0 <= i < after.len() && (#[trigger] after[i]).phone
                        == phone;
                    assert(people[i].phone == phone);
                }
                if has_identifier(people, phone) {
                    let i = choose|i: int| 0 <= i < people.len() && (#[trigger] people[i]).phone
                        == phone;
                    assert(after[i].phone == phone);
                }
                if phone == p.phone {
                    assert(after[k].phone == phone);
                }
            }
            assert forall|i: int, j: int| 0 <= i < j < after.len() implies (#[trigger] after[i]).phone
                != (#[trigger] after[j]).phone by {
                assert(after[i].phone == people[i].phone);
                assert(after[j].phone == people[j].phone);
            }
        },
        None => {
            assert forall|phone: Seq<char>| has_identifier(after, phone) <==> (has_identifier(
                people,
                phone,
            ) || phone == p.phone) by {
                if has_identifier(after, phone) {
                    let i = choose|i: int| 0 <= i < after.len() && (#[trigger] after[i]).phone
                        == phone;
                    if i < people.len() {
                        assert(people[i].phone == phone);
                    }
                }
                if has_identifier(people, phone) {
                    let i = choose|i: int| 0 <= i < people.len() && (#[trigger] people[i]).phone
                        == phone;
                    assert(after[i].phone == phone);
                }
                if phone == p.phone {
                    assert(after[people.len() as int].phone == phone);
                }
            }
            assert forall|i: int, j: int| 0 <= i < j < after.len() implies (#[trigger] after[i]).phone
                != (#[trigger] after[j]).phone by {
                assert(after[i] == people[i]);
                if j < people.len() {
                    assert(after[j] == people[j]);
                }
            }
        },
    }
}

/// However many messages a document holds, its thread has one participant
/// for each identifier that their senders carry: no identifier twice, each
/// sender's identifier once, and so as many participants as there are
/// distinct identifiers.
pub proof fn law_participants_deduplicated(senders: Seq<ParticipantView>)
    ensures
        distinct_identifiers(resolved_participants(senders)),
        forall|phone: Seq<char>|
            has_identifier(resolved_participants(senders), phone) <==> has_identifier(
                senders,
                phone,
            ),
        resolved_participants(senders).len() == identifiers(senders).to_set().len(),
    decreases senders.len(),
{
    let people = resolved_participants(senders);
    if senders.len() == 0 {
        assert(identifiers(senders).to_set() =~= Set::<Seq<char>>::empty());
    } else {
        let front = senders.drop_last();
        let before = resolved_participants(front);
        law_participants_deduplicated(front);
        lemma_merged(before, senders.last());
        assert forall|phone: Seq<char>| has_identifier(people, phone) <==> has_identifier(
            senders,
            phone,
        ) by {
            if has_identifier(front, phone) {
                let i = choose|i: int| 0 <= i < front.len() && (#[trigger] front[i]).phone == phone;
                assert(senders[i].phone == phone);
            }
            if has_identifier(senders, phone) && phone != senders.last().phone {
                let i = choose|i: int| 0 <= i < senders.len() && (#[trigger] senders[i]).phone
                    == phone;
                assert(front[i].phone == phone);
            }
            if phone == senders.last().phone {
                assert(senders[senders.len() - 1].phone == phone);
            }
        }
        let old_ids = identifiers(front).to_set();
        let new_ids = identifiers(senders).to_set();
        let id = senders.last().phone;
        assert(new_ids =~= old_ids.insert(id)) by {
            assert forall|phone: Seq<char>| new_ids.contains(phone) <==> old_ids.insert(
                id,
            ).contains(phone) by {
                if new_ids.contains(phone) {
                    let i = choose|i: int|
                        0 <= i < identifiers(senders).len() && identifiers(senders)[i] == phone;
                    if i < front.len() {
                        assert(identifiers(front)[i] == phone);
                    }
                }
                if old_ids.contains(phone) {
                    let i = choose|i: int|
                        0 <= i < identifiers(front).len() && identifiers(front)[i] == phone;
                    assert(identifiers(senders)[i] == phone);
                }
                if phone == id {
                    assert(identifiers(senders)[senders.len() - 1] == phone);
                }
            }
        }
        vstd::seq_lib::seq_to_set_is_finite(identifiers(front));
        assert(has_identifier(before, id) <==> has_identifier(front, id));
        if has_identifier(front, id) {
            let i = choose|i: int| 0 <= i < front.len() && (#[trigger] front[i]).phone == id;
            assert(identifiers(front)[i] == id);
            assert(identifiers(front).contains(id));
            assert(old_ids.insert(id) =~= old_ids);
        } else {
            if old_ids.contains(id) {
                let i = choose|i: int|
                    0 <= i < identifiers(front).len() && identifiers(front)[i] == id;
                assert(front[i].phone == id);
            }
            assert(!old_ids.contains(id));
        }
    }
}

/// What every parser establishes of a thread: no two of its participants
/// share an identifier, the sender of every message is one of them, and no
/// two recipients of a message share an identifier.
pub open spec fn well_formed(thread: ThreadView) -> bool {
    &&& distinct_identifiers(thread.participants)
    &&& forall|i: int|
        0 <= i < thread.messages.len() ==> has_identifier(
            thread.participants,
            (#[trigger] thread.messages[i]).from.phone,
        )
    &&& forall|i: int|
        0 <= i < thread.messages.len() ==> distinct_identifiers((#[trigger] thread.messages[i]).to)
}

/// Those that remain of participants with distinct identifiers have
/// distinct identifiers, each one that the participants had, and none the
/// one left out.
pub proof fn lemma_others(people: Seq<ParticipantView>, phone: Seq<char>)
    requires
        distinct_identifiers(people),
    ensures
        distinct_identifiers(others(people, phone)),
        forall|k: int|
            0 <= k < others(people, phone).len() ==> has_identifier(
                people,
                (#[trigger] others(people, phone)[k]).phone,
            ) && others(people, phone)[k].phone != phone,
    decreases people.len(),
{
    if people.len() > 0 {
        let front = people.drop_last();
        let last = people.last();
        let rest = others(front, phone);
        let all = others(people, phone);
        assert forall|i: int, j: int| 0 <= i < j < front.len() implies (#[trigger] front[i]).phone
            != (#[trigger] front[j]).phone by {
            assert(front[i] == people[i]);
            assert(front[j] == people[j]);
        }
        lemma_others(front, phone);
        assert forall|k: int| 0 <= k < all.len() implies has_identifier(
            people,
            (#[trigger] all[k]).phone,
        ) && all[k].phone != phone by {
            if k < rest.len() {
                assert(all[k] == rest[k]);
                let j = choose|j: int|
                    0 <= j < front.len() && (#[trigger] front[j]).phone == rest[k].phone;
                assert(people[j].phone == rest[k].phone);
            } else {
                assert(all[k] == last);
                assert(people[people.len() - 1].phone == last.phone);
            }
        }
        assert forall|i: int, j: int| 0 <= i < j < all.len() implies (#[trigger] all[i]).phone != (
        #[trigger] all[j]).phone by {
            assert(all[i] == rest[i]);
            if j < rest.len() {
                assert(all[j] == rest[j]);
            } else {
                assert(all[j] == last);
                let m = choose|m: int|
                    0 <= m < front.len() && (#[trigger] front[m]).phone == rest[i].phone;
                assert(people[m].phone == rest[i].phone);
                assert(people[people.len() - 1] == last);
            }
        }
    }
}

/// The index of the first of `people` whose identifier is `phone`.
pub fn find_participant(people: &Vec<Participant>, phone: &str) -> (r: Option<usize>)
    ensures
        r matches Some(i) ==> position_of(people.deep_view(), phone@) == Some(i as int) && i
            < people.len(),
        r is None ==> position_of(people.deep_view(), phone@) is None,
{
    let mut i: usize = 0;
    while i < people.len()
        invariant
            i <= people.len(),
            position_of(people.deep_view(), phone@) == position_from(
                people.deep_view(),
                phone@,
                i as int,
            ),
        decreases people.len() - i,
    {
        if same_text(people[i].phone.as_str(), phone) {
            return Some(i);
        }
        i += 1;
    }
    None
}

/// Puts `p` in among `people`: in the place of the one with the same
/// identifier, whose name it so replaces, or else at the end.
pub fn merge_into(people: &mut Vec<Participant>, p: &Participant)
    ensures
        final(people).deep_view() == merged(old(people).deep_view(), p.deep_view()),
{
    let ghost before = people.deep_view();
    match find_participant(people, p.phone.as_str()) {
        Some(k) => {
            people.set(k, p.clone());
            assert(people.deep_view() =~= before.update(k as int, p.deep_view()));
        },
        None => {
            people.push(p.clone());
            assert(people.deep_view() =~= before.push(p.deep_view()));
        },
    }
}

/// The participants and the owner of a thread whose messages were sent, in
/// order, by `senders`.
pub fn resolve_participants(senders: &Vec<Participant>) -> (r: (Vec<Participant>, Participant))
    ensures
        r.0.deep_view() == resolved_participants(senders.deep_view()),
        r.1.deep_view() == resolved_self(senders.deep_view()),
{
    let mut people: Vec<Participant> = Vec::new();
    let mut me = Participant::default_self();
    let mut i: usize = 0;
    assert(senders.deep_view().take(0) =~= Seq::empty());
    assert(people.deep_view() =~= Seq::empty());
    while i < senders.len()
        invariant
            i <= senders.len(),
            people.deep_view() == resolved_participants(senders.deep_view().take(i as int)),
            me.deep_view() == resolved_self(senders.deep_view().take(i as int)),
        decreases senders.len() - i,
    {
        let ghost next = senders.deep_view().take(i + 1);
        assert(next.drop_last() =~= senders.deep_view().take(i as int));
        assert(next.last() == senders@[i as int].deep_view());
        if same_text(senders[i].name.as_str(), SELF_NAME) {
            me = senders[i].clone();
        }
        merge_into(&mut people, &senders[i]);
        i += 1;
    }
    assert(senders.deep_view().take(senders.len() as int) =~= senders.deep_view());
    (people, me)
}

/// To whom a message of `sender` goes, in a thread of `people` owned by
/// `me`.
pub fn infer_recipients(sender: &Participant, people: &Vec<Participant>, me: &Participant) -> (r:
    Vec<Participant>)
    ensures
        r.deep_view() == recipients_of(sender.deep_view(), people.deep_view(), me.deep_view()),
{
    let mut r: Vec<Participant> = Vec::new();
    if !same_text(sender.phone.as_str(), me.phone.as_str()) {
        r.push(me.clone());
        assert(r.deep_view() =~= seq![me.deep_view()]);
        return r;
    }
    let mut i: usize = 0;
    assert(people.deep_view().take(0) =~= Seq::empty());
    assert(r.deep_view() =~= Seq::empty());
    while i < people.len()
        invariant
            i <= people.len(),
            r.deep_view() == others(people.deep_view().take(i as int), me.phone@),
        decreases people.len() - i,
    {
        let ghost upto = people.deep_view().take(i as int);
        let ghost next = people.deep_view().take(i + 1);
        let ghost before = r.deep_view();
        assert(next.drop_last() =~= upto);
        assert(next.last() == people@[i as int].deep_view());
        if !same_text(people[i].phone.as_str(), me.phone.as_str()) {
            r.push(people[i].clone());
            assert(r.deep_view() =~= before.push(people@[i as int].deep_view()));
        }
        i += 1;
    }
    assert(people.deep_view().take(people.len() as int) =~= people.deep_view());
    r
}

} // verus!
