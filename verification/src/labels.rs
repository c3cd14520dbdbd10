//! The labels of a thread, read from the free text that a document carries
//! for them: what stands between the first colon and the next one, cut at
//! the commas. The labels are a set: none is kept twice.

use crate::text::{same_text, split_at_char, split_char, trim, trimmed};
use vstd::prelude::*;

verus! {

/// The part of a label text that lists the labels: what stands between its
/// first colon and its second, or its end; nothing where it has no colon.
pub open spec fn label_field(text: Seq<char>) -> Seq<char> {
    let parts = split_char(text, ':');
    if parts.len() > 1 {
        parts[1]
    } else {
        Seq::empty()
    }
}

/// The distinct labels among the pieces, in the order in which they first
/// appear: each piece without the white space around it, but for those that
/// are then empty and those that came before.
pub open spec fn clean_labels(pieces: Seq<Seq<char>>) -> Seq<Seq<char>>
    decreases pieces.len(),
{
    if pieces.len() == 0 {
        Seq::empty()
    } else {
        let rest = clean_labels(pieces.drop_last());
        let label = trimmed(pieces.last());
        if label.len() > 0 && !rest.contains(label) {
            rest.push(label)
        } else {
            rest
        }
    }
}

/// The labels that a label text lists.
pub open spec fn labels_of(text: Seq<char>) -> Seq<Seq<char>> {
    clean_labels(split_char(label_field(text), ','))
}

/// Whether no label occurs twice and none is empty.
pub open spec fn is_label_set(labels: Seq<Seq<char>>) -> bool {
    &&& forall|i: int, j: int| 0 <= i < j < labels.len() ==> labels[i] != labels[j]
    &&& forall|i: int| 0 <= i < labels.len() ==> (#[trigger] labels[i]).len() > 0
}

/// Whether `label` is one of the pieces, without the white space around it.
pub open spec fn is_trimmed_piece(pieces: Seq<Seq<char>>, label: Seq<char>) -> bool {
    exists|i: int| 0 <= i < pieces.len() && trimmed(#[trigger] pieces[i]) == label
}

/// The clean labels are a set, and they are the trimmed pieces that are
/// not empty: each of them is one, and each such piece is among them.
pub proof fn lemma_clean_labels(pieces: Seq<Seq<char>>)
    ensures
        is_label_set(clean_labels(pieces)),
        forall|k: int|
            0 <= k < clean_labels(pieces).len() ==> is_trimmed_piece(
                pieces,
                #[trigger] clean_labels(pieces)[k],
            ),
        forall|i: int|
            0 <= i < pieces.len() && trimmed(#[trigger] pieces[i]).len() > 0 ==> clean_labels(
                pieces,
            ).contains(trimmed(pieces[i])),
    decreases pieces.len(),
{
    if pieces.len() > 0 {
        let front = pieces.drop_last();
        let rest = clean_labels(front);
        let label = trimmed(pieces.last());
        let all = clean_labels(pieces);
        lemma_clean_labels(front);
        assert forall|k: int| 0 <= k < all.len() implies is_trimmed_piece(
            pieces,
            #[trigger] all[k],
        ) by {
            if k < rest.len() {
                assert(all[k] == rest[k]);
                assert(is_trimmed_piece(front, rest[k]));
                let i = choose|i: int|
                    0 <= i < front.len() && trimmed(#[trigger] front[i]) == rest[k];
                assert(pieces[i] == front[i]);
            } else {
                assert(trimmed(pieces[pieces.len() - 1]) == all[k]);
            }
        }
        assert forall|i: int|
            0 <= i < pieces.len() && trimmed(#[trigger] pieces[i]).len() > 0 implies all.contains(
            trimmed(pieces[i]),
        ) by {
            if i < front.len() {
                assert(front[i] == pieces[i]);
                assert(rest.contains(trimmed(front[i])));
                let k = choose|k: int| 0 <= k < rest.len() && rest[k] == trimmed(front[i]);
                assert(all[k] == rest[k]);
            } else if rest.contains(label) {
                let k = choose|k: int| 0 <= k < rest.len() && rest[k] == label;
                assert(all[k] == label);
            } else {
                assert(all[all.len() - 1] == label);
            }
        }
        assert forall|i: int, j: int| 0 <= i < j < all.len() implies all[i] != all[j] by {
            assert(all[i] == rest[i]);
            if j < rest.len() {
                assert(all[j] == rest[j]);
            }
        }
    }
}

/// The labels of a text are a set: no label occurs twice among them, and
/// none is empty.
pub proof fn law_labels_are_a_set(text: Seq<char>)
    ensures
        forall|i: int, j: int|
            0 <= i < j < labels_of(text).len() ==> labels_of(text)[i] != labels_of(text)[j],
        forall|i: int| 0 <= i < labels_of(text).len() ==> (#[trigger] labels_of(text)[i]).len() > 0,
{
    lemma_clean_labels(split_char(label_field(text), ','));
}

/// Whether `label` is one of `labels`.
fn holds_label(labels: &Vec<String>, label: &str) -> (r: bool)
    ensures
        r == labels.deep_view().contains(label@),
{
    let mut i: usize = 0;
    while i < labels.len()
        invariant
            i <= labels.len(),
            forall|k: int| 0 <= k < i ==> labels.deep_view()[k] != label@,
        decreases labels.len() - i,
    {
        if same_text(labels[i].as_str(), label) {
            assert(labels.deep_view()[i as int] == label@);
            return true;
        }
        i += 1;
    }
    false
}

/// The labels that a label text lists, in the order in which they first
/// appear, none twice.
pub fn parse_labels(text: &str) -> (labels: Vec<String>)
    ensures
        labels.deep_view() == labels_of(text@),
        is_label_set(labels.deep_view()),
{
    let parts = split_at_char(text, ':');
    proof {
        reveal_strlit("");
    }
    let field: &str = if parts.len() > 1 {
        parts[1].as_str()
    } else {
        ""
    };
    assert(field@ =~= label_field(text@));
    let pieces = split_at_char(field, ',');
    let mut labels: Vec<String> = Vec::new();
    let mut i: usize = 0;
    assert(pieces.deep_view().take(0) =~= Seq::empty());
    assert(labels.deep_view() =~= Seq::empty());
    while i < pieces.len()
        invariant
            i <= pieces.len(),
            labels.deep_view() == clean_labels(pieces.deep_view().take(i as int)),
        decreases pieces.len() - i,
    {
        let ghost upto = pieces.deep_view().take(i as int);
        let ghost next = pieces.deep_view().take(i + 1);
        let ghost before = labels.deep_view();
        assert(next.drop_last() =~= upto);
        assert(next.last() == pieces@[i as int]@);
        let label = trim(pieces[i].as_str());
        if !label.as_str().is_empty() && !holds_label(&labels, label.as_str()) {
            labels.push(label);
            assert(labels.deep_view() =~= before.push(label@));
        }
        i += 1;
    }
    assert(pieces.deep_view().take(pieces.len() as int) =~= pieces.deep_view());
    proof {
        lemma_clean_labels(pieces.deep_view());
    }
    labels
}

} // verus!
