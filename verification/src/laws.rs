//! The laws the repository obeys across operations, proved over the
//! store model that every operation's contract is stated against.

use vstd::prelude::*;
use crate::ids::{
    id_of_key, is_valid_id, canon_id, lemma_id_of_key_injective, lemma_id_of_key_canon,
    lemma_canon_idempotent,
};
use crate::note::NoteView;
use crate::store::{
    StoreView, StoredNoteView, store_insert, store_delete, store_update, store_list, store_search,
    new_id, keeps, published, replace_fields, note_score, score_pred, lemma_filter_elements,
};

verus! {

/// Law: identifier translation round-trips. Every identifier the
/// store assigns is accepted by the parser and is its own canonical
/// form, so the string a creation returns addresses the created note
/// in every later operation.
pub proof fn lemma_assigned_id_round_trip(n: u64)
    ensures
        is_valid_id(id_of_key(n)),
        canon_id(id_of_key(n)) == id_of_key(n),
{
    lemma_id_of_key_canon(n);
    lemma_canon_idempotent(id_of_key(n));
}

/// Law: for every title, content and tags, creation followed by a
/// listing yields a note with exactly those fields under a freshly
/// assigned identifier — one that no persisted note already carried.
pub proof fn lemma_create_then_list(
    s: StoreView,
    title: Seq<char>,
    content: Seq<char>,
    tags: Seq<Seq<char>>,
)
    requires
        s.wf(),
        s.counter < u64::MAX,
    ensures
        store_list(store_insert(s, title, content, tags)).len() == store_list(s).len() + 1,
        store_list(store_insert(s, title, content, tags)).last() == (NoteView {
            id: Option::Some(new_id(s)),
            title,
            content,
            tags,
        }),
        !s.contains_id(new_id(s)),
        forall|i: int|
            0 <= i < store_list(s).len() ==> store_list(store_insert(s, title, content, tags))[i]
                == store_list(s)[i],
{
    if s.contains_id(new_id(s)) {
        let i = choose|i: int|
            0 <= i < s.notes.len() && (#[trigger] s.notes[i]).id == new_id(s);
        lemma_id_of_key_injective(s.notes[i].key, s.counter);
    }
    let s2 = store_insert(s, title, content, tags);
    assert(store_list(s2).last() == published(s2.notes.last()));
}

/// Law: after a deletion, a listing no longer contains the deleted
/// identifier, and the store no longer carries it — so deleting it a
/// second time finds nothing.
pub proof fn lemma_delete_then_list(s: StoreView, id: Seq<char>)
    requires
        s.wf(),
    ensures
        forall|i: int|
            0 <= i < store_list(store_delete(s, id)).len() ==> (#[trigger] store_list(
                store_delete(s, id),
            )[i]).id != Option::Some(id),
        !store_delete(s, id).contains_id(id),
{
    broadcast use vstd::seq_lib::group_filter_ensures;

    let f = s.notes.filter(keeps(id));
    assert forall|i: int|
        0 <= i < store_list(store_delete(s, id)).len() implies (#[trigger] store_list(
        store_delete(s, id),
    )[i]).id != Option::Some(id) by {
        assert(f[i].id != id);
        assert(store_list(store_delete(s, id))[i] == published(f[i]));
    }
    assert forall|i: int| 0 <= i < f.len() implies (#[trigger] f[i]).id != id by {}
}

/// Law: after an update, a listing shows the note with its fields
/// replaced and its identifier unchanged; every identifier, every
/// other note, and the order are untouched.
pub proof fn lemma_update_then_list(
    s: StoreView,
    id: Seq<char>,
    title: Seq<char>,
    content: Seq<char>,
    tags: Seq<Seq<char>>,
)
    requires
        s.wf(),
        s.contains_id(id),
    ensures
        store_list(store_update(s, id, title, content, tags)).len() == store_list(s).len(),
        forall|i: int|
            0 <= i < s.notes.len() ==> (#[trigger] store_update(
                s,
                id,
                title,
                content,
                tags,
            ).notes[i]).id == s.notes[i].id,
        exists|i: int|
            0 <= i < s.notes.len() && #[trigger] store_list(store_update(s, id, title, content, tags))[i]
                == (NoteView { id: Option::Some(id), title, content, tags }),
        forall|i: int|
            0 <= i < s.notes.len() && (#[trigger] s.notes[i]).id != id ==> store_list(
                store_update(s, id, title, content, tags),
            )[i] == store_list(s)[i],
{
    let s2 = store_update(s, id, title, content, tags);
    let w = choose|i: int| 0 <= i < s.notes.len() && (#[trigger] s.notes[i]).id == id;
    assert(s2.notes[w] == replace_fields(s.notes[w], title, content, tags));
    assert(store_list(s2)[w] == published(s2.notes[w]));
    assert(store_list(s2)[w] == (NoteView { id: Option::Some(id), title, content, tags }));
}

/// Law: search is complete — with a non-empty query, every persisted
/// note that matches in title or content appears in the results.
pub proof fn lemma_search_complete(s: StoreView, q: Seq<char>, i: int)
    requires
        q.len() > 0,
        0 <= i < s.notes.len(),
        note_score(s.notes[i], q) > 0,
    ensures
        store_search(s, q).contains(published(s.notes[i])),
{
    broadcast use vstd::seq_lib::group_filter_ensures;

    let n = s.notes[i];
    let sc = note_score(n, q);
    assert(score_pred(q, sc)(n));
    let f3 = s.notes.filter(score_pred(q, 3));
    let f2 = s.notes.filter(score_pred(q, 2));
    let f1 = s.notes.filter(score_pred(q, 1));
    let all = f3 + f2 + f1;
    let f = s.notes.filter(score_pred(q, sc));
    assert(f.contains(n));
    let k = choose|k: int| 0 <= k < f.len() && f[k] == n;
    let pos: int = if sc == 3 {
        k
    } else if sc == 2 {
        f3.len() + k
    } else {
        f3.len() + f2.len() + k
    };
    assert(all[pos] == n);
    assert(store_search(s, q)[pos] == published(n));
}

/// Law: search is sound — with a non-empty query, every result is the
/// published form of a persisted note that matches in title or
/// content.
pub proof fn lemma_search_sound(s: StoreView, q: Seq<char>, j: int)
    requires
        q.len() > 0,
        0 <= j < store_search(s, q).len(),
    ensures
        exists|i: int|
            0 <= i < s.notes.len() && note_score(#[trigger] s.notes[i], q) > 0 && store_search(
                s,
                q,
            )[j] == published(s.notes[i]),
{
    broadcast use vstd::seq_lib::group_filter_ensures;

    let f3 = s.notes.filter(score_pred(q, 3));
    let f2 = s.notes.filter(score_pred(q, 2));
    let f1 = s.notes.filter(score_pred(q, 1));
    let all = f3 + f2 + f1;
    let m: StoredNoteView = all[j];
    assert(store_search(s, q)[j] == published(m));
    lemma_filter_elements(s.notes, score_pred(q, 3));
    lemma_filter_elements(s.notes, score_pred(q, 2));
    lemma_filter_elements(s.notes, score_pred(q, 1));
    if j < f3.len() {
        assert(m == f3[j]);
        assert(score_pred(q, 3)(m));
        assert(s.notes.contains(m));
    } else if j < f3.len() + f2.len() {
        assert(m == f2[j - f3.len()]);
        assert(score_pred(q, 2)(m));
        assert(s.notes.contains(m));
    } else {
        assert(m == f1[j - f3.len() - f2.len()]);
        assert(score_pred(q, 1)(m));
        assert(s.notes.contains(m));
    }
    let i = choose|i: int| 0 <= i < s.notes.len() && s.notes[i] == m;
    assert(note_score(s.notes[i], q) > 0);
}

} // verus!
