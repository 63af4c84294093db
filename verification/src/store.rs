//! The model of the one notes collection: what the document store holds
//! and how each operation transforms it. The collection assigns fresh
//! identifiers from a counter that never repeats, so every persisted
//! document carries a distinct canonical identifier.

use vstd::prelude::*;
use crate::ids::{id_of_key, key_to_id, lemma_id_of_key_injective, lemma_id_of_key_canon};
use crate::note::{Note, NoteView, clone_strings};

verus! {

/// One persisted document: `{_id, title, content, tags[]}`, together
/// with the counter value its identifier was assigned from.
pub struct StoredNote {
    pub key: u64,
    pub id: String,
    pub title: String,
    pub content: String,
    pub tags: Vec<String>,
}

/// The mathematical value of a persisted document.
pub ghost struct StoredNoteView {
    pub key: u64,
    pub id: Seq<char>,
    pub title: Seq<char>,
    pub content: Seq<char>,
    pub tags: Seq<Seq<char>>,
}

impl View for StoredNote {
    type V = StoredNoteView;

    open spec fn view(&self) -> StoredNoteView {
        StoredNoteView {
            key: self.key,
            id: self.id@,
            title: self.title@,
            content: self.content@,
            tags: self.tags.deep_view(),
        }
    }
}

impl DeepView for StoredNote {
    type V = StoredNoteView;

    open spec fn deep_view(&self) -> StoredNoteView {
        self.view()
    }
}

/// The note a persisted document publishes to callers.
pub open spec fn published(n: StoredNoteView) -> NoteView {
    NoteView { id: Option::Some(n.id), title: n.title, content: n.content, tags: n.tags }
}

/// `published` as a function value, for mapping over sequences.
pub open spec fn publish_fn() -> spec_fn(StoredNoteView) -> NoteView {
    |n: StoredNoteView| published(n)
}

/// Well-formedness of the collection: every key was assigned below the
/// counter, keys never repeat, and each identifier is the canonical
/// form of its key.
pub open spec fn notes_inv(notes: Seq<StoredNoteView>, counter: u64) -> bool {
    &&& forall|i: int| 0 <= i < notes.len() ==> (#[trigger] notes[i]).key < counter
    &&& forall|i: int, j: int|
        0 <= i < j < notes.len() ==> notes[i].key != notes[j].key
    &&& forall|i: int| 0 <= i < notes.len() ==> (#[trigger] notes[i]).id == id_of_key(
        notes[i].key,
    )
}

/// The abstract state of the collection.
pub ghost struct StoreView {
    pub notes: Seq<StoredNoteView>,
    pub counter: u64,
}

impl StoreView {
    pub open spec fn wf(self) -> bool {
        notes_inv(self.notes, self.counter)
    }

    /// Some persisted document carries this identifier.
    pub open spec fn contains_id(self, id: Seq<char>) -> bool {
        exists|i: int| 0 <= i < self.notes.len() && (#[trigger] self.notes[i]).id == id
    }
}

/// The identifier the store will assign to the next created note.
pub open spec fn new_id(s: StoreView) -> Seq<char> {
    id_of_key(s.counter)
}

/// Creation: the new document is appended with a fresh identifier and
/// the given fields; the counter advances.
pub open spec fn store_insert(
    s: StoreView,
    title: Seq<char>,
    content: Seq<char>,
    tags: Seq<Seq<char>>,
) -> StoreView {
    StoreView {
        notes: s.notes.push(
            StoredNoteView { key: s.counter, id: id_of_key(s.counter), title, content, tags },
        ),
        counter: (s.counter + 1) as u64,
    }
}

/// The predicate a document must meet to survive a delete.
pub open spec fn keeps(id: Seq<char>) -> spec_fn(StoredNoteView) -> bool {
    |n: StoredNoteView| n.id != id
}

/// Deletion: exactly the documents with another identifier remain, in
/// their order.
pub open spec fn store_delete(s: StoreView, id: Seq<char>) -> StoreView {
    StoreView { notes: s.notes.filter(keeps(id)), counter: s.counter }
}

/// A document with `title`, `content` and `tags` replaced wholesale;
/// key and identifier untouched.
pub open spec fn replace_fields(
    n: StoredNoteView,
    title: Seq<char>,
    content: Seq<char>,
    tags: Seq<Seq<char>>,
) -> StoredNoteView {
    StoredNoteView { key: n.key, id: n.id, title, content, tags }
}

/// Update: the matching document's fields are replaced in place; every
/// other document, and the order, are untouched.
pub open spec fn store_update(
    s: StoreView,
    id: Seq<char>,
    title: Seq<char>,
    content: Seq<char>,
    tags: Seq<Seq<char>>,
) -> StoreView {
    StoreView {
        notes: Seq::new(
            s.notes.len(),
            |i: int|
                if s.notes[i].id == id {
                    replace_fields(s.notes[i], title, content, tags)
                } else {
                    s.notes[i]
                },
        ),
        counter: s.counter,
    }
}

/// Listing: every document, in store order, as a published note.
pub open spec fn store_list(s: StoreView) -> Seq<NoteView> {
    s.notes.map_values(publish_fn())
}

/// `p` occurs contiguously in `h`.
pub open spec fn has_substring(h: Seq<char>, p: Seq<char>) -> bool {
    exists|i: int| 0 <= i && i + p.len() <= h.len() && #[trigger] h.subrange(i, i + p.len()) == p
}

/// The relevance score of a document against a query, over the two
/// searchable fields: a title match counts double a content match, so
/// documents matching in both fields rank first, then title-only
/// matches, then content-only matches.
pub open spec fn note_score(n: StoredNoteView, q: Seq<char>) -> nat {
    (if has_substring(n.title, q) {
        2nat
    } else {
        0nat
    }) + (if has_substring(n.content, q) {
        1nat
    } else {
        0nat
    })
}

/// The documents scoring exactly `sc`, as a predicate for filtering.
pub open spec fn score_pred(q: Seq<char>, sc: nat) -> spec_fn(StoredNoteView) -> bool {
    |n: StoredNoteView| note_score(n, q) == sc
}

/// Search: an empty query yields nothing; otherwise every matching
/// document, best score first, store order within equal scores. The
/// searchable fields are title and content — the fields the required
/// text index is declared over.
pub open spec fn store_search(s: StoreView, q: Seq<char>) -> Seq<NoteView> {
    if q.len() == 0 {
        Seq::empty()
    } else {
        (s.notes.filter(score_pred(q, 3)) + s.notes.filter(score_pred(q, 2)) + s.notes.filter(
            score_pred(q, 1),
        )).map_values(publish_fn())
    }
}

/// Mapping distributes over concatenation of document sequences.
pub proof fn lemma_publish_distributes(a: Seq<StoredNoteView>, b: Seq<StoredNoteView>)
    ensures
        (a + b).map_values(publish_fn()) == a.map_values(publish_fn()) + b.map_values(
            publish_fn(),
        ),
{
    assert((a + b).map_values(publish_fn()) =~= a.map_values(publish_fn()) + b.map_values(
        publish_fn(),
    ));
}

/// Whether `p` occurs in `h` starting at position `i`.
fn match_at(h: &str, p: &str, i: usize) -> (r: bool)
    requires
        i + p@.len() <= h@.len(),
    ensures
        r == (h@.subrange(i as int, i as int + p@.len()) == p@),
{
    let hl = h.unicode_len();
    let pl = p.unicode_len();
    let mut j: usize = 0;
    while j < pl
        invariant
            i + pl <= hl,
            hl == h@.len(),
            pl == p@.len(),
            0 <= j <= pl,
            forall|t: int| 0 <= t < j ==> h@[i + t] == p@[t],
        decreases pl - j,
    {
        if h.get_char(i + j) != p.get_char(j) {
            proof {
                assert(h@.subrange(i as int, i as int + p@.len())[j as int] == h@[i + j]);
            }
            return false;
        }
        j += 1;
    }
    proof {
        assert(h@.subrange(i as int, i as int + p@.len()) =~= p@);
    }
    true
}

/// Whether `p` occurs contiguously anywhere in `h`.
pub fn contains_substring(h: &str, p: &str) -> (r: bool)
    ensures
        r == has_substring(h@, p@),
{
    let hl = h.unicode_len();
    let pl = p.unicode_len();
    if pl > hl {
        return false;
    }
    if pl == 0 {
        proof {
            assert(h@.subrange(0, 0 + p@.len() as int) =~= p@);
        }
        return true;
    }
    let mut i: usize = 0;
    while i <= hl - pl
        invariant
            1 <= pl <= hl,
            hl == h@.len(),
            pl == p@.len(),
            0 <= i <= hl - pl + 1,
            forall|k: int| 0 <= k < i ==> #[trigger] h@.subrange(k, k + p@.len()) != p@,
        decreases hl - pl - i + 1,
    {
        if match_at(h, p, i) {
            return true;
        }
        i += 1;
    }
    false
}

/// Every element of a filtered sequence occurs in the original.
pub proof fn lemma_filter_elements<A>(s: Seq<A>, pred: spec_fn(A) -> bool)
    ensures
        forall|i: int|
            0 <= i < s.filter(pred).len() ==> s.contains(#[trigger] s.filter(pred)[i]),
    decreases s.len(),
{
    reveal(Seq::filter);
    if s.len() == 0 {
    } else {
        let d = s.drop_last();
        lemma_filter_elements(d, pred);
        assert forall|i: int|
            0 <= i < s.filter(pred).len() implies s.contains(#[trigger] s.filter(pred)[i]) by {
            if pred(s.last()) && i == s.filter(pred).len() - 1 {
                assert(s[s.len() - 1] == s.last());
            } else {
                assert(s.filter(pred)[i] == d.filter(pred)[i]);
                assert(d.contains(d.filter(pred)[i]));
                let k = choose|k: int| 0 <= k < d.len() && d[k] == d.filter(pred)[i];
                assert(s[k] == d[k]);
            }
        }
    }
}

/// If every document satisfies the predicate, filtering keeps them all.
pub proof fn lemma_filter_all<A>(s: Seq<A>, pred: spec_fn(A) -> bool)
    requires
        forall|i: int| 0 <= i < s.len() ==> pred(#[trigger] s[i]),
    ensures
        s.filter(pred) == s,
    decreases s.len(),
{
    reveal(Seq::filter);
    if s.len() == 0 {
        assert(s.filter(pred) =~= s);
    } else {
        let d = s.drop_last();
        assert(forall|i: int| 0 <= i < d.len() ==> pred(#[trigger] d[i]));
        lemma_filter_all(d, pred);
        assert(pred(s.last()));
        assert(s.filter(pred) =~= s);
    }
}

/// Filtering a well-formed collection leaves a well-formed collection.
pub proof fn lemma_filter_notes_inv(
    notes: Seq<StoredNoteView>,
    counter: u64,
    pred: spec_fn(StoredNoteView) -> bool,
)
    requires
        notes_inv(notes, counter),
    ensures
        notes_inv(notes.filter(pred), counter),
{
    let f = notes.filter(pred);
    lemma_filter_elements(notes, pred);
    assert forall|i: int| 0 <= i < f.len() implies (#[trigger] f[i]).key < counter && f[i].id
        == id_of_key(f[i].key) by {
        assert(notes.contains(f[i]));
        let k = choose|k: int| 0 <= k < notes.len() && notes[k] == f[i];
        assert(notes[k].key < counter);
    }
    assert forall|i: int, j: int| 0 <= i < j < f.len() implies f[i].key != f[j].key by {
        lemma_filter_distinct_keys(notes, counter, pred, i, j);
    }
}

/// Distinct positions of a filtered well-formed collection hold
/// distinct keys.
proof fn lemma_filter_distinct_keys(
    notes: Seq<StoredNoteView>,
    counter: u64,
    pred: spec_fn(StoredNoteView) -> bool,
    i: int,
    j: int,
)
    requires
        notes_inv(notes, counter),
        0 <= i < j < notes.filter(pred).len(),
    ensures
        notes.filter(pred)[i].key != notes.filter(pred)[j].key,
    decreases notes.len(),
{
    reveal(Seq::filter);
    let d = notes.drop_last();
    let f = notes.filter(pred);
    if notes.len() == 0 {
    } else {
        if pred(notes.last()) && j == f.len() - 1 {
            // f[j] is the last element of notes; f[i] lies in d.
            lemma_filter_elements(d, pred);
            assert(f[i] == d.filter(pred)[i]);
            assert(d.contains(d.filter(pred)[i]));
            let k = choose|k: int| 0 <= k < d.len() && d[k] == d.filter(pred)[i];
            assert(notes[k] == f[i]);
            assert(notes[notes.len() - 1] == f[j]);
            assert(notes[k].key != notes[notes.len() - 1].key);
        } else {
            assert(f[i] == d.filter(pred)[i]);
            assert(f[j] == d.filter(pred)[j]);
            assert(notes_inv(d, counter));
            lemma_filter_distinct_keys(d, counter, pred, i, j);
        }
    }
}

/// The executable collection.
pub struct Store {
    pub notes: Vec<StoredNote>,
    pub counter: u64,
}

impl View for Store {
    type V = StoreView;

    open spec fn view(&self) -> StoreView {
        StoreView { notes: self.notes.deep_view(), counter: self.counter }
    }
}

impl StoredNote {
    /// An exact copy of the document.
    pub fn duplicate(&self) -> (n: StoredNote)
        ensures
            n@ == self@,
    {
        StoredNote {
            key: self.key,
            id: self.id.clone(),
            title: self.title.clone(),
            content: self.content.clone(),
            tags: clone_strings(&self.tags),
        }
    }

    /// The published form of the document.
    pub fn to_note(&self) -> (n: Note)
        ensures
            n@ == published(self@),
    {
        Note {
            id: Option::Some(self.id.clone()),
            title: self.title.clone(),
            content: self.content.clone(),
            tags: clone_strings(&self.tags),
        }
    }
}

impl Store {
    /// An empty collection, as a fresh deployment has it.
    pub fn new() -> (s: Store)
        ensures
            s@.notes.len() == 0,
            s@.counter == 0,
            s@.wf(),
    {
        let s = Store { notes: Vec::new(), counter: 0 };
        proof {
            assert(s@.notes =~= Seq::<StoredNoteView>::empty());
        }
        s
    }

    /// Creation: appends a document with the given fields under a fresh
    /// identifier and returns that identifier's canonical string form.
    /// The identifier is fresh: no persisted document already carries it.
    pub fn insert(&mut self, title: String, content: String, tags: Vec<String>) -> (id: String)
        requires
            old(self)@.wf(),
            old(self)@.counter < u64::MAX,
        ensures
            final(self)@ == store_insert(old(self)@, title@, content@, tags.deep_view()),
            final(self)@.wf(),
            id@ == new_id(old(self)@),
            crate::ids::is_canon_id(id@),
            !old(self)@.contains_id(new_id(old(self)@)),
    {
        proof {
            lemma_id_of_key_canon(old(self).counter);
        }
        let id = key_to_id(self.counter);
        let stored = StoredNote {
            key: self.counter,
            id: id.clone(),
            title,
            content,
            tags,
        };
        self.notes.push(stored);
        self.counter = self.counter + 1;
        proof {
            let pre = old(self)@;
            let post = store_insert(pre, title@, content@, tags.deep_view());
            assert forall|k: int| 0 <= k < self.notes@.len() implies self.notes.deep_view()[k]
                == post.notes[k] by {
                assert(self.notes.deep_view()[k] == self.notes@[k]@);
                if k < self.notes@.len() - 1 {
                    assert(self.notes@[k] == old(self).notes@[k]);
                    assert(old(self).notes.deep_view()[k] == old(self).notes@[k]@);
                }
            }
            assert(self@.notes =~= post.notes);
            assert(self@ == post);
            // Well-formedness of the grown collection.
            assert forall|i: int| 0 <= i < post.notes.len() implies (#[trigger] post.notes[i]).key
                < post.counter by {
                if i < pre.notes.len() {
                    assert(pre.notes[i].key < pre.counter);
                }
            }
            assert forall|i: int, j: int| 0 <= i < j < post.notes.len() implies post.notes[i].key
                != post.notes[j].key by {
                if j < pre.notes.len() {
                } else {
                    assert(pre.notes[i].key < pre.counter);
                }
            }
            assert forall|i: int| 0 <= i < post.notes.len() implies (#[trigger] post.notes[i]).id
                == id_of_key(post.notes[i].key) by {}
            // Freshness of the assigned identifier.
            if pre.contains_id(new_id(pre)) {
                let i = choose|i: int|
                    0 <= i < pre.notes.len() && (#[trigger] pre.notes[i]).id == new_id(pre);
                lemma_id_of_key_injective(pre.notes[i].key, pre.counter);
                assert(false);
            }
        }
        id
    }

    /// Listing: every document, in store order.
    pub fn find_all(&self) -> (r: Vec<Note>)
        requires
            self@.wf(),
        ensures
            r.deep_view() == store_list(self@),
    {
        let mut r: Vec<Note> = Vec::new();
        let mut i: usize = 0;
        while i < self.notes.len()
            invariant
                0 <= i <= self.notes@.len(),
                r@.len() == i,
                forall|k: int|
                    0 <= k < i ==> (#[trigger] r@[k])@ == published(self.notes@[k]@),
            decreases self.notes@.len() - i,
        {
            let n = self.notes[i].to_note();
            r.push(n);
            i += 1;
        }
        proof {
            assert forall|k: int| 0 <= k < self.notes@.len() implies r.deep_view()[k]
                == store_list(self@)[k] by {
                assert(r.deep_view()[k] == r@[k]@);
                assert(self@.notes[k] == self.notes@[k]@);
            }
            assert(r.deep_view() =~= store_list(self@));
        }
        r
    }

    /// Deletion by canonical identifier: removes the matching document
    /// (there is at most one) and reports whether one existed.
    pub fn delete_by_id(&mut self, id: &String) -> (removed: bool)
        requires
            old(self)@.wf(),
        ensures
            final(self)@ == store_delete(old(self)@, id@),
            final(self)@.wf(),
            removed == old(self)@.contains_id(id@),
    {
        let mut kept: Vec<StoredNote> = Vec::new();
        let mut found = false;
        let mut i: usize = 0;
        while i < self.notes.len()
            invariant
                *self == *old(self),
                0 <= i <= self.notes@.len(),
                kept.deep_view() == old(self)@.notes.subrange(0, i as int).filter(keeps(id@)),
                found == exists|k: int|
                    0 <= k < i && (#[trigger] old(self)@.notes[k]).id == id@,
            decreases self.notes@.len() - i,
        {
            let ghost pre_seq = old(self)@.notes.subrange(0, i as int);
            let ghost cur = old(self)@.notes[i as int];
            proof {
                assert(old(self)@.notes[i as int] == old(self).notes@[i as int]@);
            }
            let matched = self.notes[i].id == *id;
            let ghost kept_pre_vec = kept@;
            let ghost kept_pre = kept.deep_view();
            if matched {
                found = true;
            } else {
                let d = self.notes[i].duplicate();
                kept.push(d);
                proof {
                    assert forall|k: int| 0 <= k < kept@.len() implies kept.deep_view()[k]
                        == kept_pre.push(cur)[k] by {
                        assert(kept.deep_view()[k] == kept@[k]@);
                        if k < kept_pre_vec.len() {
                            assert(kept@[k] == kept_pre_vec[k]);
                            assert(kept_pre[k] == kept_pre_vec[k]@);
                        }
                    }
                    assert(kept.deep_view() =~= kept_pre.push(cur));
                }
            }
            proof {
                let s2 = old(self)@.notes.subrange(0, i as int + 1);
                assert(s2.drop_last() =~= pre_seq);
                assert(s2.last() == cur);
                reveal(Seq::filter);
                if matched {
                    assert(!(keeps(id@)(cur)));
                    assert(kept.deep_view() == s2.filter(keeps(id@)));
                } else {
                    assert(keeps(id@)(cur));
                    assert(s2.filter(keeps(id@)) == pre_seq.filter(keeps(id@)).push(cur));
                }
            }
            i += 1;
        }
        proof {
            assert(old(self)@.notes.subrange(0, old(self)@.notes.len() as int) =~= old(
                self,
            )@.notes);
        }
        self.notes = kept;
        proof {
            assert(self@ == store_delete(old(self)@, id@));
            lemma_filter_notes_inv(old(self)@.notes, old(self)@.counter, keeps(id@));
        }
        found
    }

    /// Update by canonical identifier: replaces the matching document's
    /// fields wholesale, identifier untouched; reports whether one
    /// matched.
    pub fn update_by_id(
        &mut self,
        id: &String,
        title: &String,
        content: &String,
        tags: &Vec<String>,
    ) -> (updated: bool)
        requires
            old(self)@.wf(),
        ensures
            final(self)@ == store_update(old(self)@, id@, title@, content@, tags.deep_view()),
            final(self)@.wf(),
            updated == old(self)@.contains_id(id@),
    {
        let ghost target = store_update(old(self)@, id@, title@, content@, tags.deep_view());
        let mut out: Vec<StoredNote> = Vec::new();
        let mut found = false;
        let mut i: usize = 0;
        while i < self.notes.len()
            invariant
                *self == *old(self),
                0 <= i <= self.notes@.len(),
                out@.len() == i,
                forall|k: int| 0 <= k < i ==> (#[trigger] out@[k])@ == target.notes[k],
                found == exists|k: int|
                    0 <= k < i && (#[trigger] old(self)@.notes[k]).id == id@,
                target == store_update(old(self)@, id@, title@, content@, tags.deep_view()),
            decreases self.notes@.len() - i,
        {
            proof {
                assert(old(self)@.notes[i as int] == old(self).notes@[i as int]@);
            }
            let matched = self.notes[i].id == *id;
            if matched {
                found = true;
                let n = StoredNote {
                    key: self.notes[i].key,
                    id: self.notes[i].id.clone(),
                    title: title.clone(),
                    content: content.clone(),
                    tags: clone_strings(tags),
                };
                out.push(n);
            } else {
                let d = self.notes[i].duplicate();
                out.push(d);
            }
            i += 1;
        }
        self.notes = out;
        proof {
            assert forall|k: int| 0 <= k < self.notes@.len() implies self@.notes[k]
                == target.notes[k] by {
                assert(self@.notes[k] == self.notes@[k]@);
            }
            assert(self@.notes =~= target.notes);
            assert(self@ == target);
            // The update keeps every key and identifier, so
            // well-formedness carries over pointwise.
            assert forall|i: int| 0 <= i < target.notes.len() implies (
            #[trigger] target.notes[i]).key == old(self)@.notes[i].key && target.notes[i].id
                == old(self)@.notes[i].id by {}
        }
        found
    }

    /// Appends the published form of every document scoring exactly
    /// `sc` against the query, in store order.
    fn push_matches(&self, query: &str, sc: u8, out: &mut Vec<Note>)
        ensures
            final(out).deep_view() == old(out).deep_view() + self@.notes.filter(
                score_pred(query@, sc as nat),
            ).map_values(publish_fn()),
    {
        let ghost pred = score_pred(query@, sc as nat);
        let mut i: usize = 0;
        while i < self.notes.len()
            invariant
                0 <= i <= self.notes@.len(),
                pred == score_pred(query@, sc as nat),
                out.deep_view() == old(out).deep_view() + self@.notes.subrange(
                    0,
                    i as int,
                ).filter(pred).map_values(publish_fn()),
            decreases self.notes@.len() - i,
        {
            let ghost pre_seq = self@.notes.subrange(0, i as int);
            let ghost cur = self@.notes[i as int];
            proof {
                assert(self@.notes[i as int] == self.notes@[i as int]@);
            }
            let in_title = contains_substring(self.notes[i].title.as_str(), query);
            let in_content = contains_substring(self.notes[i].content.as_str(), query);
            let score: u8 = (if in_title {
                2
            } else {
                0
            }) + (if in_content {
                1
            } else {
                0
            });
            proof {
                assert(score as nat == note_score(cur, query@));
            }
            let ghost out_pre_vec = out@;
            let ghost out_pre = out.deep_view();
            if score == sc {
                let n = self.notes[i].to_note();
                out.push(n);
                proof {
                    assert forall|k: int| 0 <= k < out@.len() implies out.deep_view()[k]
                        == out_pre.push(published(cur))[k] by {
                        assert(out.deep_view()[k] == out@[k]@);
                        if k < out_pre_vec.len() {
                            assert(out@[k] == out_pre_vec[k]);
                            assert(out_pre[k] == out_pre_vec[k]@);
                        }
                    }
                    assert(out.deep_view() =~= out_pre.push(published(cur)));
                }
            }
            proof {
                let s2 = self@.notes.subrange(0, i as int + 1);
                assert(s2.drop_last() =~= pre_seq);
                assert(s2.last() == cur);
                reveal(Seq::filter);
                if score == sc {
                    assert(pred(cur));
                    assert(s2.filter(pred) == pre_seq.filter(pred).push(cur));
                    assert(pre_seq.filter(pred).push(cur).map_values(publish_fn())
                        =~= pre_seq.filter(pred).map_values(publish_fn()).push(published(cur)));
                    assert(out.deep_view() =~= old(out).deep_view() + s2.filter(pred).map_values(
                        publish_fn(),
                    ));
                } else {
                    assert(!pred(cur));
                    assert(s2.filter(pred) == pre_seq.filter(pred));
                }
            }
            i += 1;
        }
        proof {
            assert(self@.notes.subrange(0, self@.notes.len() as int) =~= self@.notes);
        }
    }

    /// Search: a relevance-ranked query over title and content. An
    /// empty or non-matching query yields an empty sequence, not an
    /// error; otherwise every matching document comes back, best score
    /// first, store order within equal scores.
    pub fn search(&self, query: &str) -> (r: Vec<Note>)
        requires
            self@.wf(),
        ensures
            r.deep_view() == store_search(self@, query@),
    {
        let mut out: Vec<Note> = Vec::new();
        if query.unicode_len() == 0 {
            proof {
                assert(out.deep_view() =~= store_search(self@, query@));
            }
            return out;
        }
        let ghost f3 = self@.notes.filter(score_pred(query@, 3));
        let ghost f2 = self@.notes.filter(score_pred(query@, 2));
        let ghost f1 = self@.notes.filter(score_pred(query@, 1));
        self.push_matches(query, 3, &mut out);
        self.push_matches(query, 2, &mut out);
        self.push_matches(query, 1, &mut out);
        proof {
            lemma_publish_distributes(f3 + f2, f1);
            lemma_publish_distributes(f3, f2);
            assert(out.deep_view() =~= store_search(self@, query@));
        }
        out
    }
}

} // verus!
