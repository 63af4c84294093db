//! The note entity: the sole record type the repository manages.

use vstd::prelude::*;

verus! {

/// A note as the caller sees it. A note submitted for creation has no
/// identifier; every persisted note carries the canonical string form
/// of the identifier the store assigned, which never changes.
#[derive(Debug)]
pub struct Note {
    pub id: Option<String>,
    pub title: String,
    pub content: String,
    pub tags: Vec<String>,
}

/// The mathematical value of a note.
pub ghost struct NoteView {
    pub id: Option<Seq<char>>,
    pub title: Seq<char>,
    pub content: Seq<char>,
    pub tags: Seq<Seq<char>>,
}

impl DeepView for Note {
    type V = NoteView;

    open spec fn deep_view(&self) -> NoteView {
        self.view()
    }
}

impl View for Note {
    type V = NoteView;

    open spec fn view(&self) -> NoteView {
        NoteView {
            id: match self.id {
                Option::Some(s) => Option::Some(s@),
                Option::None => Option::None,
            },
            title: self.title@,
            content: self.content@,
            tags: self.tags.deep_view(),
        }
    }
}

/// An exact copy of a list of strings.
pub fn clone_strings(v: &Vec<String>) -> (r: Vec<String>)
    ensures
        r.deep_view() == v.deep_view(),
{
    let mut r: Vec<String> = Vec::new();
    let mut i: usize = 0;
    while i < v.len()
        invariant
            0 <= i <= v@.len(),
            r@.len() == i,
            forall|k: int| 0 <= k < i ==> (#[trigger] r@[k])@ == v@[k]@,
        decreases v@.len() - i,
    {
        r.push(v[i].clone());
        i += 1;
    }
    proof {
        assert forall|k: int| 0 <= k < v@.len() implies r.deep_view()[k] == v.deep_view()[k] by {
            assert(r.deep_view()[k] == r@[k]@);
            assert(v.deep_view()[k] == v@[k]@);
        }
        assert(r.deep_view() =~= v.deep_view());
    }
    r
}

impl Note {
    /// An exact copy; operations hand out copies, never aliases.
    pub fn duplicate(&self) -> (n: Note)
        ensures
            n@ == self@,
    {
        let id = match &self.id {
            Option::Some(s) => Option::Some(s.clone()),
            Option::None => Option::None,
        };
        Note {
            id,
            title: self.title.clone(),
            content: self.content.clone(),
            tags: clone_strings(&self.tags),
        }
    }
}

} // verus!
