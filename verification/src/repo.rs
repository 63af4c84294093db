//! The note repository: the five data operations and the connectivity
//! probe, each gated on the connection established (or not) at process
//! start. The repository is stateless between calls; the only
//! persistent state is the store itself and the connection's
//! presence, which is fixed at startup — there is no reconnection
//! path.

use vstd::prelude::*;
use crate::errors::RepoError;
use crate::ids::{parse_id, is_valid_id, canon_id};
use crate::note::Note;
use crate::store::{
    Store, StoreView, store_insert, store_delete, store_update, store_list, store_search, new_id,
    lemma_filter_all, keeps,
};

verus! {

/// The acknowledgement the probe returns: the store's list of logical
/// databases in readable form. The repository manages exactly one.
pub open spec fn db_list_ack() -> Seq<char> {
    "databases: [knowledge_base]"@
}

/// The acknowledgement of a completed deletion.
pub open spec fn deleted_ack() -> Seq<char> {
    "note deleted"@
}

/// The acknowledgement of a completed update.
pub open spec fn updated_ack() -> Seq<char> {
    "note updated"@
}

/// The repository over its store. `connected` records whether the
/// startup connection attempt succeeded; it never changes afterwards,
/// and while it is false every operation fails with `NotConnected`
/// and the store is untouched.
pub struct Repository {
    pub connected: bool,
    pub store: Store,
}

impl Repository {
    pub open spec fn wf(self) -> bool {
        self.store@.wf()
    }

    /// A repository as startup leaves it: an empty store, reachable or
    /// not according to how the connection attempt went. Startup is
    /// best-effort: a failed attempt is not retried, and is reported
    /// only when an operation is first used.
    pub fn new(connected: bool) -> (r: Repository)
        ensures
            r.connected == connected,
            r.wf(),
            r.store@.notes.len() == 0,
            r.store@.counter == 0,
    {
        Repository { connected, store: Store::new() }
    }

    /// The liveness probe: asks the store for its logical databases
    /// and acknowledges in readable form; fails with `NotConnected`
    /// when no connection is held.
    pub fn check_db_connection(&self) -> (r: Result<String, RepoError>)
        ensures
            self.connected ==> (r matches Ok(m) && m@ == db_list_ack()),
            !self.connected ==> r == Err::<String, RepoError>(RepoError::NotConnected),
    {
        if !self.connected {
            return Err(RepoError::NotConnected);
        }
        Ok("databases: [knowledge_base]".to_owned())
    }

    /// Creation: persists a note with the given fields under a fresh
    /// identifier and returns the identifier's canonical string form.
    pub fn create_note(&mut self, title: String, content: String, tags: Vec<String>) -> (r:
        Result<String, RepoError>)
        requires
            old(self).wf(),
            old(self).store@.counter < u64::MAX,
        ensures
            final(self).wf(),
            final(self).connected == old(self).connected,
            !old(self).connected ==> r == Err::<String, RepoError>(RepoError::NotConnected)
                && final(self).store@ == old(self).store@,
            old(self).connected ==> {
                &&& final(self).store@ == store_insert(
                    old(self).store@,
                    title@,
                    content@,
                    tags.deep_view(),
                )
                &&& r matches Ok(id) && id@ == new_id(old(self).store@)
                &&& crate::ids::is_canon_id(new_id(old(self).store@))
                &&& !old(self).store@.contains_id(new_id(old(self).store@))
            },
    {
        if !self.connected {
            return Err(RepoError::NotConnected);
        }
        let id = self.store.insert(title, content, tags);
        Ok(id)
    }

    /// Listing: every persisted note, in the order the store yields
    /// them.
    pub fn get_notes(&self) -> (r: Result<Vec<Note>, RepoError>)
        requires
            self.wf(),
        ensures
            !self.connected ==> r == Err::<Vec<Note>, RepoError>(RepoError::NotConnected),
            self.connected ==> (r matches Ok(v) && v.deep_view() == store_list(self.store@)),
    {
        if !self.connected {
            return Err(RepoError::NotConnected);
        }
        Ok(self.store.find_all())
    }

    /// Deletion: parses the identifier (`InvalidId` when malformed),
    /// removes the matching note, and acknowledges; a well-formed
    /// identifier matching nothing fails with `NotFound` and changes
    /// nothing.
    pub fn delete_note(&mut self, id: &str) -> (r: Result<String, RepoError>)
        requires
            old(self).wf(),
        ensures
            final(self).wf(),
            final(self).connected == old(self).connected,
            !old(self).connected ==> r == Err::<String, RepoError>(RepoError::NotConnected)
                && final(self).store@ == old(self).store@,
            old(self).connected && !is_valid_id(id@) ==> r == Err::<String, RepoError>(
                RepoError::InvalidId,
            ) && final(self).store@ == old(self).store@,
            old(self).connected && is_valid_id(id@) && !old(self).store@.contains_id(
                canon_id(id@),
            ) ==> r == Err::<String, RepoError>(RepoError::NotFound) && final(self).store@ == old(
                self,
            ).store@,
            old(self).connected && is_valid_id(id@) && old(self).store@.contains_id(
                canon_id(id@),
            ) ==> (r matches Ok(m) && m@ == deleted_ack()) && final(self).store@ == store_delete(
                old(self).store@,
                canon_id(id@),
            ),
    {
        if !self.connected {
            return Err(RepoError::NotConnected);
        }
        let canon = match parse_id(id) {
            Ok(c) => c,
            Err(e) => {
                return Err(e);
            },
        };
        let removed = self.store.delete_by_id(&canon);
        if removed {
            Ok("note deleted".to_owned())
        } else {
            proof {
                lemma_delete_no_match(old(self).store@, canon@);
            }
            Err(RepoError::NotFound)
        }
    }

    /// Update: parses the identifier (`InvalidId` when malformed) and
    /// replaces the matching note's fields wholesale, identifier
    /// untouched; a well-formed identifier matching nothing fails with
    /// `NotFound` and changes nothing.
    pub fn update_note(
        &mut self,
        id: &str,
        title: String,
        content: String,
        tags: Vec<String>,
    ) -> (r: Result<String, RepoError>)
        requires
            old(self).wf(),
        ensures
            final(self).wf(),
            final(self).connected == old(self).connected,
            !old(self).connected ==> r == Err::<String, RepoError>(RepoError::NotConnected)
                && final(self).store@ == old(self).store@,
            old(self).connected && !is_valid_id(id@) ==> r == Err::<String, RepoError>(
                RepoError::InvalidId,
            ) && final(self).store@ == old(self).store@,
            old(self).connected && is_valid_id(id@) && !old(self).store@.contains_id(
                canon_id(id@),
            ) ==> r == Err::<String, RepoError>(RepoError::NotFound) && final(self).store@ == old(
                self,
            ).store@,
            old(self).connected && is_valid_id(id@) && old(self).store@.contains_id(
                canon_id(id@),
            ) ==> (r matches Ok(m) && m@ == updated_ack()) && final(self).store@ == store_update(
                old(self).store@,
                canon_id(id@),
                title@,
                content@,
                tags.deep_view(),
            ),
    {
        if !self.connected {
            return Err(RepoError::NotConnected);
        }
        let canon = match parse_id(id) {
            Ok(c) => c,
            Err(e) => {
                return Err(e);
            },
        };
        let updated = self.store.update_by_id(&canon, &title, &content, &tags);
        if updated {
            Ok("note updated".to_owned())
        } else {
            proof {
                lemma_update_no_match(
                    old(self).store@,
                    canon@,
                    title@,
                    content@,
                    tags.deep_view(),
                );
            }
            Err(RepoError::NotFound)
        }
    }

    /// Search: a relevance-ranked full-text query over the searchable
    /// fields (title and content, the fields the deployment's text
    /// index must be declared over). An empty or non-matching query
    /// yields an empty list, not an error.
    pub fn search_notes(&self, query: &str) -> (r: Result<Vec<Note>, RepoError>)
        requires
            self.wf(),
        ensures
            !self.connected ==> r == Err::<Vec<Note>, RepoError>(RepoError::NotConnected),
            self.connected ==> (r matches Ok(v) && v.deep_view() == store_search(
                self.store@,
                query@,
            )),
    {
        if !self.connected {
            return Err(RepoError::NotConnected);
        }
        Ok(self.store.search(query))
    }
}

/// Deleting an identifier nothing carries changes nothing.
pub proof fn lemma_delete_no_match(s: StoreView, id: Seq<char>)
    requires
        !s.contains_id(id),
    ensures
        store_delete(s, id) == s,
{
    assert(forall|i: int| 0 <= i < s.notes.len() ==> keeps(id)(#[trigger] s.notes[i]));
    lemma_filter_all(s.notes, keeps(id));
}

/// Updating an identifier nothing carries changes nothing.
pub proof fn lemma_update_no_match(
    s: StoreView,
    id: Seq<char>,
    title: Seq<char>,
    content: Seq<char>,
    tags: Seq<Seq<char>>,
)
    requires
        !s.contains_id(id),
    ensures
        store_update(s, id, title, content, tags) == s,
{
    assert(store_update(s, id, title, content, tags).notes =~= s.notes);
}

} // verus!
