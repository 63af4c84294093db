//! End-to-end tests of the repository operations and their error
//! semantics.

use note_repo::errors::RepoError;
use note_repo::note::Note;
use note_repo::repo::Repository;

fn tags(ts: &[&str]) -> Vec<String> {
    ts.iter().map(|t| t.to_string()).collect()
}

fn find_by_id<'a>(notes: &'a [Note], id: &str) -> Option<&'a Note> {
    notes.iter().find(|n| n.id.as_deref() == Some(id))
}

#[test]
fn create_then_list() {
    let mut repo = Repository::new(true);
    let id = repo
        .create_note("Alpha".to_string(), "first note".to_string(), tags(&["x"]))
        .unwrap();
    assert_eq!(id.len(), 24);
    assert!(id.chars().all(|c| c.is_ascii_hexdigit() && !c.is_ascii_uppercase()));
    let notes = repo.get_notes().unwrap();
    assert_eq!(notes.len(), 1);
    let n = find_by_id(&notes, &id).expect("created note listed");
    assert_eq!(n.title, "Alpha");
    assert_eq!(n.content, "first note");
    assert_eq!(n.tags, tags(&["x"]));
}

#[test]
fn created_ids_are_fresh() {
    let mut repo = Repository::new(true);
    let a = repo
        .create_note("a".to_string(), "1".to_string(), tags(&[]))
        .unwrap();
    let b = repo
        .create_note("b".to_string(), "2".to_string(), tags(&[]))
        .unwrap();
    assert_ne!(a, b);
    assert_eq!(repo.get_notes().unwrap().len(), 2);
}

#[test]
fn delete_removes_note() {
    let mut repo = Repository::new(true);
    let id = repo
        .create_note("t".to_string(), "c".to_string(), tags(&["a", "b"]))
        .unwrap();
    let ack = repo.delete_note(&id).unwrap();
    assert_eq!(ack, "note deleted");
    let notes = repo.get_notes().unwrap();
    assert!(find_by_id(&notes, &id).is_none());
    // Deleting the same note a second time finds nothing.
    assert_eq!(repo.delete_note(&id), Err(RepoError::NotFound));
}

#[test]
fn update_replaces_fields() {
    let mut repo = Repository::new(true);
    let id = repo
        .create_note("old title".to_string(), "old content".to_string(), tags(&["a"]))
        .unwrap();
    let ack = repo
        .update_note(&id, "new title".to_string(), "new content".to_string(), tags(&["b", "c"]))
        .unwrap();
    assert_eq!(ack, "note updated");
    let notes = repo.get_notes().unwrap();
    assert_eq!(notes.len(), 1);
    let n = find_by_id(&notes, &id).expect("id unchanged by update");
    assert_eq!(n.title, "new title");
    assert_eq!(n.content, "new content");
    assert_eq!(n.tags, tags(&["b", "c"]));
}

#[test]
fn update_unknown_id_is_not_found() {
    let mut repo = Repository::new(true);
    repo.create_note("t".to_string(), "c".to_string(), tags(&[]))
        .unwrap();
    let missing = "aaaaaaaaaaaaaaaaaaaaaaaa";
    let r = repo.update_note(missing, "x".to_string(), "y".to_string(), tags(&[]));
    assert_eq!(r, Err(RepoError::NotFound));
}

#[test]
fn invalid_id_rejected_never_not_found() {
    let mut repo = Repository::new(true);
    repo.create_note("t".to_string(), "c".to_string(), tags(&[]))
        .unwrap();
    assert_eq!(repo.delete_note("not-a-valid-id"), Err(RepoError::InvalidId));
    let r = repo.update_note("not-a-valid-id", "x".to_string(), "y".to_string(), tags(&[]));
    assert_eq!(r, Err(RepoError::InvalidId));
    // Too short, too long, and non-hex characters are all malformed.
    assert_eq!(repo.delete_note(""), Err(RepoError::InvalidId));
    assert_eq!(repo.delete_note("abc"), Err(RepoError::InvalidId));
    assert_eq!(
        repo.delete_note("aaaaaaaaaaaaaaaaaaaaaaaaa"),
        Err(RepoError::InvalidId)
    );
    assert_eq!(
        repo.delete_note("gggggggggggggggggggggggg"),
        Err(RepoError::InvalidId)
    );
}

#[test]
fn well_formed_uppercase_id_is_accepted() {
    let mut repo = Repository::new(true);
    let id = repo
        .create_note("t".to_string(), "c".to_string(), tags(&[]))
        .unwrap();
    // The canonical form is lowercase; the parser accepts either case.
    let upper = id.to_uppercase();
    assert_eq!(repo.delete_note(&upper), Ok("note deleted".to_string()));
}

#[test]
fn operations_before_connection_fail_not_connected() {
    let mut repo = Repository::new(false);
    assert_eq!(repo.check_db_connection(), Err(RepoError::NotConnected));
    assert_eq!(
        repo.create_note("t".to_string(), "c".to_string(), tags(&[])),
        Err(RepoError::NotConnected)
    );
    assert!(matches!(repo.get_notes(), Err(RepoError::NotConnected)));
    assert_eq!(repo.delete_note("aaaaaaaaaaaaaaaaaaaaaaaa"), Err(RepoError::NotConnected));
    assert_eq!(
        repo.update_note("aaaaaaaaaaaaaaaaaaaaaaaa", "t".to_string(), "c".to_string(), tags(&[])),
        Err(RepoError::NotConnected)
    );
    assert!(matches!(repo.search_notes("x"), Err(RepoError::NotConnected)));
}

#[test]
fn probe_reports_databases_when_connected() {
    let repo = Repository::new(true);
    assert_eq!(
        repo.check_db_connection(),
        Ok("databases: [knowledge_base]".to_string())
    );
}

#[test]
fn scenario_create_search_delete() {
    let mut repo = Repository::new(true);
    let a = repo
        .create_note("Alpha".to_string(), "first note".to_string(), tags(&["x"]))
        .unwrap();
    let b = repo
        .create_note("Beta".to_string(), "second note".to_string(), tags(&["y"]))
        .unwrap();
    // "first" matches only Alpha's content; Beta is excluded.
    let hits = repo.search_notes("first").unwrap();
    assert_eq!(hits.len(), 1);
    assert_eq!(hits[0].id.as_deref(), Some(a.as_str()));
    assert_eq!(hits[0].title, "Alpha");
    // After deleting Alpha, exactly Beta remains.
    repo.delete_note(&a).unwrap();
    let notes = repo.get_notes().unwrap();
    assert_eq!(notes.len(), 1);
    assert_eq!(notes[0].id.as_deref(), Some(b.as_str()));
    assert_eq!(notes[0].title, "Beta");
}

#[test]
fn search_ranks_title_matches_first() {
    let mut repo = Repository::new(true);
    let content_only = repo
        .create_note("plain".to_string(), "a rust note".to_string(), tags(&[]))
        .unwrap();
    let both = repo
        .create_note("rust tips".to_string(), "more rust".to_string(), tags(&[]))
        .unwrap();
    let title_only = repo
        .create_note("rust intro".to_string(), "basics".to_string(), tags(&[]))
        .unwrap();
    let unrelated = repo
        .create_note("shopping".to_string(), "milk".to_string(), tags(&[]))
        .unwrap();
    let hits = repo.search_notes("rust").unwrap();
    let ids: Vec<&str> = hits.iter().map(|n| n.id.as_deref().unwrap()).collect();
    // Both-field match first, then title-only, then content-only.
    assert_eq!(ids, vec![both.as_str(), title_only.as_str(), content_only.as_str()]);
    assert!(!ids.contains(&unrelated.as_str()));
}

#[test]
fn search_empty_query_yields_nothing() {
    let mut repo = Repository::new(true);
    repo.create_note("t".to_string(), "c".to_string(), tags(&[]))
        .unwrap();
    assert_eq!(repo.search_notes("").unwrap().len(), 0);
    assert_eq!(repo.search_notes("zzz-no-match").unwrap().len(), 0);
}

#[test]
fn error_messages_are_descriptive() {
    assert_eq!(RepoError::NotConnected.message(), "database not connected");
    assert_eq!(RepoError::InvalidId.message(), "invalid note id");
    assert_eq!(RepoError::NotFound.message(), "note not found");
    assert_eq!(
        RepoError::StoreError("boom".to_string()).message(),
        "store error: boom"
    );
}
