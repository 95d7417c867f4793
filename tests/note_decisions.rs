use soash::notes::{
    load_note, note_document, note_from_hits, plan_update, select_hits, Hit, IdAllocator,
    NoteError, StoredNote,
};

fn doc(id: u64, user_id: u64, title: &str, body: &str) -> StoredNote {
    note_document(user_id, id, title.to_string(), body.to_string())
}

fn hit(score: f32, d: StoredNote) -> Hit {
    Hit { score_bits: score.to_bits(), note: d }
}

#[test]
fn added_note_reads_back() {
    let d = doc(0, 1, "Buy Milk", "Remember to buy milk and eggs");
    let n = note_from_hits(&vec![d], 1, 0).unwrap();
    assert_eq!(n.id, 0);
    assert_eq!(n.title, "Buy Milk");
    assert_eq!(n.body, "Remember to buy milk and eggs");
}

#[test]
fn other_owner_gets_not_found() {
    let d = doc(5, 1, "t", "b");
    assert_eq!(note_from_hits(&vec![d], 2, 5).unwrap_err(), NoteError::NotFound);
    assert_eq!(note_from_hits(&vec![], 1, 5).unwrap_err(), NoteError::NotFound);
}

#[test]
fn lookup_takes_the_matching_document() {
    let docs = vec![doc(4, 1, "other", "x"), doc(5, 2, "foreign", "y"), doc(5, 1, "mine", "z")];
    let n = note_from_hits(&docs, 1, 5).unwrap();
    assert_eq!(n.title, "mine");
}

#[test]
fn update_plan_keeps_id_and_owner() {
    let found = vec![doc(9, 3, "old", "old body")];
    let d = plan_update(found, 3, 9, "new".to_string(), "new body".to_string()).unwrap();
    assert_eq!((d.id, d.user_id), (9, 3));
    assert_eq!((d.title.as_str(), d.body.as_str()), ("new", "new body"));
    let n = load_note(&d);
    assert_eq!((n.id, n.title.as_str()), (9, "new"));
}

#[test]
fn update_of_missing_note_is_not_found() {
    let found = vec![doc(9, 4, "old", "old body")];
    let r = plan_update(found, 3, 9, "new".to_string(), "b".to_string());
    assert_eq!(r.unwrap_err(), NoteError::NotFound);
}

#[test]
fn delete_returns_stored_content() {
    let found = vec![doc(2, 1, "Meeting notes", "Discuss milk supply chain")];
    let n = note_from_hits(&found, 1, 2).unwrap();
    assert_eq!(n.title, "Meeting notes");
    assert_eq!(n.body, "Discuss milk supply chain");
    assert_eq!(note_from_hits(&vec![], 1, 2).unwrap_err(), NoteError::NotFound);
}

#[test]
fn ids_start_at_zero() {
    let mut a = IdAllocator::resume_after(None);
    assert_eq!(a.allocate(), Some(0));
    assert_eq!(a.allocate(), Some(1));
}

#[test]
fn ids_resume_after_newest() {
    let mut a = IdAllocator::resume_after(Some(41));
    let first = a.allocate().unwrap();
    let second = a.allocate().unwrap();
    assert_eq!(first, 42);
    assert!(second > first);
}

#[test]
fn ids_run_out_at_the_top() {
    let mut a = IdAllocator::resume_after(Some(u64::MAX - 2));
    assert_eq!(a.allocate(), Some(u64::MAX - 1));
    assert_eq!(a.allocate(), None);
    let mut b = IdAllocator::resume_after(Some(u64::MAX));
    assert_eq!(b.allocate(), None);
}

#[test]
fn weak_hits_are_cut() {
    let hits = vec![
        hit(2.5, doc(1, 1, "a", "")),
        hit(1.0, doc(2, 1, "b", "")),
        hit(1.000001, doc(3, 1, "c", "")),
        hit(0.3, doc(4, 1, "d", "")),
        hit(f32::NAN, doc(5, 1, "e", "")),
        hit(-3.0, doc(6, 1, "f", "")),
        hit(f32::INFINITY, doc(7, 1, "g", "")),
    ];
    let ids: Vec<u64> = select_hits(&hits, 1, None).iter().map(|n| n.id).collect();
    assert_eq!(ids, vec![1, 3, 7]);
}

#[test]
fn search_scenario_by_owner() {
    let a = doc(0, 1, "Buy Milk", "Remember to buy milk and eggs");
    let b = doc(1, 1, "Meeting notes", "Discuss milk supply chain");
    let hits = vec![hit(3.2, a.clone()), hit(1.4, b.clone())];
    let mine = select_hits(&hits, 1, None);
    assert_eq!(mine.len(), 2);
    assert_eq!(mine[0].title, "Buy Milk");
    assert_eq!(mine[1].title, "Meeting notes");
    assert!(select_hits(&hits, 2, None).is_empty());
}

#[test]
fn similar_excludes_reference() {
    let hits = vec![
        hit(5.0, doc(0, 1, "Buy Milk", "x")),
        hit(2.0, doc(1, 1, "Meeting notes", "y")),
    ];
    let ids: Vec<u64> = select_hits(&hits, 1, Some(0)).iter().map(|n| n.id).collect();
    assert_eq!(ids, vec![1]);
}
