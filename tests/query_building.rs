use soash::query::{
    build_multiterm_query, build_search_query, exact, note_lookup_query, note_search_query,
    similar_notes_query, Field, Occur, Query,
};

fn terms(q: &Query) -> Vec<(Field, String)> {
    match q {
        Query::Boolean { clauses } => clauses
            .iter()
            .map(|(o, t)| {
                assert_eq!(*o, Occur::Should);
                match t {
                    Query::Term { field, text } => (*field, text.clone()),
                    _ => panic!("not a term"),
                }
            })
            .collect(),
        _ => panic!("not boolean"),
    }
}

fn is_exact(q: &Query, f: Field, v: u64) -> bool {
    matches!(q, Query::Range { field, lo, hi } if *field == f && *lo == v && *hi == v)
}

#[test]
fn exact_is_a_single_value_range() {
    assert!(is_exact(&exact(Field::Id, 7), Field::Id, 7));
    assert!(is_exact(&exact(Field::UserId, u64::MAX), Field::UserId, u64::MAX));
}

#[test]
fn multiterm_has_one_clause_per_token() {
    let q = build_multiterm_query(Field::Body, vec!["milk".to_string(), "egg".to_string()]);
    assert_eq!(
        terms(&q),
        vec![(Field::Body, "milk".to_string()), (Field::Body, "egg".to_string())]
    );
    assert!(terms(&build_multiterm_query(Field::Title, vec![])).is_empty());
}

#[test]
fn search_query_covers_each_field() {
    let q = build_search_query(vec![Field::Title, Field::Body], "Buy Milk");
    match q {
        Query::Boolean { clauses } => {
            assert_eq!(clauses.len(), 2);
            assert_eq!(
                terms(&clauses[0].1),
                vec![(Field::Title, "buy".to_string()), (Field::Title, "milk".to_string())]
            );
            assert_eq!(
                terms(&clauses[1].1),
                vec![(Field::Body, "buy".to_string()), (Field::Body, "milk".to_string())]
            );
        }
        _ => panic!("not boolean"),
    }
}

#[test]
fn lookup_requires_id_and_owner() {
    match note_lookup_query(3, 42) {
        Query::Boolean { clauses } => {
            assert_eq!(clauses.len(), 2);
            assert_eq!(clauses[0].0, Occur::Must);
            assert!(is_exact(&clauses[0].1, Field::Id, 42));
            assert_eq!(clauses[1].0, Occur::Must);
            assert!(is_exact(&clauses[1].1, Field::UserId, 3));
        }
        _ => panic!("not boolean"),
    }
}

#[test]
fn empty_search_has_no_query() {
    assert!(note_search_query(1, "").is_none());
    assert!(note_search_query(1, "  ?! ").is_none());
}

#[test]
fn search_filters_by_owner() {
    match note_search_query(2, "milk").unwrap() {
        Query::Boolean { clauses } => {
            assert_eq!(clauses.len(), 2);
            assert_eq!(clauses[0].0, Occur::Must);
            assert!(is_exact(&clauses[0].1, Field::UserId, 2));
            assert_eq!(clauses[1].0, Occur::Should);
        }
        _ => panic!("not boolean"),
    }
}

#[test]
fn similar_searches_title_and_body() {
    let q = similar_notes_query(1, "Buy Milk", "Remember to buy milk and eggs").unwrap();
    match q {
        Query::Boolean { clauses } => {
            assert_eq!(clauses.len(), 3);
            assert!(is_exact(&clauses[0].1, Field::UserId, 1));
            assert_eq!(clauses[1].0, Occur::Should);
            assert_eq!(clauses[2].0, Occur::Should);
            match &clauses[2].1 {
                Query::Boolean { clauses: per_field } => {
                    assert_eq!(terms(&per_field[0].1).len(), 6);
                    assert_eq!(terms(&per_field[1].1)[5], (Field::Body, "egg".to_string()));
                }
                _ => panic!("not boolean"),
            }
        }
        _ => panic!("not boolean"),
    }
    assert!(similar_notes_query(1, "", "<b></b>").is_none());
}
