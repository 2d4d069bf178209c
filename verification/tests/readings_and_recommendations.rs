use backend::books::{AuthorDto, BookDto};
use backend::categories::CategoryDto;
use backend::json::JsonNumber;
use backend::readings::{plan_reading_write, reading_was_deleted, validate_note, ReadingWrite, UserReading};
use backend::recommendations::{
    candidate_to_passage_text, liked_book_to_query_text, prioritize_candidates, read_book_ids,
    select_top_liked, step_after_profile, step_after_readings, step_after_searches, CandidatePool,
    LikedProfile, RecommendationStep,
};

fn reading(id: i32, book: &str, note: Option<i32>) -> UserReading {
    UserReading { id, user_id: 1, book_id: book.to_string(), note, read_at: "t".to_string() }
}

fn book(id: &str, title: &str, authors: &[&str], cats: &[&str], desc: Option<&str>) -> BookDto {
    BookDto {
        id: id.to_string(),
        title: title.to_string(),
        authors: authors.iter().map(|a| AuthorDto { name: a.to_string() }).collect(),
        description: desc.map(|d| d.to_string()),
        image_url: None,
        page_count: 0,
        categories: cats.iter().map(|c| CategoryDto { name: c.to_string() }).collect(),
        average_rating: JsonNumber { as_u64: Some(0), text: "0".to_string() },
        ratings_count: 0,
        maturity_rating: String::new(),
        published_date: String::new(),
    }
}

#[test]
fn notes_must_be_between_one_and_five() {
    assert!(validate_note(None).is_ok());
    assert!(validate_note(Some(1)).is_ok());
    assert!(validate_note(Some(5)).is_ok());
    assert_eq!(validate_note(Some(0)).unwrap_err(), "La note doit être comprise entre 1 et 5");
    assert!(validate_note(Some(6)).is_err());
    assert!(validate_note(Some(-3)).is_err());
}

#[test]
fn one_reading_per_book() {
    let existing = reading(9, "bk", Some(2));
    assert!(matches!(
        plan_reading_write(Some(&existing), 1, "bk".into(), Some(4)),
        ReadingWrite::Update { id: 9, note: Some(4) }
    ));
    match plan_reading_write(None, 1, "bk".into(), None) {
        ReadingWrite::Insert { user_id, book_id, note } => {
            assert_eq!((user_id, book_id.as_str(), note), (1, "bk", None))
        }
        _ => panic!("expected an insert"),
    }
    assert!(reading_was_deleted(1));
    assert!(!reading_was_deleted(0));
    let r = reading(3, "bk", Some(5)).to_response();
    assert_eq!((r.id, r.book_id.as_str(), r.note), (3, "bk", Some(5)));
}

#[test]
fn top_liked_is_a_stable_sort_of_liked_readings() {
    let rs = vec![
        reading(1, "a", Some(3)),
        reading(2, "b", Some(1)),
        reading(3, "c", None),
        reading(4, "d", Some(5)),
        reading(5, "e", Some(4)),
        reading(6, "f", Some(5)),
        reading(7, "g", Some(2)),
        reading(8, "h", Some(3)),
    ];
    let top: Vec<i32> = select_top_liked(&rs).iter().map(|r| r.id).collect();
    assert_eq!(top, vec![4, 6, 5, 1, 3]);
    let none: Vec<UserReading> = vec![reading(1, "a", Some(2))];
    assert!(select_top_liked(&none).is_empty());
}

#[test]
fn top_liked_matches_std_stable_sort() {
    let rs: Vec<UserReading> = (0..12)
        .map(|i| reading(i, "x", if i % 4 == 0 { None } else { Some((i * 7 % 6) as i32) }))
        .collect();
    let mut expected: Vec<&UserReading> = rs.iter().filter(|r| r.note.map_or(true, |n| n >= 3)).collect();
    expected.sort_by(|a, b| b.note.unwrap_or(3).cmp(&a.note.unwrap_or(3)));
    let expected: Vec<i32> = expected.into_iter().take(5).map(|r| r.id).collect();
    let got: Vec<i32> = select_top_liked(&rs).iter().map(|r| r.id).collect();
    assert_eq!(got, expected);
}

#[test]
fn read_ids_are_distinct() {
    let rs = vec![reading(1, "a", None), reading(2, "b", None), reading(3, "a", None)];
    assert_eq!(read_book_ids(&rs), vec!["a".to_string(), "b".to_string()]);
}

#[test]
fn profile_texts() {
    let b = book("1", "Dune", &["Frank Herbert", "X"], &["Fiction", "Science Fiction", " general "], Some("Épice"));
    assert_eq!(
        liked_book_to_query_text(&b),
        "query: Titre: Dune - Auteurs: Frank Herbert, X - Genres: Science Fiction - Description: Épice"
    );
    let c = book("2", "Vide", &[], &[], None);
    assert_eq!(
        candidate_to_passage_text(&c),
        "passage: Titre: Vide - Auteurs:  - Genres:  - Description: "
    );
}

#[test]
fn profile_collects_titles_and_specific_genres() {
    let mut p = LikedProfile::new();
    p.record(book("1", " Dune ", &["Frank Herbert"], &["Fiction", "Science Fiction"], None), 5);
    p.record(book("2", "DUNE", &["Frank Herbert"], &["Science Fiction", "Space Opera"], None), 4);
    assert_eq!(p.read_titles, vec!["dune".to_string()]);
    assert_eq!(p.favorite_categories, vec!["Science Fiction".to_string(), "Space Opera".to_string()]);
    assert_eq!(p.liked.len(), 2);
    assert_eq!(p.liked[1].note, 4);
}

#[test]
fn candidate_queries_from_genres_and_authors() {
    let mut p = LikedProfile::new();
    p.record(book("1", "Dune", &["Frank Herbert"], &["Science Fiction"], None), 5);
    p.record(book("2", "Hyperion", &["Dan Simmons"], &["Science Fiction"], None), 4);
    assert_eq!(
        p.candidate_search_queries(),
        vec![
            "subject:\"Science Fiction\"".to_string(),
            "inauthor:\"Frank Herbert\"".to_string(),
            "inauthor:\"Dan Simmons\"".to_string(),
        ]
    );
}

#[test]
fn candidate_queries_fall_back_to_title_keywords() {
    let mut p = LikedProfile::new();
    p.record(book("1", "Le petit prince et la rose !!!!", &[], &["Fiction"], None), 5);
    assert_eq!(p.candidate_search_queries(), vec!["petit prince rose".to_string()]);
    let mut q = LikedProfile::new();
    q.record(book("1", "Le a b", &[], &[], None), 5);
    q.record(book("2", "Un", &[], &[], None), 5);
    q.record(book("3", "De", &[], &[], None), 5);
    q.record(book("4", "Or", &[], &[], None), 5);
    assert_eq!(q.candidate_search_queries(), vec!["Le a b", "Un", "De"]);
}

#[test]
fn candidate_queries_are_capped_at_six() {
    let mut p = LikedProfile::new();
    p.record(book("1", "T", &["A"], &["G1", "G2", "G3", "G4", "G5", "G6", "G7"], None), 5);
    let qs = p.candidate_search_queries();
    assert_eq!(qs.len(), 6);
    assert_eq!(qs[0], "subject:\"G1\"");
}

#[test]
fn candidate_pool_skips_read_and_repeated_books() {
    let read_ids = vec!["r1".to_string()];
    let read_titles = vec!["dune".to_string()];
    let mut pool = CandidatePool::new();
    pool.consider(book("r1", "Autre", &[], &[], None), &read_ids, &read_titles);
    pool.consider(book("x", " DUNE ", &[], &[], None), &read_ids, &read_titles);
    pool.consider(book("a", "Hyperion", &[], &[], None), &read_ids, &read_titles);
    pool.consider(book("b", "hyperion", &[], &[], None), &read_ids, &read_titles);
    pool.consider(book("a", "Hyperion 2", &[], &[], None), &read_ids, &read_titles);
    let ids: Vec<String> = pool.books().iter().map(|b| b.id.clone()).collect();
    assert_eq!(ids, vec!["a"]);
    assert_eq!(*pool.titles(), vec!["hyperion".to_string(), "hyperion 2".to_string()]);
    assert!(!pool.is_empty());
}

#[test]
fn kept_candidates_have_distinct_titles() {
    let mut pool = CandidatePool::new();
    assert!(pool.is_empty());
    pool.consider(book("a", "Dune", &[], &[], None), &vec![], &vec![]);
    pool.consider(book("b", "  dune", &[], &[], None), &vec![], &vec![]);
    pool.consider(book("c", "Solaris", &[], &[], None), &vec![], &vec![]);
    let titles: Vec<String> = pool.books().iter().map(|b| b.title.clone()).collect();
    assert_eq!(titles, vec!["Dune", "Solaris"]);
}

#[test]
fn recommendation_steps_stop_early() {
    assert!(matches!(step_after_readings(&vec![]), RecommendationStep::Finish));
    match step_after_readings(&vec![reading(1, "b1", Some(5)), reading(2, "b2", Some(2))]) {
        RecommendationStep::FetchLikedBooks { read_ids, top_liked } => {
            assert_eq!(read_ids, vec!["b1".to_string(), "b2".to_string()]);
            assert_eq!(top_liked.len(), 1);
            assert_eq!(top_liked[0].book_id, "b1");
        }
        _ => panic!("expected the liked books to be fetched"),
    }
    assert!(matches!(step_after_readings(&vec![reading(1, "b1", Some(1))]), RecommendationStep::Finish));
    assert!(matches!(step_after_profile(&LikedProfile::new()), RecommendationStep::Finish));
    let mut p = LikedProfile::new();
    p.record(book("1", "T", &["A"], &["G1"], None), 5);
    match step_after_profile(&p) {
        RecommendationStep::SearchCandidates(qs) => assert_eq!(qs, p.candidate_search_queries()),
        _ => panic!("expected searches"),
    }
    assert!(matches!(step_after_searches(CandidatePool::new(), 10), RecommendationStep::Finish));
    let mut pool = CandidatePool::new();
    pool.consider(book("a", "Dune", &[], &[], Some("desc")), &vec![], &vec![]);
    match step_after_searches(pool, 10) {
        RecommendationStep::ScoreCandidates(c) => assert_eq!(c.len(), 1),
        _ => panic!("expected candidates"),
    }
}

#[test]
fn candidates_with_descriptions_come_first() {
    let books = vec![
        book("1", "a", &[], &[], None),
        book("2", "b", &[], &[], Some("desc")),
        book("3", "c", &[], &[], Some("   ")),
        book("4", "d", &[], &[], Some("more")),
    ];
    let ids = |v: Vec<BookDto>| v.into_iter().map(|b| b.id).collect::<Vec<_>>();
    let make = || books.iter().map(|b| book(&b.id, &b.title, &[], &[], b.description.as_deref())).collect::<Vec<_>>();
    assert_eq!(ids(prioritize_candidates(make(), 2)), vec!["2", "4"]);
    assert_eq!(ids(prioritize_candidates(make(), 3)), vec!["2", "4", "1", "3"]);
}
