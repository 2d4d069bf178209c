use backend::books::{
    book_from_item, book_lookup, parse_search_books, harvest_categories, parse_book_dto,
    search_page, ParametresRecherche,
};
use backend::json::{JsonMember, JsonNumber, JsonValue};

fn s(x: &str) -> JsonValue {
    JsonValue::String(x.to_string())
}
fn n(v: u64) -> JsonValue {
    JsonValue::Number(JsonNumber { as_u64: Some(v), text: v.to_string() })
}
fn obj(members: Vec<(&str, JsonValue)>) -> JsonValue {
    JsonValue::Object(
        members.into_iter().map(|(k, v)| JsonMember { key: k.to_string(), value: v }).collect(),
    )
}

fn volume(id: &str) -> JsonValue {
    obj(vec![
        ("id", s(id)),
        (
            "volumeInfo",
            obj(vec![
                ("title", s("Fondation")),
                ("authors", JsonValue::Array(vec![s("Isaac Asimov"), n(3), s("Autre")])),
                ("description", s("Un empire s'effondre")),
                ("maturityRating", s("NOT_MATURE")),
                ("publishedDate", s("1951")),
                ("imageLinks", obj(vec![("thumbnail", s("http://img"))])),
                ("pageCount", n(255)),
                (
                    "averageRating",
                    JsonValue::Number(JsonNumber { as_u64: None, text: "4.5".to_string() }),
                ),
                ("ratingsCount", n(12)),
                (
                    "categories",
                    JsonValue::Array(vec![s("Fiction / Science Fiction / General"), s("Classics")]),
                ),
            ]),
        ),
    ])
}

#[test]
fn full_volume_maps_every_field() {
    let b = book_from_item(&volume("abc"));
    assert_eq!(b.id, "abc");
    assert_eq!(b.title, "Fondation");
    let authors: Vec<String> = b.authors.iter().map(|a| a.name.clone()).collect();
    assert_eq!(authors, vec!["Isaac Asimov".to_string(), "Autre".to_string()]);
    assert_eq!(b.description.as_deref(), Some("Un empire s'effondre"));
    assert_eq!(b.image_url.as_deref(), Some("http://img"));
    assert_eq!(b.page_count, 255);
    assert_eq!(b.average_rating.text, "4.5");
    assert_eq!(b.ratings_count, 12);
    assert_eq!(b.maturity_rating, "NOT_MATURE");
    assert_eq!(b.published_date, "1951");
    let cats: Vec<String> = b.categories.iter().map(|c| c.name.clone()).collect();
    assert_eq!(cats, vec!["Fiction", "Science Fiction", "General", "Classics"]);
}

#[test]
fn missing_members_take_defaults() {
    let b = book_from_item(&obj(vec![]));
    assert_eq!(b.id, "");
    assert_eq!(b.title, "Titre inconnu");
    assert!(b.authors.is_empty());
    assert!(b.description.is_none());
    assert!(b.image_url.is_none());
    assert_eq!(b.page_count, 0);
    assert_eq!(b.average_rating.as_u64, Some(0));
    assert_eq!(b.average_rating.text, "0");
    assert_eq!(b.ratings_count, 0);
    assert_eq!(b.maturity_rating, "");
    assert!(b.categories.is_empty());
}

#[test]
fn wrong_kinds_take_defaults() {
    let item = obj(vec![
        ("id", n(4)),
        ("volumeInfo", obj(vec![("title", n(1)), ("pageCount", s("12")), ("averageRating", s("x"))])),
    ]);
    let b = book_from_item(&item);
    assert_eq!(b.id, "");
    assert_eq!(b.title, "Titre inconnu");
    assert_eq!(b.page_count, 0);
    assert_eq!(b.average_rating.text, "0");
}

#[test]
fn parse_book_dto_requires_an_id() {
    assert!(parse_book_dto(&volume("")).is_none());
    assert!(parse_book_dto(&obj(vec![])).is_none());
    assert_eq!(parse_book_dto(&volume("x1")).unwrap().id, "x1");
}

#[test]
fn first_member_wins() {
    let item = obj(vec![("id", s("first")), ("id", s("second"))]);
    assert_eq!(book_from_item(&item).id, "first");
}

#[test]
fn search_page_maps_items_and_total() {
    let data = obj(vec![
        ("totalItems", n(42)),
        ("items", JsonValue::Array(vec![volume("a"), volume("b")])),
    ]);
    let page = search_page(&data, 5, 10);
    assert_eq!(page.pagination.total_items, 42);
    assert_eq!(page.pagination.offset, 5);
    assert_eq!(page.pagination.limit, 10);
    let ids: Vec<String> = page.livres.iter().map(|b| b.id.clone()).collect();
    assert_eq!(ids, vec!["a", "b"]);
    let empty = search_page(&obj(vec![]), 0, 10);
    assert_eq!(empty.pagination.total_items, 0);
    assert!(empty.livres.is_empty());
}

#[test]
fn harvested_categories_are_distinct() {
    let books = vec![book_from_item(&volume("a")), book_from_item(&volume("b"))];
    let mut cats = harvest_categories(&books);
    cats.sort();
    assert_eq!(cats, vec!["Classics", "Fiction", "General", "Science Fiction"]);
}

#[test]
fn lookup_reports_google_errors() {
    let err = obj(vec![("error", obj(vec![("code", n(404))]))]);
    match book_lookup(err) {
        Err(JsonValue::Object(m)) => assert_eq!(m[0].key, "code"),
        _ => panic!("expected the error member"),
    }
    match book_lookup(volume("z")) {
        Ok(b) => assert_eq!(b.id, "z"),
        Err(_) => panic!("expected a book"),
    }
}

#[test]
fn search_parameters_defaults_and_cap() {
    let p = ParametresRecherche { recherche: None, offset: None, limit: None };
    assert_eq!(p.page_limit(), 10);
    assert_eq!(p.page_offset(), 0);
    assert_eq!(p.keyword(), "livre");
    let q = ParametresRecherche { recherche: Some("dune".into()), offset: Some(20), limit: Some(100) };
    assert_eq!(q.page_limit(), 40);
    assert_eq!(q.page_offset(), 20);
    assert_eq!(q.keyword(), "dune");
    let r = ParametresRecherche { recherche: None, offset: None, limit: Some(7) };
    assert_eq!(r.page_limit(), 7);
}


#[test]
fn search_books_without_id_are_skipped() {
    let data = obj(vec![(
        "items",
        JsonValue::Array(vec![volume("a"), volume(""), obj(vec![]), volume("b")]),
    )]);
    let ids: Vec<String> = parse_search_books(&data).into_iter().map(|b| b.id).collect();
    assert_eq!(ids, vec!["a", "b"]);
    assert!(parse_search_books(&obj(vec![("items", n(1))])).is_empty());
}
