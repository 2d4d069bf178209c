//! Mapping Google Books volume documents to the catalogue's book records,
//! search pages and category harvests.

use vstd::prelude::*;
use crate::categories::{category_labels, category_labels_of, CategoryDto};
use crate::json::{
    json_array, json_field, json_get, json_str, json_str_or, json_u64, JsonNumber, JsonValue,
};
use crate::text::{insert_distinct, lemma_push_distinct, string_views};
use vstd::string::StringSliceAdditionalSpecFns;

verus! {

/// An author of a book.
pub struct AuthorDto {
    pub name: String,
}

/// A book as the catalogue presents it.
pub struct BookDto {
    pub id: String,
    pub title: String,
    pub authors: Vec<AuthorDto>,
    pub description: Option<String>,
    pub image_url: Option<String>,
    pub page_count: u64,
    pub categories: Vec<CategoryDto>,
    pub average_rating: JsonNumber,
    pub ratings_count: u64,
    pub maturity_rating: String,
    pub published_date: String,
}

/// The text of an optional string.
pub open spec fn opt_text(o: Option<String>) -> Option<Seq<char>> {
    match o {
        Some(s) => Some(s@),
        None => None,
    }
}

/// The names of a list of authors.
pub open spec fn author_names(a: Seq<AuthorDto>) -> Seq<Seq<char>> {
    a.map_values(|x: AuthorDto| x.name@)
}

/// The names of a list of categories.
pub open spec fn category_names(c: Seq<CategoryDto>) -> Seq<Seq<char>> {
    c.map_values(|x: CategoryDto| x.name@)
}

/// The texts of the string elements of a JSON array, in order.
pub open spec fn string_items(a: Seq<JsonValue>) -> Seq<Seq<char>>
    decreases a.len(),
{
    if a.len() == 0 {
        seq![]
    } else {
        string_items(a.drop_last()) + match a.last() {
            JsonValue::String(s) => seq![s@],
            _ => seq![],
        }
    }
}

/// The category labels of the string elements of a JSON array, in order.
pub open spec fn category_items(a: Seq<JsonValue>) -> Seq<Seq<char>>
    decreases a.len(),
{
    if a.len() == 0 {
        seq![]
    } else {
        category_items(a.drop_last()) + match a.last() {
            JsonValue::String(s) => category_labels_of(s@),
            _ => seq![],
        }
    }
}

/// The authors listed in a volume's `volumeInfo`.
pub open spec fn volume_authors(vi: JsonValue) -> Seq<Seq<char>> {
    match json_array(json_field(vi, "authors"@)) {
        Some(a) => string_items(a),
        None => seq![],
    }
}

/// The category labels listed in a volume's `volumeInfo`.
pub open spec fn volume_categories(vi: JsonValue) -> Seq<Seq<char>> {
    match json_array(json_field(vi, "categories"@)) {
        Some(a) => category_items(a),
        None => seq![],
    }
}

/// `volumeInfo.imageLinks.thumbnail` when it is a string.
pub open spec fn volume_thumbnail(vi: JsonValue) -> Option<Seq<char>> {
    match json_get(vi, "imageLinks"@) {
        Some(links) => match json_get(links, "thumbnail"@) {
            Some(t) => json_str(t),
            None => None,
        },
        None => None,
    }
}

/// An unsigned member, or 0.
pub open spec fn u64_or_zero(v: JsonValue) -> u64 {
    match json_u64(v) {
        Some(n) => n,
        None => 0,
    }
}

/// The number 0.
pub open spec fn is_zero_number(n: JsonNumber) -> bool {
    n.as_u64 == Some(0u64) && n.text@ == seq!['0']
}

/// The rating kept from `averageRating`: the number itself, or 0 when it is
/// not a number.
pub open spec fn rating_from(n: JsonNumber, v: JsonValue) -> bool {
    match v {
        JsonValue::Number(x) => n == x,
        _ => is_zero_number(n),
    }
}

/// `book` is the record that the volume document `item` describes, with the
/// defaults the catalogue applies to missing members.
pub open spec fn describes(book: BookDto, item: JsonValue) -> bool {
    let vi = json_field(item, "volumeInfo"@);
    &&& book.id@ == json_str_or(json_field(item, "id"@), ""@)
    &&& book.title@ == json_str_or(json_field(vi, "title"@), "Titre inconnu"@)
    &&& opt_text(book.description) == json_str(json_field(vi, "description"@))
    &&& opt_text(book.image_url) == volume_thumbnail(vi)
    &&& book.page_count == u64_or_zero(json_field(vi, "pageCount"@))
    &&& rating_from(book.average_rating, json_field(vi, "averageRating"@))
    &&& book.ratings_count == u64_or_zero(json_field(vi, "ratingsCount"@))
    &&& book.maturity_rating@ == json_str_or(json_field(vi, "maturityRating"@), ""@)
    &&& book.published_date@ == json_str_or(json_field(vi, "publishedDate"@), ""@)
    &&& author_names(book.authors@) == volume_authors(vi)
    &&& category_names(book.categories@) == volume_categories(vi)
}

/// The cover of a book read from a volume document is the text of
/// `volumeInfo.imageLinks.thumbnail` when that member is a string, and there
/// is none otherwise, whatever other links `imageLinks` holds.
pub proof fn cover_is_the_thumbnail_link(book: BookDto, item: JsonValue)
    requires
        describes(book, item),
    ensures
        opt_text(book.image_url) == json_str(
            json_field(json_field(json_field(item, "volumeInfo"@), "imageLinks"@), "thumbnail"@),
        ),
{
}

fn text_or(v: &JsonValue, key: &str, default: &str) -> (r: String)
    ensures
        r@ == json_str_or(json_field(*v, key@), default@),
{
    match v.str_field(key) {
        Some(s) => s.clone(),
        None => default.to_owned(),
    }
}

fn optional_text(v: &JsonValue, key: &str) -> (r: Option<String>)
    ensures
        opt_text(r) == json_str(json_field(*v, key@)),
{
    match v.str_field(key) {
        Some(s) => Some(s.clone()),
        None => None,
    }
}

fn thumbnail(vi: &JsonValue) -> (r: Option<String>)
    ensures
        opt_text(r) == volume_thumbnail(*vi),
{
    match vi.get("imageLinks") {
        Some(links) => match links.get("thumbnail") {
            Some(JsonValue::String(s)) => Some(s.clone()),
            _ => None,
        },
        None => None,
    }
}

fn rating(vi: &JsonValue) -> (r: JsonNumber)
    ensures
        rating_from(r, json_field(*vi, "averageRating"@)),
{
    match vi.get("averageRating") {
        Some(JsonValue::Number(n)) => JsonNumber { as_u64: n.as_u64, text: n.text.clone() },
        _ => {
            let text = String::new().concat("0");
            proof {
                reveal_strlit("0");
                assert(text@ =~= seq!['0']);
            }
            JsonNumber { as_u64: Some(0), text }
        },
    }
}

fn authors_of(vi: &JsonValue) -> (r: Vec<AuthorDto>)
    ensures
        author_names(r@) == volume_authors(*vi),
{
    let mut out: Vec<AuthorDto> = Vec::new();
    match vi.array_field("authors") {
        Some(arr) => {
            let mut i: usize = 0;
            while i < arr.len()
                invariant
                    i <= arr.len(),
                    author_names(out@) == string_items(arr@.take(i as int)),
                decreases arr.len() - i,
            {
                let ghost before = out@;
                if let JsonValue::String(s) = &arr[i] {
                    out.push(AuthorDto { name: s.clone() });
                }
                proof {
                    let t = arr@.take(i + 1);
                    assert(t.drop_last() =~= arr@.take(i as int));
                    assert(t.last() == arr@[i as int]);
                    assert(author_names(out@) =~= string_items(t));
                }
                i = i + 1;
            }
            assert(arr@.take(arr.len() as int) =~= arr@);
        },
        None => {
            assert(author_names(out@) =~= seq![]);
        },
    }
    out
}

fn categories_of(vi: &JsonValue) -> (r: Vec<CategoryDto>)
    ensures
        category_names(r@) == volume_categories(*vi),
{
    let mut out: Vec<CategoryDto> = Vec::new();
    match vi.array_field("categories") {
        Some(arr) => {
            let mut i: usize = 0;
            while i < arr.len()
                invariant
                    i <= arr.len(),
                    category_names(out@) == category_items(arr@.take(i as int)),
                decreases arr.len() - i,
            {
                let ghost before = category_names(out@);
                if let JsonValue::String(s) = &arr[i] {
                    let labels = category_labels(s.as_str());
                    let mut j: usize = 0;
                    while j < labels.len()
                        invariant
                            j <= labels.len(),
                            string_views(labels@) == category_labels_of(s@),
                            category_names(out@) == before + string_views(labels@).take(j as int),
                        decreases labels.len() - j,
                    {
                        let ghost prev = out@;
                        out.push(CategoryDto { name: labels[j].clone() });
                        proof {
                            let sv = string_views(labels@);
                            assert(sv.take(j + 1) =~= sv.take(j as int).push(sv[j as int]));
                            assert(category_names(out@) =~= category_names(prev).push(
                                labels@[j as int]@,
                            ));
                        }
                        j = j + 1;
                    }
                    assert(string_views(labels@).take(labels.len() as int) =~= string_views(
                        labels@,
                    ));
                } else {
                    assert(category_names(out@) =~= before + seq![]);
                }
                proof {
                    let t = arr@.take(i + 1);
                    assert(t.drop_last() =~= arr@.take(i as int));
                    assert(t.last() == arr@[i as int]);
                }
                i = i + 1;
            }
            assert(arr@.take(arr.len() as int) =~= arr@);
        },
        None => {
            assert(category_names(out@) =~= seq![]);
        },
    }
    out
}

/// The book record that a volume document describes; members that are
/// missing or of another kind take the catalogue's defaults.
pub fn book_from_item(item: &JsonValue) -> (r: BookDto)
    ensures
        describes(r, *item),
{
    let id = text_or(item, "id", "");
    let null = JsonValue::Null;
    let vi: &JsonValue = match item.field("volumeInfo") {
        Some(v) => v,
        None => &null,
    };
    BookDto {
        id,
        title: text_or(vi, "title", "Titre inconnu"),
        authors: authors_of(vi),
        description: optional_text(vi, "description"),
        image_url: thumbnail(vi),
        page_count: match vi.u64_field("pageCount") {
            Some(n) => n,
            None => 0,
        },
        categories: categories_of(vi),
        average_rating: rating(vi),
        ratings_count: match vi.u64_field("ratingsCount") {
            Some(n) => n,
            None => 0,
        },
        maturity_rating: text_or(vi, "maturityRating", ""),
        published_date: text_or(vi, "publishedDate", ""),
    }
}

/// The book a volume document describes, or `None` when the document has no
/// non-empty string `id`.
pub fn parse_book_dto(item: &JsonValue) -> (r: Option<BookDto>)
    ensures
        match r {
            Some(b) => describes(b, *item) && b.id@.len() > 0,
            None => json_str_or(json_field(*item, "id"@), ""@).len() == 0,
        },
{
    let book = book_from_item(item);
    if book.id.as_str().is_empty() {
        None
    } else {
        Some(book)
    }
}


/// Paging information of a search page.
pub struct PaginationDto {
    pub total_items: usize,
    pub offset: usize,
    pub limit: usize,
}

/// One page of search results.
pub struct BookSearchResponse {
    pub pagination: PaginationDto,
    pub livres: Vec<BookDto>,
}

/// The query parameters of a book search.
pub struct ParametresRecherche {
    pub recherche: Option<String>,
    pub offset: Option<usize>,
    pub limit: Option<usize>,
}

/// Results per page when the request names none.
pub const DEFAULT_PAGE_SIZE: usize = 10;

/// The most results a page may hold.
pub const MAX_PAGE_SIZE: usize = 40;

impl ParametresRecherche {
    /// The page size: the requested one (10 when absent), at most 40.
    pub fn page_limit(&self) -> (r: usize)
        ensures
            r == if self.limit.unwrap_or(DEFAULT_PAGE_SIZE) < MAX_PAGE_SIZE {
                self.limit.unwrap_or(DEFAULT_PAGE_SIZE)
            } else {
                MAX_PAGE_SIZE
            },
            r <= MAX_PAGE_SIZE,
    {
        let l = match self.limit {
            Some(l) => l,
            None => DEFAULT_PAGE_SIZE,
        };
        if l < MAX_PAGE_SIZE {
            l
        } else {
            MAX_PAGE_SIZE
        }
    }

    /// The index of the first result: the requested one, 0 when absent.
    pub fn page_offset(&self) -> (r: usize)
        ensures
            r == self.offset.unwrap_or(0),
    {
        match self.offset {
            Some(o) => o,
            None => 0,
        }
    }

    /// The search words: the requested ones, "livre" when absent.
    pub fn keyword(&self) -> (r: String)
        ensures
            r@ == match self.recherche {
                Some(s) => s@,
                None => "livre"@,
            },
    {
        match &self.recherche {
            Some(s) => s.clone(),
            None => "livre".to_owned(),
        }
    }
}

/// The `items` array of a search reply (empty when there is none).
pub open spec fn search_items(data: JsonValue) -> Seq<JsonValue> {
    match json_get(data, "items"@) {
        Some(v) => match json_array(v) {
            Some(a) => a,
            None => seq![],
        },
        None => seq![],
    }
}

/// The `totalItems` count of a search reply (0 when there is none).
pub open spec fn total_items_of(data: JsonValue) -> usize {
    match json_get(data, "totalItems"@) {
        Some(v) => match json_u64(v) {
            Some(t) => t as usize,
            None => 0,
        },
        None => 0,
    }
}

/// `books[i]` is the record of `items[i]`, for every `i`.
pub open spec fn books_describe(books: Seq<BookDto>, items: Seq<JsonValue>) -> bool {
    &&& books.len() == items.len()
    &&& forall|i: int| 0 <= i < items.len() ==> describes(#[trigger] books[i], items[i])
}

/// The `totalItems` count of a search reply.
pub fn total_items(data: &JsonValue) -> (r: usize)
    ensures
        r == total_items_of(*data),
{
    match data.get("totalItems") {
        Some(JsonValue::Number(n)) => match n.as_u64 {
            Some(t) => t as usize,
            None => 0,
        },
        _ => 0,
    }
}

/// The book records of the `items` of a search reply, in order.
pub fn books_from_search(data: &JsonValue) -> (r: Vec<BookDto>)
    ensures
        books_describe(r@, search_items(*data)),
{
    let mut out: Vec<BookDto> = Vec::new();
    match data.get("items") {
        Some(JsonValue::Array(items)) => {
            let mut i: usize = 0;
            while i < items.len()
                invariant
                    i <= items.len(),
                    search_items(*data) == items@,
                    books_describe(out@, items@.take(i as int)),
                decreases items.len() - i,
            {
                let b = book_from_item(&items[i]);
                out.push(b);
                i = i + 1;
            }
            assert(items@.take(items.len() as int) =~= items@);
        },
        _ => {},
    }
    out
}

/// The items that have a non-empty string `id`, in order.
pub open spec fn identified_items(items: Seq<JsonValue>) -> Seq<JsonValue>
    decreases items.len(),
{
    if items.len() == 0 {
        seq![]
    } else {
        identified_items(items.drop_last()) + if json_str_or(json_field(items.last(), "id"@), ""@).len() > 0 {
            seq![items.last()]
        } else {
            seq![]
        }
    }
}

/// The books of a search reply that `parse_book_dto` accepts: one per item
/// with a non-empty `id`, in order.
pub fn parse_search_books(data: &JsonValue) -> (r: Vec<BookDto>)
    ensures
        books_describe(r@, identified_items(search_items(*data))),
{
    let mut out: Vec<BookDto> = Vec::new();
    match data.get("items") {
        Some(JsonValue::Array(items)) => {
            let mut i: usize = 0;
            while i < items.len()
                invariant
                    i <= items.len(),
                    search_items(*data) == items@,
                    books_describe(out@, identified_items(items@.take(i as int))),
                decreases items.len() - i,
            {
                proof {
                    assert(items@.take(i + 1).drop_last() =~= items@.take(i as int));
                    assert(items@.take(i + 1).last() == items@[i as int]);
                }
                let ghost before = out@;
                match parse_book_dto(&items[i]) {
                    Some(b) => {
                        out.push(b);
                        proof {
                            let prev = identified_items(items@.take(i as int));
                            assert(identified_items(items@.take(i + 1)) == prev.push(items@[i as int]));
                            assert forall|k: int| 0 <= k < out@.len() implies describes(
                                #[trigger] out@[k],
                                prev.push(items@[i as int])[k],
                            ) by {
                                if k < before.len() {
                                    assert(out@[k] == before[k]);
                                }
                            }
                        }
                    },
                    None => {
                        assert(identified_items(items@.take(i + 1)) =~= identified_items(items@.take(i as int)));
                    },
                }
                i = i + 1;
            }
            assert(items@.take(items.len() as int) =~= items@);
        },
        _ => {
            assert(identified_items(search_items(*data)) =~= Seq::<JsonValue>::empty());
        },
    }
    out
}

/// The page of results of a search reply, with the paging that was asked.
pub fn search_page(data: &JsonValue, offset: usize, limit: usize) -> (r: BookSearchResponse)
    ensures
        r.pagination.total_items == total_items_of(*data),
        r.pagination.offset == offset,
        r.pagination.limit == limit,
        books_describe(r.livres@, search_items(*data)),
{
    BookSearchResponse {
        pagination: PaginationDto { total_items: total_items(data), offset, limit },
        livres: books_from_search(data),
    }
}

/// The category names of a list of books, book by book, in order.
pub open spec fn all_category_names(books: Seq<BookDto>) -> Seq<Seq<char>>
    decreases books.len(),
{
    if books.len() == 0 {
        seq![]
    } else {
        all_category_names(books.drop_last()) + category_names(books.last().categories@)
    }
}

/// The distinct category names met in a list of books: each name once, and
/// exactly the names that some book lists.
pub fn harvest_categories(books: &Vec<BookDto>) -> (r: Vec<String>)
    ensures
        string_views(r@).no_duplicates(),
        forall|x: Seq<char>|
            string_views(r@).contains(x) <==> all_category_names(books@).contains(x),
{
    let mut out: Vec<String> = Vec::new();
    let mut i: usize = 0;
    while i < books.len()
        invariant
            i <= books.len(),
            string_views(out@).no_duplicates(),
            forall|x: Seq<char>|
                string_views(out@).contains(x) <==> all_category_names(books@.take(i as int)).contains(x),
        decreases books.len() - i,
    {
        let cats = &books[i].categories;
        let ghost base = all_category_names(books@.take(i as int));
        let mut j: usize = 0;
        while j < cats.len()
            invariant
                j <= cats.len(),
                cats@ == books@[i as int].categories@,
                string_views(out@).no_duplicates(),
                forall|x: Seq<char>|
                    string_views(out@).contains(x) <==> (base + category_names(cats@).take(j as int)).contains(x),
            decreases cats.len() - j,
        {
            let ghost before = string_views(out@);
            let name = cats[j].name.clone();
            insert_distinct(&mut out, name);
            proof {
                let cn = category_names(cats@);
                assert(cn.take(j + 1) =~= cn.take(j as int).push(cn[j as int]));
                assert(base + cn.take(j + 1) =~= (base + cn.take(j as int)).push(cn[j as int]));
                if !before.contains(name@) {
                    lemma_push_distinct(before, name@);
                }
                assert forall|x: Seq<char>|
                    string_views(out@).contains(x) <==> (base + cn.take(j + 1)).contains(x) by {
                    let big = base + cn.take(j as int);
                    if x == name@ {
                        assert(big.push(x)[big.len() as int] == x);
                        if !before.contains(x) {
                            assert(before.push(x)[before.len() as int] == x);
                        }
                    } else {
                        if before.push(name@).contains(x) {
                            let k = choose|k: int| 0 <= k < before.push(name@).len() && before.push(name@)[k] == x;
                            assert(before[k] == x);
                        }
                        if big.push(name@).contains(x) {
                            let k = choose|k: int| 0 <= k < big.push(name@).len() && big.push(name@)[k] == x;
                            assert(big[k] == x);
                        }
                        if before.contains(x) {
                            let k = choose|k: int| 0 <= k < before.len() && before[k] == x;
                            assert(before.push(name@)[k] == x);
                        }
                        if big.contains(x) {
                            let k = choose|k: int| 0 <= k < big.len() && big[k] == x;
                            assert(big.push(name@)[k] == x);
                        }
                    }
                }
            }
            j = j + 1;
        }
        proof {
            let t = books@.take(i + 1);
            assert(t.drop_last() =~= books@.take(i as int));
            assert(category_names(cats@).take(cats.len() as int) =~= category_names(cats@));
        }
        i = i + 1;
    }
    assert(books@.take(books.len() as int) =~= books@);
    out
}

/// The reply to a request for one volume: the book it describes, or, when
/// the reply carries an `error` member, that member's value.
pub fn book_lookup(data: JsonValue) -> (r: Result<BookDto, JsonValue>)
    ensures
        match r {
            Ok(b) => json_get(data, "error"@) is None && describes(b, data),
            Err(e) => json_get(data, "error"@) == Some(e),
        },
{
    if data.get("error").is_some() {
        match data.take_member("error") {
            Some(e) => Err(e),
            None => {
                proof {
                    assert(false);
                }
                Err(JsonValue::Null)
            },
        }
    } else {
        Ok(book_from_item(&data))
    }
}

} // verus!
