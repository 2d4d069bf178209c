//! Planning of personalised recommendations: which readings describe a
//! user's taste, the texts that describe books to the embedding model, the
//! catalogue searches that gather candidates, and which candidates are kept.

use vstd::prelude::*;
use crate::books::{author_names, BookDto};
use crate::categories::{is_vague_category, is_vague_or_generic_category, CategoryDto};
use crate::readings::UserReading;
use crate::text::{
    add_all_distinct, add_distinct, insert_distinct, join, join_strings, normalize, normalized,
    is_blank, is_blank_str, position_of, split_words, string_views, words,
};
use vstd::string::StringSliceAdditionalSpecFns;

verus! {

/// The note a reading counts with: its note, 3 when it has none.
pub open spec fn note_or_default(note: Option<i32>) -> i32 {
    match note {
        Some(n) => n,
        None => 3,
    }
}

/// A reading that shows the user liked the book: no note, or a note of at
/// least 3.
pub open spec fn is_liked(r: UserReading) -> bool {
    match r.note {
        Some(n) => n >= 3,
        None => true,
    }
}

/// The liked readings of `s`, in order.
pub open spec fn liked_readings(s: Seq<UserReading>) -> Seq<UserReading>
    decreases s.len(),
{
    if s.len() == 0 {
        seq![]
    } else {
        liked_readings(s.drop_last()) + if is_liked(s.last()) {
            seq![s.last()]
        } else {
            seq![]
        }
    }
}

/// `sorted` with `x` placed after every reading whose note is at least
/// `x`'s: one step of a stable sort by decreasing note.
pub open spec fn insert_by_note(sorted: Seq<UserReading>, x: UserReading) -> Seq<UserReading>
    decreases sorted.len(),
{
    if sorted.len() == 0 {
        seq![x]
    } else if note_or_default(sorted.last().note) >= note_or_default(x.note) {
        sorted.push(x)
    } else {
        insert_by_note(sorted.drop_last(), x).push(sorted.last())
    }
}

/// `s` sorted by decreasing note, readings with equal notes kept in their
/// order (a stable sort).
pub open spec fn sort_by_note_desc(s: Seq<UserReading>) -> Seq<UserReading>
    decreases s.len(),
{
    if s.len() == 0 {
        seq![]
    } else {
        insert_by_note(sort_by_note_desc(s.drop_last()), s.last())
    }
}

/// At most the first `n` elements of `s`.
pub open spec fn take_at_most<A>(s: Seq<A>, n: int) -> Seq<A> {
    if s.len() <= n {
        s
    } else {
        s.take(n)
    }
}

/// How many liked readings the profile is built from.
pub const TOP_LIKED_COUNT: usize = 5;

/// The readings a profile is built from: the liked ones, best notes first,
/// at most five.
pub open spec fn top_liked(s: Seq<UserReading>) -> Seq<UserReading> {
    take_at_most(sort_by_note_desc(liked_readings(s)), TOP_LIKED_COUNT as int)
}

proof fn lemma_insert_at(s: Seq<UserReading>, x: UserReading, pos: int)
    requires
        0 <= pos <= s.len(),
        forall|k: int|
            pos <= k < s.len() ==> note_or_default((#[trigger] s[k]).note) < note_or_default(
                x.note,
            ),
        pos == 0 || note_or_default(s[pos - 1].note) >= note_or_default(x.note),
    ensures
        insert_by_note(s, x) == s.insert(pos, x),
    decreases s.len(),
{
    if s.len() == 0 {
        assert(s.insert(pos, x) =~= seq![x]);
    } else if note_or_default(s.last().note) >= note_or_default(x.note) {
        assert(pos == s.len());
        assert(s.insert(pos, x) =~= s.push(x));
    } else {
        let t = s.drop_last();
        assert(pos < s.len());
        lemma_insert_at(t, x, pos);
        assert(t.insert(pos, x).push(s.last()) =~= s.insert(pos, x));
    }
}

fn insertion_point(sorted: &Vec<UserReading>, key: i32) -> (pos: usize)
    ensures
        pos <= sorted.len(),
        forall|k: int|
            pos <= k < sorted.len() ==> note_or_default((#[trigger] sorted@[k]).note) < key,
        pos == 0 || note_or_default(sorted@[pos - 1].note) >= key,
{
    let mut pos = sorted.len();
    while pos > 0 && note_or_default_exec(sorted[pos - 1].note) < key
        invariant
            pos <= sorted.len(),
            forall|k: int|
                pos <= k < sorted.len() ==> note_or_default((#[trigger] sorted@[k]).note) < key,
        decreases pos,
    {
        pos = pos - 1;
    }
    pos
}

/// Readings sorted by decreasing note (3 for none).
pub open spec fn sorted_by_note_desc(s: Seq<UserReading>) -> bool {
    forall|i: int, j: int|
        0 <= i < j < s.len() ==> note_or_default((#[trigger] s[i]).note) >= note_or_default(
            (#[trigger] s[j]).note,
        )
}

proof fn lemma_insert_members(t: Seq<UserReading>, x: UserReading)
    ensures
        insert_by_note(t, x).len() == t.len() + 1,
        forall|y: UserReading| #[trigger] insert_by_note(t, x).contains(y) ==> y == x || t.contains(y),
    decreases t.len(),
{
    if t.len() == 0 {
    } else if note_or_default(t.last().note) >= note_or_default(x.note) {
        assert forall|y: UserReading| #[trigger] insert_by_note(t, x).contains(y) implies y == x
            || t.contains(y) by {
            let k = choose|k: int| 0 <= k < t.push(x).len() && t.push(x)[k] == y;
            if k < t.len() {
                assert(t[k] == y);
            }
        }
    } else {
        let d = t.drop_last();
        lemma_insert_members(d, x);
        assert forall|y: UserReading| #[trigger] insert_by_note(t, x).contains(y) implies y == x
            || t.contains(y) by {
            let r = insert_by_note(d, x);
            let k = choose|k: int| 0 <= k < r.push(t.last()).len() && r.push(t.last())[k] == y;
            if k < r.len() {
                assert(r[k] == y);
                assert(r.contains(y));
                if y != x {
                    let q = choose|q: int| 0 <= q < d.len() && d[q] == y;
                    assert(t[q] == y);
                }
            } else {
                assert(t[t.len() - 1] == y);
            }
        }
    }
}

proof fn lemma_insert_sorted(t: Seq<UserReading>, x: UserReading)
    requires
        sorted_by_note_desc(t),
    ensures
        sorted_by_note_desc(insert_by_note(t, x)),
    decreases t.len(),
{
    if t.len() == 0 {
    } else if note_or_default(t.last().note) >= note_or_default(x.note) {
        let r = t.push(x);
        assert forall|i: int, j: int| 0 <= i < j < r.len() implies note_or_default(
            (#[trigger] r[i]).note,
        ) >= note_or_default((#[trigger] r[j]).note) by {
            if j == t.len() && i < t.len() - 1 {
                assert(note_or_default(t[i].note) >= note_or_default(t[t.len() - 1].note));
            }
        }
    } else {
        let d = t.drop_last();
        let last = t.last();
        assert(sorted_by_note_desc(d));
        lemma_insert_sorted(d, x);
        lemma_insert_members(d, x);
        let r0 = insert_by_note(d, x);
        let r = r0.push(last);
        assert forall|i: int, j: int| 0 <= i < j < r.len() implies note_or_default(
            (#[trigger] r[i]).note,
        ) >= note_or_default((#[trigger] r[j]).note) by {
            if j == r0.len() {
                let y = r0[i];
                assert(r0.contains(y));
                if y != x {
                    let q = choose|q: int| 0 <= q < d.len() && d[q] == y;
                    assert(t[q] == y);
                    assert(note_or_default(t[q].note) >= note_or_default(t[t.len() - 1].note));
                }
            }
        }
    }
}

proof fn lemma_sort_shape(s: Seq<UserReading>)
    ensures
        sorted_by_note_desc(sort_by_note_desc(s)),
        sort_by_note_desc(s).len() == s.len(),
        forall|y: UserReading| #[trigger] sort_by_note_desc(s).contains(y) ==> s.contains(y),
    decreases s.len(),
{
    if s.len() > 0 {
        let d = s.drop_last();
        lemma_sort_shape(d);
        lemma_insert_sorted(sort_by_note_desc(d), s.last());
        lemma_insert_members(sort_by_note_desc(d), s.last());
        assert forall|y: UserReading| #[trigger] sort_by_note_desc(s).contains(y) implies s.contains(
            y,
        ) by {
            if y == s.last() {
                assert(s[s.len() - 1] == y);
            } else {
                assert(sort_by_note_desc(d).contains(y));
                let q = choose|q: int| 0 <= q < d.len() && d[q] == y;
                assert(s[q] == y);
            }
        }
    }
}

proof fn lemma_liked_members(s: Seq<UserReading>)
    ensures
        forall|y: UserReading| #[trigger] liked_readings(s).contains(y) ==> s.contains(y) && is_liked(y),
    decreases s.len(),
{
    if s.len() > 0 {
        let d = s.drop_last();
        lemma_liked_members(d);
        assert forall|y: UserReading| #[trigger] liked_readings(s).contains(y) implies s.contains(y)
            && is_liked(y) by {
            let l = liked_readings(d);
            let full = liked_readings(s);
            let k = choose|k: int| 0 <= k < full.len() && full[k] == y;
            if k < l.len() {
                assert(full[k] == l[k]);
                assert(l.contains(y));
                let q = choose|q: int| 0 <= q < d.len() && d[q] == y;
                assert(s[q] == y);
            } else {
                assert(s[s.len() - 1] == y);
            }
        }
    }
}

/// The readings a profile is built from are liked ones taken from the
/// user's readings, at most five, best notes first.
pub proof fn top_liked_law(s: Seq<UserReading>)
    ensures
        top_liked(s).len() <= TOP_LIKED_COUNT,
        sorted_by_note_desc(top_liked(s)),
        forall|y: UserReading| #[trigger] top_liked(s).contains(y) ==> s.contains(y) && is_liked(y),
{
    let l = liked_readings(s);
    lemma_liked_members(s);
    lemma_sort_shape(l);
    let sorted = sort_by_note_desc(l);
    let t = top_liked(s);
    assert forall|y: UserReading| #[trigger] t.contains(y) implies s.contains(y) && is_liked(y) by {
        let k = choose|k: int| 0 <= k < t.len() && t[k] == y;
        assert(sorted[k] == y);
        assert(sorted.contains(y));
        assert(l.contains(y));
    }
    assert forall|i: int, j: int| 0 <= i < j < t.len() implies note_or_default(
        (#[trigger] t[i]).note,
    ) >= note_or_default((#[trigger] t[j]).note) by {
        assert(t[i] == sorted[i] && t[j] == sorted[j]);
    }
}

/// The note a reading counts with (3 when it has none).
pub fn note_or_default_exec(note: Option<i32>) -> (r: i32)
    ensures
        r == note_or_default(note),
{
    match note {
        Some(n) => n,
        None => 3,
    }
}

/// The readings a recommendation profile is built from: those with no note
/// or a note of at least 3, sorted by decreasing note (3 for none) with ties
/// in their original order, at most five.
pub fn select_top_liked(readings: &Vec<UserReading>) -> (r: Vec<UserReading>)
    ensures
        r@ == top_liked(readings@),
{
    let mut sorted: Vec<UserReading> = Vec::new();
    let mut i: usize = 0;
    while i < readings.len()
        invariant
            i <= readings.len(),
            sorted@ == sort_by_note_desc(liked_readings(readings@.take(i as int))),
        decreases readings.len() - i,
    {
        let ghost prefix = readings@.take(i as int);
        let ghost next = readings@.take(i + 1);
        proof {
            assert(next.drop_last() =~= prefix);
            assert(next.last() == readings@[i as int]);
        }
        let liked = match readings[i].note {
            Some(n) => n >= 3,
            None => true,
        };
        if liked {
            let x = readings[i].copy();
            let pos = insertion_point(&sorted, note_or_default_exec(x.note));
            proof {
                lemma_insert_at(sorted@, x, pos as int);
                let l = liked_readings(prefix);
                assert(liked_readings(next) =~= l.push(x));
                assert(l.push(x).drop_last() =~= l);
            }
            sorted.insert(pos, x);
        } else {
            proof {
                assert(liked_readings(next) =~= liked_readings(prefix));
            }
        }
        i = i + 1;
    }
    assert(readings@.take(readings.len() as int) =~= readings@);
    if sorted.len() > TOP_LIKED_COUNT {
        sorted.truncate(TOP_LIKED_COUNT);
    }
    sorted
}


/// The names of the categories that are not vague, in order.
pub open spec fn specific_categories(c: Seq<CategoryDto>) -> Seq<Seq<char>>
    decreases c.len(),
{
    if c.len() == 0 {
        seq![]
    } else {
        specific_categories(c.drop_last()) + if is_vague_category(c.last().name@) {
            seq![]
        } else {
            seq![c.last().name@]
        }
    }
}

/// A description's text, empty when there is none.
pub open spec fn description_text(d: Option<String>) -> Seq<char> {
    match d {
        Some(s) => s@,
        None => seq![],
    }
}

/// The text that describes `b` to the embedding model, after `label`:
/// title, authors, specific genres and description.
pub open spec fn profile_text(label: Seq<char>, b: BookDto) -> Seq<char> {
    label + "Titre: "@ + b.title@ + " - Auteurs: "@ + join(author_names(b.authors@), ", "@)
        + " - Genres: "@ + join(specific_categories(b.categories@), ", "@) + " - Description: "@
        + description_text(b.description)
}

fn author_name_list(book: &BookDto) -> (r: Vec<String>)
    ensures
        string_views(r@) == author_names(book.authors@),
{
    let mut out: Vec<String> = Vec::new();
    let mut i: usize = 0;
    while i < book.authors.len()
        invariant
            i <= book.authors.len(),
            string_views(out@) =~= author_names(book.authors@).take(i as int),
        decreases book.authors.len() - i,
    {
        let ghost before = out@;
        out.push(book.authors[i].name.clone());
        proof {
            let an = author_names(book.authors@);
            assert(an.take(i + 1) =~= an.take(i as int).push(an[i as int]));
            assert(string_views(out@) =~= string_views(before).push(book.authors@[i as int].name@));
        }
        i = i + 1;
    }
    assert(author_names(book.authors@).take(book.authors.len() as int) =~= author_names(book.authors@));
    out
}

/// The names of the categories of `cats` that are not vague, in order.
pub fn specific_category_names(cats: &Vec<CategoryDto>) -> (r: Vec<String>)
    ensures
        string_views(r@) == specific_categories(cats@),
{
    let mut out: Vec<String> = Vec::new();
    let mut i: usize = 0;
    while i < cats.len()
        invariant
            i <= cats.len(),
            string_views(out@) == specific_categories(cats@.take(i as int)),
        decreases cats.len() - i,
    {
        let ghost before = out@;
        proof {
            let t = cats@.take(i + 1);
            assert(t.drop_last() =~= cats@.take(i as int));
            assert(t.last() == cats@[i as int]);
        }
        if !is_vague_or_generic_category(cats[i].name.as_str()) {
            out.push(cats[i].name.clone());
            assert(string_views(out@) =~= string_views(before).push(cats@[i as int].name@));
        } else {
            assert(string_views(out@) =~= string_views(before) + seq![]);
        }
        i = i + 1;
    }
    assert(cats@.take(cats.len() as int) =~= cats@);
    out
}

fn profile_text_exec(label: &str, book: &BookDto) -> (r: String)
    ensures
        r@ == profile_text(label@, *book),
{
    let authors = author_name_list(book);
    let cats = specific_category_names(&book.categories);
    let a = join_strings(&authors, ", ");
    let c = join_strings(&cats, ", ");
    let s = String::new().concat(label).concat("Titre: ").concat(book.title.as_str()).concat(
        " - Auteurs: ",
    ).concat(a.as_str()).concat(" - Genres: ").concat(c.as_str()).concat(" - Description: ");
    let r = match &book.description {
        Some(d) => s.concat(d.as_str()),
        None => s,
    };
    proof {
        assert(Seq::<char>::empty() + label@ =~= label@);
        let base = label@ + "Titre: "@ + book.title@ + " - Auteurs: "@ + a@ + " - Genres: "@ + c@
            + " - Description: "@;
        assert(s@ =~= base);
        assert(r@ =~= base + description_text(book.description));
    }
    r
}

/// The text that stands for a liked book in the user's profile.
pub fn liked_book_to_query_text(book: &BookDto) -> (r: String)
    ensures
        r@ == profile_text("query: "@, *book),
{
    profile_text_exec("query: ", book)
}

/// The text that stands for a candidate book.
pub fn candidate_to_passage_text(book: &BookDto) -> (r: String)
    ensures
        r@ == profile_text("passage: "@, *book),
{
    profile_text_exec("passage: ", book)
}


/// A book the user liked, with the note it counts with.
pub struct LikedBook {
    pub book: BookDto,
    pub note: i32,
}

/// What is known of a user's taste once the liked books are fetched: the
/// books, the specific genres among them and the titles already read.
pub struct LikedProfile {
    pub liked: Vec<LikedBook>,
    pub favorite_categories: Vec<String>,
    pub read_titles: Vec<String>,
}

impl LikedProfile {
    /// A profile with nothing in it.
    pub fn new() -> (r: LikedProfile)
        ensures
            r.liked@.len() == 0,
            string_views(r.favorite_categories@) == Seq::<Seq<char>>::empty(),
            string_views(r.read_titles@) == Seq::<Seq<char>>::empty(),
    {
        let r = LikedProfile { liked: Vec::new(), favorite_categories: Vec::new(), read_titles: Vec::new() };
        assert(string_views(r.favorite_categories@) =~= Seq::<Seq<char>>::empty());
        assert(string_views(r.read_titles@) =~= Seq::<Seq<char>>::empty());
        r
    }

    /// Adds a liked book: its normalised title joins the read titles and its
    /// specific genres join the favourite ones, each once.
    pub fn record(&mut self, book: BookDto, note: i32)
        ensures
            final(self).liked@ == old(self).liked@.push(LikedBook { book, note }),
            string_views(final(self).read_titles@) == add_distinct(
                string_views(old(self).read_titles@),
                normalized(book.title@),
            ),
            string_views(final(self).favorite_categories@) == add_all_distinct(
                string_views(old(self).favorite_categories@),
                specific_categories(book.categories@),
            ),
    {
        let title = normalize(book.title.as_str());
        insert_distinct(&mut self.read_titles, title);
        let specific = specific_category_names(&book.categories);
        let ghost base = string_views(self.favorite_categories@);
        let ghost titles = self.read_titles@;
        let mut i: usize = 0;
        while i < specific.len()
            invariant
                i <= specific.len(),
                self.liked@ == old(self).liked@,
                self.read_titles@ == titles,
                string_views(self.favorite_categories@) == add_all_distinct(
                    base,
                    string_views(specific@).take(i as int),
                ),
            decreases specific.len() - i,
        {
            proof {
                let sv = string_views(specific@);
                assert(sv.take(i + 1).drop_last() =~= sv.take(i as int));
                assert(sv.take(i + 1).last() == specific@[i as int]@);
            }
            insert_distinct(&mut self.favorite_categories, specific[i].clone());
            i = i + 1;
        }
        assert(string_views(specific@).take(specific.len() as int) =~= string_views(specific@));
        self.liked.push(LikedBook { book, note });
    }
}

/// The catalogue search for books of a genre.
pub open spec fn subject_query(cat: Seq<char>) -> Seq<char> {
    "subject:\""@ + cat + "\""@
}

/// The catalogue search for books of an author.
pub open spec fn author_query(name: Seq<char>) -> Seq<char> {
    "inauthor:\""@ + name + "\""@
}

/// The genre searches, in order.
pub open spec fn subject_queries(cats: Seq<Seq<char>>) -> Seq<Seq<char>> {
    cats.map_values(|c: Seq<char>| subject_query(c))
}

/// The searches for the first author of each liked book that has one.
pub open spec fn author_queries(liked: Seq<LikedBook>) -> Seq<Seq<char>>
    decreases liked.len(),
{
    if liked.len() == 0 {
        seq![]
    } else {
        author_queries(liked.drop_last()) + if liked.last().book.authors@.len() > 0 {
            seq![author_query(liked.last().book.authors@[0].name@)]
        } else {
            seq![]
        }
    }
}

/// ASCII punctuation (`char::is_ascii_punctuation`).
pub open spec fn is_ascii_punctuation(c: char) -> bool {
    let n = c as u32;
    ||| (0x21 <= n && n <= 0x2f)
    ||| (0x3a <= n && n <= 0x40)
    ||| (0x5b <= n && n <= 0x60)
    ||| (0x7b <= n && n <= 0x7e)
}

/// A title word worth searching for: more than three bytes of UTF-8 (its
/// `str::len`), and not punctuation alone.
pub open spec fn is_keyword(w: Seq<char>) -> bool {
    &&& (vstd::utf8::encode_utf8(w).len() as usize) > 3
    &&& !(forall|i: int| 0 <= i < w.len() ==> is_ascii_punctuation(#[trigger] w[i]))
}

/// The keywords among `ws`, in order.
pub open spec fn keywords(ws: Seq<Seq<char>>) -> Seq<Seq<char>>
    decreases ws.len(),
{
    if ws.len() == 0 {
        seq![]
    } else {
        keywords(ws.drop_last()) + if is_keyword(ws.last()) {
            seq![ws.last()]
        } else {
            seq![]
        }
    }
}

/// The first three keywords of a title.
pub open spec fn title_keywords(title: Seq<char>) -> Seq<Seq<char>> {
    take_at_most(keywords(words(title)), 3)
}

/// The keyword searches of the liked books whose titles have keywords.
pub open spec fn keyword_queries(liked: Seq<LikedBook>) -> Seq<Seq<char>>
    decreases liked.len(),
{
    if liked.len() == 0 {
        seq![]
    } else {
        let k = title_keywords(liked.last().book.title@);
        keyword_queries(liked.drop_last()) + if k.len() > 0 {
            seq![join(k, " "@)]
        } else {
            seq![]
        }
    }
}

/// The titles of the liked books.
pub open spec fn liked_titles(liked: Seq<LikedBook>) -> Seq<Seq<char>> {
    liked.map_values(|l: LikedBook| l.book.title@)
}

/// How many searches gather candidates at most.
pub const MAX_CANDIDATE_QUERIES: usize = 6;

pub proof fn lemma_add_all_distinct(qs: Seq<Seq<char>>, new: Seq<Seq<char>>)
    requires
        qs.no_duplicates(),
    ensures
        add_all_distinct(qs, new).no_duplicates(),
    decreases new.len(),
{
    if new.len() > 0 {
        lemma_add_all_distinct(qs, new.drop_last());
        let a = add_all_distinct(qs, new.drop_last());
        if !a.contains(new.last()) {
            crate::text::lemma_push_distinct(a, new.last());
        }
    }
}

/// The searches that gather candidates: one per favourite genre, then one per
/// first author, each once; when that makes fewer than three, the title
/// keyword searches too; at most six. With none at all, the first three
/// liked titles.
pub open spec fn candidate_queries(liked: Seq<LikedBook>, favorites: Seq<Seq<char>>) -> Seq<
    Seq<char>,
> {
    let q1 = add_all_distinct(
        add_all_distinct(seq![], subject_queries(favorites)),
        author_queries(liked),
    );
    let q2 = if q1.len() < 3 {
        add_all_distinct(q1, keyword_queries(liked))
    } else {
        q1
    };
    if q2.len() == 0 {
        take_at_most(liked_titles(liked), 3)
    } else {
        take_at_most(q2, MAX_CANDIDATE_QUERIES as int)
    }
}

/// At most six searches are run, and the genre, author and keyword searches
/// are never repeated.
pub proof fn candidate_queries_law(liked: Seq<LikedBook>, favorites: Seq<Seq<char>>)
    ensures
        candidate_queries(liked, favorites).len() <= MAX_CANDIDATE_QUERIES,
        candidate_queries(liked, favorites) != take_at_most(liked_titles(liked), 3)
            ==> candidate_queries(liked, favorites).no_duplicates(),
{
    let empty: Seq<Seq<char>> = seq![];
    lemma_add_all_distinct(empty, subject_queries(favorites));
    let q0 = add_all_distinct(empty, subject_queries(favorites));
    lemma_add_all_distinct(q0, author_queries(liked));
    let q1 = add_all_distinct(q0, author_queries(liked));
    lemma_add_all_distinct(q1, keyword_queries(liked));
    let q2 = if q1.len() < 3 {
        add_all_distinct(q1, keyword_queries(liked))
    } else {
        q1
    };
    if q2.len() > 0 && q2.len() > MAX_CANDIDATE_QUERIES {
        let t = q2.take(MAX_CANDIDATE_QUERIES as int);
        assert forall|i: int, j: int| 0 <= i < t.len() && 0 <= j < t.len() && i != j implies t[i]
            != t[j] by {
            assert(t[i] == q2[i] && t[j] == q2[j]);
        }
    }
}

proof fn lemma_add_all_distinct_keeps(qs: Seq<Seq<char>>, new: Seq<Seq<char>>)
    ensures
        forall|x: Seq<char>| qs.contains(x) ==> #[trigger] add_all_distinct(qs, new).contains(x),
        forall|i: int| 0 <= i < new.len() ==> add_all_distinct(qs, new).contains(#[trigger] new[i]),
    decreases new.len(),
{
    if new.len() > 0 {
        let d = new.drop_last();
        lemma_add_all_distinct_keeps(qs, d);
        let a = add_all_distinct(qs, d);
        let b = add_all_distinct(qs, new);
        assert forall|x: Seq<char>| a.contains(x) implies b.contains(x) by {
            if !a.contains(new.last()) {
                let k = choose|k: int| 0 <= k < a.len() && a[k] == x;
                assert(b[k] == x);
            }
        }
        assert forall|x: Seq<char>| qs.contains(x) implies #[trigger] b.contains(x) by {
            assert(a.contains(x));
        }
        assert forall|i: int| 0 <= i < new.len() implies b.contains(#[trigger] new[i]) by {
            if i < d.len() {
                assert(d[i] == new[i]);
                assert(a.contains(d[i]));
            } else if !a.contains(new.last()) {
                assert(b[a.len() as int] == new.last());
            }
        }
    }
}

proof fn lemma_keyword_query_of_each_book(liked: Seq<LikedBook>, i: int)
    requires
        0 <= i < liked.len(),
        title_keywords(liked[i].book.title@).len() > 0,
    ensures
        keyword_queries(liked).contains(join(title_keywords(liked[i].book.title@), " "@)),
    decreases liked.len(),
{
    let q = join(title_keywords(liked[i].book.title@), " "@);
    let d = liked.drop_last();
    let rest = keyword_queries(d);
    let k = title_keywords(liked.last().book.title@);
    let tail: Seq<Seq<char>> = if k.len() > 0 {
        seq![join(k, " "@)]
    } else {
        seq![]
    };
    assert(keyword_queries(liked) == rest + tail);
    if i == liked.len() - 1 {
        assert((rest + tail)[rest.len() as int] == q);
    } else {
        assert(d[i] == liked[i]);
        lemma_keyword_query_of_each_book(d, i);
        let j = choose|j: int| 0 <= j < rest.len() && rest[j] == q;
        assert((rest + tail)[j] == q);
    }
}

/// When the genre and author searches are fewer than three, every liked
/// book whose title has keywords gets its keyword search (its first three
/// title keywords joined by spaces), unless the cap of six searches was
/// reached: the keyword searches come from all liked books.
pub proof fn every_liked_title_is_searched_when_few_searches(liked: Seq<LikedBook>, favorites: Seq<Seq<char>>, i: int)
    requires
        0 <= i < liked.len(),
        title_keywords(liked[i].book.title@).len() > 0,
        add_all_distinct(add_all_distinct(seq![], subject_queries(favorites)), author_queries(liked)).len() < 3,
    ensures
        candidate_queries(liked, favorites).contains(join(title_keywords(liked[i].book.title@), " "@))
            || candidate_queries(liked, favorites).len() == MAX_CANDIDATE_QUERIES,
{
    let q = join(title_keywords(liked[i].book.title@), " "@);
    let q1 = add_all_distinct(add_all_distinct(seq![], subject_queries(favorites)), author_queries(liked));
    let q2 = add_all_distinct(q1, keyword_queries(liked));
    lemma_keyword_query_of_each_book(liked, i);
    lemma_add_all_distinct_keeps(q1, keyword_queries(liked));
    let j = choose|j: int| 0 <= j < keyword_queries(liked).len() && keyword_queries(liked)[j] == q;
    assert(q2.contains(keyword_queries(liked)[j]));
    assert(q2.len() > 0);
}

fn quoted(prefix: &str, value: &str) -> (r: String)
    ensures
        r@ == prefix@ + value@ + "\""@,
{
    let r = String::new().concat(prefix).concat(value).concat("\"");
    assert(Seq::<char>::empty() + prefix@ =~= prefix@);
    r
}

fn char_is_ascii_punctuation(c: char) -> (r: bool)
    ensures
        r == is_ascii_punctuation(c),
{
    let n = c as u32;
    (0x21 <= n && n <= 0x2f) || (0x3a <= n && n <= 0x40) || (0x5b <= n && n <= 0x60) || (0x7b
        <= n && n <= 0x7e)
}

fn word_is_keyword(w: &str) -> (r: bool)
    ensures
        r == is_keyword(w@),
{
    if w.len() <= 3 {
        return false;
    }
    let n = w.unicode_len();
    let mut i: usize = 0;
    while i < n
        invariant
            n == w@.len(),
            i <= n,
            (vstd::utf8::encode_utf8(w@).len() as usize) > 3,
            forall|k: int| 0 <= k < i ==> is_ascii_punctuation(#[trigger] w@[k]),
        decreases n - i,
    {
        if !char_is_ascii_punctuation(w.get_char(i)) {
            assert(!is_ascii_punctuation(w@[i as int]));
            return true;
        }
        i = i + 1;
    }
    false
}

/// The first three keywords of a title, joined by single spaces.
fn title_keyword_query(title: &str) -> (r: Vec<String>)
    ensures
        string_views(r@) == title_keywords(title@),
{
    let ws = split_words(title);
    let mut out: Vec<String> = Vec::new();
    let mut i: usize = 0;
    while i < ws.len()
        invariant
            i <= ws.len(),
            string_views(ws@) == words(title@),
            string_views(out@) == take_at_most(keywords(string_views(ws@).take(i as int)), 3),
        decreases ws.len() - i,
    {
        let ghost sv = string_views(ws@);
        let ghost before = string_views(out@);
        proof {
            assert(sv.take(i + 1).drop_last() =~= sv.take(i as int));
            assert(sv.take(i + 1).last() == ws@[i as int]@);
        }
        let k = word_is_keyword(ws[i].as_str());
        if k && out.len() < 3 {
            out.push(ws[i].clone());
            proof {
                let kw = keywords(sv.take(i as int));
                assert(keywords(sv.take(i + 1)) == kw.push(ws@[i as int]@));
                assert(string_views(out@) =~= before.push(ws@[i as int]@));
            }
        } else if k {
            proof {
                let kw = keywords(sv.take(i as int));
                assert(keywords(sv.take(i + 1)) == kw.push(ws@[i as int]@));
                assert(kw.push(ws@[i as int]@).take(3) =~= kw.take(3));
            }
        } else {
            proof {
                assert(keywords(sv.take(i + 1)) =~= keywords(sv.take(i as int)));
            }
        }
        i = i + 1;
    }
    assert(string_views(ws@).take(ws.len() as int) =~= string_views(ws@));
    out
}

impl LikedProfile {
    /// The searches that gather candidate books for this profile.
    pub fn candidate_search_queries(&self) -> (r: Vec<String>)
        ensures
            string_views(r@) == candidate_queries(
                self.liked@,
                string_views(self.favorite_categories@),
            ),
    {
        let mut qs: Vec<String> = Vec::new();
        let ghost favs = string_views(self.favorite_categories@);
        let mut i: usize = 0;
        while i < self.favorite_categories.len()
            invariant
                i <= self.favorite_categories.len(),
                favs == string_views(self.favorite_categories@),
                string_views(qs@) == add_all_distinct(
                    seq![],
                    subject_queries(favs).take(i as int),
                ),
            decreases self.favorite_categories.len() - i,
        {
            let q = quoted("subject:\"", self.favorite_categories[i].as_str());
            proof {
                let sq = subject_queries(favs);
                assert(sq.take(i + 1).drop_last() =~= sq.take(i as int));
                assert(sq.take(i + 1).last() == q@);
            }
            insert_distinct(&mut qs, q);
            i = i + 1;
        }
        assert(subject_queries(favs).take(self.favorite_categories.len() as int) =~= subject_queries(favs));
        let ghost q0 = string_views(qs@);
        let mut j: usize = 0;
        while j < self.liked.len()
            invariant
                j <= self.liked.len(),
                string_views(qs@) == add_all_distinct(q0, author_queries(self.liked@.take(j as int))),
            decreases self.liked.len() - j,
        {
            let ghost before = string_views(qs@);
            let ghost t = self.liked@.take(j + 1);
            proof {
                assert(t.drop_last() =~= self.liked@.take(j as int));
                assert(t.last() == self.liked@[j as int]);
            }
            let authors = &self.liked[j].book.authors;
            if authors.len() > 0 {
                let q = quoted("inauthor:\"", authors[0].name.as_str());
                insert_distinct(&mut qs, q);
                proof {
                    let a = author_queries(self.liked@.take(j as int));
                    assert(author_queries(t) == a.push(q@));
                    assert(a.push(q@).drop_last() =~= a);
                }
            } else {
                proof {
                    assert(author_queries(t) =~= author_queries(self.liked@.take(j as int)));
                }
            }
            j = j + 1;
        }
        assert(self.liked@.take(self.liked.len() as int) =~= self.liked@);
        if qs.len() < 3 {
            let ghost q1 = string_views(qs@);
            let mut k: usize = 0;
            while k < self.liked.len()
                invariant
                    k <= self.liked.len(),
                    string_views(qs@) == add_all_distinct(q1, keyword_queries(self.liked@.take(k as int))),
                decreases self.liked.len() - k,
            {
                let ghost t = self.liked@.take(k + 1);
                proof {
                    assert(t.drop_last() =~= self.liked@.take(k as int));
                    assert(t.last() == self.liked@[k as int]);
                }
                let kws = title_keyword_query(self.liked[k].book.title.as_str());
                if kws.len() > 0 {
                    let q = join_strings(&kws, " ");
                    insert_distinct(&mut qs, q);
                    proof {
                        let a = keyword_queries(self.liked@.take(k as int));
                        assert(keyword_queries(t) == a.push(q@));
                        assert(a.push(q@).drop_last() =~= a);
                    }
                } else {
                    proof {
                        assert(keyword_queries(t) =~= keyword_queries(self.liked@.take(k as int)));
                    }
                }
                k = k + 1;
            }
            assert(self.liked@.take(self.liked.len() as int) =~= self.liked@);
        }
        if qs.len() == 0 {
            let mut titles: Vec<String> = Vec::new();
            let mut m: usize = 0;
            while m < self.liked.len() && m < 3
                invariant
                    m <= self.liked.len(),
                    m <= 3,
                    string_views(titles@) =~= liked_titles(self.liked@).take(m as int),
                decreases self.liked.len() - m,
            {
                let ghost before = titles@;
                titles.push(self.liked[m].book.title.clone());
                proof {
                    let lt = liked_titles(self.liked@);
                    assert(lt.take(m + 1) =~= lt.take(m as int).push(lt[m as int]));
                    assert(string_views(titles@) =~= string_views(before).push(self.liked@[m as int].book.title@));
                }
                m = m + 1;
            }
            proof {
                let lt = liked_titles(self.liked@);
                if lt.len() <= 3 {
                    assert(lt.take(lt.len() as int) =~= lt);
                }
            }
            titles
        } else {
            let ghost before = string_views(qs@);
            if qs.len() > MAX_CANDIDATE_QUERIES {
                qs.truncate(MAX_CANDIDATE_QUERIES);
                assert(string_views(qs@) =~= before.take(MAX_CANDIDATE_QUERIES as int));
            }
            qs
        }
    }
}


/// The ids of the books of a list of readings, in order.
pub open spec fn reading_book_ids(s: Seq<UserReading>) -> Seq<Seq<char>> {
    s.map_values(|r: UserReading| r.book_id@)
}

/// The ids of the books a user has read, each once.
pub fn read_book_ids(readings: &Vec<UserReading>) -> (r: Vec<String>)
    ensures
        string_views(r@) == add_all_distinct(seq![], reading_book_ids(readings@)),
{
    let mut out: Vec<String> = Vec::new();
    let mut i: usize = 0;
    while i < readings.len()
        invariant
            i <= readings.len(),
            string_views(out@) == add_all_distinct(seq![], reading_book_ids(readings@).take(i as int)),
        decreases readings.len() - i,
    {
        proof {
            let ids = reading_book_ids(readings@);
            assert(ids.take(i + 1).drop_last() =~= ids.take(i as int));
            assert(ids.take(i + 1).last() == readings@[i as int].book_id@);
        }
        insert_distinct(&mut out, readings[i].book_id.clone());
        i = i + 1;
    }
    assert(reading_book_ids(readings@).take(readings.len() as int) =~= reading_book_ids(readings@));
    out
}

/// The ids of a list of books.
pub open spec fn book_ids(b: Seq<BookDto>) -> Seq<Seq<char>> {
    b.map_values(|x: BookDto| x.id@)
}

/// Whether a candidate found by a search is kept: the user has not read it
/// (by id or by normalised title) and no kept candidate has its normalised
/// title.
pub open spec fn admits(
    kept_titles: Seq<Seq<char>>,
    read_ids: Seq<Seq<char>>,
    read_titles: Seq<Seq<char>>,
    book: BookDto,
) -> bool {
    &&& !read_ids.contains(book.id@)
    &&& !read_titles.contains(normalized(book.title@))
    &&& !kept_titles.contains(normalized(book.title@))
}

/// The normalised titles of a list of books.
pub open spec fn book_titles(b: Seq<BookDto>) -> Seq<Seq<char>> {
    b.map_values(|x: BookDto| normalized(x.title@))
}

/// The candidate books gathered from the searches, and the normalised titles
/// admitted so far (a title is admitted even when its book is dropped for
/// an id already kept).
pub struct CandidatePool {
    books: Vec<BookDto>,
    titles: Vec<String>,
}

impl CandidatePool {
    /// The kept candidates, in the order they were found.
    pub closed spec fn kept(&self) -> Seq<BookDto> {
        self.books@
    }

    /// The admitted normalised titles, in the order they were admitted.
    pub closed spec fn admitted_titles(&self) -> Seq<Seq<char>> {
        string_views(self.titles@)
    }

    /// No two kept candidates share an id or a normalised title, no title is
    /// admitted twice, and the title of every kept candidate was admitted.
    #[verifier::type_invariant]
    spec fn consistent(&self) -> bool {
        &&& book_ids(self.books@).no_duplicates()
        &&& book_titles(self.books@).no_duplicates()
        &&& string_views(self.titles@).no_duplicates()
        &&& forall|k: int| 0 <= k < self.books@.len() ==> string_views(self.titles@).contains(
            normalized(#[trigger] self.books@[k].title@),
        )
    }

    /// A pool with no candidate.
    pub fn new() -> (r: CandidatePool)
        ensures
            r.kept() == Seq::<BookDto>::empty(),
            r.admitted_titles() == Seq::<Seq<char>>::empty(),
    {
        let r = CandidatePool { books: Vec::new(), titles: Vec::new() };
        assert(r.admitted_titles() =~= Seq::<Seq<char>>::empty());
        r
    }

    /// The kept candidates: no two share an id or a normalised title, and
    /// each one's title was admitted.
    pub fn books(&self) -> (r: &Vec<BookDto>)
        ensures
            r@ == self.kept(),
            book_ids(r@).no_duplicates(),
            book_titles(r@).no_duplicates(),
            forall|k: int| 0 <= k < r@.len() ==> self.admitted_titles().contains(#[trigger] book_titles(r@)[k]),
            self.admitted_titles().no_duplicates(),
    {
        proof {
            use_type_invariant(self);
        }
        &self.books
    }

    /// The admitted normalised titles.
    pub fn titles(&self) -> (r: &Vec<String>)
        ensures
            string_views(r@) == self.admitted_titles(),
    {
        &self.titles
    }

    /// Whether no candidate was kept.
    pub fn is_empty(&self) -> (r: bool)
        ensures
            r == (self.kept().len() == 0),
    {
        self.books.len() == 0
    }

    /// The candidates to score, out of the kept ones (see `prioritized`).
    pub fn into_candidates(self, limit: usize) -> (r: Vec<BookDto>)
        ensures
            r@ == prioritized(self.kept(), limit),
    {
        let CandidatePool { books, titles } = self;
        prioritize_candidates(books, limit)
    }

    /// Offers a book found by a search. When it is admitted, its normalised
    /// title is recorded, and the book joins the pool unless one with its id
    /// is already there.
    pub fn consider(&mut self, book: BookDto, read_ids: &Vec<String>, read_titles: &Vec<String>)
        ensures
            final(self).kept().len() > old(self).kept().len() ==> !string_views(read_ids@).contains(book.id@)
                && !string_views(read_titles@).contains(normalized(book.title@)),
            admits(old(self).admitted_titles(), string_views(read_ids@), string_views(read_titles@), book)
                ==> final(self).admitted_titles() == old(self).admitted_titles().push(normalized(book.title@)),
            !admits(old(self).admitted_titles(), string_views(read_ids@), string_views(read_titles@), book)
                ==> final(self).admitted_titles() == old(self).admitted_titles(),
            (admits(old(self).admitted_titles(), string_views(read_ids@), string_views(read_titles@), book)
                && !book_ids(old(self).kept()).contains(book.id@)) ==> final(self).kept() == old(self).kept().push(book),
            !(admits(old(self).admitted_titles(), string_views(read_ids@), string_views(read_titles@), book)
                && !book_ids(old(self).kept()).contains(book.id@)) ==> final(self).kept() == old(self).kept(),
    {
        proof {
            use_type_invariant(&*self);
        }
        let title = normalize(book.title.as_str());
        let seen_id = position_of(read_ids, book.id.as_str());
        let seen_title = position_of(read_titles, title.as_str());
        let kept_title = position_of(&self.titles, title.as_str());
        proof {
            if let Some(k) = seen_id {
                assert(string_views(read_ids@)[k as int] == book.id@);
            }
            if let Some(k) = seen_title {
                assert(string_views(read_titles@)[k as int] == title@);
            }
            if let Some(k) = kept_title {
                assert(string_views(self.titles@)[k as int] == title@);
            }
        }
        if seen_id.is_some() || seen_title.is_some() || kept_title.is_some() {
            return;
        }
        let mut i: usize = 0;
        let mut known_id = false;
        while i < self.books.len() && !known_id
            invariant
                i <= self.books.len(),
                self.books@ == old(self).books@,
                self.titles@ == old(self).titles@,
                known_id == book_ids(self.books@).contains(book.id@) || forall|k: int|
                    0 <= k < i ==> (#[trigger] self.books@[k]).id@ != book.id@,
                known_id ==> book_ids(self.books@).contains(book.id@),
            decreases self.books.len() - i,
        {
            if crate::text::same_text(self.books[i].id.as_str(), book.id.as_str()) {
                assert(book_ids(self.books@)[i as int] == book.id@);
                known_id = true;
            }
            i = i + 1;
        }
        proof {
            use_type_invariant(&*self);
            if !known_id && book_ids(self.books@).contains(book.id@) {
                let k = choose|k: int| 0 <= k < book_ids(self.books@).len() && book_ids(self.books@)[k] == book.id@;
                assert(self.books@[k].id@ == book.id@);
            }
            if book_titles(self.books@).contains(title@) {
                let k = choose|k: int| 0 <= k < book_titles(self.books@).len() && book_titles(self.books@)[k] == title@;
                assert(string_views(self.titles@).contains(normalized(self.books@[k].title@)));
            }
            let before = self.titles@;
            let after = before.push(title);
            assert(string_views(after) =~= string_views(before).push(title@));
            crate::text::lemma_push_distinct(string_views(before), title@);
            assert forall|k: int| 0 <= k < self.books@.len() implies string_views(after).contains(
                normalized(#[trigger] self.books@[k].title@),
            ) by {
                let t = normalized(self.books@[k].title@);
                let q = choose|q: int| 0 <= q < string_views(before).len() && string_views(before)[q] == t;
                assert(string_views(after)[q] == t);
            }
        }
        let mut books: Vec<BookDto> = Vec::new();
        let mut titles: Vec<String> = Vec::new();
        std::mem::swap(&mut books, &mut self.books);
        std::mem::swap(&mut titles, &mut self.titles);
        titles.push(title);
        self.titles = titles;
        if known_id {
            self.books = books;
            return;
        }
        proof {
            let before = books@;
            let after = before.push(book);
            assert(book_ids(after) =~= book_ids(before).push(book.id@));
            crate::text::lemma_push_distinct(book_ids(before), book.id@);
            assert(book_titles(after) =~= book_titles(before).push(normalized(book.title@)));
            crate::text::lemma_push_distinct(book_titles(before), normalized(book.title@));
            assert forall|k: int| 0 <= k < after.len() implies string_views(self.titles@).contains(
                normalized(#[trigger] after[k].title@),
            ) by {
                if k == before.len() {
                    assert(string_views(self.titles@)[self.titles@.len() - 1] == normalized(book.title@));
                } else {
                    assert(after[k] == before[k]);
                }
            }
        }
        books.push(book);
        self.books = books;
    }
}

/// A book with a description that is not blank.
pub open spec fn has_description(b: BookDto) -> bool {
    match b.description {
        Some(d) => !is_blank(d@),
        None => false,
    }
}

/// The books of `s` that have a description, in order.
pub open spec fn described(s: Seq<BookDto>) -> Seq<BookDto>
    decreases s.len(),
{
    if s.len() == 0 {
        seq![]
    } else {
        described(s.drop_last()) + if has_description(s.last()) {
            seq![s.last()]
        } else {
            seq![]
        }
    }
}

/// The books of `s` that have no description, in order.
pub open spec fn undescribed(s: Seq<BookDto>) -> Seq<BookDto>
    decreases s.len(),
{
    if s.len() == 0 {
        seq![]
    } else {
        undescribed(s.drop_last()) + if has_description(s.last()) {
            seq![]
        } else {
            seq![s.last()]
        }
    }
}

/// The candidates that are scored: those with a description when they are at
/// least `limit`; otherwise those, followed by the ones without.
pub open spec fn prioritized(s: Seq<BookDto>, limit: usize) -> Seq<BookDto> {
    if described(s).len() >= limit {
        described(s)
    } else {
        described(s) + undescribed(s)
    }
}

proof fn lemma_partition(s: Seq<BookDto>)
    ensures
        described(s).len() + undescribed(s).len() == s.len(),
        forall|b: BookDto| #[trigger] described(s).contains(b) ==> s.contains(b) && has_description(b),
        forall|b: BookDto| #[trigger] undescribed(s).contains(b) ==> s.contains(b) && !has_description(b),
        forall|b: BookDto| #[trigger] s.contains(b) ==> described(s).contains(b) || undescribed(s).contains(b),
    decreases s.len(),
{
    if s.len() > 0 {
        let d = s.drop_last();
        let x = s.last();
        lemma_partition(d);
        assert forall|b: BookDto| #[trigger] described(s).contains(b) implies s.contains(b) && has_description(b) by {
            let full = described(s);
            let k = choose|k: int| 0 <= k < full.len() && full[k] == b;
            if k < described(d).len() {
                assert(described(d)[k] == b);
                assert(described(d).contains(b));
                let q = choose|q: int| 0 <= q < d.len() && d[q] == b;
                assert(s[q] == b);
            } else {
                assert(s[s.len() - 1] == b);
            }
        }
        assert forall|b: BookDto| #[trigger] undescribed(s).contains(b) implies s.contains(b) && !has_description(b) by {
            let full = undescribed(s);
            let k = choose|k: int| 0 <= k < full.len() && full[k] == b;
            if k < undescribed(d).len() {
                assert(undescribed(d)[k] == b);
                assert(undescribed(d).contains(b));
                let q = choose|q: int| 0 <= q < d.len() && d[q] == b;
                assert(s[q] == b);
            } else {
                assert(s[s.len() - 1] == b);
            }
        }
        assert forall|b: BookDto| #[trigger] s.contains(b) implies described(s).contains(b) || undescribed(s).contains(b) by {
            let k = choose|k: int| 0 <= k < s.len() && s[k] == b;
            if k < d.len() {
                assert(d[k] == b);
                assert(d.contains(b));
                if described(d).contains(b) {
                    let q = choose|q: int| 0 <= q < described(d).len() && described(d)[q] == b;
                    assert(described(s)[q] == b);
                } else {
                    let q = choose|q: int| 0 <= q < undescribed(d).len() && undescribed(d)[q] == b;
                    assert(undescribed(s)[q] == b);
                }
            } else if has_description(x) {
                assert(described(s)[described(d).len() as int] == b);
            } else {
                assert(undescribed(s)[undescribed(d).len() as int] == b);
            }
        }
    }
}

/// Candidates are only reordered or left out, never invented: when enough of
/// them have a description, exactly those are scored; otherwise every
/// candidate is, those with a description first.
pub proof fn prioritized_law(s: Seq<BookDto>, limit: usize)
    ensures
        forall|b: BookDto| #[trigger] prioritized(s, limit).contains(b) ==> s.contains(b),
        described(s).len() >= limit ==> forall|b: BookDto| #[trigger] prioritized(s, limit).contains(b) <==> s.contains(b)
            && has_description(b),
        described(s).len() < limit ==> prioritized(s, limit).len() == s.len() && forall|b: BookDto|
            #[trigger] prioritized(s, limit).contains(b) <==> s.contains(b),
{
    lemma_partition(s);
    let d = described(s);
    let u = undescribed(s);
    assert forall|b: BookDto| #[trigger] (d + u).contains(b) <==> d.contains(b) || u.contains(b) by {
        if (d + u).contains(b) {
            let k = choose|k: int| 0 <= k < (d + u).len() && (d + u)[k] == b;
            if k < d.len() {
                assert(d[k] == b);
            } else {
                assert(u[k - d.len()] == b);
            }
        }
        if d.contains(b) {
            let k = choose|k: int| 0 <= k < d.len() && d[k] == b;
            assert((d + u)[k] == b);
        }
        if u.contains(b) {
            let k = choose|k: int| 0 <= k < u.len() && u[k] == b;
            assert((d + u)[k + d.len()] == b);
        }
    }
    assert forall|b: BookDto| s.contains(b) && has_description(b) implies #[trigger] d.contains(b) by {
        if u.contains(b) {
        }
    }
}

/// The candidates to score, books with a description first.
pub fn prioritize_candidates(books: Vec<BookDto>, limit: usize) -> (r: Vec<BookDto>)
    ensures
        r@ == prioritized(books@, limit),
{
    let ghost all = books@;
    let n = books.len();
    let mut rest = books;
    let mut with_desc: Vec<BookDto> = Vec::new();
    let mut without_desc: Vec<BookDto> = Vec::new();
    let mut i: usize = 0;
    while rest.len() > 0
        invariant
            i <= all.len(),
            all.len() == n,
            rest@ == all.skip(i as int),
            with_desc@ == described(all.take(i as int)),
            without_desc@ == undescribed(all.take(i as int)),
        decreases rest.len(),
    {
        assert(rest@.len() == all.len() - i);
        let b = rest.remove(0);
        proof {
            assert(all.take(i + 1).drop_last() =~= all.take(i as int));
            assert(all.take(i + 1).last() == b);
            assert(rest@ =~= all.skip(i + 1));
        }
        let keep = match &b.description {
            Some(d) => !is_blank_str(d.as_str()),
            None => false,
        };
        if keep {
            with_desc.push(b);
            assert(undescribed(all.take(i + 1)) =~= undescribed(all.take(i as int)));
        } else {
            without_desc.push(b);
            assert(described(all.take(i + 1)) =~= described(all.take(i as int)));
        }
        i = i + 1;
    }
    assert(all.take(i as int) =~= all);
    if with_desc.len() >= limit {
        with_desc
    } else {
        with_desc.append(&mut without_desc);
        with_desc
    }
}

/// The next step of building recommendations, decided from what the
/// previous step brought back.
pub enum RecommendationStep {
    /// Nothing can be recommended: the answer is an empty list.
    Finish,
    /// Fetch the details of the best-noted liked books, keeping the ids of
    /// every book read.
    FetchLikedBooks { read_ids: Vec<String>, top_liked: Vec<UserReading> },
    /// Search the catalogue with these queries.
    SearchCandidates(Vec<String>),
    /// Score these candidates against the user's taste.
    ScoreCandidates(Vec<BookDto>),
}

/// The step after the user's readings are fetched: stop when there is none
/// or none is liked; otherwise fetch the liked books.
pub fn step_after_readings(readings: &Vec<UserReading>) -> (r: RecommendationStep)
    ensures
        r is Finish <==> readings@.len() == 0 || top_liked(readings@).len() == 0,
        r matches RecommendationStep::FetchLikedBooks { read_ids, top_liked: top } ==> string_views(read_ids@)
            == add_all_distinct(seq![], reading_book_ids(readings@)) && top@ == top_liked(readings@),
        !(r is SearchCandidates) && !(r is ScoreCandidates),
{
    if readings.len() == 0 {
        return RecommendationStep::Finish;
    }
    let read_ids = read_book_ids(readings);
    let top = select_top_liked(readings);
    if top.len() == 0 {
        return RecommendationStep::Finish;
    }
    RecommendationStep::FetchLikedBooks { read_ids, top_liked: top }
}

/// The step after the liked books are fetched: stop when none could be
/// fetched; otherwise search the catalogue.
pub fn step_after_profile(profile: &LikedProfile) -> (r: RecommendationStep)
    ensures
        r is Finish <==> profile.liked@.len() == 0,
        r matches RecommendationStep::SearchCandidates(qs) ==> string_views(qs@) == candidate_queries(
            profile.liked@,
            string_views(profile.favorite_categories@),
        ),
        !(r is FetchLikedBooks) && !(r is ScoreCandidates),
{
    if profile.liked.len() == 0 {
        return RecommendationStep::Finish;
    }
    RecommendationStep::SearchCandidates(profile.candidate_search_queries())
}

/// The step after the searches: stop when no candidate is left to score;
/// otherwise score the prioritised candidates.
pub fn step_after_searches(pool: CandidatePool, limit: usize) -> (r: RecommendationStep)
    ensures
        r is Finish <==> prioritized(pool.kept(), limit).len() == 0,
        r matches RecommendationStep::ScoreCandidates(c) ==> c@ == prioritized(pool.kept(), limit),
        !(r is FetchLikedBooks) && !(r is SearchCandidates),
{
    let candidates = pool.into_candidates(limit);
    if candidates.len() == 0 {
        return RecommendationStep::Finish;
    }
    RecommendationStep::ScoreCandidates(candidates)
}

} // verus!
