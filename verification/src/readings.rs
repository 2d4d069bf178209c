//! Reading lists: the stored reading records, note validation and the
//! response records sent back to clients.

use vstd::prelude::*;

verus! {

/// A stored reading: a user's (optional) note for a book.
pub struct UserReading {
    pub id: i32,
    pub user_id: i32,
    pub book_id: String,
    pub note: Option<i32>,
    pub read_at: String,
}

impl UserReading {
    /// A field-by-field copy.
    pub fn copy(&self) -> (r: UserReading)
        ensures
            r == *self,
    {
        UserReading {
            id: self.id,
            user_id: self.user_id,
            book_id: self.book_id.clone(),
            note: self.note,
            read_at: self.read_at.clone(),
        }
    }
}


/// The body of a request that records a reading.
pub struct UserReadingDto {
    pub book_id: String,
    pub note: Option<i32>,
}

/// A reading as a response shows it.
pub struct UserReadingResponseDto {
    pub id: i32,
    pub user_id: i32,
    pub book_id: String,
    pub note: Option<i32>,
    pub read_at: String,
}

/// An acceptable note: none, or 1 to 5.
pub open spec fn note_is_valid(note: Option<i32>) -> bool {
    match note {
        Some(n) => 1 <= n <= 5,
        None => true,
    }
}

/// The message refusing a note out of range.
pub open spec fn note_range_message() -> Seq<char> {
    "La note doit être comprise entre 1 et 5"@
}

/// A note is acceptable exactly when it is absent or lies from 1 to 5.
pub proof fn notes_from_one_to_five(note: Option<i32>)
    ensures
        note_is_valid(note) <==> (note is None || (1 <= note->0 && note->0 <= 5)),
        forall|n: i32| #[trigger] note_is_valid(Some(n)) <==> 1 <= n && n <= 5,
{
}

/// Refuses a note outside 1 to 5.
pub fn validate_note(note: Option<i32>) -> (r: Result<(), String>)
    ensures
        r is Ok <==> note_is_valid(note),
        r is Ok <==> match note {
            Some(n) => 1 <= n && n <= 5,
            None => true,
        },
        r matches Err(m) ==> m@ == note_range_message(),
{
    match note {
        Some(n) => if 1 <= n && n <= 5 {
            Ok(())
        } else {
            Err("La note doit être comprise entre 1 et 5".to_owned())
        },
        None => Ok(()),
    }
}

impl UserReading {
    /// The response that shows this reading.
    pub fn to_response(&self) -> (r: UserReadingResponseDto)
        ensures
            r.id == self.id,
            r.user_id == self.user_id,
            r.book_id@ == self.book_id@,
            r.note == self.note,
            r.read_at@ == self.read_at@,
    {
        UserReadingResponseDto {
            id: self.id,
            user_id: self.user_id,
            book_id: self.book_id.clone(),
            note: self.note,
            read_at: self.read_at.clone(),
        }
    }
}

/// The write that records a reading: a user has one reading per book, so an
/// existing one gets the new note (and a new time), otherwise one is added.
pub enum ReadingWrite {
    Update { id: i32, note: Option<i32> },
    Insert { user_id: i32, book_id: String, note: Option<i32> },
}

/// The write that records `note` for `book_id` by `user_id`, given the
/// user's stored reading of that book, if any: that reading gets the note,
/// or a new reading is added.
pub open spec fn planned_write(existing: Option<UserReading>, user_id: i32, book_id: String, note: Option<i32>) -> ReadingWrite {
    match existing {
        Some(e) => ReadingWrite::Update { id: e.id, note },
        None => ReadingWrite::Insert { user_id, book_id, note },
    }
}

/// The write that records `note` for `book_id` by `user_id`, given the
/// user's stored reading of that book, if any.
pub fn plan_reading_write(existing: Option<&UserReading>, user_id: i32, book_id: String, note: Option<i32>) -> (r: ReadingWrite)
    ensures
        r == planned_write(match existing { Some(e) => Some(*e), None => None }, user_id, book_id, note),
{
    match existing {
        Some(e) => ReadingWrite::Update { id: e.id, note },
        None => ReadingWrite::Insert { user_id, book_id, note },
    }
}

/// No two stored readings are of the same user and book.
pub open spec fn one_reading_per_user_and_book(store: Seq<UserReading>) -> bool {
    forall|i: int, j: int|
        0 <= i < store.len() && 0 <= j < store.len() && i != j ==> !(#[trigger] store[i].user_id
            == #[trigger] store[j].user_id && store[i].book_id@ == store[j].book_id@)
}

/// The stored readings after a write made at time `now`: an update gives the
/// reading with its id the new note and time; an insert adds a reading with
/// the id `new_id` that the store gives it.
pub open spec fn apply_write(store: Seq<UserReading>, w: ReadingWrite, new_id: i32, now: String) -> Seq<UserReading> {
    match w {
        ReadingWrite::Update { id, note } => store.map_values(
            |r: UserReading|
                if r.id == id {
                    UserReading { id: r.id, user_id: r.user_id, book_id: r.book_id, note, read_at: now }
                } else {
                    r
                },
        ),
        ReadingWrite::Insert { user_id, book_id, note } => store.push(
            UserReading { id: new_id, user_id, book_id, note, read_at: now },
        ),
    }
}

/// Whether `store` has a reading of `book_id` by `user_id` with note `note`.
pub open spec fn holds_reading(store: Seq<UserReading>, user_id: i32, book_id: Seq<char>, note: Option<i32>) -> bool {
    exists|k: int|
        0 <= k < store.len() && (#[trigger] store[k]).user_id == user_id && store[k].book_id@ == book_id
            && store[k].note == note
}

/// Recording a reading keeps at most one reading per user and book, and
/// leaves one of that user and book with the new note: `existing` is the
/// user's stored reading of the book, or `None` when there is none.
pub proof fn recording_keeps_one_reading_per_book(
    store: Seq<UserReading>,
    existing: Option<UserReading>,
    user_id: i32,
    book_id: String,
    note: Option<i32>,
    new_id: i32,
    now: String,
)
    requires
        one_reading_per_user_and_book(store),
        match existing {
            Some(e) => store.contains(e) && e.user_id == user_id && e.book_id@ == book_id@,
            None => forall|k: int| 0 <= k < store.len() ==> !(#[trigger] store[k].user_id == user_id
                && store[k].book_id@ == book_id@),
        },
    ensures
        one_reading_per_user_and_book(apply_write(store, planned_write(existing, user_id, book_id, note), new_id, now)),
        holds_reading(
            apply_write(store, planned_write(existing, user_id, book_id, note), new_id, now),
            user_id,
            book_id@,
            note,
        ),
{
    let after = apply_write(store, planned_write(existing, user_id, book_id, note), new_id, now);
    match existing {
        Some(e) => {
            assert(after.len() == store.len());
            assert forall|k: int| 0 <= k < after.len() implies after[k].user_id == store[k].user_id
                && after[k].book_id@ == store[k].book_id@ by {}
            let k = choose|k: int| 0 <= k < store.len() && store[k] == e;
            assert(after[k].user_id == user_id && after[k].book_id@ == book_id@ && after[k].note == note);
        },
        None => {
            let n = store.len() as int;
            assert forall|i: int, j: int|
                0 <= i < after.len() && 0 <= j < after.len() && i != j implies !(#[trigger] after[i].user_id
                == #[trigger] after[j].user_id && after[i].book_id@ == after[j].book_id@) by {
                if i < n && j < n {
                    assert(after[i] == store[i] && after[j] == store[j]);
                } else if i < n {
                    assert(after[i] == store[i]);
                    assert(!(store[i].user_id == user_id && store[i].book_id@ == book_id@));
                } else {
                    assert(after[j] == store[j]);
                    assert(!(store[j].user_id == user_id && store[j].book_id@ == book_id@));
                }
            }
            assert(after[n].user_id == user_id && after[n].book_id@ == book_id@ && after[n].note == note);
        },
    }
}

/// Whether a deletion of a user's reading of a book found one.
pub fn reading_was_deleted(rows_affected: u64) -> (r: bool)
    ensures
        r == (rows_affected > 0),
{
    rows_affected > 0
}

} // verus!
