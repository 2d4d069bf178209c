//! Comment threads: the stored comments, the rules on replies and on who may
//! change a comment, the grouping of a book's comments into threads, and the
//! order in which a comment and its replies are deleted.

use vstd::prelude::*;
use crate::text::{contains_text, is_blank_str, occurs_at, str_contains};
use crate::users::UserModel;

verus! {

/// A stored comment. A reply names the comment it answers in `parent_id`;
/// `created_at` is the creation time as text.
pub struct Model {
    pub id: i32,
    pub content: String,
    pub user_id: i32,
    pub book_id: String,
    pub parent_id: Option<i32>,
    pub created_at: String,
}

impl Model {
    /// A field-by-field copy.
    pub fn copy(&self) -> (r: Model)
        ensures
            r == *self,
    {
        Model {
            id: self.id,
            content: self.content.clone(),
            user_id: self.user_id,
            book_id: self.book_id.clone(),
            parent_id: self.parent_id,
            created_at: self.created_at.clone(),
        }
    }
}

/// The author of a comment as a response shows it.
pub struct UserCommentResponseDto {
    pub id: i32,
    pub email: String,
}

/// A comment as a response shows it.
pub struct CommentResponseDto {
    pub id: i32,
    pub content: String,
    pub user: UserCommentResponseDto,
    pub book_id: String,
    pub parent_id: Option<i32>,
    pub created_at: String,
}

/// A top-level comment with its replies, as a response shows it.
pub struct CommentWithRepliesDto {
    pub id: i32,
    pub content: String,
    pub user: UserCommentResponseDto,
    pub book_id: String,
    pub created_at: String,
    pub reponses: Vec<CommentResponseDto>,
}

/// A comment with its author's account, when the account still exists.
pub struct CommentWithUser {
    pub comment: Model,
    pub user: Option<UserModel>,
}

/// A top-level comment and its replies.
pub struct CommentTree {
    pub original: CommentWithUser,
    pub replies: Vec<CommentWithUser>,
}

/// Why a comment operation was refused.
pub enum CommentServiceError {
    NotFound,
    Forbidden(String),
    BadRequest(String),
    Database(String),
}

/// A refusal, messages as text.
pub enum Refusal {
    NotFound,
    Forbidden(Seq<char>),
    BadRequest(Seq<char>),
    Database(Seq<char>),
}

impl View for CommentServiceError {
    type V = Refusal;

    open spec fn view(&self) -> Refusal {
        match self {
            CommentServiceError::NotFound => Refusal::NotFound,
            CommentServiceError::Forbidden(m) => Refusal::Forbidden(m@),
            CommentServiceError::BadRequest(m) => Refusal::BadRequest(m@),
            CommentServiceError::Database(m) => Refusal::Database(m@),
        }
    }
}

/// The author shown for a comment: the account's id and e-mail, or the
/// comment's author id and "Utilisateur inconnu" when the account is gone.
pub open spec fn shown_author(c: CommentWithUser) -> (i32, Seq<char>) {
    match c.user {
        Some(u) => (u.id, u.email@),
        None => (c.comment.user_id, "Utilisateur inconnu"@),
    }
}

/// `d` shows the comment `c`.
pub open spec fn shows_comment(d: CommentResponseDto, c: CommentWithUser) -> bool {
    &&& d.id == c.comment.id
    &&& d.content@ == c.comment.content@
    &&& (d.user.id, d.user.email@) == shown_author(c)
    &&& d.book_id@ == c.comment.book_id@
    &&& d.parent_id == c.comment.parent_id
    &&& d.created_at@ == c.comment.created_at@
}

/// `d` shows the thread whose top comment is `c` and whose replies are `replies`.
pub open spec fn shows_thread(d: CommentWithRepliesDto, c: CommentWithUser, replies: Seq<CommentWithUser>) -> bool {
    &&& d.id == c.comment.id
    &&& d.content@ == c.comment.content@
    &&& (d.user.id, d.user.email@) == shown_author(c)
    &&& d.book_id@ == c.comment.book_id@
    &&& d.created_at@ == c.comment.created_at@
    &&& d.reponses@.len() == replies.len()
    &&& forall|i: int| 0 <= i < replies.len() ==> shows_comment(#[trigger] d.reponses@[i], replies[i])
}

fn author_dto(comment: &Model, user: &Option<UserModel>) -> (r: UserCommentResponseDto)
    ensures
        (r.id, r.email@) == shown_author(CommentWithUser { comment: *comment, user: *user }),
{
    match user {
        Some(u) => UserCommentResponseDto { id: u.id, email: u.email.clone() },
        None => UserCommentResponseDto { id: comment.user_id, email: "Utilisateur inconnu".to_owned() },
    }
}

impl CommentWithUser {
    /// A field-by-field copy.
    pub fn copy(&self) -> (r: CommentWithUser)
        ensures
            r == *self,
    {
        CommentWithUser {
            comment: self.comment.copy(),
            user: match &self.user {
                Some(u) => Some(u.copy()),
                None => None,
            },
        }
    }

    /// The response that shows this comment.
    pub fn to_dto(&self) -> (r: CommentResponseDto)
        ensures
            shows_comment(r, *self),
    {
        CommentResponseDto {
            id: self.comment.id,
            content: self.comment.content.clone(),
            user: author_dto(&self.comment, &self.user),
            book_id: self.comment.book_id.clone(),
            parent_id: self.comment.parent_id,
            created_at: self.comment.created_at.clone(),
        }
    }
}

impl CommentTree {
    /// The response that shows this thread.
    pub fn to_dto(self) -> (r: CommentWithRepliesDto)
        ensures
            shows_thread(r, self.original, self.replies@),
    {
        let user = author_dto(&self.original.comment, &self.original.user);
        let mut reponses: Vec<CommentResponseDto> = Vec::new();
        let mut i: usize = 0;
        while i < self.replies.len()
            invariant
                i <= self.replies.len(),
                reponses@.len() == i,
                forall|k: int| 0 <= k < i ==> shows_comment(#[trigger] reponses@[k], self.replies@[k]),
            decreases self.replies.len() - i,
        {
            reponses.push(self.replies[i].to_dto());
            i = i + 1;
        }
        CommentWithRepliesDto {
            id: self.original.comment.id,
            content: self.original.comment.content,
            user,
            book_id: self.original.comment.book_id,
            created_at: self.original.comment.created_at,
            reponses,
        }
    }
}


/// The top-level comments of `items`, in order.
pub open spec fn top_level(items: Seq<CommentWithUser>) -> Seq<CommentWithUser>
    decreases items.len(),
{
    if items.len() == 0 {
        seq![]
    } else {
        top_level(items.drop_last()) + if items.last().comment.parent_id is None {
            seq![items.last()]
        } else {
            seq![]
        }
    }
}

/// Whether a listed comment starts a thread: it answers no comment.
pub open spec fn starts_thread(x: CommentWithUser) -> bool {
    x.comment.parent_id is None
}

/// The threads' originals are exactly the listed comments that answer no
/// comment, in their order, whatever their author: `top_level` keeps those
/// and only those.
pub proof fn threads_start_at_every_top_level_comment(items: Seq<CommentWithUser>)
    ensures
        top_level(items) == items.filter(|x: CommentWithUser| starts_thread(x)),
        forall|k: int| 0 <= k < items.len() && #[trigger] items[k].comment.parent_id is None
            ==> top_level(items).contains(items[k]),
        forall|x: CommentWithUser| #[trigger] top_level(items).contains(x) ==> items.contains(x)
            && x.comment.parent_id is None,
    decreases items.len(),
{
    reveal(Seq::filter);
    if items.len() > 0 {
        let d = items.drop_last();
        threads_start_at_every_top_level_comment(d);
        let pred = |x: CommentWithUser| starts_thread(x);
        assert(items.filter(pred) == d.filter(pred).push(items.last()) || items.filter(pred) == d.filter(pred));
        if starts_thread(items.last()) {
            assert(top_level(items) =~= d.filter(pred).push(items.last()));
        } else {
            assert(top_level(items) =~= d.filter(pred));
        }
        let t = top_level(items);
        let td = top_level(d);
        assert forall|k: int| 0 <= k < items.len() && #[trigger] items[k].comment.parent_id is None
            implies t.contains(items[k]) by {
            if k < d.len() {
                assert(d[k] == items[k]);
                assert(td.contains(d[k]));
                let j = choose|j: int| 0 <= j < td.len() && td[j] == d[k];
                assert(t[j] == td[j]);
            } else {
                assert(t[td.len() as int] == items[k]);
            }
        }
        assert forall|x: CommentWithUser| #[trigger] t.contains(x) implies items.contains(x)
            && x.comment.parent_id is None by {
            let j = choose|j: int| 0 <= j < t.len() && t[j] == x;
            if j < td.len() {
                assert(td[j] == x);
                assert(td.contains(x));
                let q = choose|q: int| 0 <= q < d.len() && d[q] == x;
                assert(items[q] == x);
            } else {
                assert(items[items.len() - 1] == x);
            }
        }
    }
}

/// The replies in `items` to the comment `id`, in order.
pub open spec fn replies_to(items: Seq<CommentWithUser>, id: i32) -> Seq<CommentWithUser>
    decreases items.len(),
{
    if items.len() == 0 {
        seq![]
    } else {
        replies_to(items.drop_last(), id) + if items.last().comment.parent_id == Some(id) {
            seq![items.last()]
        } else {
            seq![]
        }
    }
}

/// Whether a top-level comment before position `k` has the same id as the
/// one at `k` (the replies then went to that earlier one).
pub open spec fn id_taken_before(tops: Seq<CommentWithUser>, k: int) -> bool {
    exists|j: int| 0 <= j < k && tops[j].comment.id == tops[k].comment.id
}

/// The replies that the `k`-th top-level comment receives.
pub open spec fn thread_replies(items: Seq<CommentWithUser>, k: int) -> Seq<CommentWithUser> {
    let tops = top_level(items);
    if id_taken_before(tops, k) {
        seq![]
    } else {
        replies_to(items, tops[k].comment.id)
    }
}

/// The threads of a book's comments: one per top-level comment, in order,
/// each with the replies to it in their order. Replies to a comment that is
/// not among the top-level ones belong to no thread.
pub fn get_comments_structured(items: &Vec<CommentWithUser>) -> (r: Vec<CommentTree>)
    ensures
        r@.len() == top_level(items@).len(),
        forall|k: int| 0 <= k < r@.len() ==> (#[trigger] r@[k]).original == top_level(items@)[k]
            && r@[k].replies@ == thread_replies(items@, k),
{
    let mut tops: Vec<CommentWithUser> = Vec::new();
    let mut i: usize = 0;
    while i < items.len()
        invariant
            i <= items.len(),
            tops@ == top_level(items@.take(i as int)),
        decreases items.len() - i,
    {
        proof {
            assert(items@.take(i + 1).drop_last() =~= items@.take(i as int));
            assert(items@.take(i + 1).last() == items@[i as int]);
        }
        if items[i].comment.parent_id.is_none() {
            tops.push(items[i].copy());
        } else {
            assert(top_level(items@.take(i + 1)) =~= top_level(items@.take(i as int)));
        }
        i = i + 1;
    }
    assert(items@.take(items.len() as int) =~= items@);
    let mut out: Vec<CommentTree> = Vec::new();
    let mut k: usize = 0;
    while k < tops.len()
        invariant
            k <= tops.len(),
            tops@ == top_level(items@),
            out@.len() == k,
            forall|q: int| 0 <= q < k ==> (#[trigger] out@[q]).original == tops@[q]
                && out@[q].replies@ == thread_replies(items@, q),
        decreases tops.len() - k,
    {
        let id = tops[k].comment.id;
        let mut taken = false;
        let mut j: usize = 0;
        while j < k && !taken
            invariant
                j <= k < tops.len(),
                taken ==> id_taken_before(tops@, k as int),
                !taken ==> forall|q: int| 0 <= q < j ==> tops@[q].comment.id != id,
                id == tops@[k as int].comment.id,
            decreases k - j,
        {
            if tops[j].comment.id == id {
                taken = true;
            }
            j = j + 1;
        }
        let mut replies: Vec<CommentWithUser> = Vec::new();
        if !taken {
            let mut m: usize = 0;
            while m < items.len()
                invariant
                    m <= items.len(),
                    replies@ == replies_to(items@.take(m as int), id),
                decreases items.len() - m,
            {
                proof {
                    assert(items@.take(m + 1).drop_last() =~= items@.take(m as int));
                    assert(items@.take(m + 1).last() == items@[m as int]);
                }
                if items[m].comment.parent_id == Some(id) {
                    replies.push(items[m].copy());
                } else {
                    assert(replies_to(items@.take(m + 1), id) =~= replies_to(items@.take(m as int), id));
                }
                m = m + 1;
            }
            assert(items@.take(items.len() as int) =~= items@);
        } else {
            assert(replies@ =~= Seq::<CommentWithUser>::empty());
        }
        let original = tops[k].copy();
        out.push(CommentTree { original, replies });
        k = k + 1;
    }
    out
}

proof fn lemma_replies_members(items: Seq<CommentWithUser>, id: i32)
    ensures
        forall|r: CommentWithUser| #[trigger] replies_to(items, id).contains(r) ==> items.contains(r)
            && r.comment.parent_id == Some(id),
    decreases items.len(),
{
    if items.len() > 0 {
        let d = items.drop_last();
        lemma_replies_members(d, id);
        assert forall|r: CommentWithUser| #[trigger] replies_to(items, id).contains(r) implies items.contains(r)
            && r.comment.parent_id == Some(id) by {
            let full = replies_to(items, id);
            let l = replies_to(d, id);
            let k = choose|k: int| 0 <= k < full.len() && full[k] == r;
            if k < l.len() {
                assert(full[k] == l[k]);
                assert(l.contains(r));
                let q = choose|q: int| 0 <= q < d.len() && d[q] == r;
                assert(items[q] == r);
            } else {
                assert(items[items.len() - 1] == r);
            }
        }
    }
}

/// Every reply in a thread is one of the listed comments and answers the
/// thread's top comment; when no two top-level comments share an id, a
/// thread holds all the replies to its top comment.
pub proof fn threads_hold_their_replies(items: Seq<CommentWithUser>, k: int)
    requires
        0 <= k < top_level(items).len(),
    ensures
        forall|r: CommentWithUser| #[trigger] thread_replies(items, k).contains(r) ==> items.contains(r)
            && r.comment.parent_id == Some(top_level(items)[k].comment.id),
        (forall|i: int, j: int| 0 <= i < j < top_level(items).len() ==> (#[trigger] top_level(items)[i]).comment.id
            != (#[trigger] top_level(items)[j]).comment.id) ==> thread_replies(items, k) == replies_to(
            items,
            top_level(items)[k].comment.id,
        ),
{
    lemma_replies_members(items, top_level(items)[k].comment.id);
}

/// The message refusing an empty comment.
pub open spec fn empty_comment_message() -> Seq<char> {
    "Le contenu du commentaire ne peut pas être vide"@
}

/// Refuses a comment whose content is blank.
pub fn validate_comment_content(content: &str) -> (r: Result<(), String>)
    ensures
        r is Ok <==> !crate::text::is_blank(content@),
        r matches Err(m) ==> m@ == empty_comment_message(),
{
    if is_blank_str(content) {
        Err("Le contenu du commentaire ne peut pas être vide".to_owned())
    } else {
        Ok(())
    }
}

/// Why a reply was refused.
pub enum ReplyRejection {
    ParentMissing,
    OtherBook,
    ReplyToReply,
}

/// The rule on replies: a reply answers an existing top-level comment on the
/// same book. `parent` is the comment that `parent_id` names, when it exists.
pub open spec fn reply_outcome(book_id: Seq<char>, parent_id: Option<i32>, parent: Option<Model>) -> Result<(), ReplyRejection> {
    match parent_id {
        None => Ok(()),
        Some(_) => match parent {
            None => Err(ReplyRejection::ParentMissing),
            Some(p) => if p.book_id@ != book_id {
                Err(ReplyRejection::OtherBook)
            } else if p.parent_id is Some {
                Err(ReplyRejection::ReplyToReply)
            } else {
                Ok(())
            },
        },
    }
}

/// Whether a new comment on `book_id` may answer `parent_id`, given the
/// parent comment as stored (or `None` when there is no such comment).
pub fn check_reply_target(book_id: &str, parent_id: Option<i32>, parent: Option<&Model>) -> (r: Result<(), ReplyRejection>)
    ensures
        r == reply_outcome(book_id@, parent_id, match parent { Some(p) => Some(*p), None => None }),
{
    match parent_id {
        None => Ok(()),
        Some(_) => match parent {
            None => Err(ReplyRejection::ParentMissing),
            Some(p) => if !crate::text::same_text(p.book_id.as_str(), book_id) {
                Err(ReplyRejection::OtherBook)
            } else if p.parent_id.is_some() {
                Err(ReplyRejection::ReplyToReply)
            } else {
                Ok(())
            },
        },
    }
}

/// The explanation of a refused reply.
pub open spec fn rejection_message(x: ReplyRejection) -> Seq<char> {
    match x {
        ReplyRejection::ParentMissing => "Le commentaire parent spécifié n'existe pas."@,
        ReplyRejection::OtherBook => "Impossible de répondre à un commentaire d'un autre livre."@,
        ReplyRejection::ReplyToReply => "Impossible de répondre à une réponse. Vous ne pouvez répondre qu'à un commentaire principal."@,
    }
}

impl ReplyRejection {
    /// The message that explains the refusal.
    pub fn message(&self) -> (r: String)
        ensures
            r@ == rejection_message(*self),
    {
        match self {
            ReplyRejection::ParentMissing => "Le commentaire parent spécifié n'existe pas.".to_owned(),
            ReplyRejection::OtherBook => "Impossible de répondre à un commentaire d'un autre livre.".to_owned(),
            ReplyRejection::ReplyToReply => "Impossible de répondre à une réponse. Vous ne pouvez répondre qu'à un commentaire principal.".to_owned(),
        }
    }
}

/// Whether comment `c` is a top-level comment or answers a top-level
/// comment of `store` on the same book.
pub open spec fn answers_top_level_on_same_book(store: Seq<Model>, c: Model) -> bool {
    c.parent_id matches Some(pid) ==> exists|j: int|
        0 <= j < store.len() && (#[trigger] store[j]).id == pid && store[j].parent_id is None
            && store[j].book_id@ == c.book_id@
}

/// Replies are one level deep and stay on their book: every stored reply
/// answers a stored top-level comment on the same book.
pub open spec fn replies_one_level_deep(store: Seq<Model>) -> bool {
    forall|i: int| 0 <= i < store.len() ==> answers_top_level_on_same_book(store, #[trigger] store[i])
}

/// The reply rule keeps replies one level deep on the same book: when the
/// stored comments satisfy it and `check_reply_target` accepts a new comment
/// `c` (given the stored comment its `parent_id` names, as `parent`), the
/// store with `c` added satisfies it too.
pub proof fn accepted_comments_keep_replies_one_level_deep(store: Seq<Model>, c: Model, parent: Option<Model>)
    requires
        replies_one_level_deep(store),
        parent matches Some(p) ==> store.contains(p) && (c.parent_id matches Some(pid) ==> p.id == pid),
        reply_outcome(c.book_id@, c.parent_id, parent) is Ok,
    ensures
        replies_one_level_deep(store.push(c)),
{
    let after = store.push(c);
    assert forall|i: int| 0 <= i < after.len() implies answers_top_level_on_same_book(after, #[trigger] after[i]) by {
        if i < store.len() {
            assert(after[i] == store[i]);
            assert(answers_top_level_on_same_book(store, store[i]));
            if let Some(pid) = store[i].parent_id {
                let j = choose|j: int|
                    0 <= j < store.len() && (#[trigger] store[j]).id == pid && store[j].parent_id is None
                        && store[j].book_id@ == store[i].book_id@;
                assert(after[j] == store[j]);
            }
        } else {
            assert(after[i] == c);
            if let Some(pid) = c.parent_id {
                let p = parent->0;
                let j = choose|j: int| 0 <= j < store.len() && store[j] == p;
                assert(after[j] == store[j]);
            }
        }
    }
}

/// Why posting a comment failed: the reply rules refused it, or the store
/// failed (with the store error's text).
pub enum CommentCreationError {
    Rejected(ReplyRejection),
    Database(String),
}

/// The prefix with which a custom store error displays its message.
pub open spec fn custom_error_prefix() -> Seq<char> {
    "Custom Error: "@
}

/// The text of a creation failure. A refused reply travels as a custom store
/// error, so its text is the explanation behind `custom_error_prefix`; a
/// store failure has the store's own text.
pub open spec fn creation_error_text(e: CommentCreationError) -> Seq<char> {
    match e {
        CommentCreationError::Rejected(x) => custom_error_prefix() + rejection_message(x),
        CommentCreationError::Database(t) => t@,
    }
}

/// Whether the text of a creation failure reads as a refused reply: it
/// speaks of an impossible answer or of the parent comment.
pub open spec fn reads_as_refusal(text: Seq<char>) -> bool {
    contains_text(text, "Impossible de répondre"@) || contains_text(text, "Le commentaire parent"@)
}

/// The answer to a failed creation: a failure that reads as a refused reply
/// is a bad request answered with its text; any other is an internal error
/// answered with a generic message.
pub open spec fn creation_error_answer(e: CommentCreationError) -> (u16, Seq<char>) {
    if reads_as_refusal(creation_error_text(e)) {
        (400u16, creation_error_text(e))
    } else {
        (500u16, "Impossible de sauvegarder le commentaire"@)
    }
}

/// Every refused reply reads as one, so it is answered as a bad request with
/// the explanation behind the custom-error prefix.
pub proof fn refused_replies_are_bad_requests(x: ReplyRejection)
    ensures
        creation_error_answer(CommentCreationError::Rejected(x)) == (
            400u16,
            custom_error_prefix() + rejection_message(x),
        ),
{
    reveal_strlit("Custom Error: ");
    reveal_strlit("Impossible de répondre");
    reveal_strlit("Le commentaire parent");
    reveal_strlit("Le commentaire parent spécifié n'existe pas.");
    reveal_strlit("Impossible de répondre à un commentaire d'un autre livre.");
    reveal_strlit("Impossible de répondre à une réponse. Vous ne pouvez répondre qu'à un commentaire principal.");
    let t = creation_error_text(CommentCreationError::Rejected(x));
    let k = custom_error_prefix().len() as int;
    match x {
        ReplyRejection::ParentMissing => {
            assert(t.subrange(k, k + 21) =~= "Le commentaire parent"@);
            assert(occurs_at(t, k, "Le commentaire parent"@));
        },
        _ => {
            assert(t.subrange(k, k + 22) =~= "Impossible de répondre"@);
            assert(occurs_at(t, k, "Impossible de répondre"@));
        },
    }
}

impl CommentCreationError {
    /// The text of the failure, as the store error displays it.
    pub fn text(&self) -> (r: String)
        ensures
            r@ == creation_error_text(*self),
    {
        match self {
            CommentCreationError::Rejected(x) => "Custom Error: ".to_owned().concat(x.message().as_str()),
            CommentCreationError::Database(t) => t.clone(),
        }
    }

    /// Whether the failure reads as a refused reply.
    fn reads_as_refusal(&self) -> (r: bool)
        ensures
            r == reads_as_refusal(creation_error_text(*self)),
    {
        let t = self.text();
        str_contains(t.as_str(), "Impossible de répondre") || str_contains(t.as_str(), "Le commentaire parent")
    }

    /// The HTTP status of the failure: 400 when it reads as a refused reply,
    /// 500 otherwise.
    pub fn status_code(&self) -> (r: u16)
        ensures
            r == creation_error_answer(*self).0,
    {
        if self.reads_as_refusal() {
            400
        } else {
            500
        }
    }

    /// The message sent back: the failure's text when it reads as a refused
    /// reply, a generic message otherwise.
    pub fn message(&self) -> (r: String)
        ensures
            r@ == creation_error_answer(*self).1,
    {
        if self.reads_as_refusal() {
            self.text()
        } else {
            "Impossible de sauvegarder le commentaire".to_owned()
        }
    }
}

/// The outcome of a request to change comment `existing` (as stored, or
/// `None`) by user `user_id`: refused when the new content is blank, when
/// there is no such comment, or when the user is not its author.
pub open spec fn update_outcome(existing: Option<Model>, user_id: i32, new_content: Seq<char>) -> Result<(), Refusal> {
    if crate::text::is_blank(new_content) {
        Err(Refusal::BadRequest("Le contenu du commentaire ne peut pas être vide."@))
    } else {
        match existing {
            None => Err(Refusal::NotFound),
            Some(c) => if c.user_id != user_id {
                Err(Refusal::Forbidden("Vous ne pouvez modifier que vos propres commentaires."@))
            } else {
                Ok(())
            },
        }
    }
}

/// The check on a new content that needs no stored comment, made before the
/// comment is looked up: blank content is refused whatever the comment and
/// the user, with the same answer as `update_outcome` gives.
pub fn check_new_content(new_content: &str) -> (r: Result<(), CommentServiceError>)
    ensures
        r is Ok <==> !crate::text::is_blank(new_content@),
        r matches Err(e) ==> forall|existing: Option<Model>, user_id: i32|
            #[trigger] update_outcome(existing, user_id, new_content@) == Err::<(), Refusal>(e@),
{
    if is_blank_str(new_content) {
        Err(CommentServiceError::BadRequest("Le contenu du commentaire ne peut pas être vide.".to_owned()))
    } else {
        Ok(())
    }
}

/// Whether user `user_id` may replace the content of comment `existing`
/// with `new_content`.
pub fn authorize_comment_update(existing: Option<&Model>, user_id: i32, new_content: &str) -> (r: Result<(), CommentServiceError>)
    ensures
        match r {
            Ok(()) => update_outcome(match existing { Some(c) => Some(*c), None => None }, user_id, new_content@) is Ok,
            Err(e) => update_outcome(match existing { Some(c) => Some(*c), None => None }, user_id, new_content@) == Err::<(), Refusal>(e@),
        },
{
    if is_blank_str(new_content) {
        return Err(CommentServiceError::BadRequest("Le contenu du commentaire ne peut pas être vide.".to_owned()));
    }
    match existing {
        None => Err(CommentServiceError::NotFound),
        Some(c) => if c.user_id != user_id {
            Err(CommentServiceError::Forbidden("Vous ne pouvez modifier que vos propres commentaires.".to_owned()))
        } else {
            Ok(())
        },
    }
}

/// The outcome of a request to delete comment `existing` by user `user_id`.
pub open spec fn deletion_outcome(existing: Option<Model>, user_id: i32) -> Result<(), Refusal> {
    match existing {
        None => Err(Refusal::NotFound),
        Some(c) => if c.user_id != user_id {
            Err(Refusal::Forbidden("Vous ne pouvez supprimer que vos propres commentaires."@))
        } else {
            Ok(())
        },
    }
}

/// Whether user `user_id` may delete comment `existing` and its replies.
pub fn authorize_comment_deletion(existing: Option<&Model>, user_id: i32) -> (r: Result<(), CommentServiceError>)
    ensures
        match r {
            Ok(()) => deletion_outcome(match existing { Some(c) => Some(*c), None => None }, user_id) is Ok,
            Err(e) => deletion_outcome(match existing { Some(c) => Some(*c), None => None }, user_id) == Err::<(), Refusal>(e@),
        },
{
    match existing {
        None => Err(CommentServiceError::NotFound),
        Some(c) => if c.user_id != user_id {
            Err(CommentServiceError::Forbidden("Vous ne pouvez supprimer que vos propres commentaires.".to_owned()))
        } else {
            Ok(())
        },
    }
}

impl CommentServiceError {
    /// The HTTP status that answers this refusal.
    pub fn status_code(&self) -> (r: u16)
        ensures
            r == match *self {
                CommentServiceError::NotFound => 404u16,
                CommentServiceError::Forbidden(_) => 403u16,
                CommentServiceError::BadRequest(_) => 400u16,
                CommentServiceError::Database(_) => 500u16,
            },
    {
        match self {
            CommentServiceError::NotFound => 404,
            CommentServiceError::Forbidden(_) => 403,
            CommentServiceError::BadRequest(_) => 400,
            CommentServiceError::Database(_) => 500,
        }
    }
}

/// The walk that finds a comment and all its replies, replies of replies
/// included, breadth first: the first `listed` found comments have had their
/// replies listed, and those replies were found in that order.
pub struct DeletionWalk {
    ids: Vec<i32>,
    next: usize,
    /// For each found comment but the first, the position of the comment it
    /// answers.
    parent_pos: Ghost<Seq<int>>,
    /// For each comment whose replies were listed, those replies.
    recorded: Ghost<Seq<Seq<i32>>>,
    /// For each comment whose replies were listed, where they start among
    /// the found comments.
    starts: Ghost<Seq<int>>,
}

/// The walk follows a reply relation: the replies listed for each comment
/// are the ones the relation gives it.
pub open spec fn follows(walk: DeletionWalk, replies: spec_fn(i32) -> Seq<i32>) -> bool {
    forall|j: int| 0 <= j < walk.listed() ==> #[trigger] walk.replies_of(j) == replies(walk.found()[j])
}

/// A reply relation of stored comments: a comment answers at most one
/// comment and is listed once among its replies, and a reply sits one level
/// below the comment it answers (so no comment answers itself, even
/// indirectly).
pub open spec fn is_reply_relation(replies: spec_fn(i32) -> Seq<i32>, level: spec_fn(i32) -> int) -> bool {
    &&& forall|a: i32| #[trigger] replies(a).no_duplicates()
    &&& forall|a: i32, b: i32, c: i32|
        #[trigger] replies(a).contains(c) && #[trigger] replies(b).contains(c) ==> a == b
    &&& forall|a: i32, c: i32| #[trigger] replies(a).contains(c) ==> level(c) == level(a) + 1
}

/// Where each found comment comes from: every comment but the first is a
/// listed reply of a comment found and listed before it (`pp` gives that
/// comment's position), and the replies listed for the `j`-th comment (`rec`)
/// are found in order from position `st[j]` on.
spec fn walk_positions(ids: Seq<i32>, next: int, pp: Seq<int>, rec: Seq<Seq<i32>>, st: Seq<int>) -> bool {
    &&& forall|k: int| 1 <= k < ids.len() ==> {
        &&& 0 <= #[trigger] pp[k] < k
        &&& pp[k] < next
        &&& st[pp[k]] <= k < st[pp[k]] + rec[pp[k]].len()
    }
    &&& forall|j: int| 0 <= j < next ==> 1 <= #[trigger] st[j] && st[j] + rec[j].len() <= ids.len()
    &&& forall|j: int, i: int| 0 <= j < next && 0 <= i < rec[j].len() ==> {
        &&& ids[st[j] + i] == #[trigger] rec[j][i]
        &&& pp[st[j] + i] == j
    }
}

impl DeletionWalk {
    /// The comments found so far, in the order they were found.
    pub closed spec fn found(&self) -> Seq<i32> {
        self.ids@
    }

    /// How many found comments have had their replies listed.
    pub closed spec fn listed(&self) -> int {
        self.next as int
    }

    /// The position among the found comments of the one that the `k`-th
    /// found comment answers.
    pub closed spec fn answers(&self, k: int) -> int {
        self.parent_pos@[k]
    }

    /// The replies listed for the `j`-th found comment.
    pub closed spec fn replies_of(&self, j: int) -> Seq<i32> {
        self.recorded@[j]
    }

    /// The walk is consistent: the first comment is the one asked for, and
    /// every other one is a listed reply of a comment found before it.
    #[verifier::type_invariant]
    pub closed spec fn well_formed(&self) -> bool {
        &&& self.ids@.len() >= 1
        &&& self.next <= self.ids@.len()
        &&& self.parent_pos@.len() == self.ids@.len()
        &&& self.recorded@.len() == self.next
        &&& self.starts@.len() == self.next
        &&& walk_positions(self.ids@, self.next as int, self.parent_pos@, self.recorded@, self.starts@)
    }

    /// A walk from comment `root`.
    pub fn start(root: i32) -> (r: DeletionWalk)
        ensures
            r.found() == seq![root],
            r.listed() == 0,
    {
        let mut ids: Vec<i32> = Vec::new();
        ids.push(root);
        let ghost first: Seq<int> = seq![0int];
        let ghost none_listed: Seq<Seq<i32>> = Seq::empty();
        let ghost no_starts: Seq<int> = Seq::empty();
        DeletionWalk {
            ids,
            next: 0,
            parent_pos: Ghost(first),
            recorded: Ghost(none_listed),
            starts: Ghost(no_starts),
        }
    }

    /// The comments found so far.
    pub fn found_ids(&self) -> (r: &Vec<i32>)
        ensures
            r@ == self.found(),
            r@.len() >= 1,
    {
        proof {
            use_type_invariant(self);
        }
        &self.ids
    }

    /// The next comment whose replies must be listed, if any.
    pub fn pending(&self) -> (r: Option<i32>)
        ensures
            self.listed() < self.found().len() ==> r == Some(self.found()[self.listed()]),
            self.listed() >= self.found().len() ==> r is None,
    {
        proof {
            use_type_invariant(self);
        }
        if self.next < self.ids.len() {
            Some(self.ids[self.next])
        } else {
            None
        }
    }

    /// Records the replies of the pending comment.
    pub fn record_replies(&mut self, replies: &Vec<i32>)
        requires
            old(self).listed() < old(self).found().len(),
            old(self).found().len() + replies@.len() <= usize::MAX,
        ensures
            final(self).found() == old(self).found() + replies@,
            final(self).listed() == old(self).listed() + 1,
            final(self).replies_of(old(self).listed()) == replies@,
            forall|j: int| 0 <= j < old(self).listed() ==> #[trigger] final(self).replies_of(j) == old(self).replies_of(j),
            forall|k: int| old(self).found().len() <= k < final(self).found().len() ==>
                #[trigger] final(self).answers(k) == old(self).listed(),
            forall|k: int| 0 <= k < old(self).found().len() ==>
                #[trigger] final(self).answers(k) == old(self).answers(k),
    {
        proof {
            use_type_invariant(&*self);
        }
        let mut taken = DeletionWalk::start(0);
        std::mem::swap(self, &mut taken);
        proof {
            use_type_invariant(&taken);
        }
        let ghost before = taken;
        let DeletionWalk { mut ids, next, parent_pos, recorded, starts } = taken;
        let ghost old_ids = ids@;
        let mut i: usize = 0;
        while i < replies.len()
            invariant
                i <= replies.len(),
                ids@ == old_ids + replies@.take(i as int),
                old_ids.len() + replies@.len() <= usize::MAX,
                before.well_formed(),
                before.ids@ == old_ids,
                before.next == next,
                before.parent_pos == parent_pos,
                before.recorded == recorded,
                before.starts == starts,
                next < old_ids.len(),
            decreases replies.len() - i,
        {
            ids.push(replies[i]);
            assert(replies@.take(i + 1) =~= replies@.take(i as int).push(replies@[i as int]));
            i = i + 1;
        }
        assert(replies@.take(replies.len() as int) =~= replies@);
        let ghost at = next as int;
        let ghost n0 = old_ids.len() as int;
        let ghost pp: Seq<int> = parent_pos@ + Seq::new(replies@.len(), |k: int| at);
        let ghost rec: Seq<Seq<i32>> = recorded@.push(replies@);
        let ghost st: Seq<int> = starts@.push(n0);
        proof {
            assert forall|k: int| 1 <= k < ids@.len() implies {
                &&& 0 <= #[trigger] pp[k] < k
                &&& pp[k] < next + 1
                &&& st[pp[k]] <= k < st[pp[k]] + rec[pp[k]].len()
            } by {
                if k < n0 {
                    assert(pp[k] == parent_pos@[k]);
                } else {
                    assert(pp[k] == at);
                }
            }
            assert forall|j: int| 0 <= j < next + 1 implies 1 <= #[trigger] st[j] && st[j] + rec[j].len()
                <= ids@.len() by {
                if j < next {
                    assert(st[j] == starts@[j]);
                    assert(rec[j] == recorded@[j]);
                }
            }
            assert forall|j: int, i: int| 0 <= j < next + 1 && 0 <= i < rec[j].len() implies {
                &&& ids@[st[j] + i] == #[trigger] rec[j][i]
                &&& pp[st[j] + i] == j
            } by {
                if j < next {
                    assert(rec[j] == recorded@[j]);
                    assert(recorded@[j][i] == rec[j][i]);
                } else {
                    assert(ids@[n0 + i] == replies@[i]);
                }
            }
        }
        assert(walk_positions(ids@, next + 1, pp, rec, st));
        *self = DeletionWalk {
            ids,
            next: next + 1,
            parent_pos: Ghost(pp),
            recorded: Ghost(rec),
            starts: Ghost(st),
        };
    }

    /// In the deletion order the comment asked for comes last, and every
    /// reply comes before the comment it answers.
    pub proof fn deletion_order_law(&self)
        requires
            self.well_formed(),
        ensures
            self.found().reverse().last() == self.found()[0],
            forall|k: int| 1 <= k < self.found().len() ==> {
                let n = self.found().len() as int;
                &&& 0 <= self.answers(k) < k
                &&& self.found().reverse()[n - 1 - k] == self.found()[k]
                &&& self.found().reverse()[n - 1 - self.answers(k)] == self.found()[self.answers(k)]
                &&& n - 1 - k < n - 1 - #[trigger] self.answers(k)
            },
    {
    }

    proof fn lemma_level_below_root(&self, replies: spec_fn(i32) -> Seq<i32>, level: spec_fn(i32) -> int, k: int)
        requires
            self.well_formed(),
            follows(*self, replies),
            is_reply_relation(replies, level),
            0 <= k < self.found().len(),
        ensures
            level(self.found()[k]) >= level(self.found()[0]),
            k >= 1 ==> replies(self.found()[self.answers(k)]).contains(self.found()[k]),
        decreases k,
    {
        if k >= 1 {
            let p = self.parent_pos@[k];
            let i = k - self.starts@[p];
            assert(self.recorded@[p][i] == self.ids@[k]);
            assert(self.replies_of(p) == replies(self.found()[p]));
            assert(replies(self.ids@[p])[i] == self.ids@[k]);
            assert(replies(self.ids@[p]).contains(self.ids@[k]));
            self.lemma_level_below_root(replies, level, p);
        }
    }

    proof fn lemma_distinct_below(&self, replies: spec_fn(i32) -> Seq<i32>, level: spec_fn(i32) -> int, n: int)
        requires
            self.well_formed(),
            follows(*self, replies),
            is_reply_relation(replies, level),
            0 <= n <= self.found().len(),
        ensures
            forall|k1: int, k2: int| 0 <= k1 < k2 < n ==> self.found()[k1] != self.found()[k2],
        decreases n,
    {
        if n > 0 {
            self.lemma_distinct_below(replies, level, n - 1);
            let k2 = n - 1;
            assert forall|k1: int| 0 <= k1 < k2 implies self.found()[k1] != self.found()[k2] by {
                let c = self.ids@[k2];
                self.lemma_level_below_root(replies, level, k2);
                let p2 = self.parent_pos@[k2];
                if k1 == 0 {
                    self.lemma_level_below_root(replies, level, p2);
                    assert(replies(self.ids@[p2]).contains(c));
                    assert(level(c) == level(self.ids@[p2]) + 1);
                } else if self.ids@[k1] == c {
                    self.lemma_level_below_root(replies, level, k1);
                    let p1 = self.parent_pos@[k1];
                    assert(replies(self.ids@[p1]).contains(c));
                    assert(replies(self.ids@[p2]).contains(c));
                    assert(self.ids@[p1] == self.ids@[p2]);
                    if p1 == p2 {
                        let i1 = k1 - self.starts@[p1];
                        let i2 = k2 - self.starts@[p1];
                        assert(self.recorded@[p1][i1] == c);
                        assert(self.recorded@[p1][i2] == c);
                        assert(self.replies_of(p1) == replies(self.found()[p1]));
                        assert(replies(self.ids@[p1]).no_duplicates());
                    } else {
                        assert(p1 < k2 && p2 < k2);
                    }
                }
            }
        }
    }

    /// For a walk that follows a reply relation, every comment found but the
    /// first answers a comment found before it, no comment is found twice,
    /// and once every found comment has had its replies listed, every reply
    /// of a found comment was found: each comment of the thread exactly once.
    pub proof fn walk_finds_each_reply_once(
        &self,
        replies: spec_fn(i32) -> Seq<i32>,
        level: spec_fn(i32) -> int,
    )
        requires
            self.well_formed(),
            follows(*self, replies),
            is_reply_relation(replies, level),
        ensures
            forall|k: int| 1 <= k < self.found().len() ==> 0 <= #[trigger] self.answers(k) < k
                && replies(self.found()[self.answers(k)]).contains(self.found()[k]),
            self.found().no_duplicates(),
            self.listed() == self.found().len() ==> forall|k: int, c: i32|
                0 <= k < self.found().len() && #[trigger] replies(self.found()[k]).contains(c)
                    ==> self.found().contains(c),
    {
        assert forall|k: int| 1 <= k < self.found().len() implies 0 <= #[trigger] self.answers(k) < k
            && replies(self.found()[self.answers(k)]).contains(self.found()[k]) by {
            self.lemma_level_below_root(replies, level, k);
        }
        self.lemma_distinct_below(replies, level, self.found().len() as int);
        if self.listed() == self.found().len() {
            assert forall|k: int, c: i32|
                0 <= k < self.found().len() && #[trigger] replies(self.found()[k]).contains(c)
                    implies self.found().contains(c) by {
                assert(self.replies_of(k) == replies(self.found()[k]));
                let rs = replies(self.found()[k]);
                let i = choose|i: int| 0 <= i < rs.len() && #[trigger] rs[i] == c;
                assert(self.recorded@[k][i] == c);
                assert(self.ids@[self.starts@[k] + i] == c);
            }
        }
    }

    /// The order in which the found comments are deleted: the reverse of the
    /// order in which they were found, so every reply goes before the comment
    /// it answers and the first comment goes last.
    pub fn deletion_order(&self) -> (r: Vec<i32>)
        ensures
            r@ == self.found().reverse(),
    {
        let n = self.ids.len();
        let mut out: Vec<i32> = Vec::new();
        let mut i: usize = n;
        while i > 0
            invariant
                i <= n,
                n == self.ids@.len(),
                out@ == self.ids@.subrange(i as int, n as int).reverse(),
            decreases i,
        {
            i = i - 1;
            out.push(self.ids[i]);
            assert(out@ =~= self.ids@.subrange(i as int, n as int).reverse());
        }
        assert(self.ids@.subrange(0, n as int) =~= self.ids@);
        out
    }
}

} // verus!
