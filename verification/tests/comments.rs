use backend::comments::{
    CommentCreationError,
    authorize_comment_deletion, authorize_comment_update, check_new_content, check_reply_target,
    get_comments_structured, validate_comment_content, CommentServiceError, CommentTree,
    CommentWithUser, DeletionWalk, Model, ReplyRejection,
};
use backend::users::UserModel;

fn comment(id: i32, user_id: i32, book: &str, parent: Option<i32>) -> Model {
    Model {
        id,
        content: format!("c{}", id),
        user_id,
        book_id: book.to_string(),
        parent_id: parent,
        created_at: "2024-01-01 10:00:00".to_string(),
    }
}

fn with_user(c: Model, user: Option<(i32, &str)>) -> CommentWithUser {
    CommentWithUser {
        comment: c,
        user: user.map(|(id, email)| UserModel {
            id,
            email: email.to_string(),
            password: String::new(),
            role_id: 1,
        }),
    }
}

#[test]
fn dto_shows_author_or_unknown() {
    let known = with_user(comment(1, 7, "b", None), Some((7, "a@b.fr")));
    let d = known.to_dto();
    assert_eq!((d.id, d.user.id, d.user.email.as_str()), (1, 7, "a@b.fr"));
    let gone = with_user(comment(2, 9, "b", Some(1)), None);
    let d = gone.to_dto();
    assert_eq!((d.user.id, d.user.email.as_str()), (9, "Utilisateur inconnu"));
    assert_eq!(d.parent_id, Some(1));
    assert_eq!(d.created_at, "2024-01-01 10:00:00");
}

#[test]
fn tree_dto_lists_replies_in_order() {
    let tree = CommentTree {
        original: with_user(comment(1, 7, "b", None), None),
        replies: vec![
            with_user(comment(3, 8, "b", Some(1)), Some((8, "x@y.fr"))),
            with_user(comment(2, 9, "b", Some(1)), None),
        ],
    };
    let d = tree.to_dto();
    assert_eq!(d.id, 1);
    assert_eq!(d.user.email, "Utilisateur inconnu");
    let ids: Vec<i32> = d.reponses.iter().map(|r| r.id).collect();
    assert_eq!(ids, vec![3, 2]);
}

#[test]
fn comments_group_into_threads() {
    let items = vec![
        with_user(comment(5, 1, "b", Some(1)), None),
        with_user(comment(4, 1, "b", None), None),
        with_user(comment(3, 1, "b", Some(4)), None),
        with_user(comment(2, 1, "b", Some(99)), None),
        with_user(comment(1, 1, "b", None), None),
        with_user(comment(0, 1, "b", Some(1)), None),
    ];
    let threads = get_comments_structured(&items);
    let shape: Vec<(i32, Vec<i32>)> = threads
        .iter()
        .map(|t| (t.original.comment.id, t.replies.iter().map(|r| r.comment.id).collect()))
        .collect();
    assert_eq!(shape, vec![(4, vec![3]), (1, vec![5, 0])]);
}

#[test]
fn duplicate_top_ids_get_replies_once() {
    let items = vec![
        with_user(comment(1, 1, "b", None), None),
        with_user(comment(1, 2, "b", None), None),
        with_user(comment(2, 1, "b", Some(1)), None),
    ];
    let threads = get_comments_structured(&items);
    assert_eq!(threads.len(), 2);
    assert_eq!(threads[0].replies.len(), 1);
    assert_eq!(threads[1].replies.len(), 0);
}

#[test]
fn empty_content_is_refused() {
    assert!(validate_comment_content("  \n ").is_err());
    assert_eq!(
        validate_comment_content("").unwrap_err(),
        "Le contenu du commentaire ne peut pas être vide"
    );
    assert!(validate_comment_content(" ok ").is_ok());
}

#[test]
fn reply_rules() {
    let top = comment(1, 1, "book", None);
    let reply = comment(2, 1, "book", Some(1));
    assert!(check_reply_target("book", None, None).is_ok());
    assert!(check_reply_target("book", Some(1), Some(&top)).is_ok());
    assert!(matches!(check_reply_target("book", Some(1), None), Err(ReplyRejection::ParentMissing)));
    assert!(matches!(check_reply_target("other", Some(1), Some(&top)), Err(ReplyRejection::OtherBook)));
    assert!(matches!(check_reply_target("book", Some(2), Some(&reply)), Err(ReplyRejection::ReplyToReply)));
    assert_eq!(ReplyRejection::ParentMissing.message(), "Le commentaire parent spécifié n'existe pas.");
    assert!(ReplyRejection::OtherBook.message().contains("Impossible de répondre"));
    assert!(ReplyRejection::ReplyToReply.message().contains("Impossible de répondre"));
}

#[test]
fn only_the_author_may_change_a_comment() {
    let c = comment(1, 7, "b", None);
    assert!(authorize_comment_update(Some(&c), 7, "new").is_ok());
    match authorize_comment_update(Some(&c), 8, "new") {
        Err(CommentServiceError::Forbidden(m)) => {
            assert_eq!(m, "Vous ne pouvez modifier que vos propres commentaires.")
        }
        _ => panic!("expected Forbidden"),
    }
    assert!(matches!(authorize_comment_update(None, 7, "new"), Err(CommentServiceError::NotFound)));
    match authorize_comment_update(None, 7, "  ") {
        Err(CommentServiceError::BadRequest(m)) => {
            assert_eq!(m, "Le contenu du commentaire ne peut pas être vide.")
        }
        _ => panic!("expected BadRequest first"),
    }
}

#[test]
fn only_the_author_may_delete_a_comment() {
    let c = comment(1, 7, "b", None);
    assert!(authorize_comment_deletion(Some(&c), 7).is_ok());
    assert!(matches!(authorize_comment_deletion(Some(&c), 8), Err(CommentServiceError::Forbidden(_))));
    assert!(matches!(authorize_comment_deletion(None, 8), Err(CommentServiceError::NotFound)));
}

#[test]
fn refusal_statuses() {
    assert_eq!(CommentServiceError::NotFound.status_code(), 404);
    assert_eq!(CommentServiceError::Forbidden(String::new()).status_code(), 403);
    assert_eq!(CommentServiceError::BadRequest(String::new()).status_code(), 400);
    assert_eq!(CommentServiceError::Database(String::new()).status_code(), 500);
}

#[test]
fn deletion_walk_deletes_replies_before_parents() {
    // 1 <- 2 <- 4, 1 <- 3
    let children = |id: i32| -> Vec<i32> {
        match id {
            1 => vec![2, 3],
            2 => vec![4],
            _ => vec![],
        }
    };
    let mut walk = DeletionWalk::start(1);
    while let Some(id) = walk.pending() {
        walk.record_replies(&children(id));
    }
    assert_eq!(*walk.found_ids(), vec![1, 2, 3, 4]);
    assert_eq!(walk.deletion_order(), vec![4, 3, 2, 1]);
}

#[test]
fn deletion_walk_of_a_lone_comment() {
    let mut walk = DeletionWalk::start(9);
    assert_eq!(walk.pending(), Some(9));
    walk.record_replies(&vec![]);
    assert_eq!(walk.pending(), None);
    assert_eq!(walk.deletion_order(), vec![9]);
}

#[test]
fn creation_failures_map_to_statuses() {
    let refused = CommentCreationError::Rejected(ReplyRejection::OtherBook);
    assert_eq!(refused.status_code(), 400);
    assert_eq!(refused.message(), "Custom Error: Impossible de répondre à un commentaire d'un autre livre.");
    let missing = CommentCreationError::Rejected(ReplyRejection::ParentMissing);
    assert_eq!(missing.status_code(), 400);
    assert_eq!(missing.message(), "Custom Error: Le commentaire parent spécifié n'existe pas.");
    let nested = CommentCreationError::Rejected(ReplyRejection::ReplyToReply);
    assert_eq!(nested.status_code(), 400);
    assert_eq!(
        nested.message(),
        "Custom Error: Impossible de répondre à une réponse. Vous ne pouvez répondre qu'à un commentaire principal."
    );
    let failed = CommentCreationError::Database("down".into());
    assert_eq!(failed.status_code(), 500);
    assert_eq!(failed.message(), "Impossible de sauvegarder le commentaire");
}

#[test]
fn store_failure_that_reads_as_refusal_is_a_bad_request() {
    let odd = CommentCreationError::Database("Query Error: Le commentaire parent est verrouillé".into());
    assert_eq!(odd.status_code(), 400);
    assert_eq!(odd.message(), "Query Error: Le commentaire parent est verrouillé");
    assert_eq!(
        CommentCreationError::Rejected(ReplyRejection::OtherBook).text(),
        "Custom Error: Impossible de répondre à un commentaire d'un autre livre."
    );
}

#[test]
fn base_roles_are_admin_and_viewer() {
    assert_eq!(backend::users::base_roles(), vec!["admin", "viewer"]);
}

#[test]
fn blank_new_content_is_refused_before_any_lookup() {
    match check_new_content(" \n ") {
        Err(CommentServiceError::BadRequest(m)) => assert_eq!(m, "Le contenu du commentaire ne peut pas être vide."),
        _ => panic!("expected a bad request"),
    }
    assert!(check_new_content("ok").is_ok());
}
