//! Request bodies and responses about accounts, logins and comments.

use vstd::prelude::*;
use crate::comments::{CommentResponseDto, Model, UserCommentResponseDto};
use crate::users::UserModel;

verus! {

/// The body of a request that posts a comment.
pub struct CreateCommentDto {
    pub content: String,
    pub book_id: String,
    pub parent_id: Option<i32>,
}

/// The body of a request that changes a comment.
pub struct UpdateCommentDto {
    pub content: String,
}

/// The response to a successful login.
pub struct LoginResponseDto {
    pub access_token: String,
}

/// A role as a response shows it.
pub struct RoleResponseDto {
    pub id: i64,
    pub role: String,
}

/// The profile of the logged-in user.
pub struct UserResponseDto {
    pub id: i64,
    pub email: String,
    pub role: RoleResponseDto,
}

/// The public profile of a user.
pub struct UserSimpleResponseDto {
    pub id: i64,
    pub email: String,
}

/// The profile of the logged-in user: the stored account, with the role name
/// that the user's token carries.
pub fn user_profile(user: &UserModel, role: &str) -> (r: UserResponseDto)
    ensures
        r.id == user.id as i64,
        r.email@ == user.email@,
        r.role.id == user.role_id as i64,
        r.role.role@ == role@,
{
    UserResponseDto {
        id: user.id as i64,
        email: user.email.clone(),
        role: RoleResponseDto { id: user.role_id as i64, role: role.to_owned() },
    }
}

/// The public profile of a user.
pub fn user_summary(user: &UserModel) -> (r: UserSimpleResponseDto)
    ensures
        r.id == user.id as i64,
        r.email@ == user.email@,
{
    UserSimpleResponseDto { id: user.id as i64, email: user.email.clone() }
}

/// The response to a comment just written by the token's holder: the stored
/// comment, with the author named by the token's id and subject.
pub fn own_comment_response(comment: &Model, author_id: i32, author_email: &str) -> (r: CommentResponseDto)
    ensures
        r.id == comment.id,
        r.content@ == comment.content@,
        r.user.id == author_id,
        r.user.email@ == author_email@,
        r.book_id@ == comment.book_id@,
        r.parent_id == comment.parent_id,
        r.created_at@ == comment.created_at@,
{
    CommentResponseDto {
        id: comment.id,
        content: comment.content.clone(),
        user: UserCommentResponseDto { id: author_id, email: author_email.to_owned() },
        book_id: comment.book_id.clone(),
        parent_id: comment.parent_id,
        created_at: comment.created_at.clone(),
    }
}

} // verus!
