//! Verified core of a book-catalogue backend: text handling, Google Books
//! volume mapping, comment threads, reading lists, recommendation planning
//! and authentication decisions.

pub mod text;
pub mod json;
pub mod categories;
pub mod books;
pub mod readings;
pub mod recommendations;
pub mod users;
pub mod comments;
pub mod password;
pub mod auth;
pub mod email;
pub mod dto;
