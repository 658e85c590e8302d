//! Issues as the tracker sends them.

use vstd::prelude::*;

verus! {

/// The creator of an issue, by login.
#[derive(Debug, Clone)]
pub struct User {
    pub id: u64,
    pub login: String,
    pub avatar_url: String,
    pub html_url: String,
}

/// What the tracker knows of a user beyond the login.
#[derive(Debug, Clone)]
pub struct UserDetails {
    pub name: String,
}

/// A label as the tracker sends it.
#[derive(Debug, Clone)]
pub struct Label {
    pub name: String,
    /// Six hexadecimal digits, without the pound sign.
    pub color: String,
}

/// An issue as the tracker sends it.
#[derive(Debug, Clone)]
pub struct Issue {
    pub number: u64,
    pub html_url: String,
    pub title: String,
    pub labels: Vec<Label>,
    pub user: User,
}

} // verus!
