//! The flat configuration, checked: a list of bins, each with a filter, and
//! what is shown with it.

use vstd::prelude::*;
use crate::github::{GithubAuth, RepoLocation};
use crate::model::Color;
use crate::pattern_list::PatternList;

verus! {

/// What is shown with a bin, and how its issues are ordered.
#[derive(Debug, Clone)]
pub struct BinConfig {
    pub name: Option<String>,
    pub color: Option<Color>,
    /// The label that stands for the bin, by name.
    pub main_label: Option<String>,
    pub sort: Option<PatternList<()>>,
}

/// The configuration, checked.
#[derive(Clone)]
pub struct Config {
    pub auth: GithubAuth,
    pub repo: RepoLocation,
    pub bins: PatternList<BinConfig>,
}

/// A text equal to the given one, where there is one.
pub fn copy_text(text: &Option<String>) -> (out: Option<String>)
    ensures
        out == *text,
{
    match text {
        Some(inner) => Some(inner.clone()),
        None => None,
    }
}

} // verus!
