//! The conversions from the tracker's model, as one system.

use vstd::prelude::*;
use crate::model;
use crate::remodel::{Conv, FromGithub, Remodel};
use crate::wire;

verus! {

/// The conversions from the tracker's model. None of them can fail.
pub struct Github;

impl<T> Remodel<T> for Github {
    type Result = T;
}

impl Conv<String, model::Color> for Github {
    fn conv(from: String) -> (out: model::Color)
        ensures
            model::Color::remodels(from, out),
    {
        model::Color::from_gh(from)
    }
}

impl Conv<wire::Label, model::Label> for Github {
    fn conv(from: wire::Label) -> (out: model::Label)
        ensures
            model::Label::remodels(from, out),
    {
        model::Label::from_gh(from)
    }
}

impl Conv<(wire::User, wire::UserDetails), model::User> for Github {
    fn conv(from: (wire::User, wire::UserDetails)) -> (out: model::User)
        ensures
            model::User::remodels(from, out),
    {
        model::User::from_gh(from)
    }
}

impl Conv<(wire::Issue, wire::UserDetails), model::IssueSummary> for Github {
    fn conv(from: (wire::Issue, wire::UserDetails)) -> (out: model::IssueSummary)
        ensures
            model::IssueSummary::remodels(from, out),
    {
        model::IssueSummary::from_gh(from)
    }
}

} // verus!
