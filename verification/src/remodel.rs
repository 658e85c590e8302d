//! From the tracker's model of an issue to the one that is organized and
//! shown.

use vstd::prelude::*;
use crate::model;
use crate::wire;

pub mod config;
pub mod github;

verus! {

/// A type that is made from a value `T` of the tracker's model.
pub trait FromGithub<T>: Sized {
    /// Whether `new` is what `old` becomes.
    spec fn remodels(old: T, new: Self) -> bool;

    fn from_gh(old: T) -> (new: Self)
        ensures
            Self::remodels(old, new),
    ;
}

/// The same conversion, called on the tracker's value.
pub trait GithubInto<T>: Sized {
    fn gh_into(self) -> T;
}

impl<A, B: FromGithub<A>> GithubInto<B> for A {
    fn gh_into(self) -> (new: B)
        ensures
            B::remodels(self, new),
    {
        B::from_gh(self)
    }
}

/// A list is converted item by item, in order.
impl<A, B: FromGithub<A>> FromGithub<Vec<A>> for Vec<B> {
    open spec fn remodels(old: Vec<A>, new: Self) -> bool {
        &&& new@.len() == old@.len()
        &&& forall|j: int| 0 <= j < old@.len() ==> B::remodels(old@[j], #[trigger] new@[j])
    }

    fn from_gh(old: Vec<A>) -> (new: Self) {
        let ghost given = old@;
        let mut rest = old;
        let mut stack: Vec<B> = Vec::new();
        while rest.len() > 0
            invariant
                rest@.len() + stack@.len() == given.len(),
                forall|j: int| 0 <= j < rest@.len() ==> rest@[j] == given[j],
                forall|j: int|
                    0 <= j < stack@.len() ==> B::remodels(
                        given[given.len() - 1 - j],
                        #[trigger] stack@[j],
                    ),
            decreases rest@.len(),
        {
            match rest.pop() {
                Some(item) => {
                    stack.push(B::from_gh(item));
                },
                None => {},
            }
        }
        let ghost turned = stack@;
        let mut new: Vec<B> = Vec::new();
        while stack.len() > 0
            invariant
                turned.len() == given.len(),
                new@.len() + stack@.len() == given.len(),
                forall|j: int| 0 <= j < stack@.len() ==> stack@[j] == turned[j],
                forall|j: int|
                    0 <= j < turned.len() ==> B::remodels(
                        given[given.len() - 1 - j],
                        #[trigger] turned[j],
                    ),
                forall|j: int| 0 <= j < new@.len() ==> B::remodels(given[j], #[trigger] new@[j]),
            decreases stack@.len(),
        {
            let ghost at = stack@.len() - 1;
            match stack.pop() {
                Some(item) => {
                    assert(item == turned[at]);
                    new.push(item);
                },
                None => {},
            }
        }
        new
    }
}

/// The tracker writes a color as six digits; here it has its pound sign.
impl FromGithub<String> for model::Color {
    open spec fn remodels(old: String, new: Self) -> bool {
        new.0@ == "#"@ + old@
    }

    fn from_gh(old: String) -> (new: Self) {
        let mut text: String = "#".to_owned();
        text.push_str(old.as_str());
        model::Color(text)
    }
}

impl FromGithub<wire::Label> for model::Label {
    open spec fn remodels(old: wire::Label, new: Self) -> bool {
        new.name == old.name && new.color.0@ == "#"@ + old.color@
    }

    fn from_gh(old: wire::Label) -> (new: Self) {
        model::Label { name: old.name, color: model::Color::from_gh(old.color) }
    }
}

/// A user with the name that the tracker's details give.
impl FromGithub<(wire::User, wire::UserDetails)> for model::User {
    open spec fn remodels(old: (wire::User, wire::UserDetails), new: Self) -> bool {
        &&& new.id == old.0.id
        &&& new.name == old.1.name
        &&& new.icon_url == old.0.avatar_url
        &&& new.hyperlink == old.0.html_url
    }

    fn from_gh(old: (wire::User, wire::UserDetails)) -> (new: Self) {
        let (user, details) = old;
        model::User {
            id: user.id,
            name: details.name,
            icon_url: user.avatar_url,
            hyperlink: user.html_url,
        }
    }
}

/// An issue with its labels, and its creator under the name that the
/// tracker's details give.
impl FromGithub<(wire::Issue, wire::UserDetails)> for model::IssueSummary {
    open spec fn remodels(old: (wire::Issue, wire::UserDetails), new: Self) -> bool {
        &&& new.number == old.0.number
        &&& new.hyperlink == old.0.html_url
        &&& new.title == old.0.title
        &&& Vec::<model::Label>::remodels(old.0.labels, new.labels)
        &&& model::User::remodels((old.0.user, old.1), new.creator)
    }

    fn from_gh(old: (wire::Issue, wire::UserDetails)) -> (new: Self) {
        let (issue, details) = old;
        model::IssueSummary {
            number: issue.number,
            hyperlink: issue.html_url,
            title: issue.title,
            labels: Vec::<model::Label>::from_gh(issue.labels),
            creator: model::User::from_gh((issue.user, details)),
        }
    }
}

/// A system of conversions from one model to another names, for each
/// target type, what a conversion to it returns: the target itself where
/// the conversion cannot fail, a `Result` where it can.
pub trait Remodel<B> {
    type Result;
}

/// One conversion of a system.
pub trait Conv<A, B> where Self: Remodel<B> {
    fn conv(from: A) -> Self::Result;
}

/// Turns an optional outcome of a conversion into the outcome of an
/// optional conversion.
pub trait FromOption<T>: Sized {
    /// Whether `out` is what `from` becomes.
    spec fn lifts(from: Option<T>, out: Self) -> bool;

    fn from_option(from: Option<T>) -> (out: Self)
        ensures
            Self::lifts(from, out),
    ;
}

impl<T> FromOption<T> for Option<T> {
    open spec fn lifts(from: Option<T>, out: Self) -> bool {
        out == from
    }

    fn from_option(from: Option<T>) -> (out: Self) {
        from
    }
}

impl<I, E> FromOption<Result<I, E>> for Result<Option<I>, E> {
    open spec fn lifts(from: Option<Result<I, E>>, out: Self) -> bool {
        out == match from {
            Some(Ok(value)) => Ok::<Option<I>, E>(Some(value)),
            Some(Err(error)) => Err(error),
            None => Ok(None),
        }
    }

    fn from_option(from: Option<Result<I, E>>) -> (out: Self) {
        match from {
            Some(Ok(value)) => Ok(Some(value)),
            Some(Err(error)) => Err(error),
            None => Ok(None),
        }
    }
}

} // verus!
