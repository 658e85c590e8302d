//! Naming a repository, its issues and the places they are fetched from.

use vstd::prelude::*;
use crate::error::ConfigError;
use crate::number::{digits_of, push_decimal};
use crate::text::{chars_of, find_from, only_at, text_of};

verus! {

/// Where the tracker's interface is found.
pub const GITHUB_API_ENDPOINT: &'static str = "https://api.github.com";

/// Where the tracker shows a repository to its users.
pub const GITHUB_SITE: &'static str = "https://github.com";

/// The token that gives access to the tracker.
#[derive(Clone)]
pub struct GithubAuth {
    pub token: String,
}

impl From<String> for GithubAuth {
    fn from(token: String) -> (out: Self) {
        GithubAuth { token }
    }
}

impl vstd::std_specs::convert::FromSpecImpl<String> for GithubAuth {
    open spec fn obeys_from_spec() -> bool {
        true
    }

    open spec fn from_spec(token: String) -> Self {
        GithubAuth { token }
    }
}

impl GithubAuth {
    /// The token as authorization.
    pub fn new(token: String) -> (out: Self)
        ensures
            out.token == token,
    {
        GithubAuth { token }
    }
}

/// The states by which issues are fetched.
#[derive(Copy, Clone, Eq, PartialEq, Ord, PartialOrd, Hash, Debug)]
pub enum IssueState {
    Open,
    Closed,
    All,
}

impl IssueState {
    /// The state as the tracker spells it.
    pub open spec fn name(self) -> Seq<char> {
        match self {
            IssueState::Open => "open"@,
            IssueState::Closed => "closed"@,
            IssueState::All => "all"@,
        }
    }

    /// The state as the tracker spells it.
    pub fn to_str(&self) -> (out: &'static str)
        ensures
            out@ == self.name(),
    {
        match *self {
            IssueState::Open => "open",
            IssueState::Closed => "closed",
            IssueState::All => "all",
        }
    }
}

/// A repository: its owner and its name.
#[derive(Clone, Eq, PartialEq, Ord, PartialOrd, Hash, Debug)]
pub struct RepoLocation {
    pub user: String,
    pub repo: String,
}

impl RepoLocation {
    /// The repository `repo` of `user`.
    pub fn new(user: &str, repo: &str) -> (out: Self)
        ensures
            out.user@ == user@,
            out.repo@ == repo@,
    {
        RepoLocation { user: user.to_owned(), repo: repo.to_owned() }
    }

    /// Reads a repository written as `user/repo`. The text is accepted when
    /// it holds exactly one `/`; what stands before it is the owner, what
    /// stands behind it the name. Either may be empty.
    pub fn parse(text: &str) -> (out: Result<RepoLocation, ConfigError>)
        ensures
            match out {
                Ok(location) => exists|at: int|
                    {
                        &&& #[trigger] only_at(text@, '/', at)
                        &&& location.user@ == text@.subrange(0, at)
                        &&& location.repo@ == text@.subrange(at + 1, text@.len() as int)
                    },
                Err(ConfigError::InvalidRepo { source }) => source@ == text@ && forall|at: int|
                    !#[trigger] only_at(text@, '/', at),
                Err(_) => false,
            },
    {
        let chars = chars_of(text);
        let len: usize = chars.len();
        match find_from(&chars, '/', 0) {
            Some(at) => match find_from(&chars, '/', at + 1) {
                None => {
                    let user = text_of(&chars, 0, at);
                    let repo = text_of(&chars, at + 1, len);
                    proof {
                        assert(only_at(text@, '/', at as int));
                    }
                    Ok(RepoLocation { user, repo })
                },
                Some(next) => {
                    proof {
                        assert forall|p: int| !#[trigger] only_at(text@, '/', p) by {
                            if only_at(text@, '/', p) {
                                assert(p == at);
                                assert(text@[next as int] == '/');
                            }
                        }
                    }
                    Err(ConfigError::InvalidRepo { source: text.to_owned() })
                },
            },
            None => {
                proof {
                    assert forall|p: int| !#[trigger] only_at(text@, '/', p) by {
                        if only_at(text@, '/', p) {
                            assert(text@[p] == '/');
                        }
                    }
                }
                Err(ConfigError::InvalidRepo { source: text.to_owned() })
            },
        }
    }

    /// The address at which the tracker shows the repository.
    pub fn hyperlink(&self) -> (out: String)
        ensures
            out@ == GITHUB_SITE@ + "/"@ + self.user@ + "/"@ + self.repo@,
    {
        let mut out: String = GITHUB_SITE.to_owned();
        out.push_str("/");
        out.push_str(self.user.as_str());
        out.push_str("/");
        out.push_str(self.repo.as_str());
        out
    }

    /// The address from which one issue of the repository is fetched.
    pub fn issue_endpoint(&self, number: usize) -> (out: String)
        ensures
            out@ == GITHUB_API_ENDPOINT@ + "/repos/"@ + self.user@ + "/"@ + self.repo@
                + "/issues/"@ + digits_of(number as nat),
    {
        let mut out: String = GITHUB_API_ENDPOINT.to_owned();
        out.push_str("/repos/");
        out.push_str(self.user.as_str());
        out.push_str("/");
        out.push_str(self.repo.as_str());
        out.push_str("/issues/");
        push_decimal(&mut out, number as u64);
        out
    }

    /// The address from which the repository's issues in the given state
    /// are fetched.
    pub fn issues_endpoint(&self, state: IssueState) -> (out: String)
        ensures
            out@ == GITHUB_API_ENDPOINT@ + "/repos/"@ + self.user@ + "/"@ + self.repo@
                + "/issues?state="@ + state.name(),
    {
        let mut out: String = GITHUB_API_ENDPOINT.to_owned();
        out.push_str("/repos/");
        out.push_str(self.user.as_str());
        out.push_str("/");
        out.push_str(self.repo.as_str());
        out.push_str("/issues?state=");
        out.push_str(state.to_str());
        out
    }
}

/// The address from which the details of a user are fetched.
pub fn user_endpoint(login: &str) -> (out: String)
    ensures
        out@ == GITHUB_API_ENDPOINT@ + "/users/"@ + login@,
{
    let mut out: String = GITHUB_API_ENDPOINT.to_owned();
    out.push_str("/users/");
    out.push_str(login);
    out
}

} // verus!
