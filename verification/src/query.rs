//! The query of the export tool: `username/repo`, or `username/repo#number`
//! for a single issue.

use vstd::prelude::*;
use crate::error::QueryError;
use crate::number::{number, parse_number};
use crate::text::{chars_of, find_from, first_at, none_from, only_at, text_of};

verus! {

/// What is to be exported: a repository and, where one issue is meant, its
/// number.
#[derive(Debug, Clone, PartialEq, Eq)]
pub struct Query {
    pub username: String,
    pub repo: String,
    pub issue: Option<usize>,
}

/// The query names `username` and `repo` and, where it has a `#`, the issue
/// `issue`: it has one `/` only, at `slash`, and behind it one `#` at most.
pub open spec fn reads_as(text: Seq<char>, slash: int, username: Seq<char>, repo: Seq<char>, issue: Option<usize>) -> bool {
    &&& first_at(text, '/', 0, slash)
    &&& none_from(text, '/', slash + 1)
    &&& username == text.subrange(0, slash)
    &&& if none_from(text, '#', slash + 1) {
        repo == text.subrange(slash + 1, text.len() as int) && issue is None
    } else {
        exists|hash: int|
            {
                &&& #[trigger] first_at(text, '#', slash + 1, hash)
                &&& none_from(text, '#', hash + 1)
                &&& repo == text.subrange(slash + 1, hash)
                &&& issue is Some
                &&& issue == number(text.subrange(hash + 1, text.len() as int))
            }
    }
}

/// Behind its one `/` at `slash` the query has a first `#` at `hash`, and
/// another behind that.
pub open spec fn second_hash(text: Seq<char>, slash: int, hash: int) -> bool {
    &&& only_at(text, '/', slash)
    &&& first_at(text, '#', slash + 1, hash)
    &&& !none_from(text, '#', hash + 1)
}

/// Behind its one `/` at `slash` the query has one `#` only, at `hash`, and
/// what follows it is no number.
pub open spec fn no_number(text: Seq<char>, slash: int, hash: int) -> bool {
    &&& only_at(text, '/', slash)
    &&& first_at(text, '#', slash + 1, hash)
    &&& none_from(text, '#', hash + 1)
    &&& number(text.subrange(hash + 1, text.len() as int)) is None
}

/// The first `mark` at or after a position is at one place only.
proof fn lemma_first_unique(text: Seq<char>, mark: char, from: int, a: int, b: int)
    requires
        first_at(text, mark, from, a),
        first_at(text, mark, from, b),
    ensures
        a == b,
{
}

/// Reads a query of the form `username/repo` or `username/repo#number`.
///
/// The query must hold exactly one `/`. What follows it may hold one `#`,
/// and what follows that must then be a number.
pub fn parse_query(query: &str) -> (out: Result<Query, QueryError>)
    ensures
        out matches Ok(parsed) ==> exists|slash: int| #[trigger]
            reads_as(query@, slash, parsed.username@, parsed.repo@, parsed.issue),
        out is Err ==> forall|slash: int, username: Seq<char>, repo: Seq<char>, issue: Option<usize>|
            !#[trigger] reads_as(query@, slash, username, repo, issue),
        out == Err::<Query, QueryError>(QueryError::NoRepo) ==> forall|slash: int|
            !#[trigger] only_at(query@, '/', slash),
        out == Err::<Query, QueryError>(QueryError::ManyIssues) ==> exists|slash: int, hash: int|
            #[trigger] second_hash(query@, slash, hash),
        out == Err::<Query, QueryError>(QueryError::BadNumber) ==> exists|slash: int, hash: int|
            #[trigger] no_number(query@, slash, hash),
{
    let chars = chars_of(query);
    let len: usize = chars.len();
    match find_from(&chars, '/', 0) {
        None => {
            proof {
                assert forall|s: int, u: Seq<char>, r: Seq<char>, n: Option<usize>| !#[trigger]
                    reads_as(query@, s, u, r, n) by {
                    if reads_as(query@, s, u, r, n) {
                        assert(query@[s] == '/');
                    }
                }
            }
            Err(QueryError::NoRepo)
        },
        Some(slash) => match find_from(&chars, '/', slash + 1) {
            Some(again) => {
                proof {
                    assert forall|s: int, u: Seq<char>, r: Seq<char>, n: Option<usize>| !#[trigger]
                        reads_as(query@, s, u, r, n) by {
                        if reads_as(query@, s, u, r, n) {
                            lemma_first_unique(query@, '/', 0, s, slash as int);
                            assert(query@[again as int] == '/');
                        }
                    }
                }
                Err(QueryError::NoRepo)
            },
            None => {
                let username = text_of(&chars, 0, slash);
                match find_from(&chars, '#', slash + 1) {
                    None => {
                        let repo = text_of(&chars, slash + 1, len);
                        let parsed = Query { username, repo, issue: None };
                        proof {
                            assert(reads_as(
                                query@,
                                slash as int,
                                parsed.username@,
                                parsed.repo@,
                                parsed.issue,
                            ));
                        }
                        Ok(parsed)
                    },
                    Some(hash) => match find_from(&chars, '#', hash + 1) {
                        Some(again) => {
                            proof {
                                assert forall|
                                    s: int,
                                    u: Seq<char>,
                                    r: Seq<char>,
                                    n: Option<usize>,
                                | !#[trigger] reads_as(query@, s, u, r, n) by {
                                    if reads_as(query@, s, u, r, n) {
                                        lemma_first_unique(query@, '/', 0, s, slash as int);
                                        assert(query@[hash as int] == '#');
                                        assert(!none_from(query@, '#', s + 1));
                                        let h = choose|h: int|
                                            {
                                                &&& #[trigger] first_at(query@, '#', s + 1, h)
                                                &&& none_from(query@, '#', h + 1)
                                            };
                                        lemma_first_unique(query@, '#', s + 1, h, hash as int);
                                        assert(query@[again as int] == '#');
                                    }
                                }
                            }
                            assert(second_hash(query@, slash as int, hash as int));
                            Err(QueryError::ManyIssues)
                        },
                        None => {
                            let repo = text_of(&chars, slash + 1, hash);
                            match parse_number(&chars, hash + 1) {
                                Some(n) => {
                                    proof {
                                        assert(query@[hash as int] == '#');
                                        assert(!none_from(query@, '#', slash + 1));
                                        assert(first_at(query@, '#', slash + 1, hash as int));
                                    }
                                    let parsed = Query { username, repo, issue: Some(n) };
                                    proof {
                                        assert(reads_as(
                                            query@,
                                            slash as int,
                                            parsed.username@,
                                            parsed.repo@,
                                            parsed.issue,
                                        ));
                                    }
                                    Ok(parsed)
                                },
                                None => {
                                    proof {
                                        assert forall|
                                            s: int,
                                            u: Seq<char>,
                                            r: Seq<char>,
                                            n: Option<usize>,
                                        | !#[trigger] reads_as(query@, s, u, r, n) by {
                                            if reads_as(query@, s, u, r, n) {
                                                lemma_first_unique(query@, '/', 0, s, slash as int);
                                                assert(query@[hash as int] == '#');
                                                assert(!none_from(query@, '#', s + 1));
                                                let h = choose|h: int|
                                                    {
                                                        &&& #[trigger] first_at(
                                                            query@,
                                                            '#',
                                                            s + 1,
                                                            h,
                                                        )
                                                        &&& n is Some
                                                        &&& n == number(
                                                            query@.subrange(
                                                                h + 1,
                                                                query@.len() as int,
                                                            ),
                                                        )
                                                    };
                                                lemma_first_unique(
                                                    query@,
                                                    '#',
                                                    s + 1,
                                                    h,
                                                    hash as int,
                                                );
                                            }
                                        }
                                    }
                                    assert(no_number(query@, slash as int, hash as int));
                                    Err(QueryError::BadNumber)
                                },
                            }
                        },
                    },
                }
            },
        },
    }
}

} // verus!
