//! From the flat configuration as it is written to the checked one: every
//! pattern is compiled, and the repository is taken apart.

use vstd::prelude::*;
use regex::Regex;
use crate::cfg_parse::{all_compile, compile, first_bad_from, lemma_all_compile_none_bad, reports};
use crate::config as to;
use crate::config::copy_text;
use crate::error::ConfigError;
use crate::github::{GithubAuth, RepoLocation};
use crate::model::Color;
use crate::pattern::{regex_compiles, regex_source};
use crate::pattern_list::PatternList;
use crate::text::only_at;

verus! {

/// A bin as it is written in the configuration.
#[derive(Debug, Clone)]
pub struct BinConfig {
    pub filter: String,
    pub order: Option<Vec<String>>,
    pub name: Option<String>,
    pub color: Option<String>,
    pub main_label: Option<String>,
}

/// The configuration as it is written.
#[derive(Debug, Clone)]
pub struct Config {
    /// The environment variable that holds the access token.
    pub auth_var: String,
    /// The repository, written `user/repo`.
    pub repo: String,
    pub bins: Vec<BinConfig>,
}

/// The list holds the patterns, compiled one by one.
pub open spec fn list_reflects<M>(sources: Seq<String>, patterns: Seq<(Regex, M)>) -> bool {
    &&& patterns.len() == sources.len()
    &&& forall|j: int|
        0 <= j < sources.len() ==> regex_source((#[trigger] patterns[j]).0) == sources[j]@
}

/// All patterns of the written bin compile.
pub open spec fn bin_valid(raw: BinConfig) -> bool {
    &&& regex_compiles(raw.filter@)
    &&& match raw.order {
        Some(sources) => all_compile(sources@),
        None => true,
    }
}

/// The pattern and the bin configuration are what the written bin says.
pub open spec fn bin_reflects(raw: BinConfig, bin: (Regex, to::BinConfig)) -> bool {
    &&& regex_source(bin.0) == raw.filter@
    &&& bin.1.name == raw.name
    &&& bin.1.main_label == raw.main_label
    &&& match raw.color {
        Some(color) => bin.1.color == Some(Color(color)),
        None => bin.1.color is None,
    }
    &&& match raw.order {
        Some(sources) => bin.1.sort matches Some(list) && list_reflects(sources@, list.patterns@),
        None => bin.1.sort is None,
    }
}

/// The first pattern of the written bin that does not compile: the filter
/// comes first, then the patterns of the order.
pub open spec fn bin_first_bad(raw: BinConfig) -> Option<Seq<char>> {
    if !regex_compiles(raw.filter@) {
        Some(raw.filter@)
    } else {
        match raw.order {
            Some(sources) => first_bad_from(sources@, 0),
            None => None,
        }
    }
}

/// The first pattern that does not compile among the written bins from
/// position `from` on.
pub open spec fn bins_first_bad(raw: Seq<BinConfig>, from: int) -> Option<Seq<char>>
    decreases raw.len() - from,
{
    if from < 0 || from >= raw.len() {
        None
    } else {
        match bin_first_bad(raw[from]) {
            Some(bad) => Some(bad),
            None => bins_first_bad(raw, from + 1),
        }
    }
}

/// All written bins are valid.
pub open spec fn bins_valid(raw: Seq<BinConfig>) -> bool {
    forall|j: int| 0 <= j < raw.len() ==> bin_valid(#[trigger] raw[j])
}

/// The repository is written with exactly one `/`.
pub open spec fn repo_valid(text: Seq<char>) -> bool {
    exists|at: int| #[trigger] only_at(text, '/', at)
}

/// Compiles a list of patterns into a pattern list without metadata, in
/// their order. The first pattern that does not compile is the error.
pub fn compile_list(sources: &Vec<String>) -> (out: Result<PatternList<()>, ConfigError>)
    ensures
        match out {
            Ok(list) => all_compile(sources@) && list_reflects(sources@, list.patterns@),
            Err(error) => !all_compile(sources@) && reports(error, first_bad_from(sources@, 0)),
        },
{
    let mut patterns: Vec<(Regex, ())> = Vec::new();
    let mut j: usize = 0;
    while j < sources.len()
        invariant
            j <= sources@.len(),
            patterns@.len() == j,
            first_bad_from(sources@, 0) == first_bad_from(sources@, j as int),
            forall|a: int| 0 <= a < j ==> regex_compiles(#[trigger] sources@[a]@),
            forall|a: int|
                0 <= a < j ==> regex_source((#[trigger] patterns@[a]).0) == sources@[a]@,
        decreases sources@.len() - j,
    {
        match compile(sources[j].as_str()) {
            Ok(regex) => {
                patterns.push((regex, ()));
            },
            Err(error) => {
                assert(!regex_compiles(sources@[j as int]@));
                return Err(error);
            },
        }
        j += 1;
    }
    Ok(PatternList { patterns })
}

/// Checks one written bin: compiles its filter and its order.
pub fn parse_bin(raw: &BinConfig) -> (out: Result<(Regex, to::BinConfig), ConfigError>)
    ensures
        match out {
            Ok(bin) => bin_valid(*raw) && bin_reflects(*raw, bin),
            Err(error) => !bin_valid(*raw) && reports(error, bin_first_bad(*raw)),
        },
{
    let filter = match compile(raw.filter.as_str()) {
        Ok(regex) => regex,
        Err(error) => {
            return Err(error);
        },
    };
    let sort = match &raw.order {
        Some(sources) => match compile_list(sources) {
            Ok(list) => {
                proof {
                    lemma_all_compile_none_bad(sources@, 0);
                }
                Some(list)
            },
            Err(error) => {
                return Err(error);
            },
        },
        None => None,
    };
    let color = match &raw.color {
        Some(color) => Some(Color(color.clone())),
        None => None,
    };
    Ok(
        (
            filter,
            to::BinConfig {
                name: copy_text(&raw.name),
                color,
                main_label: copy_text(&raw.main_label),
                sort,
            },
        ),
    )
}

/// Checks a written configuration. The access token is handed in: looking
/// it up is the caller's business.
///
/// The bins are checked first, in order, then the repository. The
/// configuration is accepted when every pattern compiles and the repository
/// is written `user/repo`.
pub fn parse_config(raw: &Config, token: String) -> (out: Result<to::Config, ConfigError>)
    ensures
        match out {
            Ok(config) => {
                &&& bins_valid(raw.bins@)
                &&& repo_valid(raw.repo@)
                &&& config.auth.token == token
                &&& config.bins.patterns@.len() == raw.bins@.len()
                &&& forall|j: int|
                    0 <= j < raw.bins@.len() ==> bin_reflects(
                        #[trigger] raw.bins@[j],
                        config.bins.patterns@[j],
                    )
                &&& exists|at: int|
                    {
                        &&& #[trigger] only_at(raw.repo@, '/', at)
                        &&& config.repo.user@ == raw.repo@.subrange(0, at)
                        &&& config.repo.repo@ == raw.repo@.subrange(at + 1, raw.repo@.len() as int)
                    }
            },
            Err(ConfigError::InvalidPattern { source, .. }) => !bins_valid(raw.bins@)
                && !regex_compiles(source@) && bins_first_bad(raw.bins@, 0) == Some(source@),
            Err(ConfigError::InvalidRepo { source }) => bins_valid(raw.bins@) && !repo_valid(
                raw.repo@,
            ) && source@ == raw.repo@,
        },
{
    let mut patterns: Vec<(Regex, to::BinConfig)> = Vec::new();
    let mut j: usize = 0;
    while j < raw.bins.len()
        invariant
            j <= raw.bins@.len(),
            patterns@.len() == j,
            bins_first_bad(raw.bins@, 0) == bins_first_bad(raw.bins@, j as int),
            forall|a: int| 0 <= a < j ==> bin_valid(#[trigger] raw.bins@[a]),
            forall|a: int| 0 <= a < j ==> bin_reflects(#[trigger] raw.bins@[a], patterns@[a]),
        decreases raw.bins@.len() - j,
    {
        match parse_bin(&raw.bins[j]) {
            Ok(bin) => {
                proof {
                    match raw.bins@[j as int].order {
                        Some(sources) => {
                            lemma_all_compile_none_bad(sources@, 0);
                        },
                        None => {},
                    }
                }
                patterns.push(bin);
            },
            Err(error) => {
                assert(!bin_valid(raw.bins@[j as int]));
                return Err(error);
            },
        }
        j += 1;
    }
    match RepoLocation::parse(raw.repo.as_str()) {
        Ok(repo) => Ok(to::Config { auth: GithubAuth::new(token), repo, bins: PatternList { patterns } }),
        Err(error) => Err(error),
    }
}

} // verus!
