//! From the configuration as it is written to the scope that the engine
//! takes: every pattern is compiled here, and a pattern that does not
//! compile rejects the configuration.

use vstd::prelude::*;
use regex::Regex;
use crate::error::ConfigError;
use crate::github::RepoLocation;
use crate::text::only_at;
use crate::organize::{FilterSort, OrganizeScope, PatternSequence, SortTarget};
use crate::pattern::{regex_as_str, regex_compiles, regex_new, regex_source};

verus! {

/// The configuration file as it is written.
#[derive(Debug)]
pub struct ConfigFile {
    /// The environment variable that holds the access token.
    pub auth_var: String,
    /// The repository, written `user/repo`.
    pub repo: String,
    pub organize: Vec<OrganizeScopeElem>,
}

/// One entry of a scope as it is written.
#[derive(Debug)]
pub struct OrganizeScopeElem {
    /// The filter; where it is left out, every item is admitted.
    pub filter: Option<String>,
    /// The patterns by which the admitted items are ranked.
    pub order: Option<Vec<String>>,
    pub target: Target,
}

/// What an entry does with the items it admits, as it is written.
#[derive(Debug)]
pub enum Target {
    Bin(Bin),
    /// A nested scope of one entry.
    SubScope1(Box<OrganizeScopeElem>),
    /// A nested scope of several entries.
    SubScopeN(Vec<OrganizeScopeElem>),
}

/// The word `bin` in a configuration.
#[derive(Debug, Clone, Default)]
pub struct Bin;

/// The filter of an entry that names none: it admits everything.
pub open spec fn any_text() -> Seq<char> {
    ".*"@
}

/// The filter of an entry as a pattern string.
pub open spec fn filter_source(elem: OrganizeScopeElem) -> Seq<char> {
    match elem.filter {
        Some(source) => source@,
        None => any_text(),
    }
}

/// Every pattern of the list compiles.
pub open spec fn all_compile(sources: Seq<String>) -> bool {
    forall|j: int| 0 <= j < sources.len() ==> regex_compiles(#[trigger] sources[j]@)
}

/// The sequence is the list of patterns, compiled one by one.
pub open spec fn sequence_reflects(sources: Seq<String>, patterns: Seq<Regex>) -> bool {
    &&& patterns.len() == sources.len()
    &&& forall|j: int|
        0 <= j < sources.len() ==> regex_source(#[trigger] patterns[j]) == sources[j]@
}

/// Every pattern of the entry compiles, and so do those of the entries
/// nested in it.
pub open spec fn elem_valid(elem: OrganizeScopeElem) -> bool
    decreases elem,
{
    &&& regex_compiles(filter_source(elem))
    &&& match elem.order {
        Some(sources) => all_compile(sources@),
        None => true,
    }
    &&& match elem.target {
        Target::Bin(_) => true,
        Target::SubScope1(inner) => elem_valid(*inner),
        Target::SubScopeN(list) => forall|j: int|
            0 <= j < list@.len() ==> elem_valid(#[trigger] list@[j]),
    }
}

/// Every entry of the list is valid.
pub open spec fn elems_valid(elems: Seq<OrganizeScopeElem>) -> bool {
    forall|j: int| 0 <= j < elems.len() ==> elem_valid(#[trigger] elems[j])
}

/// The target is what the entry says: its filter and its sorter are the
/// entry's patterns, compiled, and it ends in a bin or a nested scope as the
/// entry does.
pub open spec fn entry_reflects(elem: OrganizeScopeElem, entry: (FilterSort, SortTarget)) -> bool
    decreases elem,
{
    &&& regex_source(entry.0.filter) == filter_source(elem)
    &&& match elem.order {
        Some(sources) => entry.0.sorter matches Some(sequence) && sequence_reflects(
            sources@,
            sequence.patterns@,
        ),
        None => entry.0.sorter is None,
    }
    &&& match elem.target {
        Target::Bin(_) => entry.1 is Bin,
        Target::SubScope1(inner) => entry.1 matches SortTarget::Recurse(scope)
            && scope.targets@.len() == 1 && entry_reflects(*inner, scope.targets@[0]),
        Target::SubScopeN(list) => entry.1 matches SortTarget::Recurse(scope)
            && scope.targets@.len() == list@.len() && forall|j: int|
            0 <= j < list@.len() ==> entry_reflects(#[trigger] list@[j], scope.targets@[j]),
    }
}

/// The scope is what the entries say, entry by entry.
pub open spec fn scope_reflects(elems: Seq<OrganizeScopeElem>, scope: OrganizeScope) -> bool {
    &&& scope.targets@.len() == elems.len()
    &&& forall|j: int|
        0 <= j < elems.len() ==> entry_reflects(#[trigger] elems[j], scope.targets@[j])
}

/// The first pattern of the list, from position `from` on, that does not
/// compile.
pub open spec fn first_bad_from(sources: Seq<String>, from: int) -> Option<Seq<char>>
    decreases sources.len() - from,
{
    if from < 0 || from >= sources.len() {
        None
    } else if !regex_compiles(sources[from]@) {
        Some(sources[from]@)
    } else {
        first_bad_from(sources, from + 1)
    }
}

/// The first pattern of the entry that does not compile: the filter comes
/// first, then the patterns of the order, then what is nested.
pub open spec fn elem_first_bad(elem: OrganizeScopeElem) -> Option<Seq<char>>
    decreases elem, 0int,
{
    if !regex_compiles(filter_source(elem)) {
        Some(filter_source(elem))
    } else {
        let in_order = match elem.order {
            Some(sources) => first_bad_from(sources@, 0),
            None => None,
        };
        if in_order is Some {
            in_order
        } else {
            match elem.target {
                Target::Bin(_) => None,
                Target::SubScope1(inner) => elem_first_bad(*inner),
                Target::SubScopeN(list) => elems_first_bad(list@, 0),
            }
        }
    }
}

/// The first pattern that does not compile among the entries from position
/// `from` on.
pub open spec fn elems_first_bad(elems: Seq<OrganizeScopeElem>, from: int) -> Option<Seq<char>>
    decreases elems, elems.len() - from,
{
    if from < 0 || from >= elems.len() {
        None
    } else {
        match elem_first_bad(elems[from]) {
            Some(bad) => Some(bad),
            None => elems_first_bad(elems, from + 1),
        }
    }
}

/// The error is that of the pattern `bad`, which does not compile.
pub open spec fn reports(error: ConfigError, bad: Option<Seq<char>>) -> bool {
    error matches ConfigError::InvalidPattern { source, .. } && bad == Some(source@)
        && !regex_compiles(source@)
}

/// Where all patterns compile there is no first that does not.
pub proof fn lemma_all_compile_none_bad(sources: Seq<String>, from: int)
    requires
        all_compile(sources),
        0 <= from,
    ensures
        first_bad_from(sources, from) is None,
    decreases sources.len() - from,
{
    if from < sources.len() {
        assert(regex_compiles(sources[from]@));
        lemma_all_compile_none_bad(sources, from + 1);
    }
}

/// A valid entry has no pattern that does not compile.
pub proof fn lemma_valid_none_bad(elem: OrganizeScopeElem)
    requires
        elem_valid(elem),
    ensures
        elem_first_bad(elem) is None,
    decreases elem, 0int,
{
    match elem.order {
        Some(sources) => {
            lemma_all_compile_none_bad(sources@, 0);
        },
        None => {},
    }
    match elem.target {
        Target::Bin(_) => {},
        Target::SubScope1(inner) => {
            lemma_valid_none_bad(*inner);
        },
        Target::SubScopeN(list) => {
            lemma_valid_list_none_bad(list@, 0);
        },
    }
}

/// Valid entries have no pattern that does not compile.
pub proof fn lemma_valid_list_none_bad(elems: Seq<OrganizeScopeElem>, from: int)
    requires
        elems_valid(elems),
        0 <= from,
    ensures
        elems_first_bad(elems, from) is None,
    decreases elems, elems.len() - from,
{
    if from < elems.len() {
        assert(elem_valid(elems[from]));
        lemma_valid_none_bad(elems[from]);
        lemma_valid_list_none_bad(elems, from + 1);
    }
}

/// Compiles one pattern. The error keeps the pattern as it was written
/// and what the `regex` crate said of it.
pub fn compile(source: &str) -> (out: Result<Regex, ConfigError>)
    ensures
        match out {
            Ok(regex) => regex_compiles(source@) && regex_source(regex) == source@,
            Err(ConfigError::InvalidPattern { source: kept, .. }) => !regex_compiles(source@)
                && kept@ == source@,
            Err(_) => false,
        },
{
    match regex_new(source) {
        Ok(regex) => Ok(regex),
        Err(error) => Err(ConfigError::InvalidPattern { source: source.to_owned(), error }),
    }
}

/// Compiles a list of patterns into a sequence, in their order. The first
/// pattern that does not compile is the error.
pub fn compile_sequence(sources: &Vec<String>) -> (out: Result<PatternSequence, ConfigError>)
    ensures
        match out {
            Ok(sequence) => all_compile(sources@) && sequence_reflects(
                sources@,
                sequence.patterns@,
            ),
            Err(error) => !all_compile(sources@) && reports(error, first_bad_from(sources@, 0)),
        },
{
    let mut patterns: Vec<Regex> = Vec::new();
    let mut j: usize = 0;
    while j < sources.len()
        invariant
            j <= sources@.len(),
            first_bad_from(sources@, 0) == first_bad_from(sources@, j as int),
            all_compile(sources@.take(j as int)),
            sequence_reflects(sources@.take(j as int), patterns@),
        decreases sources@.len() - j,
    {
        match compile(sources[j].as_str()) {
            Ok(regex) => {
                patterns.push(regex);
            },
            Err(error) => {
                assert(!regex_compiles(sources@[j as int]@));
                return Err(error);
            },
        }
        proof {
            assert forall|a: int| 0 <= a < j + 1 implies regex_compiles(
                #[trigger] sources@.take(j + 1)[a]@,
            ) by {
                if a < j {
                    assert(sources@.take(j as int)[a] == sources@[a]);
                }
            }
            assert forall|a: int| 0 <= a < j + 1 implies regex_source(#[trigger] patterns@[a])
                == sources@.take(j + 1)[a]@ by {
                if a < j {
                    assert(sources@.take(j as int)[a] == sources@[a]);
                }
            }
        }
        j += 1;
    }
    proof {
        assert(sources@.take(sources@.len() as int) =~= sources@);
    }
    Ok(PatternSequence { patterns })
}

/// The patterns of a sequence as they were written, in order: what
/// `compile_sequence` was given.
pub fn sequence_sources(sequence: &PatternSequence) -> (out: Vec<String>)
    ensures
        sequence_reflects(out@, sequence.patterns@),
{
    let mut out: Vec<String> = Vec::new();
    let mut j: usize = 0;
    while j < sequence.patterns.len()
        invariant
            j <= sequence.patterns@.len(),
            out@.len() == j,
            forall|a: int|
                0 <= a < j ==> regex_source(#[trigger] sequence.patterns@[a]) == out@[a]@,
        decreases sequence.patterns@.len() - j,
    {
        out.push(regex_as_str(&sequence.patterns[j]).to_owned());
        j += 1;
    }
    out
}

/// Turns one written entry into a target of a scope.
///
/// The entry is accepted when all its patterns compile, those of the
/// entries nested in it included. A nested scope of one entry becomes a
/// scope with one target.
pub fn parse_elem(elem: &OrganizeScopeElem) -> (out: Result<(FilterSort, SortTarget), ConfigError>)
    ensures
        match out {
            Ok(entry) => elem_valid(*elem) && entry_reflects(*elem, entry),
            Err(error) => !elem_valid(*elem) && reports(error, elem_first_bad(*elem)),
        },
    decreases elem, 0int,
{
    let filter = match &elem.filter {
        Some(source) => compile(source.as_str()),
        None => compile(".*"),
    };
    let filter = match filter {
        Ok(regex) => regex,
        Err(error) => {
            return Err(error);
        },
    };
    let sorter = match &elem.order {
        Some(sources) => match compile_sequence(sources) {
            Ok(sequence) => {
                proof {
                    lemma_all_compile_none_bad(sources@, 0);
                }
                Some(sequence)
            },
            Err(error) => {
                return Err(error);
            },
        },
        None => None,
    };
    let target = match &elem.target {
        Target::Bin(_) => SortTarget::Bin,
        Target::SubScope1(inner) => match parse_elem(inner) {
            Ok(entry) => {
                let mut targets: Vec<(FilterSort, SortTarget)> = Vec::new();
                targets.push(entry);
                SortTarget::Recurse(OrganizeScope { targets })
            },
            Err(error) => {
                return Err(error);
            },
        },
        Target::SubScopeN(list) => match parse_scope(list) {
            Ok(scope) => SortTarget::Recurse(scope),
            Err(error) => {
                proof {
                    let j = choose|j: int| 0 <= j < list@.len() && !elem_valid(#[trigger] list@[j]);
                    assert(!elem_valid(list@[j]));
                }
                return Err(error);
            },
        },
    };
    Ok((FilterSort { filter, sorter }, target))
}

/// Turns a written list of entries into a scope, entry by entry.
///
/// The list is accepted when every entry is; the error is that of a pattern
/// that does not compile.
pub fn parse_scope(elems: &Vec<OrganizeScopeElem>) -> (out: Result<OrganizeScope, ConfigError>)
    ensures
        match out {
            Ok(scope) => elems_valid(elems@) && scope_reflects(elems@, scope),
            Err(error) => !elems_valid(elems@) && reports(error, elems_first_bad(elems@, 0)),
        },
    decreases elems, 1int,
{
    let mut targets: Vec<(FilterSort, SortTarget)> = Vec::new();
    let mut j: usize = 0;
    while j < elems.len()
        invariant
            j <= elems@.len(),
            targets@.len() == j,
            elems_first_bad(elems@, 0) == elems_first_bad(elems@, j as int),
            forall|a: int| 0 <= a < j ==> elem_valid(#[trigger] elems@[a]),
            forall|a: int| 0 <= a < j ==> entry_reflects(#[trigger] elems@[a], targets@[a]),
        decreases elems@.len() - j,
    {
        match parse_elem(&elems[j]) {
            Ok(entry) => {
                proof {
                    lemma_valid_none_bad(elems@[j as int]);
                }
                targets.push(entry);
            },
            Err(error) => {
                assert(!elem_valid(elems@[j as int]));
                return Err(error);
            },
        }
        j += 1;
    }
    Ok(OrganizeScope { targets })
}

/// A type that is read from a written form `T`, or rejected.
pub trait ParseCfg<T>: Sized {
    /// Whether `out` is what reading `old` gives.
    spec fn parses(old: T, out: Result<Self, ConfigError>) -> bool;

    fn parse_cfg(old: T) -> (out: Result<Self, ConfigError>)
        ensures
            Self::parses(old, out),
    ;
}

/// The same reading, called on the written form.
pub trait CfgParse<T>: Sized {
    fn cfg_parse(self) -> Result<T, ConfigError>;
}

impl<A, B: ParseCfg<A>> CfgParse<B> for A {
    fn cfg_parse(self) -> (out: Result<B, ConfigError>)
        ensures
            B::parses(self, out),
    {
        B::parse_cfg(self)
    }
}

/// An optional written form is read where it is there.
impl<A, B: ParseCfg<A>> ParseCfg<Option<A>> for Option<B> {
    open spec fn parses(old: Option<A>, out: Result<Self, ConfigError>) -> bool {
        match old {
            Some(inner) => match out {
                Ok(Some(read)) => B::parses(inner, Ok(read)),
                Ok(None) => false,
                Err(error) => B::parses(inner, Err(error)),
            },
            None => out matches Ok(None),
        }
    }

    fn parse_cfg(old: Option<A>) -> (out: Result<Self, ConfigError>) {
        match old {
            Some(inner) => match B::parse_cfg(inner) {
                Ok(read) => Ok(Some(read)),
                Err(error) => Err(error),
            },
            None => Ok(None),
        }
    }
}

/// The written form can be read.
pub open spec fn accepted<A, B: ParseCfg<A>>(old: A) -> bool {
    exists|read: B| #[trigger] B::parses(old, Ok(read))
}

/// Each of the first `j` written forms can be read.
pub open spec fn accepted_before<A, B: ParseCfg<A>>(old: Seq<A>, j: int) -> bool {
    forall|i: int| 0 <= i < j ==> #[trigger] accepted::<A, B>(old[i])
}

/// A list of written forms is read one by one, in order; the first that is
/// rejected rejects the list.
impl<A, B: ParseCfg<A>> ParseCfg<Vec<A>> for Vec<B> {
    open spec fn parses(old: Vec<A>, out: Result<Self, ConfigError>) -> bool {
        match out {
            Ok(read) => read@.len() == old@.len() && forall|j: int|
                0 <= j < old@.len() ==> B::parses(old@[j], Ok(#[trigger] read@[j])),
            Err(error) => exists|j: int|
                {
                    &&& 0 <= j < old@.len()
                    &&& B::parses(#[trigger] old@[j], Err(error))
                    &&& accepted_before::<A, B>(old@, j)
                },
        }
    }

    fn parse_cfg(old: Vec<A>) -> (out: Result<Self, ConfigError>) {
        let ghost given = old@;
        let mut rest = old;
        let mut stack: Vec<A> = Vec::new();
        while rest.len() > 0
            invariant
                rest@.len() + stack@.len() == given.len(),
                forall|j: int| 0 <= j < rest@.len() ==> rest@[j] == given[j],
                forall|j: int|
                    0 <= j < stack@.len() ==> stack@[j] == given[given.len() - 1 - j],
            decreases rest@.len(),
        {
            match rest.pop() {
                Some(elem) => {
                    stack.push(elem);
                },
                None => {},
            }
        }
        let mut new: Vec<B> = Vec::new();
        while stack.len() > 0
            invariant
                given == old@,
                new@.len() + stack@.len() == given.len(),
                forall|j: int|
                    0 <= j < stack@.len() ==> stack@[j] == given[given.len() - 1 - j],
                forall|j: int| 0 <= j < new@.len() ==> B::parses(given[j], Ok(#[trigger] new@[j])),
            decreases stack@.len(),
        {
            let ghost at = new@.len() as int;
            match stack.pop() {
                Some(elem) => {
                    assert(elem == given[at]);
                    match B::parse_cfg(elem) {
                        Ok(read) => {
                            new.push(read);
                        },
                        Err(error) => {
                            proof {
                                assert(B::parses(old@[at], Err(error)));
                                assert forall|i: int| 0 <= i < at implies #[trigger] accepted::<
                                    A,
                                    B,
                                >(old@[i]) by {
                                    assert(B::parses(old@[i], Ok(new@[i])));
                                }
                            }
                            return Err(error);
                        },
                    }
                },
                None => {},
            }
        }
        Ok(new)
    }
}

impl<'a> ParseCfg<&'a str> for RepoLocation {
    open spec fn parses(old: &'a str, out: Result<Self, ConfigError>) -> bool {
        match out {
            Ok(location) => exists|at: int|
                {
                    &&& #[trigger] only_at(old@, '/', at)
                    &&& location.user@ == old@.subrange(0, at)
                    &&& location.repo@ == old@.subrange(at + 1, old@.len() as int)
                },
            Err(ConfigError::InvalidRepo { source }) => source@ == old@ && forall|at: int|
                !#[trigger] only_at(old@, '/', at),
            Err(_) => false,
        }
    }

    fn parse_cfg(old: &'a str) -> (out: Result<Self, ConfigError>) {
        RepoLocation::parse(old)
    }
}

impl<'a> ParseCfg<&'a str> for Regex {
    open spec fn parses(old: &'a str, out: Result<Self, ConfigError>) -> bool {
        match out {
            Ok(regex) => regex_compiles(old@) && regex_source(regex) == old@,
            Err(ConfigError::InvalidPattern { source: kept, .. }) => !regex_compiles(old@)
                && kept@ == old@,
            Err(_) => false,
        }
    }

    fn parse_cfg(old: &'a str) -> (out: Result<Self, ConfigError>) {
        compile(old)
    }
}

impl ParseCfg<Vec<String>> for PatternSequence {
    open spec fn parses(old: Vec<String>, out: Result<Self, ConfigError>) -> bool {
        match out {
            Ok(sequence) => all_compile(old@) && sequence_reflects(old@, sequence.patterns@),
            Err(error) => !all_compile(old@) && reports(error, first_bad_from(old@, 0)),
        }
    }

    fn parse_cfg(old: Vec<String>) -> (out: Result<Self, ConfigError>) {
        compile_sequence(&old)
    }
}

impl ParseCfg<OrganizeScopeElem> for (FilterSort, SortTarget) {
    open spec fn parses(old: OrganizeScopeElem, out: Result<Self, ConfigError>) -> bool {
        match out {
            Ok(entry) => elem_valid(old) && entry_reflects(old, entry),
            Err(error) => !elem_valid(old) && reports(error, elem_first_bad(old)),
        }
    }

    fn parse_cfg(old: OrganizeScopeElem) -> (out: Result<Self, ConfigError>) {
        parse_elem(&old)
    }
}

impl ParseCfg<Vec<OrganizeScopeElem>> for OrganizeScope {
    open spec fn parses(old: Vec<OrganizeScopeElem>, out: Result<Self, ConfigError>) -> bool {
        match out {
            Ok(scope) => elems_valid(old@) && scope_reflects(old@, scope),
            Err(error) => !elems_valid(old@) && reports(error, elems_first_bad(old@, 0)),
        }
    }

    fn parse_cfg(old: Vec<OrganizeScopeElem>) -> (out: Result<Self, ConfigError>) {
        parse_scope(&old)
    }
}

} // verus!
