//! What is shown of a repository: its issues, sorted into the configured
//! bins.

use vstd::prelude::*;
use crate::config::{BinConfig, copy_text};
use crate::model::{BinSummary, IssueSummary, Label};
use crate::pattern_list::{PatternList, bin_of, lemma_remainder_in_range, regexes, remainder};
use crate::sort::{
    hits,
    in_range,
    lemma_buckets_in_range,
    lemma_filter_in_range,
    positions,
    ranking,
};

verus! {

/// The bins of a repository, as they are shown.
pub struct RepoProfile {
    pub issue_bins: Vec<BinSummary>,
}

/// The first label of the list, from position `from` on, that has the name.
pub open spec fn first_label_from(labels: Seq<Label>, name: Seq<char>, from: int) -> Option<Label>
    decreases labels.len() - from,
{
    if from < 0 || from >= labels.len() {
        None
    } else if labels[from].name@ == name {
        Some(labels[from])
    } else {
        first_label_from(labels, name, from + 1)
    }
}

/// The first label with the name among the issues from position `from` on:
/// issues in their order, and the labels of one issue in theirs.
pub open spec fn first_label(issues: Seq<IssueSummary>, name: Seq<char>, from: int) -> Option<Label>
    decreases issues.len() - from,
{
    if from < 0 || from >= issues.len() {
        None
    } else {
        match first_label_from(issues[from].labels@, name, 0) {
            Some(label) => Some(label),
            None => first_label(issues, name, from + 1),
        }
    }
}

/// The first label of one issue that has the name.
fn find_label_in(labels: &Vec<Label>, name: &String) -> (out: Option<Label>)
    ensures
        out == first_label_from(labels@, name@, 0),
{
    let mut j: usize = 0;
    while j < labels.len()
        invariant
            j <= labels@.len(),
            first_label_from(labels@, name@, 0) == first_label_from(labels@, name@, j as int),
        decreases labels@.len() - j,
    {
        if labels[j].name == *name {
            return Some(labels[j].duplicate());
        }
        j += 1;
    }
    None
}

/// Looks a label up by its name: the first label with that name that any
/// of the issues carries.
pub fn find_label(issues: &[IssueSummary], name: &str) -> (out: Option<Label>)
    ensures
        out == first_label(issues@, name@, 0),
{
    let wanted: String = name.to_owned();
    let mut j: usize = 0;
    while j < issues.len()
        invariant
            j <= issues@.len(),
            wanted@ == name@,
            first_label(issues@, name@, 0) == first_label(issues@, name@, j as int),
        decreases issues@.len() - j,
    {
        match find_label_in(&issues[j].labels, &wanted) {
            Some(label) => {
                return Some(label);
            },
            None => {},
        }
        j += 1;
    }
    None
}

/// The issues of the summary are those at the given positions, in that
/// order.
pub open spec fn shows(shown: Seq<IssueSummary>, issues: Seq<IssueSummary>, pool: Seq<usize>) -> bool {
    &&& shown.len() == pool.len()
    &&& forall|j: int| 0 <= j < pool.len() ==> (#[trigger] shown[j]).same_as(&issues[pool[j] as int])
}

/// The issues at the given positions, copied, in that order.
pub fn pick(issues: &[IssueSummary], pool: &Vec<usize>) -> (out: Vec<IssueSummary>)
    requires
        in_range(pool@, issues@.len()),
    ensures
        shows(out@, issues@, pool@),
{
    let mut out: Vec<IssueSummary> = Vec::new();
    let mut j: usize = 0;
    while j < pool.len()
        invariant
            j <= pool@.len(),
            in_range(pool@, issues@.len()),
            out@.len() == j,
            forall|a: int| 0 <= a < j ==> (#[trigger] out@[a]).same_as(&issues@[pool@[a] as int]),
        decreases pool@.len() - j,
    {
        out.push(issues[pool[j]].duplicate());
        j += 1;
    }
    out
}

/// The order in which a bin shows the issues it was given: that of its
/// sorter where it has one.
pub open spec fn shown_order(config: BinConfig, issues: Seq<IssueSummary>, pool: Seq<usize>) -> Seq<
    usize,
> {
    match config.sort {
        Some(list) => ranking(issues, regexes(list.patterns@), pool),
        None => pool,
    }
}

/// The label that stands for the bin: the first label among all the issues
/// that has the configured name.
pub open spec fn shown_label(config: BinConfig, issues: Seq<IssueSummary>) -> Option<Label> {
    match config.main_label {
        Some(name) => first_label(issues, name@, 0),
        None => None,
    }
}

/// The summary is that of the configured bin `k`.
pub open spec fn summary_of_bin(
    summary: BinSummary,
    bins: PatternList<BinConfig>,
    issues: Seq<IssueSummary>,
    k: int,
) -> bool {
    let config = bins.patterns@[k].1;
    let pool = bin_of(regexes(bins.patterns@), issues, positions(issues.len()), false, k);
    &&& summary.name == config.name
    &&& summary.color == config.color
    &&& summary.main_label == shown_label(config, issues)
    &&& !summary.is_overflow
    &&& shows(summary.issues@, issues, shown_order(config, issues, pool))
}

/// The summary is that of the overflow: the issues that no bin took.
pub open spec fn summary_of_overflow(
    summary: BinSummary,
    bins: PatternList<BinConfig>,
    issues: Seq<IssueSummary>,
) -> bool {
    &&& summary.name is None
    &&& summary.color is None
    &&& summary.main_label is None
    &&& summary.is_overflow
    &&& shows(
        summary.issues@,
        issues,
        remainder(regexes(bins.patterns@), issues, positions(issues.len()), bins.patterns@.len()),
    )
}

/// The profile shows the issues in the configured bins: a summary for each
/// bin, in order, and the overflow as the last.
pub open spec fn profile_of(
    profile: RepoProfile,
    bins: PatternList<BinConfig>,
    issues: Seq<IssueSummary>,
) -> bool {
    &&& profile.issue_bins@.len() == bins.patterns@.len() + 1
    &&& forall|k: int|
        0 <= k < bins.patterns@.len() ==> summary_of_bin(
            #[trigger] profile.issue_bins@[k],
            bins,
            issues,
            k,
        )
    &&& summary_of_overflow(profile.issue_bins@[bins.patterns@.len() as int], bins, issues)
}

impl RepoProfile {
    /// Sorts the issues into the configured bins. An issue goes into the
    /// first bin whose filter matches one of its labels; within a bin the
    /// issues are in the order of the bin's sorter. The issues that no bin
    /// took are the overflow, the last summary.
    pub fn build(bins: &PatternList<BinConfig>, issues: &[IssueSummary]) -> (out: RepoProfile)
        ensures
            profile_of(out, *bins, issues@),
    {
        let binned = bins.bin(issues, false);
        let ghost filters = regexes(bins.patterns@);
        let ghost all = positions(issues@.len());
        let mut issue_bins: Vec<BinSummary> = Vec::new();
        let mut k: usize = 0;
        proof {
            assert(in_range(all, issues@.len()));
            lemma_remainder_in_range(filters, issues@, all, bins.patterns@.len());
        }
        while k < binned.bins.len()
            invariant
                k <= binned.bins@.len(),
                binned.bins@.len() == bins.patterns@.len(),
                filters == regexes(bins.patterns@),
                all == positions(issues@.len()),
                in_range(all, issues@.len()),
                forall|j: int|
                    0 <= j < bins.patterns@.len() ==> (#[trigger] binned.bins@[j]).0@ == bin_of(
                        filters,
                        issues@,
                        all,
                        false,
                        j,
                    ) && *binned.bins@[j].1 == bins.patterns@[j].1,
                issue_bins@.len() == k,
                forall|j: int|
                    0 <= j < k ==> summary_of_bin(#[trigger] issue_bins@[j], *bins, issues@, j),
            decreases binned.bins@.len() - k,
        {
            let pool = &binned.bins[k].0;
            let config: &BinConfig = binned.bins[k].1;
            proof {
                lemma_remainder_in_range(filters, issues@, all, k as nat);
                lemma_filter_in_range(
                    remainder(filters, issues@, all, k as nat),
                    hits(issues@, filters[k as int]),
                    issues@.len(),
                );
            }
            let shown = match &config.sort {
                Some(list) => {
                    let order = list.sort_pool(issues, pool);
                    proof {
                        lemma_buckets_in_range(
                            issues@,
                            regexes(list.patterns@),
                            pool@,
                            regexes(list.patterns@).len() + 1,
                        );
                    }
                    pick(issues, &order)
                },
                None => pick(issues, pool),
            };
            let main_label = match &config.main_label {
                Some(name) => find_label(issues, name.as_str()),
                None => None,
            };
            let color = match &config.color {
                Some(color) => Some(color.duplicate()),
                None => None,
            };
            issue_bins.push(
                BinSummary {
                    name: copy_text(&config.name),
                    color,
                    main_label,
                    issues: shown,
                    is_overflow: false,
                },
            );
            k += 1;
        }
        let rest = pick(issues, &binned.overflow);
        issue_bins.push(
            BinSummary { name: None, color: None, main_label: None, issues: rest, is_overflow: true },
        );
        RepoProfile { issue_bins }
    }
}

/// What is known of a repository: its issues, and for each configured
/// profile the bins it shows them in.
pub struct Repo {
    pub issues: Vec<IssueSummary>,
    pub repo_profiles: Vec<RepoProfile>,
}

impl Repo {
    /// Builds every profile over the issues, in the order of the profiles.
    pub fn build(profiles: &Vec<PatternList<BinConfig>>, issues: Vec<IssueSummary>) -> (out: Repo)
        ensures
            out.issues == issues,
            out.repo_profiles@.len() == profiles@.len(),
            forall|p: int|
                0 <= p < profiles@.len() ==> profile_of(
                    #[trigger] out.repo_profiles@[p],
                    profiles@[p],
                    issues@,
                ),
    {
        let mut repo_profiles: Vec<RepoProfile> = Vec::new();
        let mut p: usize = 0;
        while p < profiles.len()
            invariant
                p <= profiles@.len(),
                repo_profiles@.len() == p,
                forall|a: int|
                    0 <= a < p ==> profile_of(#[trigger] repo_profiles@[a], profiles@[a], issues@),
            decreases profiles@.len() - p,
        {
            repo_profiles.push(RepoProfile::build(&profiles[p], issues.as_slice()));
            p += 1;
        }
        Repo { issues, repo_profiles }
    }
}

/// The position of the first name of the list, from `from` on, that is the
/// wanted one.
pub open spec fn first_named(names: Seq<String>, wanted: Seq<char>, from: int) -> Option<usize>
    decreases names.len() - from,
{
    if from < 0 || from >= names.len() {
        None
    } else if names[from]@ == wanted {
        Some(from as usize)
    } else {
        first_named(names, wanted, from + 1)
    }
}

/// Looks a profile up by its name: the position of the first profile of
/// that name.
pub fn find_profile(names: &Vec<String>, wanted: &str) -> (out: Option<usize>)
    ensures
        out == first_named(names@, wanted@, 0),
{
    let name: String = wanted.to_owned();
    let mut j: usize = 0;
    while j < names.len()
        invariant
            j <= names@.len(),
            name@ == wanted@,
            first_named(names@, wanted@, 0) == first_named(names@, wanted@, j as int),
        decreases names@.len() - j,
    {
        if names[j] == name {
            return Some(j);
        }
        j += 1;
    }
    None
}

} // verus!
