//! The issue as the engine and the front end see it, and the bins that are
//! shown.

use vstd::prelude::*;
use regex::Regex;
use crate::pattern::{regex_accepts, regex_is_match};
use crate::sort::RegexMatch;

verus! {

/// A valid CSS color, pound sign included.
#[derive(Clone, Debug, PartialEq)]
pub struct Color(pub String);

/// A label of an issue.
#[derive(Clone, Debug, PartialEq)]
pub struct Label {
    pub name: String,
    pub color: Color,
}

/// Who created an issue.
#[derive(Clone, Debug, PartialEq)]
pub struct User {
    pub id: u64,
    pub name: String,
    pub icon_url: String,
    pub hyperlink: String,
}

/// An issue as it is organized and shown.
#[derive(Clone, Debug, PartialEq)]
pub struct IssueSummary {
    pub number: u64,
    pub hyperlink: String,
    pub title: String,
    pub labels: Vec<Label>,
    pub creator: User,
}

/// A bin as it is shown: what the configuration says of it, and its issues.
#[derive(Clone, Debug, PartialEq)]
pub struct BinSummary {
    pub name: Option<String>,
    pub color: Option<Color>,
    pub main_label: Option<Label>,
    pub issues: Vec<IssueSummary>,
    pub is_overflow: bool,
}

/// A text is a member of the group that an expression describes when the
/// expression matches it.
impl RegexMatch for String {
    open spec fn matches(&self, regex: Regex) -> bool {
        regex_accepts(regex, self@)
    }

    fn is_match(&self, regex: &Regex) -> (b: bool) {
        regex_is_match(regex, self.as_str())
    }
}

/// An item given as its tags is a member when the expression matches one
/// of them.
impl RegexMatch for Vec<String> {
    open spec fn matches(&self, regex: Regex) -> bool {
        exists|j: int| 0 <= j < self@.len() && regex_accepts(regex, (#[trigger] self@[j])@)
    }

    fn is_match(&self, regex: &Regex) -> (b: bool) {
        let mut j: usize = 0;
        while j < self.len()
            invariant
                j <= self@.len(),
                forall|a: int| 0 <= a < j ==> !regex_accepts(*regex, (#[trigger] self@[a])@),
            decreases self@.len() - j,
        {
            if regex_is_match(regex, self[j].as_str()) {
                return true;
            }
            j += 1;
        }
        false
    }
}

/// A label is matched by its name.
impl RegexMatch for Label {
    open spec fn matches(&self, regex: Regex) -> bool {
        regex_accepts(regex, self.name@)
    }

    fn is_match(&self, regex: &Regex) -> (b: bool) {
        regex_is_match(regex, self.name.as_str())
    }
}

/// An issue is a member when the expression matches the name of one of its
/// labels.
impl RegexMatch for IssueSummary {
    open spec fn matches(&self, regex: Regex) -> bool {
        exists|j: int| 0 <= j < self.labels@.len() && (#[trigger] self.labels@[j]).matches(regex)
    }

    fn is_match(&self, regex: &Regex) -> (b: bool) {
        let mut j: usize = 0;
        while j < self.labels.len()
            invariant
                j <= self.labels@.len(),
                forall|a: int| 0 <= a < j ==> !(#[trigger] self.labels@[a]).matches(*regex),
            decreases self.labels@.len() - j,
        {
            if self.labels[j].is_match(regex) {
                return true;
            }
            j += 1;
        }
        false
    }
}

impl Color {
    /// A color equal to this one.
    pub fn duplicate(&self) -> (out: Color)
        ensures
            out == *self,
    {
        Color(self.0.clone())
    }
}

impl Label {
    /// A label equal to this one.
    pub fn duplicate(&self) -> (out: Label)
        ensures
            out == *self,
    {
        Label { name: self.name.clone(), color: self.color.duplicate() }
    }
}

/// The two labels have the same name and the same color.
pub open spec fn label_eq(a: Label, b: Label) -> bool {
    a.name@ == b.name@ && a.color.0@ == b.color.0@
}

/// The position of the first label, from `from` on, that equals `label`;
/// the length of the list if there is none.
pub open spec fn first_equal(labels: Seq<Label>, label: Label, from: int) -> int
    decreases labels.len() - from,
{
    if from < 0 || from >= labels.len() {
        labels.len() as int
    } else if label_eq(labels[from], label) {
        from
    } else {
        first_equal(labels, label, from + 1)
    }
}

/// The first equal label is looked for from `from` on and up to the end.
pub proof fn lemma_first_equal_range(labels: Seq<Label>, label: Label, from: int)
    requires
        0 <= from <= labels.len(),
    ensures
        from <= first_equal(labels, label, from) <= labels.len(),
    decreases labels.len() - from,
{
    if from < labels.len() && !label_eq(labels[from], label) {
        lemma_first_equal_range(labels, label, from + 1);
    }
}

/// The labels without the first that equals `label`, if there is one.
pub open spec fn without(labels: Seq<Label>, label: Label) -> Seq<Label> {
    let at = first_equal(labels, label, 0);
    if at < labels.len() {
        labels.remove(at)
    } else {
        labels
    }
}

impl Label {
    /// Whether the two labels have the same name and the same color.
    pub fn same(&self, other: &Label) -> (b: bool)
        ensures
            b == label_eq(*self, *other),
    {
        self.name == other.name && self.color.0 == other.color.0
    }
}

impl User {
    /// A user equal to this one.
    pub fn duplicate(&self) -> (out: User)
        ensures
            out == *self,
    {
        User {
            id: self.id,
            name: self.name.clone(),
            icon_url: self.icon_url.clone(),
            hyperlink: self.hyperlink.clone(),
        }
    }
}

impl IssueSummary {
    /// The two issues agree in every field, label by label.
    pub open spec fn same_as(&self, other: &IssueSummary) -> bool {
        &&& self.number == other.number
        &&& self.hyperlink == other.hyperlink
        &&& self.title == other.title
        &&& self.labels@ == other.labels@
        &&& self.creator == other.creator
    }

    /// The issue without the first of its labels that equals `label`; the
    /// issue as it is if it has no such label.
    pub fn without_label(&self, label: &Label) -> (out: IssueSummary)
        ensures
            out.number == self.number,
            out.hyperlink == self.hyperlink,
            out.title == self.title,
            out.creator == self.creator,
            out.labels@ == without(self.labels@, *label),
    {
        let ghost all = self.labels@;
        let mut labels: Vec<Label> = Vec::new();
        let mut found: bool = false;
        let mut j: usize = 0;
        proof {
            lemma_first_equal_range(all, *label, 0);
        }
        while j < self.labels.len()
            invariant
                j <= all.len(),
                all == self.labels@,
                0 <= first_equal(all, *label, 0) <= all.len(),
                !found ==> labels@ == all.take(j as int) && first_equal(all, *label, 0)
                    == first_equal(all, *label, j as int),
                found ==> first_equal(all, *label, 0) < j && labels@ == all.take(j as int).remove(
                    first_equal(all, *label, 0),
                ),
            decreases all.len() - j,
        {
            let ghost at = first_equal(all, *label, 0);
            if !found && self.labels[j].same(label) {
                found = true;
                proof {
                    assert(all.take(j + 1).remove(j as int) =~= all.take(j as int));
                }
            } else {
                proof {
                    if found {
                        assert(all.take(j + 1).remove(at) =~= all.take(j as int).remove(at).push(
                            all[j as int],
                        ));
                    } else {
                        assert(all.take(j + 1) =~= all.take(j as int).push(all[j as int]));
                    }
                }
                labels.push(self.labels[j].duplicate());
            }
            j += 1;
        }
        proof {
            assert(all.take(all.len() as int) =~= all);
        }
        IssueSummary {
            number: self.number,
            hyperlink: self.hyperlink.clone(),
            title: self.title.clone(),
            labels,
            creator: self.creator.duplicate(),
        }
    }

    /// An issue with the fields of this one.
    pub fn duplicate(&self) -> (out: IssueSummary)
        ensures
            out.same_as(self),
    {
        let mut labels: Vec<Label> = Vec::new();
        let mut j: usize = 0;
        while j < self.labels.len()
            invariant
                j <= self.labels@.len(),
                labels@ == self.labels@.take(j as int),
            decreases self.labels@.len() - j,
        {
            proof {
                assert(self.labels@.take(j + 1) =~= self.labels@.take(j as int).push(
                    self.labels@[j as int],
                ));
            }
            labels.push(self.labels[j].duplicate());
            j += 1;
        }
        proof {
            assert(self.labels@.take(self.labels@.len() as int) =~= self.labels@);
        }
        IssueSummary {
            number: self.number,
            hyperlink: self.hyperlink.clone(),
            title: self.title.clone(),
            labels,
            creator: self.creator.duplicate(),
        }
    }
}

impl BinSummary {
    /// The issue as the bin shows it once the label that stands for the
    /// bin is taken off.
    pub open spec fn stripped(&self, issue: IssueSummary, shown: IssueSummary) -> bool {
        &&& shown.number == issue.number
        &&& shown.hyperlink == issue.hyperlink
        &&& shown.title == issue.title
        &&& shown.creator == issue.creator
        &&& shown.labels@ == match self.main_label {
            Some(label) => without(issue.labels@, label),
            None => issue.labels@,
        }
    }

    /// The bin with its main label taken off every issue: of each issue the
    /// first label that equals it. A bin without a main label stays as it
    /// is.
    pub fn without_main_label(&self) -> (out: BinSummary)
        ensures
            out.name == self.name,
            out.color == self.color,
            out.main_label == self.main_label,
            out.is_overflow == self.is_overflow,
            out.issues@.len() == self.issues@.len(),
            forall|j: int|
                0 <= j < self.issues@.len() ==> self.stripped(self.issues@[j], #[trigger] out.issues@[j]),
    {
        let mut issues: Vec<IssueSummary> = Vec::new();
        let mut j: usize = 0;
        while j < self.issues.len()
            invariant
                j <= self.issues@.len(),
                issues@.len() == j,
                forall|a: int|
                    0 <= a < j ==> self.stripped(self.issues@[a], #[trigger] issues@[a]),
            decreases self.issues@.len() - j,
        {
            let shown = match &self.main_label {
                Some(label) => self.issues[j].without_label(label),
                None => self.issues[j].duplicate(),
            };
            issues.push(shown);
            j += 1;
        }
        let name = match &self.name {
            Some(name) => Some(name.clone()),
            None => None,
        };
        let color = match &self.color {
            Some(color) => Some(color.duplicate()),
            None => None,
        };
        let main_label = match &self.main_label {
            Some(label) => Some(label.duplicate()),
            None => None,
        };
        BinSummary { name, color, main_label, issues, is_overflow: self.is_overflow }
    }
}

} // verus!
