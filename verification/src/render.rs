//! Where an exported issue is saved.

use vstd::prelude::*;
use crate::number::{digits_of, push_decimal};

verus! {

/// The slug that `slug::slugify` makes of a title: lower-case ASCII
/// letters, digits and single hyphens.
pub uninterp spec fn slug_of(title: Seq<char>) -> Seq<char>;

/// Calls `slug::slugify`. Trusted: the result is the slug that `slug_of`
/// names for this title.
#[verifier::external_body]
pub(crate) fn slugify(title: &str) -> (out: String)
    ensures
        out@ == slug_of(title@),
{
    slug::slugify(title)
}

/// The zeros that bring a number to three digits.
pub open spec fn padding(number: nat) -> Seq<char> {
    if number < 10 {
        "00"@
    } else if number < 100 {
        "0"@
    } else {
        Seq::empty()
    }
}

/// The file name of an issue, given what has been made of its title: the
/// number in three digits at least, a hyphen, the slug, the extension.
pub open spec fn path_of(number: nat, slug: Seq<char>, extension: Seq<char>) -> Seq<char> {
    padding(number) + digits_of(number) + "-"@ + slug + extension
}

/// The file name of an issue with the given slug.
pub fn path_with_slug(number: u64, slug: &str, extension: &str) -> (out: String)
    ensures
        out@ == path_of(number as nat, slug@, extension@),
{
    let mut out: String = String::new();
    if number < 10 {
        out.push_str("00");
    } else if number < 100 {
        out.push_str("0");
    }
    proof {
        assert(out@ =~= padding(number as nat));
    }
    push_decimal(&mut out, number);
    out.push_str("-");
    out.push_str(slug);
    out.push_str(extension);
    out
}

/// The relative path at which an issue is to be saved: its number in three
/// digits at least, a hyphen, the slug of its title, and the extension,
/// which brings its own dot.
pub fn suggest_path(number: u64, title: &str, extension: &str) -> (out: String)
    ensures
        out@ == path_of(number as nat, slug_of(title@), extension@),
{
    let slug = slugify(title);
    path_with_slug(number, slug.as_str(), extension)
}

} // verus!
