//! Strings as sequences of characters: taking them apart and putting them
//! together.

use vstd::prelude::*;
use vstd::string::StrSliceExecFns;

verus! {

/// `String::push` of the standard library. Trusted: the character is
/// appended and nothing else changes.
pub assume_specification[ String::push ](s: &mut String, ch: char)
    ensures
        final(s)@ == old(s)@.push(ch),
;

/// `String::push_str` of the standard library. Trusted: the text is
/// appended and nothing else changes.
pub assume_specification[ String::push_str ](s: &mut String, string: &str)
    ensures
        final(s)@ == old(s)@ + string@,
;

/// The characters of a text, in order.
pub fn chars_of(text: &str) -> (out: Vec<char>)
    ensures
        out@ == text@,
{
    let n: usize = text.unicode_len();
    let mut out: Vec<char> = Vec::new();
    let mut i: usize = 0;
    while i < n
        invariant
            i <= n,
            n == text@.len(),
            out@ == text@.take(i as int),
        decreases n - i,
    {
        proof {
            assert(text@.take(i + 1) =~= text@.take(i as int).push(text@[i as int]));
        }
        out.push(text.get_char(i));
        i += 1;
    }
    proof {
        assert(text@.take(n as int) =~= text@);
    }
    out
}

/// The text made of the characters from position `from` up to, not
/// including, position `to`.
pub fn text_of(chars: &Vec<char>, from: usize, to: usize) -> (out: String)
    requires
        from <= to <= chars@.len(),
    ensures
        out@ == chars@.subrange(from as int, to as int),
{
    let mut out: String = String::new();
    let mut i: usize = from;
    proof {
        assert(chars@.subrange(from as int, from as int) =~= Seq::<char>::empty());
    }
    while i < to
        invariant
            from <= i <= to <= chars@.len(),
            out@ == chars@.subrange(from as int, i as int),
        decreases to - i,
    {
        proof {
            assert(chars@.subrange(from as int, i + 1) =~= chars@.subrange(
                from as int,
                i as int,
            ).push(chars@[i as int]));
        }
        out.push(chars[i]);
        i += 1;
    }
    out
}

/// `at` is the position of the first `mark` in the text at or after `from`.
pub open spec fn first_at(text: Seq<char>, mark: char, from: int, at: int) -> bool {
    &&& from <= at < text.len()
    &&& text[at] == mark
    &&& forall|j: int| from <= j < at ==> text[j] != mark
}

/// The text has no `mark` at or after position `from`.
pub open spec fn none_from(text: Seq<char>, mark: char, from: int) -> bool {
    forall|j: int| from <= j < text.len() ==> text[j] != mark
}

/// The text has its only `mark` at position `at`.
pub open spec fn only_at(text: Seq<char>, mark: char, at: int) -> bool {
    first_at(text, mark, 0, at) && none_from(text, mark, at + 1)
}

/// The position of the first `mark` at or after `from`, if there is one.
pub fn find_from(chars: &Vec<char>, mark: char, from: usize) -> (out: Option<usize>)
    requires
        from <= chars@.len(),
    ensures
        match out {
            Some(at) => first_at(chars@, mark, from as int, at as int),
            None => none_from(chars@, mark, from as int),
        },
{
    let mut i: usize = from;
    while i < chars.len()
        invariant
            from <= i <= chars@.len(),
            forall|j: int| from <= j < i ==> chars@[j] != mark,
        decreases chars@.len() - i,
    {
        if chars[i] == mark {
            return Some(i);
        }
        i += 1;
    }
    None
}

} // verus!
