//! Texts: what they begin and end with.

use vstd::prelude::*;
use vstd::string::StrSliceExecFns;

verus! {

/// `text` without `suffix` at its end, where it ends with it; else `text`
/// as it is.
pub open spec fn stripped(text: Seq<char>, suffix: Seq<char>) -> Seq<char> {
    if suffix.is_suffix_of(text) {
        text.take(text.len() - suffix.len())
    } else {
        text
    }
}

/// The characters of a text.
pub fn chars_of(text: &str) -> (chars: Vec<char>)
    ensures
        chars@ == text@,
{
    let mut chars: Vec<char> = Vec::new();
    for c in it: text.chars()
        invariant
            it.seq() == text@,
            chars@ == text@.take(it.index() as int),
    {
        chars.push(c);
        assert(text@.take(it.index() as int + 1) =~= text@.take(it.index() as int).push(c));
    }
    assert(text@.take(text@.len() as int) =~= text@);
    chars
}

/// Whether `text` begins with `prefix`.
pub fn starts_with(text: &str, prefix: &str) -> (found: bool)
    ensures
        found == prefix@.is_prefix_of(text@),
{
    let wanted = chars_of(prefix);
    let given = chars_of(text);
    if wanted.len() > given.len() {
        return false;
    }
    let mut i: usize = 0;
    while i < wanted.len()
        invariant
            i <= wanted.len() <= given.len(),
            wanted@ == prefix@,
            given@ == text@,
            forall|k: int| 0 <= k < i ==> wanted@[k] == given@[k],
        decreases wanted.len() - i,
    {
        if wanted[i] != given[i] {
            assert(wanted@[i as int] != given@.subrange(0, wanted@.len() as int)[i as int]);
            return false;
        }
        i += 1;
    }
    assert(wanted@ =~= given@.subrange(0, wanted@.len() as int));
    true
}

/// Whether `text` ends with `suffix`.
pub fn ends_with(text: &str, suffix: &str) -> (found: bool)
    ensures
        found == suffix@.is_suffix_of(text@),
{
    let wanted = chars_of(suffix);
    let given = chars_of(text);
    if wanted.len() > given.len() {
        return false;
    }
    let shift = given.len() - wanted.len();
    let mut i: usize = 0;
    while i < wanted.len()
        invariant
            i <= wanted.len() <= given.len(),
            shift == given.len() - wanted.len(),
            wanted@ == suffix@,
            given@ == text@,
            forall|k: int| 0 <= k < i ==> wanted@[k] == given@[shift + k],
        decreases wanted.len() - i,
    {
        if wanted[i] != given[shift + i] {
            assert(wanted@[i as int] != given@.subrange(shift as int, given@.len() as int)[i as int]);
            return false;
        }
        i += 1;
    }
    assert(wanted@ =~= given@.subrange(shift as int, given@.len() as int));
    true
}

/// `source` without `suffix` at its end, where it ends with it; else
/// `source` as it is.
pub fn without_suffix<'a>(source: &'a str, suffix: &str) -> (rest: &'a str)
    ensures
        rest@ == stripped(source@, suffix@),
{
    if ends_with(source, suffix) {
        let kept = source.unicode_len() - suffix.unicode_len();
        let rest = source.substring_char(0, kept);
        assert(rest@ =~= source@.take(source@.len() - suffix@.len()));
        rest
    } else {
        source
    }
}

} // verus!
