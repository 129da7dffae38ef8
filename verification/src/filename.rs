//! Sanitizing a `"<date>-<subject>"` string into a filesystem-safe name:
//! runs of non-alphanumeric characters collapse to a single underscore, a
//! trailing underscore is trimmed, and the result is capped at 251
//! characters.
use vstd::prelude::*;
use crate::text::{char_is_alnum, is_alnum_char, str_to_chars, string_from_chars};

verus! {

/// The first `i` characters of `s` with every maximal run of
/// non-alphanumeric characters replaced by one underscore.
pub open spec fn collapse_prefix(s: Seq<char>, i: int) -> Seq<char>
    decreases i,
{
    if i <= 0 || i > s.len() {
        Seq::empty()
    } else {
        let rest = collapse_prefix(s, i - 1);
        if is_alnum_char(s[i - 1]) {
            rest.push(s[i - 1])
        } else if i - 1 == 0 || is_alnum_char(s[i - 2]) {
            rest.push('_')
        } else {
            rest
        }
    }
}

/// `t` with all trailing underscores removed.
pub open spec fn trim_trailing(t: Seq<char>) -> Seq<char>
    decreases t.len(),
{
    if t.len() > 0 && t.last() == '_' {
        trim_trailing(t.drop_last())
    } else {
        t
    }
}

/// The sanitized name: runs collapsed, trailing underscore trimmed, and at
/// most 251 characters kept.
pub open spec fn spec_envelope_filename(s: Seq<char>) -> Seq<char> {
    let t = trim_trailing(collapse_prefix(s, s.len() as int));
    if t.len() > 251 {
        t.subrange(0, 251)
    } else {
        t
    }
}

/// A filesystem-safe name derived from `path`: every maximal run of
/// non-alphanumeric characters becomes one underscore, a trailing
/// underscore is dropped, and the result is cut to 251 characters.
pub fn envelope_filename(path: &str) -> (r: String)
    ensures
        r@ == spec_envelope_filename(path@),
{
    let chars: Vec<char> = str_to_chars(path);
    let n: usize = chars.len();
    let mut out: Vec<char> = Vec::new();
    let mut i: usize = 0;
    while i < n
        invariant
            chars@ == path@,
            n == chars@.len(),
            i <= n,
            out@ == collapse_prefix(path@, i as int),
        decreases n - i,
    {
        let c: char = chars[i];
        if char_is_alnum(c) {
            out.push(c);
        } else if i == 0 {
            out.push('_');
        } else if char_is_alnum(chars[i - 1]) {
            out.push('_');
        }
        i = i + 1;
    }
    while out.len() > 0 && out[out.len() - 1] == '_'
        invariant
            trim_trailing(out@) == trim_trailing(collapse_prefix(path@, path@.len() as int)),
        decreases out@.len(),
    {
        proof {
            assert(out@.drop_last() =~= out@.subrange(0, out@.len() - 1));
        }
        out.pop();
    }
    if out.len() > 251 {
        out.truncate(251);
    }
    string_from_chars(&out)
}

} // verus!
