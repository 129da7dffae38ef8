//! The header value type and the line-level header grammar used inside
//! multipart bodies: `key ':' *WSP value`, over printable US-ASCII.
use vstd::prelude::*;
use crate::text::string_from_chars;

verus! {

/// A single mail header: a case-insensitively comparable key and a verbatim value.
#[derive(Debug)]
pub struct Header {
    pub key: String,
    pub value: String,
}

impl Header {
    /// A header with the given key and value.
    pub fn new(key: String, value: String) -> (h: Header)
        ensures
            h.key@ == key@,
            h.value@ == value@,
    {
        Header { key, value }
    }

    /// A copy of this header.
    pub fn duplicate(&self) -> (h: Header)
        ensures
            h.key@ == self.key@,
            h.value@ == self.value@,
    {
        Header { key: self.key.clone(), value: self.value.clone() }
    }
}

/// The ASCII code of `c` with a lower-case letter raised to upper case.
pub open spec fn upper_u32(c: char) -> u32 {
    if 97 <= c as u32 && c as u32 <= 122 {
        (c as u32 - 32) as u32
    } else {
        c as u32
    }
}

/// A header key in canonical case: the first letter of each word, where
/// words are separated by `-`, is raised to upper case; all other
/// characters are left as they are.
pub open spec fn header_case(s: Seq<char>) -> Seq<char> {
    Seq::new(
        s.len(),
        |i: int|
            if i == 0 || s[i - 1] == '-' {
                upper_u32(s[i]) as char
            } else {
                s[i]
            },
    )
}

/// Whether `key`, put in canonical header case, reads exactly as `canon`.
pub fn key_in_header_case_is(key: &str, canon: &str) -> (r: bool)
    ensures
        r == (header_case(key@) == canon@),
{
    broadcast use vstd::utf8::char_u32_cast;

    let n: usize = key.unicode_len();
    if n != canon.unicode_len() {
        proof {
            assert(header_case(key@).len() != canon@.len());
        }
        return false;
    }
    let mut i: usize = 0;
    while i < n
        invariant
            n == key@.len(),
            n == canon@.len(),
            i <= n,
            forall|j: int| 0 <= j < i ==> header_case(key@)[j] == canon@[j],
        decreases n - i,
    {
        let c: char = key.get_char(i);
        let u: u32 = c as u32;
        let word_start: bool = if i == 0 {
            true
        } else {
            key.get_char(i - 1) == '-'
        };
        let cased: u32 = if word_start && 97 <= u && u <= 122 {
            u - 32
        } else {
            u
        };
        let want: u32 = canon.get_char(i) as u32;
        if cased != want {
            proof {
                assert(header_case(key@)[i as int] as u32 == cased);
            }
            return false;
        }
        proof {
            assert(header_case(key@)[i as int] == canon@[i as int]);
        }
        i = i + 1;
    }
    proof {
        assert(header_case(key@) =~= canon@);
    }
    true
}

/// Printable US-ASCII, the only bytes allowed in a header line's key.
pub open spec fn is_print_byte(b: u8) -> bool {
    0x21 <= b && b <= 0x7e
}

/// Space or horizontal tab.
pub open spec fn is_ws_byte(b: u8) -> bool {
    b == 0x20 || b == 0x09
}

/// Bytes allowed in a header key: printable, except the colon delimiter.
pub open spec fn is_key_byte(b: u8) -> bool {
    is_print_byte(b) && b != 0x3a
}

/// Bytes allowed in a header value: printable, space or tab.
pub open spec fn is_value_byte(b: u8) -> bool {
    is_print_byte(b) || is_ws_byte(b)
}

/// The first index at or after `i` whose byte fails `p`, or the length.
pub open spec fn scan_from(s: Seq<u8>, p: spec_fn(u8) -> bool, i: int) -> int
    decreases s.len() - i,
{
    if i < 0 || i >= s.len() || !p(s[i]) {
        i
    } else {
        scan_from(s, p, i + 1)
    }
}

/// Where the run of key bytes beginning at `i` ends.
pub open spec fn key_scan(s: Seq<u8>, i: int) -> int {
    scan_from(s, |b: u8| is_key_byte(b), i)
}

/// Where the run of spaces and tabs beginning at `i` ends.
pub open spec fn ws_scan(s: Seq<u8>, i: int) -> int {
    scan_from(s, |b: u8| is_ws_byte(b), i)
}

/// Where the run of value bytes beginning at `i` ends.
pub open spec fn value_scan(s: Seq<u8>, i: int) -> int {
    scan_from(s, |b: u8| is_value_byte(b), i)
}

/// The characters of a run of US-ASCII bytes.
pub open spec fn ascii_chars(s: Seq<u8>) -> Seq<char> {
    s.map_values(|b: u8| b as char)
}

/// The parse of one header line: the key is the longest run of printable
/// non-colon bytes, a colon must follow, then spaces and tabs are skipped,
/// and the rest is the value, which must consist of printable bytes, spaces
/// and tabs only. Any other line is not a header.
pub open spec fn spec_parse_header_line(line: Seq<u8>) -> Option<(Seq<char>, Seq<char>)> {
    let k = key_scan(line, 0);
    if k < line.len() && line[k] == 0x3a {
        let w = ws_scan(line, k + 1);
        if value_scan(line, w) == line.len() {
            Some(
                (
                    ascii_chars(line.subrange(0, k)),
                    ascii_chars(line.subrange(w, line.len() as int)),
                ),
            )
        } else {
            None
        }
    } else {
        None
    }
}

/// A `String` holding the characters of a run of US-ASCII bytes.
fn ascii_to_string(line: &[u8], from: usize, to: usize) -> (r: String)
    requires
        from <= to <= line@.len(),
    ensures
        r@ == ascii_chars(line@.subrange(from as int, to as int)),
{
    let mut chars: Vec<char> = Vec::new();
    let mut i: usize = from;
    while i < to
        invariant
            from <= i <= to <= line@.len(),
            chars@ == ascii_chars(line@.subrange(from as int, i as int)),
        decreases to - i,
    {
        chars.push(line[i] as char);
        proof {
            assert(chars@ =~= ascii_chars(line@.subrange(from as int, i + 1)));
        }
        i = i + 1;
    }
    string_from_chars(&chars)
}

/// The index where the run of key bytes beginning at `from` ends.
fn scan_key(line: &[u8], from: usize) -> (r: usize)
    requires
        from <= line@.len(),
    ensures
        from <= r <= line@.len(),
        r == key_scan(line@, from as int),
{
    let n: usize = line.len();
    let mut i: usize = from;
    while i < n
        invariant
            from <= i <= n,
            n == line@.len(),
            key_scan(line@, from as int) == key_scan(line@, i as int),
        ensures
            from <= i <= n,
            key_scan(line@, from as int) == i,
        decreases n - i,
    {
        let b: u8 = line[i];
        if !(0x21 <= b && b <= 0x7e && b != 0x3a) {
            break;
        }
        i = i + 1;
    }
    i
}

/// The index where the run of spaces and tabs beginning at `from` ends.
fn scan_ws(line: &[u8], from: usize) -> (r: usize)
    requires
        from <= line@.len(),
    ensures
        from <= r <= line@.len(),
        r == ws_scan(line@, from as int),
{
    let n: usize = line.len();
    let mut i: usize = from;
    while i < n
        invariant
            from <= i <= n,
            n == line@.len(),
            ws_scan(line@, from as int) == ws_scan(line@, i as int),
        ensures
            from <= i <= n,
            ws_scan(line@, from as int) == i,
        decreases n - i,
    {
        let b: u8 = line[i];
        if !(b == 0x20 || b == 0x09) {
            break;
        }
        i = i + 1;
    }
    i
}

/// The index where the run of value bytes beginning at `from` ends.
fn scan_value(line: &[u8], from: usize) -> (r: usize)
    requires
        from <= line@.len(),
    ensures
        from <= r <= line@.len(),
        r == value_scan(line@, from as int),
{
    let n: usize = line.len();
    let mut i: usize = from;
    while i < n
        invariant
            from <= i <= n,
            n == line@.len(),
            value_scan(line@, from as int) == value_scan(line@, i as int),
        ensures
            from <= i <= n,
            value_scan(line@, from as int) == i,
        decreases n - i,
    {
        let b: u8 = line[i];
        if !((0x21 <= b && b <= 0x7e) || b == 0x20 || b == 0x09) {
            break;
        }
        i = i + 1;
    }
    i
}

/// The header parsed from one raw body line, if the line has the shape of a
/// header; `None` otherwise.
pub fn parse_header_line(line: &[u8]) -> (r: Option<Header>)
    ensures
        match r {
            Some(h) => spec_parse_header_line(line@) == Some((h.key@, h.value@)),
            None => spec_parse_header_line(line@) is None,
        },
{
    let n: usize = line.len();
    let k: usize = scan_key(line, 0);
    if !(k < n) {
        return None;
    }
    if line[k] != 0x3a {
        return None;
    }
    let w: usize = scan_ws(line, k + 1);
    let v_end: usize = scan_value(line, w);
    if v_end != n {
        return None;
    }
    let key = ascii_to_string(line, 0, k);
    let value = ascii_to_string(line, w, n);
    Some(Header { key, value })
}

} // verus!
