//! Parsing of `Content-Type` header values: a strict MIME parse through the
//! mime crate, with a fallback that drops everything after the first `;`.
use vstd::prelude::*;
use crate::text::str_eq_str;

verus! {

/// What the mime crate's parser makes of a content-type value: `None` where
/// the value is not a well-formed MIME type, otherwise the `type/subtype`
/// essence together with the value of the `boundary` parameter, if any.
/// The outcome depends on the characters of the value alone.
pub uninterp spec fn mime_parse(s: Seq<char>) -> Option<(Seq<char>, Option<Seq<char>>)>;

/// The view of an optional string.
pub open spec fn option_str_view(o: Option<String>) -> Option<Seq<char>> {
    match o {
        Some(s) => Some(s@),
        None => None,
    }
}

/// The interesting parts of a parsed `Content-Type` header value: the
/// `type/subtype` essence and the `boundary` parameter, if one is present.
#[derive(Debug)]
pub struct ContentTypeHeader {
    pub mime_type: String,
    pub boundary: Option<String>,
}

/// Why a `Content-Type` header value could not be understood.
#[derive(Debug, PartialEq, Eq)]
pub enum ContentTypeError {
    /// The value, even cut at the first `;`, is not a MIME type.
    TypeError,
    /// The value has no usable part at all.
    ValueError,
}

/// Relies on the mime crate: `Mime`'s `FromStr` decides whether the value
/// is a well-formed MIME type, `essence_str` gives its `type/subtype` pair
/// with parameters stripped, and `get_param(mime::BOUNDARY)` gives the
/// unquoted value of the boundary parameter.
#[verifier::external_body]
pub(crate) fn mime_parse_str(s: &str) -> (r: Option<ContentTypeHeader>)
    ensures
        r is Some <==> mime_parse(s@) is Some,
        r matches Some(ct) ==> Some((ct.mime_type@, option_str_view(ct.boundary))) == mime_parse(
            s@,
        ),
{
    match s.parse::<mime::Mime>() {
        Ok(m) => Some(
            ContentTypeHeader {
                mime_type: m.essence_str().to_string(),
                boundary: m.get_param(mime::BOUNDARY).map(|v| v.as_str().to_string()),
            },
        ),
        Err(_) => None,
    }
}

/// The index of the first `;` at or after `i`, or the length of `s`.
pub open spec fn semi_scan(s: Seq<char>, i: int) -> int
    decreases s.len() - i,
{
    if i < 0 || i >= s.len() || s[i] == ';' {
        i
    } else {
        semi_scan(s, i + 1)
    }
}

/// The understood form of a content-type value: the strict MIME parse where
/// it succeeds; otherwise the part before the first `;`, read as
/// `text/plain` when it is the bare word `text`, and as a MIME type of its
/// own otherwise; `None` where even that fails.
pub open spec fn spec_content_type(v: Seq<char>) -> Option<(Seq<char>, Option<Seq<char>>)> {
    match mime_parse(v) {
        Some(r) => Some(r),
        None => {
            let p = v.subrange(0, semi_scan(v, 0));
            if p == "text"@ {
                Some(("text/plain"@, None))
            } else {
                mime_parse(p)
            }
        },
    }
}

/// The essence and boundary parameter of a `Content-Type` header value,
/// after the fallback; `Err` exactly where the value cannot be understood.
pub fn parse_content_type_header(header_value: &str) -> (r: Result<
    ContentTypeHeader,
    ContentTypeError,
>)
    ensures
        match r {
            Ok(ct) => spec_content_type(header_value@) == Some(
                (ct.mime_type@, option_str_view(ct.boundary)),
            ),
            Err(e) => spec_content_type(header_value@) is None && e == ContentTypeError::TypeError,
        },
{
    if let Some(ct) = mime_parse_str(header_value) {
        return Ok(ct);
    }
    let n: usize = header_value.unicode_len();
    let mut i: usize = 0;
    while i < n
        invariant
            n == header_value@.len(),
            i <= n,
            semi_scan(header_value@, 0) == semi_scan(header_value@, i as int),
        ensures
            i <= n,
            semi_scan(header_value@, 0) == i,
        decreases n - i,
    {
        if header_value.get_char(i) == ';' {
            break;
        }
        i = i + 1;
    }
    let prefix: &str = header_value.substring_char(0, i);
    if str_eq_str(prefix, "text") {
        let mime_type: String = "text/plain".to_owned();
        return Ok(ContentTypeHeader { mime_type, boundary: None });
    }
    match mime_parse_str(prefix) {
        Some(ct) => Ok(ct),
        None => Err(ContentTypeError::TypeError),
    }
}

} // verus!
