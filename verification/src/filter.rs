//! The filter expression language: matchers over header and body values,
//! the expression tree combining them with `and` / `or`, and the filter
//! that drives matching of whole mails.
use vstd::prelude::*;
use vstd::utf8::{decode_utf8, valid_utf8};
use crate::content_type::mime_parse;
use crate::content_type::mime_parse_str;
use crate::header::Header;
use crate::mail::{body_scan, Mail, MailModel};
use crate::text::{
    is_prefix, is_suffix, seq_lower, str_eq_ignore_case, str_eq_str, str_starts_with,
    str_ends_with,
};

verus! {

/// Whether a regex pattern is well formed under the standard regex
/// grammar. Decided by the regex-syntax crate; a function of the pattern
/// alone.
pub uninterp spec fn regex_wf(pattern: Seq<char>) -> bool;

/// Whether `pattern` compiles and the compiled regex finds a match
/// anywhere in `value`. Decided by the regex crate; a function of the
/// pattern and the value alone.
pub uninterp spec fn regex_match(pattern: Seq<char>, value: Seq<char>) -> bool;

/// Relies on regex_syntax::Parser::parse: it accepts exactly the
/// well-formed regex patterns.
#[verifier::external_body]
pub(crate) fn regex_check(pattern: &str) -> (r: bool)
    ensures
        r == regex_wf(pattern@),
{
    regex_syntax::Parser::new().parse(pattern).is_ok()
}

/// Relies on the regex crate: `Regex::new` compiles the pattern and
/// `Regex::is_match` reports whether a match exists anywhere in the value;
/// a pattern that does not compile matches nothing.
#[verifier::external_body]
fn regex_search(pattern: &str, value: &str) -> (r: bool)
    ensures
        r == regex_match(pattern@, value@),
{
    match regex::Regex::new(pattern) {
        Ok(re) => re.is_match(value),
        Err(_) => false,
    }
}

/// One of the six comparison kinds a matcher can apply to a value. The
/// regex kinds hold the pattern in its canonical textual form.
#[derive(Debug, PartialEq, Eq)]
pub enum ValueMatcher {
    Exact(String),
    StartsWith(String),
    EndsWith(String),
    Regex(String),
    NotEqual(String),
    NotRegex(String),
}

/// The comparison in mathematical form, over character sequences.
pub ghost enum ValueMatcherModel {
    Exact(Seq<char>),
    StartsWith(Seq<char>),
    EndsWith(Seq<char>),
    Regex(Seq<char>),
    NotEqual(Seq<char>),
    NotRegex(Seq<char>),
}

/// The image of a comparison.
pub open spec fn vm_view(m: ValueMatcher) -> ValueMatcherModel {
    match m {
        ValueMatcher::Exact(s) => ValueMatcherModel::Exact(s@),
        ValueMatcher::StartsWith(s) => ValueMatcherModel::StartsWith(s@),
        ValueMatcher::EndsWith(s) => ValueMatcherModel::EndsWith(s@),
        ValueMatcher::Regex(s) => ValueMatcherModel::Regex(s@),
        ValueMatcher::NotEqual(s) => ValueMatcherModel::NotEqual(s@),
        ValueMatcher::NotRegex(s) => ValueMatcherModel::NotRegex(s@),
    }
}

/// What it means for a value to satisfy a comparison: byte-for-byte
/// equality, prefix or suffix, negated equality, or a regex search that
/// may match anywhere in the value.
pub open spec fn vm_model_matches(m: ValueMatcherModel, v: Seq<char>) -> bool {
    match m {
        ValueMatcherModel::Exact(s) => v == s,
        ValueMatcherModel::StartsWith(s) => is_prefix(s, v),
        ValueMatcherModel::EndsWith(s) => is_suffix(s, v),
        ValueMatcherModel::Regex(p) => regex_match(p, v),
        ValueMatcherModel::NotEqual(s) => v != s,
        ValueMatcherModel::NotRegex(p) => !regex_match(p, v),
    }
}

/// Whether `v` satisfies the comparison `m`.
pub open spec fn vm_matches(m: ValueMatcher, v: Seq<char>) -> bool {
    vm_model_matches(vm_view(m), v)
}

impl ValueMatcher {
    /// Whether `value` satisfies this comparison.
    pub fn matches(&self, value: &str) -> (r: bool)
        ensures
            r == vm_matches(*self, value@),
    {
        match self {
            ValueMatcher::StartsWith(beginning) => str_starts_with(value, beginning.as_str()),
            ValueMatcher::EndsWith(end) => str_ends_with(value, end.as_str()),
            ValueMatcher::Exact(string) => str_eq_str(value, string.as_str()),
            ValueMatcher::Regex(pattern) => regex_search(pattern.as_str(), value),
            ValueMatcher::NotEqual(string) => !str_eq_str(value, string.as_str()),
            ValueMatcher::NotRegex(pattern) => !regex_search(pattern.as_str(), value),
        }
    }
}

/// What a matcher's key selects: a body part by MIME essence, or a header
/// by name. A body key of `None` arises from an unresolvable subtype and
/// never selects anything.
#[derive(Debug, PartialEq, Eq)]
pub enum MatcherKey {
    BodyMatcher(Option<String>),
    HeaderMatcher(String),
}

/// The key in mathematical form.
pub ghost enum MatcherKeyModel {
    BodyMatcher(Option<Seq<char>>),
    HeaderMatcher(Seq<char>),
}

/// The image of a key.
pub open spec fn key_view(k: MatcherKey) -> MatcherKeyModel {
    match k {
        MatcherKey::BodyMatcher(Some(e)) => MatcherKeyModel::BodyMatcher(Some(e@)),
        MatcherKey::BodyMatcher(None) => MatcherKeyModel::BodyMatcher(None),
        MatcherKey::HeaderMatcher(s) => MatcherKeyModel::HeaderMatcher(s@),
    }
}

/// How a textual key resolves: the word `body` names the `text/plain`
/// part, `body.<subtype>` names the part whose essence the mime crate
/// reads from the subtype, failing into a key that never matches, and any
/// other word names a header.
pub open spec fn spec_matcher_key(input: Seq<char>) -> MatcherKeyModel {
    if input == "body"@ {
        MatcherKeyModel::BodyMatcher(Some("text/plain"@))
    } else if is_prefix("body."@, input) {
        match mime_parse(input.skip(5)) {
            Some((ess, b)) => MatcherKeyModel::BodyMatcher(Some(ess)),
            None => MatcherKeyModel::BodyMatcher(None),
        }
    } else {
        MatcherKeyModel::HeaderMatcher(input)
    }
}

/// Whether a key selects a header with the given name, up to ASCII case.
pub open spec fn key_model_is_header(k: MatcherKeyModel, hkey: Seq<char>) -> bool {
    match k {
        MatcherKeyModel::HeaderMatcher(name) => seq_lower(name) == seq_lower(hkey),
        MatcherKeyModel::BodyMatcher(_) => false,
    }
}

/// The text of the body part a key selects from `body`: the part with the
/// key's essence, decoded as UTF-8; `None` where the key is no body key,
/// no such part exists, or its bytes are not UTF-8.
pub open spec fn key_body_lookup(k: MatcherKeyModel, body: Seq<(Seq<char>, Seq<u8>)>) -> Option<
    Seq<char>,
> {
    match k {
        MatcherKeyModel::BodyMatcher(Some(ess)) => {
            let i = body_scan(body, ess, 0);
            if i < body.len() && valid_utf8(body[i].1) {
                Some(decode_utf8(body[i].1))
            } else {
                None
            }
        },
        MatcherKeyModel::BodyMatcher(None) => None,
        MatcherKeyModel::HeaderMatcher(_) => None,
    }
}

impl MatcherKey {
    /// The key named by `input`.
    pub fn new(input: &str) -> (r: MatcherKey)
        ensures
            key_view(r) == spec_matcher_key(input@),
    {
        if str_eq_str(input, "body") {
            let essence: String = "text/plain".to_owned();
            return MatcherKey::BodyMatcher(Some(essence));
        }
        if str_starts_with(input, "body.") {
            let n: usize = input.unicode_len();
            proof {
                vstd::prelude::reveal_strlit("body.");
                assert(input@.skip(5) =~= input@.subrange(5, input@.len() as int));
            }
            let sub: &str = input.substring_char(5, n);
            return match mime_parse_str(sub) {
                Some(ct) => MatcherKey::BodyMatcher(Some(ct.mime_type)),
                None => MatcherKey::BodyMatcher(None),
            };
        }
        MatcherKey::HeaderMatcher(input.to_owned())
    }

    /// Whether this key names `header`'s key, up to ASCII case.
    pub fn is_header(&self, header: &Header) -> (r: bool)
        ensures
            r == key_model_is_header(key_view(*self), header.key@),
    {
        match self {
            MatcherKey::HeaderMatcher(key) => str_eq_ignore_case(header.key.as_str(), key.as_str()),
            MatcherKey::BodyMatcher(_) => false,
        }
    }
}

/// A single `key <op> value` predicate of the filter language.
#[derive(Debug, PartialEq, Eq)]
pub struct Matcher {
    pub key: MatcherKey,
    pub value_matcher: ValueMatcher,
}

/// A matcher in mathematical form.
pub ghost struct MatcherModel {
    pub key: MatcherKeyModel,
    pub value_matcher: ValueMatcherModel,
}

/// The image of a matcher.
pub open spec fn matcher_view(m: Matcher) -> MatcherModel {
    MatcherModel { key: key_view(m.key), value_matcher: vm_view(m.value_matcher) }
}

/// Whether a matcher mentions a header with the given key.
pub open spec fn matcher_includes_header(m: Matcher, hkey: Seq<char>) -> bool {
    key_model_is_header(key_view(m.key), hkey)
}

/// Whether a mail satisfies a matcher: a header matcher holds where some
/// header has the matcher's name and a satisfying value; a body matcher
/// holds where the selected part exists, decodes, and satisfies the
/// comparison.
pub open spec fn matcher_model_matches(m: MatcherModel, mail: MailModel) -> bool {
    match m.key {
        MatcherKeyModel::BodyMatcher(_) => match key_body_lookup(m.key, mail.body) {
            Some(text) => vm_model_matches(m.value_matcher, text),
            None => false,
        },
        MatcherKeyModel::HeaderMatcher(_) => exists|i: int|
            0 <= i < mail.headers.len() && key_model_is_header(
                m.key,
                #[trigger] mail.headers[i].0,
            ) && vm_model_matches(m.value_matcher, mail.headers[i].1),
    }
}

/// Whether `mail` satisfies the matcher `m`.
pub open spec fn matcher_matches(m: Matcher, mail: MailModel) -> bool {
    matcher_model_matches(matcher_view(m), mail)
}

impl Matcher {
    /// Whether this matcher mentions `header`'s key.
    pub fn includes_header(&self, header: &Header) -> (r: bool)
        ensures
            r == matcher_includes_header(*self, header.key@),
    {
        self.key.is_header(header)
    }

    /// Whether `mail` satisfies this matcher.
    pub fn matches(&self, mail: &Mail) -> (r: bool)
        ensures
            r == matcher_matches(*self, mail@),
    {
        match &self.key {
            MatcherKey::BodyMatcher(_) => self.matches_body(&mail.body),
            MatcherKey::HeaderMatcher(_) => {
                let r: bool = self.matches_header(&mail.headers);
                proof {
                    let mk = key_view(self.key);
                    let vmv = vm_view(self.value_matcher);
                    let hs = mail.headers@;
                    let hm = mail@.headers;
                    if r {
                        let i = choose|i: int|
                            0 <= i < hs.len() && key_model_is_header(mk, #[trigger] hs[i].key@)
                                && vm_matches(self.value_matcher, hs[i].value@);
                        assert(hm[i].0 == hs[i].key@ && hm[i].1 == hs[i].value@);
                        assert(matcher_model_matches(matcher_view(*self), mail@));
                    } else {
                        if matcher_model_matches(matcher_view(*self), mail@) {
                            let i = choose|i: int|
                                0 <= i < hm.len() && key_model_is_header(mk, #[trigger] hm[i].0)
                                    && vm_model_matches(vmv, hm[i].1);
                            assert(hm[i].0 == hs[i].key@ && hm[i].1 == hs[i].value@);
                            assert(key_model_is_header(mk, hs[i].key@) && vm_matches(
                                self.value_matcher,
                                hs[i].value@,
                            ));
                            assert(false);
                        }
                    }
                }
                r
            },
        }
    }

    /// Whether the body part this matcher's key selects satisfies the
    /// comparison.
    fn matches_body(&self, body: &Vec<crate::mail::BodyPart>) -> (r: bool)
        requires
            self.key is BodyMatcher,
        ensures
            r == (match key_body_lookup(key_view(self.key), crate::mail::parts_view(body@)) {
                Some(text) => vm_matches(self.value_matcher, text),
                None => false,
            }),
    {
        match &self.key {
            MatcherKey::BodyMatcher(Some(essence)) => {
                let i: usize = crate::mail::find_part(body, essence);
                if i < body.len() {
                    match crate::text::bytes_as_str(body[i].content.as_slice()) {
                        Some(text) => self.value_matcher.matches(text),
                        None => false,
                    }
                } else {
                    false
                }
            },
            MatcherKey::BodyMatcher(None) => false,
            MatcherKey::HeaderMatcher(_) => false,
        }
    }

    /// Whether some header has this matcher's name and a satisfying value.
    fn matches_header(&self, headers: &Vec<Header>) -> (r: bool)
        ensures
            r == exists|i: int|
                0 <= i < headers@.len() && key_model_is_header(
                    key_view(self.key),
                    #[trigger] headers@[i].key@,
                ) && vm_matches(self.value_matcher, headers@[i].value@),
    {
        let n: usize = headers.len();
        let mut i: usize = 0;
        while i < n
            invariant
                n == headers@.len(),
                i <= n,
                forall|j: int|
                    0 <= j < i ==> !(key_model_is_header(
                        key_view(self.key),
                        #[trigger] headers@[j].key@,
                    ) && vm_matches(self.value_matcher, headers@[j].value@)),
            decreases n - i,
        {
            if self.key.is_header(&headers[i]) && self.value_matcher.matches(
                headers[i].value.as_str(),
            ) {
                return true;
            }
            i = i + 1;
        }
        false
    }
}

/// The recursive filter expression: a single matcher, or a matcher joined
/// to the rest of the expression by `or` or `and`. Chains associate to the
/// right with no precedence between the two connectives.
#[derive(Debug, PartialEq, Eq)]
pub enum Expression {
    Matcher(Matcher),
    Or(Matcher, Box<Expression>),
    And(Matcher, Box<Expression>),
}

/// Whether `mail` satisfies the expression: `or` succeeds where either
/// side does, `and` where both do.
pub open spec fn expr_matches(e: Expression, mail: MailModel) -> bool
    decreases e,
{
    match e {
        Expression::Matcher(m) => matcher_matches(m, mail),
        Expression::Or(m, rest) => matcher_matches(m, mail) || expr_matches(*rest, mail),
        Expression::And(m, rest) => matcher_matches(m, mail) && expr_matches(*rest, mail),
    }
}

/// Whether any matcher of the expression mentions a header with the given
/// key.
pub open spec fn expr_includes_header(e: Expression, hkey: Seq<char>) -> bool
    decreases e,
{
    match e {
        Expression::Matcher(m) => matcher_includes_header(m, hkey),
        Expression::Or(m, rest) => matcher_includes_header(m, hkey) || expr_includes_header(
            *rest,
            hkey,
        ),
        Expression::And(m, rest) => matcher_includes_header(m, hkey) || expr_includes_header(
            *rest,
            hkey,
        ),
    }
}

impl Expression {
    /// Whether any matcher of this expression mentions `header`'s key.
    pub fn includes_header(&self, header: &Header) -> (r: bool)
        ensures
            r == expr_includes_header(*self, header.key@),
        decreases *self,
    {
        match self {
            Expression::Matcher(matcher) => matcher.includes_header(header),
            Expression::Or(matcher, expression) => matcher.includes_header(header)
                || expression.includes_header(header),
            Expression::And(matcher, expression) => matcher.includes_header(header)
                || expression.includes_header(header),
        }
    }

    /// Whether `mail` satisfies this expression.
    pub fn matches(&self, mail: &Mail) -> (r: bool)
        ensures
            r == expr_matches(*self, mail@),
        decreases *self,
    {
        match self {
            Expression::Matcher(matcher) => matcher.matches(mail),
            Expression::Or(matcher, expression) => matcher.matches(mail) || expression.matches(
                mail,
            ),
            Expression::And(matcher, expression) => matcher.matches(mail) && expression.matches(
                mail,
            ),
        }
    }
}

/// A compiled filter: an expression, or nothing, which is the universal
/// filter that matches every mail.
#[derive(Debug, PartialEq, Eq)]
pub struct Filter {
    pub expression: Option<Expression>,
}

/// Whether `mail` passes the filter; the empty filter passes everything.
pub open spec fn filter_matches(f: Filter, mail: MailModel) -> bool {
    match f.expression {
        Some(e) => expr_matches(e, mail),
        None => true,
    }
}

/// Whether the filter mentions a header with the given key; the empty
/// filter is taken to mention every header.
pub open spec fn filter_includes_header(f: Filter, hkey: Seq<char>) -> bool {
    match f.expression {
        Some(e) => expr_includes_header(e, hkey),
        None => true,
    }
}

impl Filter {
    /// Whether this filter mentions `header`'s key at all.
    pub fn includes_header(&self, header: &Header) -> (r: bool)
        ensures
            r == filter_includes_header(*self, header.key@),
    {
        match &self.expression {
            Some(e) => e.includes_header(header),
            None => true,
        }
    }

    /// Whether `mail` passes this filter; a filter with no expression
    /// passes every mail.
    pub fn matches(&self, mail: &Mail) -> (r: bool)
        ensures
            r == filter_matches(*self, mail@),
            self.expression is None ==> r,
    {
        match &self.expression {
            Some(e) => e.matches(mail),
            None => true,
        }
    }
}

/// The empty filter matches every mail and is taken to mention every
/// header key.
pub proof fn lemma_empty_filter_universal(mail: MailModel, hkey: Seq<char>)
    ensures
        filter_matches(Filter { expression: None }, mail),
        filter_includes_header(Filter { expression: None }, hkey),
{
}

/// An empty header list never satisfies a header matcher.
pub proof fn lemma_empty_headers_never_match(m: Matcher, mail: MailModel)
    requires
        mail.headers.len() == 0,
        m.key is HeaderMatcher,
    ensures
        !matcher_matches(m, mail),
{
}

proof fn lemma_expr_includes_header_key_only(e: Expression, k1: Seq<char>, k2: Seq<char>)
    requires
        seq_lower(k1) == seq_lower(k2),
    ensures
        expr_includes_header(e, k1) == expr_includes_header(e, k2),
    decreases e,
{
    match e {
        Expression::Matcher(m) => {},
        Expression::Or(m, rest) => {
            lemma_expr_includes_header_key_only(*rest, k1, k2);
        },
        Expression::And(m, rest) => {
            lemma_expr_includes_header_key_only(*rest, k1, k2);
        },
    }
}

/// Whether a filter mentions a header depends on the header's key alone,
/// and only up to ASCII case: its value is never consulted.
pub proof fn lemma_includes_header_key_only(f: Filter, k1: Seq<char>, k2: Seq<char>)
    requires
        seq_lower(k1) == seq_lower(k2),
    ensures
        filter_includes_header(f, k1) == filter_includes_header(f, k2),
{
    match f.expression {
        Some(e) => lemma_expr_includes_header_key_only(e, k1, k2),
        None => {},
    }
}

} // verus!
