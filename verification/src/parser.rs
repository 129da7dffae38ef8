//! The filter query grammar and its parser.
//!
//! A query is an expression; an expression is a matcher, optionally
//! followed by whitespace, the keyword `and` or `or` in any letter case,
//! whitespace, and another expression — so chains associate to the right
//! with no precedence between the two keywords. A matcher is an alphabetic
//! key followed by an operator and its argument: `=~` and `!~` take a
//! `/.../` regex literal, `^=`, `$=`, `!=` and `=` take an alphanumeric
//! run or a quoted string. Two-character operators are tried before `=`.
use vstd::prelude::*;
use crate::filter::{
    expr_matches, matcher_model_matches, matcher_view, regex_check, regex_wf, Expression, Filter,
    Matcher, MatcherKey, MatcherModel, ValueMatcher, ValueMatcherModel,
};
use crate::mail::MailModel;
use crate::text::{
    char_is_alnum, char_is_alpha, char_is_space, chars_to_string_range, is_alnum_char,
    is_alpha_char, is_space_char, lower_u32, seq_lower, str_to_chars,
};

verus! {

/// The outcome of one grammar production: a parse with its end position,
/// a fatally malformed regex pattern, or no parse at this position.
pub ghost enum Parsed<T> {
    Found(T, int),
    Invalid(Seq<char>),
    Missing,
}

/// Why a query was rejected.
#[derive(Debug, PartialEq, Eq)]
pub enum FilterError {
    /// No grammar alternative matches; carries the unconsumed remainder.
    Syntax(String),
    /// A regex literal fails grammar validation; carries the pattern.
    InvalidRegex(String),
}

/// A parse failure inside the grammar: backtrack to the next alternative,
/// or abort on a malformed regex pattern.
enum PFail {
    Back,
    Bad(String),
}

/// Hexadecimal digits.
pub open spec fn is_hex_char(c: char) -> bool {
    (48 <= c as u32 && c as u32 <= 57) || (97 <= c as u32 && c as u32 <= 102) || (65 <= c as u32
        && c as u32 <= 70)
}

/// The value of one hexadecimal digit.
pub open spec fn hex_digit_val(c: char) -> int {
    if 48 <= c as u32 && c as u32 <= 57 {
        c as u32 - 48
    } else if 97 <= c as u32 && c as u32 <= 102 {
        c as u32 - 87
    } else if 65 <= c as u32 && c as u32 <= 70 {
        c as u32 - 55
    } else {
        0
    }
}

/// The value of a run of hexadecimal digits.
pub open spec fn hex_val(s: Seq<char>) -> int
    decreases s.len(),
{
    if s.len() == 0 {
        0
    } else {
        hex_val(s.drop_last()) * 16 + hex_digit_val(s.last())
    }
}

/// Sixteen to the power `n`.
pub open spec fn pow16(n: nat) -> int
    decreases n,
{
    if n == 0 {
        1
    } else {
        16 * pow16((n - 1) as nat)
    }
}

/// The first position at or after `i` without an alphabetic character.
pub open spec fn alpha_scan(s: Seq<char>, i: int) -> int
    decreases s.len() - i,
{
    if i < 0 || i >= s.len() || !is_alpha_char(s[i]) {
        i
    } else {
        alpha_scan(s, i + 1)
    }
}

/// The first position at or after `i` without an alphanumeric character.
pub open spec fn alnum_scan(s: Seq<char>, i: int) -> int
    decreases s.len() - i,
{
    if i < 0 || i >= s.len() || !is_alnum_char(s[i]) {
        i
    } else {
        alnum_scan(s, i + 1)
    }
}

/// The first position at or after `i` without a whitespace character.
pub open spec fn space_scan(s: Seq<char>, i: int) -> int
    decreases s.len() - i,
{
    if i < 0 || i >= s.len() || !is_space_char(s[i]) {
        i
    } else {
        space_scan(s, i + 1)
    }
}

/// The first position at or after `i` without a hexadecimal digit.
pub open spec fn hex_scan(s: Seq<char>, i: int) -> int
    decreases s.len() - i,
{
    if i < 0 || i >= s.len() || !is_hex_char(s[i]) {
        i
    } else {
        hex_scan(s, i + 1)
    }
}

/// The character denoted by a single-character escape.
pub open spec fn escaped_char_of(c: char) -> char {
    if c == 'n' {
        '\n'
    } else if c == 'r' {
        '\r'
    } else if c == 't' {
        '\t'
    } else if c == 'b' {
        '\u{08}'
    } else if c == 'f' {
        '\u{0C}'
    } else {
        c
    }
}

/// The decoded content of a quoted string read from position `i`, just
/// inside the opening quote, together with the position after the closing
/// quote. Characters stand for themselves; a backslash escapes the quote,
/// the backslash, the slash, the letters `n r t b f`, a `u{...}` code
/// point of one to six hexadecimal digits, or a run of whitespace, which
/// is dropped. Anything else, including an unclosed string, is no parse.
pub open spec fn quoted_body(s: Seq<char>, i: int) -> Option<(Seq<char>, int)>
    decreases s.len() - i,
{
    if i < 0 || i >= s.len() {
        None
    } else if s[i] == '"' {
        Some((Seq::empty(), i + 1))
    } else if s[i] == '\\' {
        if i + 1 >= s.len() {
            None
        } else {
            let c = s[i + 1];
            if c == 'u' {
                if i + 2 < s.len() && s[i + 2] == '{' {
                    let h = hex_scan(s, i + 3);
                    let d = if h - (i + 3) > 6 {
                        6int
                    } else {
                        h - (i + 3)
                    };
                    if d >= 1 && i + 3 + d < s.len() && s[i + 3 + d] == '}' {
                        let v = hex_val(s.subrange(i + 3, i + 3 + d));
                        if v < 0xD800 || (0xDFFF < v && v <= 0x10FFFF) {
                            match quoted_body(s, i + 4 + d) {
                                Some((rest, end)) => Some((seq![(v as u32) as char] + rest, end)),
                                None => None,
                            }
                        } else {
                            None
                        }
                    } else {
                        None
                    }
                } else {
                    None
                }
            } else if c == 'n' || c == 'r' || c == 't' || c == 'b' || c == 'f' || c == '\\' || c
                == '/' || c == '"' {
                match quoted_body(s, i + 2) {
                    Some((rest, end)) => Some((seq![escaped_char_of(c)] + rest, end)),
                    None => None,
                }
            } else if is_space_char(c) {
                let j = space_scan(s, i + 1);
                if i + 1 < j && j <= s.len() {
                    quoted_body(s, j)
                } else {
                    None
                }
            } else {
                None
            }
        }
    } else {
        match quoted_body(s, i + 1) {
            Some((rest, end)) => Some((seq![s[i]] + rest, end)),
            None => None,
        }
    }
}

/// A quoted string at position `i`: an opening quote, then its body.
pub open spec fn spec_quoted_string(s: Seq<char>, i: int) -> Option<(Seq<char>, int)> {
    if 0 <= i && i < s.len() && s[i] == '"' {
        quoted_body(s, i + 1)
    } else {
        None
    }
}

/// A literal at position `i`: a non-empty alphanumeric run, or a quoted
/// string.
pub open spec fn spec_literal(s: Seq<char>, i: int) -> Option<(Seq<char>, int)> {
    let n = alnum_scan(s, i);
    if n > i {
        Some((s.subrange(i, n), n))
    } else {
        spec_quoted_string(s, i)
    }
}

/// The unescaped content of a regex literal read from position `i`, just
/// inside the opening slash, together with the position of its terminator:
/// the closing slash, or the end of the input. `\/` stands for a slash; a
/// backslash before anything else is no parse.
pub open spec fn regex_scan(s: Seq<char>, i: int) -> Option<(Seq<char>, int)>
    decreases s.len() - i,
{
    if i < 0 || i > s.len() {
        None
    } else if i == s.len() {
        Some((Seq::empty(), i))
    } else if s[i] == '/' {
        Some((Seq::empty(), i))
    } else if s[i] == '\\' {
        if i + 1 < s.len() && s[i + 1] == '/' {
            match regex_scan(s, i + 2) {
                Some((rest, stop)) => Some((seq!['/'] + rest, stop)),
                None => None,
            }
        } else {
            None
        }
    } else {
        match regex_scan(s, i + 1) {
            Some((rest, stop)) => Some((seq![s[i]] + rest, stop)),
            None => None,
        }
    }
}

/// A regex literal at position `i`: a slash, a non-empty body, and a
/// closing slash. A body that fails regex grammar validation is fatally
/// invalid; an empty or unterminated body is no parse.
pub open spec fn spec_regex(s: Seq<char>, i: int) -> Parsed<Seq<char>> {
    if 0 <= i && i < s.len() && s[i] == '/' {
        match regex_scan(s, i + 1) {
            Some((content, stop)) => {
                if content.len() == 0 {
                    Parsed::Missing
                } else if !regex_wf(content) {
                    Parsed::Invalid(content)
                } else if stop < s.len() && s[stop] == '/' {
                    Parsed::Found(content, stop + 1)
                } else {
                    Parsed::Missing
                }
            },
            None => Parsed::Missing,
        }
    } else {
        Parsed::Missing
    }
}

/// Whether the two characters `a`, `b` stand at position `i`.
pub open spec fn op2_at(s: Seq<char>, i: int, a: char, b: char) -> bool {
    0 <= i && i + 2 <= s.len() && s[i] == a && s[i + 1] == b
}

/// The operator and argument of a matcher at position `i`. The
/// two-character operators are tried before `=`; an arm whose argument
/// has no parse falls through to the later arms.
pub open spec fn spec_value_matcher(s: Seq<char>, i: int) -> Parsed<ValueMatcherModel> {
    if op2_at(s, i, '=', '~') && !(spec_regex(s, i + 2) is Missing) {
        match spec_regex(s, i + 2) {
            Parsed::Found(p, end) => Parsed::Found(ValueMatcherModel::Regex(p), end),
            Parsed::Invalid(p) => Parsed::Invalid(p),
            Parsed::Missing => Parsed::Missing,
        }
    } else if op2_at(s, i, '!', '~') && !(spec_regex(s, i + 2) is Missing) {
        match spec_regex(s, i + 2) {
            Parsed::Found(p, end) => Parsed::Found(ValueMatcherModel::NotRegex(p), end),
            Parsed::Invalid(p) => Parsed::Invalid(p),
            Parsed::Missing => Parsed::Missing,
        }
    } else if op2_at(s, i, '^', '=') && spec_literal(s, i + 2) is Some {
        let (v, end) = spec_literal(s, i + 2).unwrap();
        Parsed::Found(ValueMatcherModel::StartsWith(v), end)
    } else if op2_at(s, i, '$', '=') && spec_literal(s, i + 2) is Some {
        let (v, end) = spec_literal(s, i + 2).unwrap();
        Parsed::Found(ValueMatcherModel::EndsWith(v), end)
    } else if op2_at(s, i, '!', '=') && spec_literal(s, i + 2) is Some {
        let (v, end) = spec_literal(s, i + 2).unwrap();
        Parsed::Found(ValueMatcherModel::NotEqual(v), end)
    } else if 0 <= i && i < s.len() && s[i] == '=' && spec_literal(s, i + 1) is Some {
        let (v, end) = spec_literal(s, i + 1).unwrap();
        Parsed::Found(ValueMatcherModel::Exact(v), end)
    } else {
        Parsed::Missing
    }
}

/// A matcher at position `i`: a non-empty alphabetic key, then an
/// operator with its argument.
pub open spec fn spec_matcher(s: Seq<char>, i: int) -> Parsed<MatcherModel> {
    let n = alpha_scan(s, i);
    if n <= i {
        Parsed::Missing
    } else {
        match spec_value_matcher(s, n) {
            Parsed::Found(vm, end) => Parsed::Found(
                MatcherModel {
                    key: crate::filter::spec_matcher_key(s.subrange(i, n)),
                    value_matcher: vm,
                },
                end,
            ),
            Parsed::Invalid(p) => Parsed::Invalid(p),
            Parsed::Missing => Parsed::Missing,
        }
    }
}

/// Whether the keyword `kw` stands at position `i`, in any letter case.
pub open spec fn keyword_at(s: Seq<char>, i: int, kw: Seq<char>) -> bool {
    0 <= i && i + kw.len() <= s.len() && seq_lower(s.subrange(i, i + kw.len())) == seq_lower(kw)
}

/// An expression in mathematical form: the matchers of the right-leaning
/// chain, and the connectives between them, one fewer than the matchers.
#[verifier::ext_equal]
pub ghost struct ExprModel {
    pub matchers: Seq<MatcherModel>,
    pub connectives: Seq<ConnectiveModel>,
}

/// One connective of a chain.
pub ghost enum ConnectiveModel {
    AndOp,
    OrOp,
}

/// The image of an expression tree: its chain of matchers and
/// connectives, read off the right-leaning spine.
pub open spec fn expr_view(e: Expression) -> ExprModel
    decreases e,
{
    match e {
        Expression::Matcher(m) => ExprModel {
            matchers: seq![matcher_view(m)],
            connectives: Seq::empty(),
        },
        Expression::Or(m, rest) => {
            let r = expr_view(*rest);
            ExprModel {
                matchers: seq![matcher_view(m)] + r.matchers,
                connectives: seq![ConnectiveModel::OrOp] + r.connectives,
            }
        },
        Expression::And(m, rest) => {
            let r = expr_view(*rest);
            ExprModel {
                matchers: seq![matcher_view(m)] + r.matchers,
                connectives: seq![ConnectiveModel::AndOp] + r.connectives,
            }
        },
    }
}

/// An expression at position `i`: a matcher, continued by `and` or `or`
/// between whitespace and a further expression where one follows, and a
/// single matcher otherwise. A continuation whose right side has no parse
/// falls back to the single matcher; a fatally invalid regex anywhere
/// aborts the parse.
pub open spec fn spec_expression(s: Seq<char>, i: int) -> Parsed<ExprModel>
    decreases s.len() - i,
{
    match spec_matcher(s, i) {
        Parsed::Invalid(p) => Parsed::Invalid(p),
        Parsed::Missing => Parsed::Missing,
        Parsed::Found(m, n) => {
            if n <= i || n > s.len() {
                Parsed::Missing
            } else {
                let w = space_scan(s, n);
                if w > n && w <= s.len() && keyword_at(s, w, "and"@) && space_scan(s, w + 3) > w
                    + 3 && space_scan(s, w + 3) <= s.len() {
                    let w2 = space_scan(s, w + 3);
                    match spec_expression(s, w2) {
                        Parsed::Found(e, k) => Parsed::Found(
                            ExprModel {
                                matchers: seq![m] + e.matchers,
                                connectives: seq![ConnectiveModel::AndOp] + e.connectives,
                            },
                            k,
                        ),
                        Parsed::Invalid(p) => Parsed::Invalid(p),
                        Parsed::Missing => Parsed::Found(
                            ExprModel { matchers: seq![m], connectives: Seq::empty() },
                            n,
                        ),
                    }
                } else if w > n && w <= s.len() && keyword_at(s, w, "or"@) && space_scan(s, w + 2)
                    > w + 2 && space_scan(s, w + 2) <= s.len() {
                    let w2 = space_scan(s, w + 2);
                    match spec_expression(s, w2) {
                        Parsed::Found(e, k) => Parsed::Found(
                            ExprModel {
                                matchers: seq![m] + e.matchers,
                                connectives: seq![ConnectiveModel::OrOp] + e.connectives,
                            },
                            k,
                        ),
                        Parsed::Invalid(p) => Parsed::Invalid(p),
                        Parsed::Missing => Parsed::Found(
                            ExprModel { matchers: seq![m], connectives: Seq::empty() },
                            n,
                        ),
                    }
                } else {
                    Parsed::Found(ExprModel { matchers: seq![m], connectives: Seq::empty() }, n)
                }
            }
        },
    }
}

/// Parsing is deterministic: the grammar gives one query one outcome, so
/// any two parses of the same query agree, and so do the expressions they
/// produce.
pub proof fn lemma_parse_deterministic(s: Seq<char>, r1: Parsed<ExprModel>, r2: Parsed<ExprModel>)
    requires
        r1 == spec_expression(s, 0),
        r2 == spec_expression(s, 0),
    ensures
        r1 == r2,
{
}

/// The index where the run of alphabetic characters beginning at `from`
/// ends.
fn scan_alpha(chars: &Vec<char>, from: usize) -> (r: usize)
    requires
        from <= chars@.len(),
    ensures
        from <= r <= chars@.len(),
        r == alpha_scan(chars@, from as int),
{
    let n: usize = chars.len();
    let mut i: usize = from;
    while i < n
        invariant
            from <= i <= n,
            n == chars@.len(),
            alpha_scan(chars@, from as int) == alpha_scan(chars@, i as int),
        ensures
            from <= i <= n,
            alpha_scan(chars@, from as int) == i,
        decreases n - i,
    {
        if !char_is_alpha(chars[i]) {
            break;
        }
        i = i + 1;
    }
    i
}

/// The index where the run of alphanumeric characters beginning at `from`
/// ends.
fn scan_alnum(chars: &Vec<char>, from: usize) -> (r: usize)
    requires
        from <= chars@.len(),
    ensures
        from <= r <= chars@.len(),
        r == alnum_scan(chars@, from as int),
{
    let n: usize = chars.len();
    let mut i: usize = from;
    while i < n
        invariant
            from <= i <= n,
            n == chars@.len(),
            alnum_scan(chars@, from as int) == alnum_scan(chars@, i as int),
        ensures
            from <= i <= n,
            alnum_scan(chars@, from as int) == i,
        decreases n - i,
    {
        if !char_is_alnum(chars[i]) {
            break;
        }
        i = i + 1;
    }
    i
}

/// The index where the run of whitespace beginning at `from` ends.
fn scan_space(chars: &Vec<char>, from: usize) -> (r: usize)
    requires
        from <= chars@.len(),
    ensures
        from <= r <= chars@.len(),
        r == space_scan(chars@, from as int),
{
    let n: usize = chars.len();
    let mut i: usize = from;
    while i < n
        invariant
            from <= i <= n,
            n == chars@.len(),
            space_scan(chars@, from as int) == space_scan(chars@, i as int),
        ensures
            from <= i <= n,
            space_scan(chars@, from as int) == i,
        decreases n - i,
    {
        if !char_is_space(chars[i]) {
            break;
        }
        i = i + 1;
    }
    i
}

/// The index where the run of hexadecimal digits beginning at `from` ends.
fn scan_hex(chars: &Vec<char>, from: usize) -> (r: usize)
    requires
        from <= chars@.len(),
    ensures
        from <= r <= chars@.len(),
        r == hex_scan(chars@, from as int),
{
    let n: usize = chars.len();
    let mut i: usize = from;
    while i < n
        invariant
            from <= i <= n,
            n == chars@.len(),
            hex_scan(chars@, from as int) == hex_scan(chars@, i as int),
        ensures
            from <= i <= n,
            hex_scan(chars@, from as int) == i,
        decreases n - i,
    {
        let c: char = chars[i];
        let u: u32 = c as u32;
        if !((48 <= u && u <= 57) || (97 <= u && u <= 102) || (65 <= u && u <= 70)) {
            break;
        }
        i = i + 1;
    }
    i
}

proof fn lemma_pow16_pos(n: nat)
    ensures
        pow16(n) >= 1,
    decreases n,
{
    if n > 0 {
        lemma_pow16_pos((n - 1) as nat);
    }
}

proof fn lemma_pow16_mono(a: nat, b: nat)
    requires
        a <= b,
    ensures
        pow16(a) <= pow16(b),
    decreases b,
{
    if a < b {
        lemma_pow16_mono(a, (b - 1) as nat);
        lemma_pow16_pos((b - 1) as nat);
    }
}

/// The value of one hexadecimal digit; zero for any other character.
fn hex_digit(c: char) -> (r: u32)
    ensures
        r as int == hex_digit_val(c),
        r <= 15,
{
    let u: u32 = c as u32;
    if 48 <= u && u <= 57 {
        u - 48
    } else if 97 <= u && u <= 102 {
        u - 87
    } else if 65 <= u && u <= 70 {
        u - 55
    } else {
        0
    }
}

/// The value of the run of hexadecimal digits from `from` to `to`.
fn hex_value(chars: &Vec<char>, from: usize, to: usize) -> (v: u32)
    requires
        from <= to <= chars@.len(),
        to - from <= 6,
    ensures
        v as int == hex_val(chars@.subrange(from as int, to as int)),
{
    proof {
        assert(pow16(5) == 1048576) by {
            reveal_with_fuel(pow16, 7);
        }
    }
    let mut acc: u32 = 0;
    let mut i: usize = from;
    proof {
        assert(chars@.subrange(from as int, from as int) =~= Seq::<char>::empty());
    }
    while i < to
        invariant
            from <= i <= to <= chars@.len(),
            to - from <= 6,
            acc as int == hex_val(chars@.subrange(from as int, i as int)),
            (acc as int) < pow16((i - from) as nat),
        decreases to - i,
    {
        let d: u32 = hex_digit(chars[i]);
        proof {
            lemma_pow16_mono((i - from) as nat, 5);
            assert(pow16(5) == 1048576) by {
                reveal_with_fuel(pow16, 7);
            }
            assert(chars@.subrange(from as int, i + 1).drop_last() =~= chars@.subrange(
                from as int,
                i as int,
            ));
            assert(chars@.subrange(from as int, i + 1).last() == chars@[i as int]);
        }
        acc = acc * 16 + d;
        i = i + 1;
    }
    acc
}

/// A `String` of `rest` with `c` put in front.
fn prepend_char(c: char, rest: String) -> (r: String)
    ensures
        r@ == seq![c] + rest@,
{
    let mut out: String = String::new();
    out.push(c);
    out.append(rest.as_str());
    proof {
        assert(out@ =~= seq![c] + rest@);
    }
    out
}

/// The character denoted by a single-character escape.
fn escaped_char_exec(c: char) -> (r: char)
    ensures
        r == escaped_char_of(c),
{
    if c == 'n' {
        '\n'
    } else if c == 'r' {
        '\r'
    } else if c == 't' {
        '\t'
    } else if c == 'b' {
        '\u{08}'
    } else if c == 'f' {
        '\u{0C}'
    } else {
        c
    }
}

/// The decoded body of a quoted string from position `i`, with the
/// position after the closing quote.
fn qbody(chars: &Vec<char>, i: usize) -> (r: Option<(String, usize)>)
    requires
        i <= chars@.len(),
    ensures
        match r {
            Some(p) => i <= p.1 <= chars@.len() && quoted_body(chars@, i as int) == Some(
                (p.0@, p.1 as int),
            ),
            None => quoted_body(chars@, i as int) is None,
        },
    decreases chars@.len() - i,
{
    if i >= chars.len() {
        return None;
    }
    let c: char = chars[i];
    if c == '"' {
        return Some((String::new(), i + 1));
    }
    if c != '\\' {
        return match qbody(chars, i + 1) {
            Some((rest, end)) => Some((prepend_char(c, rest), end)),
            None => None,
        };
    }
    if i + 1 >= chars.len() {
        return None;
    }
    let e: char = chars[i + 1];
    if e == 'u' {
        if !(i + 2 < chars.len()) {
            return None;
        }
        if chars[i + 2] != '{' {
            return None;
        }
        let h: usize = scan_hex(chars, i + 3);
        let run: usize = h - (i + 3);
        let d: usize = if run > 6 {
            6
        } else {
            run
        };
        if !(d >= 1 && i + 3 + d < chars.len()) {
            return None;
        }
        if chars[i + 3 + d] != '}' {
            return None;
        }
        let v: u32 = hex_value(chars, i + 3, i + 3 + d);
        match char::from_u32(v) {
            Some(ch) => {
                proof {
                    let vv = hex_val(chars@.subrange(i + 3, i + 3 + d));
                    assert(vv == v as int);
                    assert((vv as u32) == v);
                    vstd::utf8::char_u32_cast(ch, v);
                    assert(((vv as u32) as char) == ch);
                }
                match qbody(chars, i + 4 + d) {
                    Some((rest, end)) => Some((prepend_char(ch, rest), end)),
                    None => None,
                }
            },
            None => None,
        }
    } else if e == 'n' || e == 'r' || e == 't' || e == 'b' || e == 'f' || e == '\\' || e == '/'
        || e == '"' {
        match qbody(chars, i + 2) {
            Some((rest, end)) => Some((prepend_char(escaped_char_exec(e), rest), end)),
            None => None,
        }
    } else if char_is_space(e) {
        let j: usize = scan_space(chars, i + 1);
        if j > i + 1 {
            qbody(chars, j)
        } else {
            None
        }
    } else {
        None
    }
}

/// A quoted string at position `pos`: its decoded value and the position
/// after the closing quote.
fn p_quoted(chars: &Vec<char>, pos: usize) -> (r: Option<(String, usize)>)
    requires
        pos <= chars@.len(),
    ensures
        match r {
            Some(p) => pos <= p.1 <= chars@.len() && spec_quoted_string(chars@, pos as int)
                == Some((p.0@, p.1 as int)),
            None => spec_quoted_string(chars@, pos as int) is None,
        },
{
    if pos < chars.len() && chars[pos] == '"' {
        qbody(chars, pos + 1)
    } else {
        None
    }
}

/// A literal at position `pos`: an alphanumeric run or a quoted string.
fn p_literal(chars: &Vec<char>, pos: usize) -> (r: Option<(String, usize)>)
    requires
        pos <= chars@.len(),
    ensures
        match r {
            Some(p) => pos <= p.1 <= chars@.len() && spec_literal(chars@, pos as int) == Some(
                (p.0@, p.1 as int),
            ),
            None => spec_literal(chars@, pos as int) is None,
        },
{
    let a_end: usize = scan_alnum(chars, pos);
    if a_end > pos {
        Some((chars_to_string_range(chars, pos, a_end), a_end))
    } else {
        p_quoted(chars, pos)
    }
}

/// The unescaped content of a regex literal from position `i`, with the
/// position of its terminator.
fn rscan(chars: &Vec<char>, i: usize) -> (r: Option<(String, usize)>)
    requires
        i <= chars@.len(),
    ensures
        match r {
            Some(p) => i <= p.1 <= chars@.len() && regex_scan(chars@, i as int) == Some(
                (p.0@, p.1 as int),
            ),
            None => regex_scan(chars@, i as int) is None,
        },
    decreases chars@.len() - i,
{
    if i == chars.len() {
        return Some((String::new(), i));
    }
    let c: char = chars[i];
    if c == '/' {
        return Some((String::new(), i));
    }
    if c == '\\' {
        if i + 1 < chars.len() && chars[i + 1] == '/' {
            match rscan(chars, i + 2) {
                Some((rest, stop)) => Some((prepend_char('/', rest), stop)),
                None => None,
            }
        } else {
            None
        }
    } else {
        match rscan(chars, i + 1) {
            Some((rest, stop)) => Some((prepend_char(c, rest), stop)),
            None => None,
        }
    }
}

/// A regex literal at position `pos`: its unescaped pattern, validated
/// against the regex grammar, and the position after the closing slash.
fn p_regex(chars: &Vec<char>, pos: usize) -> (r: Result<(String, usize), PFail>)
    requires
        pos <= chars@.len(),
    ensures
        match r {
            Ok(p) => pos <= p.1 <= chars@.len() && spec_regex(chars@, pos as int)
                == Parsed::Found(p.0@, p.1 as int),
            Err(PFail::Back) => spec_regex(chars@, pos as int) is Missing,
            Err(PFail::Bad(p)) => spec_regex(chars@, pos as int) == Parsed::<Seq<char>>::Invalid(
                p@,
            ),
        },
{
    if !(pos < chars.len() && chars[pos] == '/') {
        return Err(PFail::Back);
    }
    match rscan(chars, pos + 1) {
        None => Err(PFail::Back),
        Some((content, stop)) => {
            if content.as_str().is_empty() {
                return Err(PFail::Back);
            }
            if !regex_check(content.as_str()) {
                return Err(PFail::Bad(content));
            }
            if stop < chars.len() && chars[stop] == '/' {
                Ok((content, stop + 1))
            } else {
                Err(PFail::Back)
            }
        },
    }
}

/// Whether the characters `a`, `b` stand at position `i`.
fn op2(chars: &Vec<char>, i: usize, a: char, b: char) -> (r: bool)
    requires
        i <= chars@.len(),
    ensures
        r == op2_at(chars@, i as int, a, b),
{
    if i < chars.len() && i + 1 < chars.len() {
        chars[i] == a && chars[i + 1] == b
    } else {
        false
    }
}

/// The operator and argument of a matcher at position `pos`.
fn p_value_matcher(chars: &Vec<char>, pos: usize) -> (r: Result<(ValueMatcher, usize), PFail>)
    requires
        pos <= chars@.len(),
    ensures
        match r {
            Ok(p) => pos <= p.1 <= chars@.len() && spec_value_matcher(chars@, pos as int)
                == Parsed::Found(crate::filter::vm_view(p.0), p.1 as int),
            Err(PFail::Back) => spec_value_matcher(chars@, pos as int) is Missing,
            Err(PFail::Bad(p)) => spec_value_matcher(chars@, pos as int) == Parsed::<
                ValueMatcherModel,
            >::Invalid(p@),
        },
{
    let n: usize = chars.len();
    if op2(chars, pos, '=', '~') {
        match p_regex(chars, pos + 2) {
            Ok((p, end)) => {
                return Ok((ValueMatcher::Regex(p), end));
            },
            Err(PFail::Bad(p)) => {
                return Err(PFail::Bad(p));
            },
            Err(PFail::Back) => {},
        }
    }
    if op2(chars, pos, '!', '~') {
        match p_regex(chars, pos + 2) {
            Ok((p, end)) => {
                return Ok((ValueMatcher::NotRegex(p), end));
            },
            Err(PFail::Bad(p)) => {
                return Err(PFail::Bad(p));
            },
            Err(PFail::Back) => {},
        }
    }
    if op2(chars, pos, '^', '=') {
        match p_literal(chars, pos + 2) {
            Some((v, end)) => {
                return Ok((ValueMatcher::StartsWith(v), end));
            },
            None => {},
        }
    }
    if op2(chars, pos, '$', '=') {
        match p_literal(chars, pos + 2) {
            Some((v, end)) => {
                return Ok((ValueMatcher::EndsWith(v), end));
            },
            None => {},
        }
    }
    if op2(chars, pos, '!', '=') {
        match p_literal(chars, pos + 2) {
            Some((v, end)) => {
                return Ok((ValueMatcher::NotEqual(v), end));
            },
            None => {},
        }
    }
    if pos < chars.len() && chars[pos] == '=' {
        match p_literal(chars, pos + 1) {
            Some((v, end)) => {
                return Ok((ValueMatcher::Exact(v), end));
            },
            None => {},
        }
    }
    Err(PFail::Back)
}

/// A matcher at position `pos`: its key and comparison, and the position
/// after them.
fn p_matcher(chars: &Vec<char>, pos: usize) -> (r: Result<(Matcher, usize), PFail>)
    requires
        pos <= chars@.len(),
    ensures
        match r {
            Ok(p) => pos < p.1 <= chars@.len() && spec_matcher(chars@, pos as int)
                == Parsed::Found(matcher_view(p.0), p.1 as int),
            Err(PFail::Back) => spec_matcher(chars@, pos as int) is Missing,
            Err(PFail::Bad(p)) => spec_matcher(chars@, pos as int) == Parsed::<
                MatcherModel,
            >::Invalid(p@),
        },
{
    let k_end: usize = scan_alpha(chars, pos);
    if k_end == pos {
        return Err(PFail::Back);
    }
    let key_str: String = chars_to_string_range(chars, pos, k_end);
    match p_value_matcher(chars, k_end) {
        Ok((vm, end)) => {
            let key: MatcherKey = MatcherKey::new(key_str.as_str());
            Ok((Matcher { key, value_matcher: vm }, end))
        },
        Err(f) => Err(f),
    }
}

/// Whether the keyword `and` stands at position `i`, in any letter case.
fn kw_and(chars: &Vec<char>, i: usize) -> (r: bool)
    requires
        i <= chars@.len(),
    ensures
        r == keyword_at(chars@, i as int, "and"@),
{
    proof {
        reveal_strlit("and");
    }
    let nn: usize = chars.len();
    if nn - i < 3 {
        return false;
    }
    let ok: bool = lower_code(chars[i]) == 97 && lower_code(chars[i + 1]) == 110 && lower_code(
        chars[i + 2],
    ) == 100;
    proof {
        let sub = chars@.subrange(i as int, i as int + 3);
        if ok {
            assert(seq_lower(sub) =~= seq_lower("and"@));
        } else {
            if seq_lower(sub) == seq_lower("and"@) {
                assert(lower_u32(chars@[i as int]) == seq_lower(sub)[0]);
                assert(lower_u32(chars@[i as int + 1]) == seq_lower(sub)[1]);
                assert(lower_u32(chars@[i as int + 2]) == seq_lower(sub)[2]);
                assert(false);
            }
        }
    }
    ok
}

/// Whether the keyword `or` stands at position `i`, in any letter case.
fn kw_or(chars: &Vec<char>, i: usize) -> (r: bool)
    requires
        i <= chars@.len(),
    ensures
        r == keyword_at(chars@, i as int, "or"@),
{
    proof {
        reveal_strlit("or");
    }
    let nn: usize = chars.len();
    if nn - i < 2 {
        return false;
    }
    let ok: bool = lower_code(chars[i]) == 111 && lower_code(chars[i + 1]) == 114;
    proof {
        let sub = chars@.subrange(i as int, i as int + 2);
        if ok {
            assert(seq_lower(sub) =~= seq_lower("or"@));
        } else {
            if seq_lower(sub) == seq_lower("or"@) {
                assert(lower_u32(chars@[i as int]) == seq_lower(sub)[0]);
                assert(lower_u32(chars@[i as int + 1]) == seq_lower(sub)[1]);
                assert(false);
            }
        }
    }
    ok
}

/// The ASCII code of `c` with an upper-case letter folded to lower case.
fn lower_code(c: char) -> (r: u32)
    ensures
        r == lower_u32(c),
{
    let u: u32 = c as u32;
    if 65 <= u && u <= 90 {
        u + 32
    } else {
        u
    }
}

/// An expression at position `pos`: a matcher, continued where `and` or
/// `or` between whitespace and a further expression follow.
#[verifier::rlimit(60)]
fn p_expression(chars: &Vec<char>, pos: usize) -> (r: Result<(Expression, usize), PFail>)
    requires
        pos <= chars@.len(),
    ensures
        match r {
            Ok(p) => pos < p.1 <= chars@.len() && spec_expression(chars@, pos as int)
                == Parsed::Found(expr_view(p.0), p.1 as int),
            Err(PFail::Back) => spec_expression(chars@, pos as int) is Missing,
            Err(PFail::Bad(p)) => spec_expression(chars@, pos as int) == Parsed::<
                ExprModel,
            >::Invalid(p@),
        },
    decreases chars@.len() - pos,
{
    proof {
        reveal_strlit("and");
        reveal_strlit("or");
    }
    let total: usize = chars.len();
    let (m, n) = match p_matcher(chars, pos) {
        Ok(p) => p,
        Err(f) => {
            return Err(f);
        },
    };
    let w: usize = scan_space(chars, n);
    if w > n && kw_and(chars, w) {
        let w2: usize = scan_space(chars, w + 3);
        if w2 > w + 3 {
            match p_expression(chars, w2) {
                Ok((e, end)) => {
                    return Ok((Expression::And(m, Box::new(e)), end));
                },
                Err(PFail::Bad(p)) => {
                    return Err(PFail::Bad(p));
                },
                Err(PFail::Back) => {
                    return Ok((Expression::Matcher(m), n));
                },
            }
        }
    }
    if w > n && kw_or(chars, w) {
        let w2: usize = scan_space(chars, w + 2);
        if w2 > w + 2 {
            match p_expression(chars, w2) {
                Ok((e, end)) => {
                    return Ok((Expression::Or(m, Box::new(e)), end));
                },
                Err(PFail::Bad(p)) => {
                    return Err(PFail::Bad(p));
                },
                Err(PFail::Back) => {
                    return Ok((Expression::Matcher(m), n));
                },
            }
        }
    }
    Ok((Expression::Matcher(m), n))
}

/// The expression parsed from the start of `input`, as a filter, together
/// with the unconsumed remainder; a syntax error carries the input, which
/// is untouched where no alternative matches, and a malformed regex
/// literal carries its pattern.
pub fn parse(input: &str) -> (r: Result<(String, Filter), FilterError>)
    ensures
        match r {
            Ok(p) => {
                &&& spec_expression(input@, 0) matches Parsed::Found(e, end)
                    && p.1.expression matches Some(ex) && expr_view(ex) == e && 0 <= end
                    <= input@.len() && p.0@ == input@.skip(end)
            },
            Err(FilterError::Syntax(rem)) => spec_expression(input@, 0) is Missing && rem@
                == input@,
            Err(FilterError::InvalidRegex(p)) => spec_expression(input@, 0) == Parsed::<
                ExprModel,
            >::Invalid(p@),
        },
{
    let chars: Vec<char> = str_to_chars(input);
    match p_expression(&chars, 0) {
        Ok((e, end)) => {
            let rem: String = chars_to_string_range(&chars, end, chars.len());
            proof {
                assert(chars@.skip(end as int) =~= chars@.subrange(
                    end as int,
                    chars@.len() as int,
                ));
            }
            Ok((rem, Filter { expression: Some(e) }))
        },
        Err(PFail::Back) => Err(FilterError::Syntax(input.to_owned())),
        Err(PFail::Bad(p)) => Err(FilterError::InvalidRegex(p)),
    }
}

impl Filter {
    /// The filter compiled from a query string: the empty query is the
    /// universal filter, and any other query is parsed as an expression,
    /// whose unconsumed remainder, if any, is ignored.
    pub fn from_query(input: &str) -> (r: Result<Filter, FilterError>)
        ensures
            input@.len() == 0 ==> (r matches Ok(f) && f.expression is None),
            input@.len() > 0 ==> match r {
                Ok(f) => spec_expression(input@, 0) matches Parsed::Found(e, end)
                    && f.expression matches Some(ex) && expr_view(ex) == e,
                Err(FilterError::Syntax(rem)) => spec_expression(input@, 0) is Missing && rem@
                    == input@,
                Err(FilterError::InvalidRegex(p)) => spec_expression(input@, 0) == Parsed::<
                    ExprModel,
                >::Invalid(p@),
            },
    {
        if input.is_empty() {
            return Ok(Filter { expression: None });
        }
        match parse(input) {
            Ok((_, f)) => Ok(f),
            Err(e) => Err(e),
        }
    }
}

/// The quoted string at the start of `input`: the unconsumed remainder
/// and the decoded value; `None` where the input does not begin with a
/// well-formed quoted string.
pub fn quoted_string(input: &str) -> (r: Option<(String, String)>)
    ensures
        match r {
            Some(p) => spec_quoted_string(input@, 0) matches Some((v, end)) && p.1@ == v && 0
                <= end <= input@.len() && p.0@ == input@.skip(end),
            None => spec_quoted_string(input@, 0) is None,
        },
{
    let chars: Vec<char> = str_to_chars(input);
    match p_quoted(&chars, 0) {
        Some((v, end)) => {
            let rem: String = chars_to_string_range(&chars, end, chars.len());
            proof {
                assert(chars@.skip(end as int) =~= chars@.subrange(
                    end as int,
                    chars@.len() as int,
                ));
            }
            Some((rem, v))
        },
        None => None,
    }
}

/// The regex literal at the start of `input`: the unconsumed remainder
/// and the unescaped pattern; a syntax error where none stands there, and
/// an invalid-regex error where the pattern fails grammar validation.
pub fn regex(input: &str) -> (r: Result<(String, String), FilterError>)
    ensures
        match r {
            Ok(p) => spec_regex(input@, 0) matches Parsed::Found(pat, end) && p.1@ == pat && 0
                <= end <= input@.len() && p.0@ == input@.skip(end),
            Err(FilterError::Syntax(rem)) => spec_regex(input@, 0) is Missing && rem@ == input@,
            Err(FilterError::InvalidRegex(pt)) => spec_regex(input@, 0) == Parsed::<
                Seq<char>,
            >::Invalid(pt@),
        },
{
    let chars: Vec<char> = str_to_chars(input);
    match p_regex(&chars, 0) {
        Ok((pat, end)) => {
            let rem: String = chars_to_string_range(&chars, end, chars.len());
            proof {
                assert(chars@.skip(end as int) =~= chars@.subrange(
                    end as int,
                    chars@.len() as int,
                ));
            }
            Ok((rem, pat))
        },
        Err(PFail::Back) => Err(FilterError::Syntax(input.to_owned())),
        Err(PFail::Bad(p)) => Err(FilterError::InvalidRegex(p)),
    }
}

/// `v` with every quote and backslash preceded by a backslash, so that it
/// can stand between quotes.
pub open spec fn quote_escaped_from(v: Seq<char>, i: int) -> Seq<char>
    decreases v.len() - i,
{
    if i < 0 || i >= v.len() {
        Seq::empty()
    } else {
        (if v[i] == '"' || v[i] == '\\' {
            seq!['\\', v[i]]
        } else {
            seq![v[i]]
        }) + quote_escaped_from(v, i + 1)
    }
}

/// `p` with every slash preceded by a backslash, so that it can stand
/// between the slashes of a regex literal.
pub open spec fn slash_escaped_from(p: Seq<char>, i: int) -> Seq<char>
    decreases p.len() - i,
{
    if i < 0 || i >= p.len() {
        Seq::empty()
    } else {
        (if p[i] == '/' {
            seq!['\\', '/']
        } else {
            seq![p[i]]
        }) + slash_escaped_from(p, i + 1)
    }
}

/// The canonical text of a key: the header name, or the word `body`.
pub open spec fn canon_key(k: crate::filter::MatcherKeyModel) -> Seq<char> {
    match k {
        crate::filter::MatcherKeyModel::HeaderMatcher(name) => name,
        crate::filter::MatcherKeyModel::BodyMatcher(_) => seq!['b', 'o', 'd', 'y'],
    }
}

/// The canonical text of a comparison: its operator, and its argument as
/// a quoted string or an escaped regex literal.
pub open spec fn canon_vm(m: ValueMatcherModel) -> Seq<char> {
    match m {
        ValueMatcherModel::Exact(v) => seq!['='] + quoted_text(v),
        ValueMatcherModel::StartsWith(v) => seq!['^', '='] + quoted_text(v),
        ValueMatcherModel::EndsWith(v) => seq!['$', '='] + quoted_text(v),
        ValueMatcherModel::NotEqual(v) => seq!['!', '='] + quoted_text(v),
        ValueMatcherModel::Regex(p) => seq!['=', '~', '/'] + slash_escaped_from(p, 0) + seq!['/'],
        ValueMatcherModel::NotRegex(p) => seq!['!', '~', '/'] + slash_escaped_from(p, 0)
            + seq!['/'],
    }
}

/// An escaped value between quotes.
pub open spec fn quoted_text(v: Seq<char>) -> Seq<char> {
    seq!['"'] + quote_escaped_from(v, 0) + seq!['"']
}

/// The canonical text of one matcher: its key, then its comparison.
pub open spec fn canon_matcher(m: MatcherModel) -> Seq<char> {
    canon_key(m.key) + canon_vm(m.value_matcher)
}

/// The canonical text of a connective, with the surrounding spaces.
pub open spec fn conn_text(c: ConnectiveModel) -> Seq<char> {
    match c {
        ConnectiveModel::AndOp => seq![' ', 'a', 'n', 'd', ' '],
        ConnectiveModel::OrOp => seq![' ', 'o', 'r', ' '],
    }
}

/// The canonical text of an expression chain: its matchers joined by its
/// connectives.
pub open spec fn canon_chain(matchers: Seq<MatcherModel>, conns: Seq<ConnectiveModel>) -> Seq<
    char,
>
    decreases matchers.len(),
{
    if matchers.len() == 0 {
        Seq::empty()
    } else if matchers.len() == 1 || conns.len() == 0 {
        canon_matcher(matchers[0])
    } else {
        canon_matcher(matchers[0]) + conn_text(conns[0]) + canon_chain(
            matchers.drop_first(),
            conns.drop_first(),
        )
    }
}

/// The canonical string form of a filter: the empty string for the
/// universal filter, and the rendered expression chain otherwise.
pub open spec fn spec_canonical_filter(f: Filter) -> Seq<char> {
    match f.expression {
        Some(e) => canon_chain(expr_view(e).matchers, expr_view(e).connectives),
        None => Seq::empty(),
    }
}

/// One query has one parse, so the canonical string form of what a query
/// parses to is a function of the query alone: two parses of the same
/// query render identically.
pub proof fn lemma_canonical_form_deterministic(s: Seq<char>, f1: Filter, f2: Filter)
    requires
        f1.expression matches Some(e1) && spec_expression(s, 0) matches Parsed::Found(m, n) && m
            == expr_view(e1),
        f2.expression matches Some(e2) && spec_expression(s, 0) matches Parsed::Found(m, n) && m
            == expr_view(e2),
    ensures
        spec_canonical_filter(f1) == spec_canonical_filter(f2),
{
}

/// `v` with quotes and backslashes escaped.
fn escape_quoted(v: &str) -> (r: String)
    ensures
        r@ == quote_escaped_from(v@, 0),
{
    let chars: Vec<char> = str_to_chars(v);
    let n: usize = chars.len();
    let mut out: String = String::new();
    let mut i: usize = 0;
    while i < n
        invariant
            chars@ == v@,
            n == v@.len(),
            i <= n,
            out@ + quote_escaped_from(v@, i as int) == quote_escaped_from(v@, 0),
        decreases n - i,
    {
        let c: char = chars[i];
        if c == '"' || c == '\\' {
            out.push('\\');
            out.push(c);
        } else {
            out.push(c);
        }
        proof {
            assert(out@ + quote_escaped_from(v@, i + 1) =~= quote_escaped_from(v@, 0));
        }
        i = i + 1;
    }
    proof {
        assert(out@ + quote_escaped_from(v@, n as int) =~= out@);
    }
    out
}

/// `p` with slashes escaped.
fn escape_regex(p: &str) -> (r: String)
    ensures
        r@ == slash_escaped_from(p@, 0),
{
    let chars: Vec<char> = str_to_chars(p);
    let n: usize = chars.len();
    let mut out: String = String::new();
    let mut i: usize = 0;
    while i < n
        invariant
            chars@ == p@,
            n == p@.len(),
            i <= n,
            out@ + slash_escaped_from(p@, i as int) == slash_escaped_from(p@, 0),
        decreases n - i,
    {
        let c: char = chars[i];
        if c == '/' {
            out.push('\\');
            out.push('/');
        } else {
            out.push(c);
        }
        proof {
            assert(out@ + slash_escaped_from(p@, i + 1) =~= slash_escaped_from(p@, 0));
        }
        i = i + 1;
    }
    proof {
        assert(out@ + slash_escaped_from(p@, n as int) =~= out@);
    }
    out
}

/// The canonical text of one matcher.
fn render_matcher(m: &Matcher) -> (r: String)
    ensures
        r@ == canon_matcher(matcher_view(*m)),
{
    let mut out: String = match &m.key {
        MatcherKey::HeaderMatcher(name) => name.clone(),
        MatcherKey::BodyMatcher(_) => {
            let mut k: String = String::new();
            k.push('b');
            k.push('o');
            k.push('d');
            k.push('y');
            k
        },
    };
    proof {
        assert(out@ =~= canon_key(crate::filter::key_view(m.key)));
    }
    match &m.value_matcher {
        ValueMatcher::Exact(v) => {
            out.push('=');
            push_quoted(&mut out, v.as_str());
        },
        ValueMatcher::StartsWith(v) => {
            out.push('^');
            out.push('=');
            push_quoted(&mut out, v.as_str());
        },
        ValueMatcher::EndsWith(v) => {
            out.push('$');
            out.push('=');
            push_quoted(&mut out, v.as_str());
        },
        ValueMatcher::NotEqual(v) => {
            out.push('!');
            out.push('=');
            push_quoted(&mut out, v.as_str());
        },
        ValueMatcher::Regex(p) => {
            out.push('=');
            out.push('~');
            out.push('/');
            out.append(escape_regex(p.as_str()).as_str());
            out.push('/');
        },
        ValueMatcher::NotRegex(p) => {
            out.push('!');
            out.push('~');
            out.push('/');
            out.append(escape_regex(p.as_str()).as_str());
            out.push('/');
        },
    }
    proof {
        assert(out@ =~= canon_matcher(matcher_view(*m)));
    }
    out
}

/// Appends `v` as a quoted, escaped string.
fn push_quoted(out: &mut String, v: &str)
    ensures
        final(out)@ == old(out)@ + quoted_text(v@),
{
    out.push('"');
    out.append(escape_quoted(v).as_str());
    out.push('"');
    proof {
        assert(final(out)@ =~= old(out)@ + quoted_text(v@));
    }
}

impl Expression {
    /// The canonical text of this expression: its matchers joined by its
    /// connectives, with quoted values and escaped regex literals.
    pub fn canonical_query(&self) -> (r: String)
        ensures
            r@ == canon_chain(expr_view(*self).matchers, expr_view(*self).connectives),
        decreases *self,
    {
        match self {
            Expression::Matcher(m) => {
                let r = render_matcher(m);
                proof {
                    assert(r@ =~= canon_chain(
                        expr_view(*self).matchers,
                        expr_view(*self).connectives,
                    ));
                }
                r
            },
            Expression::And(m, rest) => {
                let mut out: String = render_matcher(m);
                out.push(' ');
                out.push('a');
                out.push('n');
                out.push('d');
                out.push(' ');
                out.append(rest.canonical_query().as_str());
                proof {
                    let em = expr_view(*self);
                    let rm = expr_view(**rest);
                    assert(em.matchers.drop_first() =~= rm.matchers);
                    assert(em.connectives.drop_first() =~= rm.connectives);
                    assert(out@ =~= canon_chain(em.matchers, em.connectives));
                }
                out
            },
            Expression::Or(m, rest) => {
                let mut out: String = render_matcher(m);
                out.push(' ');
                out.push('o');
                out.push('r');
                out.push(' ');
                out.append(rest.canonical_query().as_str());
                proof {
                    let em = expr_view(*self);
                    let rm = expr_view(**rest);
                    assert(em.matchers.drop_first() =~= rm.matchers);
                    assert(em.connectives.drop_first() =~= rm.connectives);
                    assert(out@ =~= canon_chain(em.matchers, em.connectives));
                }
                out
            },
        }
    }
}

impl Filter {
    /// The canonical string form of this filter: empty for the universal
    /// filter.
    pub fn canonical_query(&self) -> (r: String)
        ensures
            r@ == spec_canonical_filter(*self),
    {
        match &self.expression {
            Some(e) => e.canonical_query(),
            None => String::new(),
        }
    }
}

/// How a chain of matchers and connectives is evaluated: the first
/// connective joins the first matcher with the value of all the rest, so
/// the whole reads as a right fold with no precedence between `and` and
/// `or`.
pub open spec fn chain_matches(
    matchers: Seq<MatcherModel>,
    conns: Seq<ConnectiveModel>,
    mail: MailModel,
) -> bool
    decreases matchers.len(),
{
    if matchers.len() == 0 {
        true
    } else if matchers.len() == 1 || conns.len() == 0 {
        matcher_model_matches(matchers[0], mail)
    } else {
        match conns[0] {
            ConnectiveModel::AndOp => matcher_model_matches(matchers[0], mail) && chain_matches(
                matchers.drop_first(),
                conns.drop_first(),
                mail,
            ),
            ConnectiveModel::OrOp => matcher_model_matches(matchers[0], mail) || chain_matches(
                matchers.drop_first(),
                conns.drop_first(),
                mail,
            ),
        }
    }
}

/// Connectives associate strictly to the right: an expression matches a
/// mail exactly as the right fold of its chain of matchers and
/// connectives, so `a and b or c` reads as `a and (b or c)`.
pub proof fn lemma_right_fold(e: Expression, mail: MailModel)
    ensures
        expr_matches(e, mail) == chain_matches(
            expr_view(e).matchers,
            expr_view(e).connectives,
            mail,
        ),
    decreases e,
{
    match e {
        Expression::Matcher(m) => {},
        Expression::Or(m, rest) => {
            lemma_right_fold(*rest, mail);
            assert(expr_view(e).matchers.drop_first() =~= expr_view(*rest).matchers);
            assert(expr_view(e).connectives.drop_first() =~= expr_view(*rest).connectives);
        },
        Expression::And(m, rest) => {
            lemma_right_fold(*rest, mail);
            assert(expr_view(e).matchers.drop_first() =~= expr_view(*rest).matchers);
            assert(expr_view(e).connectives.drop_first() =~= expr_view(*rest).connectives);
        },
    }
}

proof fn lemma_quoted_body_of_rendered(s: Seq<char>, i: int, v: Seq<char>, j: int)
    requires
        0 <= j <= v.len(),
        0 <= i,
        i + quote_escaped_from(v, j).len() + 1 <= s.len(),
        s.subrange(i, i + quote_escaped_from(v, j).len() + 1) == quote_escaped_from(v, j)
            + seq!['"'],
    ensures
        quoted_body(s, i) == Some((v.skip(j), i + quote_escaped_from(v, j).len() + 1)),
    decreases v.len() - j,
{
    let esc = quote_escaped_from(v, j);
    let given = s.subrange(i, i + esc.len() + 1);
    if j == v.len() {
        assert(esc.len() == 0);
        assert(s[i] == given[0]);
        assert(s[i] == '"');
        assert(v.skip(j) =~= Seq::<char>::empty());
    } else {
        let esc1 = quote_escaped_from(v, j + 1);
        if v[j] == '"' || v[j] == '\\' {
            assert(esc == seq!['\\', v[j]] + esc1);
            assert(s[i] == given[0] && s[i + 1] == given[1]);
            assert(s[i] == '\\' && s[i + 1] == v[j]);
            assert(s.subrange(i + 2, i + 2 + esc1.len() + 1) =~= esc1 + seq!['"']) by {
                assert forall|k: int| 0 <= k < esc1.len() + 1 implies s[i + 2 + k] == (esc1
                    + seq!['"'])[k] by {
                    assert(s[i + 2 + k] == given[2 + k]);
                }
            }
            lemma_quoted_body_of_rendered(s, i + 2, v, j + 1);
            assert(v[j] != 'u' && !is_space_char(v[j]));
            assert(escaped_char_of(v[j]) == v[j]);
            assert(seq![v[j]] + v.skip(j + 1) =~= v.skip(j));
        } else {
            assert(esc == seq![v[j]] + esc1);
            assert(s[i] == given[0]);
            assert(s[i] == v[j]);
            assert(s.subrange(i + 1, i + 1 + esc1.len() + 1) =~= esc1 + seq!['"']) by {
                assert forall|k: int| 0 <= k < esc1.len() + 1 implies s[i + 1 + k] == (esc1
                    + seq!['"'])[k] by {
                    assert(s[i + 1 + k] == given[1 + k]);
                }
            }
            lemma_quoted_body_of_rendered(s, i + 1, v, j + 1);
            assert(seq![v[j]] + v.skip(j + 1) =~= v.skip(j));
        }
    }
}

/// Quoted strings round-trip: any value, escaped and put between quotes,
/// parses back to exactly that value, consuming the whole rendering.
pub proof fn lemma_quoted_string_roundtrip(v: Seq<char>)
    ensures
        spec_quoted_string(quoted_text(v), 0) == Some((v, quoted_text(v).len() as int)),
{
    let s = quoted_text(v);
    let esc = quote_escaped_from(v, 0);
    assert(s[0] == '"');
    assert(s.subrange(1, 1 + esc.len() as int + 1) =~= esc + seq!['"']);
    lemma_quoted_body_of_rendered(s, 1, v, 0);
    assert(v.skip(0) =~= v);
}

proof fn lemma_regex_scan_of_rendered(s: Seq<char>, i: int, p: Seq<char>, j: int)
    requires
        0 <= j <= p.len(),
        0 <= i,
        forall|k: int| j <= k < p.len() ==> p[k] != '\\',
        i + slash_escaped_from(p, j).len() + 1 <= s.len(),
        s.subrange(i, i + slash_escaped_from(p, j).len() + 1) == slash_escaped_from(p, j)
            + seq!['/'],
    ensures
        regex_scan(s, i) == Some((p.skip(j), i + slash_escaped_from(p, j).len())),
    decreases p.len() - j,
{
    let esc = slash_escaped_from(p, j);
    let given = s.subrange(i, i + esc.len() + 1);
    if j == p.len() {
        assert(esc.len() == 0);
        assert(s[i] == given[0]);
        assert(s[i] == '/');
        assert(p.skip(j) =~= Seq::<char>::empty());
    } else {
        let esc1 = slash_escaped_from(p, j + 1);
        if p[j] == '/' {
            assert(esc == seq!['\\', '/'] + esc1);
            assert(s[i] == given[0] && s[i + 1] == given[1]);
            assert(s[i] == '\\' && s[i + 1] == '/');
            assert(s.subrange(i + 2, i + 2 + esc1.len() + 1) =~= esc1 + seq!['/']) by {
                assert forall|k: int| 0 <= k < esc1.len() + 1 implies s[i + 2 + k] == (esc1
                    + seq!['/'])[k] by {
                    assert(s[i + 2 + k] == given[2 + k]);
                }
            }
            lemma_regex_scan_of_rendered(s, i + 2, p, j + 1);
            assert(seq!['/'] + p.skip(j + 1) =~= p.skip(j));
        } else {
            assert(esc == seq![p[j]] + esc1);
            assert(s[i] == given[0]);
            assert(s[i] == p[j]);
            assert(s.subrange(i + 1, i + 1 + esc1.len() + 1) =~= esc1 + seq!['/']) by {
                assert forall|k: int| 0 <= k < esc1.len() + 1 implies s[i + 1 + k] == (esc1
                    + seq!['/'])[k] by {
                    assert(s[i + 1 + k] == given[1 + k]);
                }
            }
            lemma_regex_scan_of_rendered(s, i + 1, p, j + 1);
            assert(seq![p[j]] + p.skip(j + 1) =~= p.skip(j));
        }
    }
}

/// Regex literals round-trip: any non-empty well-formed pattern without a
/// backslash of its own, put between slashes with its slashes escaped,
/// parses back to exactly that pattern, consuming the whole rendering.
/// The parser itself never produces a pattern holding a backslash: the
/// only escape inside a regex literal is the escaped slash.
pub proof fn lemma_regex_roundtrip(p: Seq<char>)
    requires
        p.len() > 0,
        forall|k: int| 0 <= k < p.len() ==> p[k] != '\\',
        regex_wf(p),
    ensures
        spec_regex(seq!['/'] + slash_escaped_from(p, 0) + seq!['/'], 0) == Parsed::Found(
            p,
            (seq!['/'] + slash_escaped_from(p, 0) + seq!['/']).len() as int,
        ),
{
    let esc = slash_escaped_from(p, 0);
    let s = seq!['/'] + esc + seq!['/'];
    assert(s[0] == '/');
    assert(s.subrange(1, 1 + esc.len() as int + 1) =~= esc + seq!['/']);
    lemma_regex_scan_of_rendered(s, 1, p, 0);
    assert(p.skip(0) =~= p);
    assert(p.len() > 0);
    assert(s[1 + esc.len() as int] == '/');
}

/// A key as the parser itself produces it: a body key always names the
/// `text/plain` part, and a header key is a non-empty alphabetic word
/// other than `body`.
pub open spec fn key_canonical_wf(k: crate::filter::MatcherKeyModel) -> bool {
    match k {
        crate::filter::MatcherKeyModel::HeaderMatcher(name) => name.len() > 0 && name != "body"@
            && (forall|i: int| 0 <= i < name.len() ==> is_alpha_char(#[trigger] name[i])),
        crate::filter::MatcherKeyModel::BodyMatcher(e) => e == Some("text/plain"@),
    }
}

/// A comparison as the parser itself produces it: a regex pattern is
/// non-empty, well formed, and free of backslashes, since the only escape
/// inside a regex literal is the escaped slash.
pub open spec fn vm_canonical_wf(m: ValueMatcherModel) -> bool {
    match m {
        ValueMatcherModel::Regex(p) => p.len() > 0 && regex_wf(p) && (forall|i: int|
            0 <= i < p.len() ==> #[trigger] p[i] != '\\'),
        ValueMatcherModel::NotRegex(p) => p.len() > 0 && regex_wf(p) && (forall|i: int|
            0 <= i < p.len() ==> #[trigger] p[i] != '\\'),
        _ => true,
    }
}

/// A matcher as the parser itself produces it.
pub open spec fn matcher_canonical_wf(m: MatcherModel) -> bool {
    key_canonical_wf(m.key) && vm_canonical_wf(m.value_matcher)
}

/// An expression all of whose matchers are as the parser produces them.
pub open spec fn expr_canonical_wf(e: Expression) -> bool
    decreases e,
{
    match e {
        Expression::Matcher(m) => matcher_canonical_wf(matcher_view(m)),
        Expression::Or(m, rest) => matcher_canonical_wf(matcher_view(m)) && expr_canonical_wf(
            *rest,
        ),
        Expression::And(m, rest) => matcher_canonical_wf(matcher_view(m)) && expr_canonical_wf(
            *rest,
        ),
    }
}

proof fn lemma_alpha_run_scan(s: Seq<char>, i: int, n: int)
    requires
        0 <= i,
        0 <= n,
        i + n < s.len(),
        forall|k: int| i <= k < i + n ==> is_alpha_char(#[trigger] s[k]),
        !is_alpha_char(s[i + n]),
    ensures
        alpha_scan(s, i) == i + n,
    decreases n,
{
    if n > 0 {
        lemma_alpha_run_scan(s, i + 1, n - 1);
    }
}

proof fn lemma_quoted_literal_at(s: Seq<char>, i: int, v: Seq<char>)
    requires
        0 <= i,
        i + quoted_text(v).len() <= s.len(),
        s.subrange(i, i + quoted_text(v).len() as int) == quoted_text(v),
    ensures
        spec_literal(s, i) == Some((v, i + quoted_text(v).len() as int)),
{
    let q = quoted_text(v);
    let esc = quote_escaped_from(v, 0);
    let given = s.subrange(i, i + q.len() as int);
    assert(s[i] == given[0]);
    assert(s[i] == '"');
    assert(!is_alnum_char('"'));
    assert(alnum_scan(s, i) == i);
    assert(s.subrange(i + 1, i + 1 + esc.len() as int + 1) =~= esc + seq!['"']) by {
        assert forall|k: int| 0 <= k < esc.len() + 1 implies s[i + 1 + k] == (esc
            + seq!['"'])[k] by {
            assert(s[i + 1 + k] == given[1 + k]);
        }
    }
    lemma_quoted_body_of_rendered(s, i + 1, v, 0);
    assert(v.skip(0) =~= v);
}

proof fn lemma_regex_literal_at(s: Seq<char>, i: int, p: Seq<char>)
    requires
        0 <= i,
        p.len() > 0,
        regex_wf(p),
        forall|k: int| 0 <= k < p.len() ==> #[trigger] p[k] != '\\',
        i + slash_escaped_from(p, 0).len() + 2 <= s.len(),
        s.subrange(i, i + slash_escaped_from(p, 0).len() as int + 2) == seq!['/']
            + slash_escaped_from(p, 0) + seq!['/'],
    ensures
        spec_regex(s, i) == Parsed::Found(p, i + slash_escaped_from(p, 0).len() as int + 2),
{
    let esc = slash_escaped_from(p, 0);
    let given = s.subrange(i, i + esc.len() as int + 2);
    assert(s[i] == given[0]);
    assert(s[i] == '/');
    assert(s.subrange(i + 1, i + 1 + esc.len() as int + 1) =~= esc + seq!['/']) by {
        assert forall|k: int| 0 <= k < esc.len() + 1 implies s[i + 1 + k] == (esc
            + seq!['/'])[k] by {
            assert(s[i + 1 + k] == given[1 + k]);
        }
    }
    lemma_regex_scan_of_rendered(s, i + 1, p, 0);
    assert(p.skip(0) =~= p);
    assert(s[i + 1 + esc.len() as int] == given[1 + esc.len() as int]);
    assert(s[i + 1 + esc.len() as int] == '/');
}

proof fn lemma_vm_of_rendered(s: Seq<char>, i: int, m: ValueMatcherModel)
    requires
        vm_canonical_wf(m),
        0 <= i,
        i + canon_vm(m).len() <= s.len(),
        s.subrange(i, i + canon_vm(m).len() as int) == canon_vm(m),
    ensures
        spec_value_matcher(s, i) == Parsed::Found(m, i + canon_vm(m).len() as int),
{
    let cv = canon_vm(m);
    let given = s.subrange(i, i + cv.len() as int);
    match m {
        ValueMatcherModel::Exact(v) => {
            assert(s[i] == given[0] && s[i + 1] == given[1]);
            assert(s[i] == '=' && s[i + 1] == '"');
            assert(s.subrange(i + 1, i + 1 + quoted_text(v).len() as int) =~= quoted_text(v)) by {
                assert forall|k: int| 0 <= k < quoted_text(v).len() implies s[i + 1 + k]
                    == quoted_text(v)[k] by {
                    assert(s[i + 1 + k] == given[1 + k]);
                }
            }
            lemma_quoted_literal_at(s, i + 1, v);
        },
        ValueMatcherModel::StartsWith(v) => {
            assert(s[i] == given[0] && s[i + 1] == given[1] && s[i + 2] == given[2]);
            assert(s[i] == '^' && s[i + 1] == '=' && s[i + 2] == '"');
            assert(s.subrange(i + 2, i + 2 + quoted_text(v).len() as int) =~= quoted_text(v)) by {
                assert forall|k: int| 0 <= k < quoted_text(v).len() implies s[i + 2 + k]
                    == quoted_text(v)[k] by {
                    assert(s[i + 2 + k] == given[2 + k]);
                }
            }
            lemma_quoted_literal_at(s, i + 2, v);
        },
        ValueMatcherModel::EndsWith(v) => {
            assert(s[i] == given[0] && s[i + 1] == given[1] && s[i + 2] == given[2]);
            assert(s[i] == '$' && s[i + 1] == '=' && s[i + 2] == '"');
            assert(s.subrange(i + 2, i + 2 + quoted_text(v).len() as int) =~= quoted_text(v)) by {
                assert forall|k: int| 0 <= k < quoted_text(v).len() implies s[i + 2 + k]
                    == quoted_text(v)[k] by {
                    assert(s[i + 2 + k] == given[2 + k]);
                }
            }
            lemma_quoted_literal_at(s, i + 2, v);
        },
        ValueMatcherModel::NotEqual(v) => {
            assert(s[i] == given[0] && s[i + 1] == given[1] && s[i + 2] == given[2]);
            assert(s[i] == '!' && s[i + 1] == '=' && s[i + 2] == '"');
            assert(s.subrange(i + 2, i + 2 + quoted_text(v).len() as int) =~= quoted_text(v)) by {
                assert forall|k: int| 0 <= k < quoted_text(v).len() implies s[i + 2 + k]
                    == quoted_text(v)[k] by {
                    assert(s[i + 2 + k] == given[2 + k]);
                }
            }
            lemma_quoted_literal_at(s, i + 2, v);
        },
        ValueMatcherModel::Regex(p) => {
            let esc = slash_escaped_from(p, 0);
            assert(s[i] == given[0] && s[i + 1] == given[1]);
            assert(s[i] == '=' && s[i + 1] == '~');
            assert(s.subrange(i + 2, i + 2 + esc.len() as int + 2) =~= seq!['/'] + esc
                + seq!['/']) by {
                assert forall|k: int| 0 <= k < esc.len() + 2 implies s[i + 2 + k] == (seq!['/']
                    + esc + seq!['/'])[k] by {
                    assert(s[i + 2 + k] == given[2 + k]);
                }
            }
            lemma_regex_literal_at(s, i + 2, p);
        },
        ValueMatcherModel::NotRegex(p) => {
            let esc = slash_escaped_from(p, 0);
            assert(s[i] == given[0] && s[i + 1] == given[1]);
            assert(s[i] == '!' && s[i + 1] == '~');
            assert(s.subrange(i + 2, i + 2 + esc.len() as int + 2) =~= seq!['/'] + esc
                + seq!['/']) by {
                assert forall|k: int| 0 <= k < esc.len() + 2 implies s[i + 2 + k] == (seq!['/']
                    + esc + seq!['/'])[k] by {
                    assert(s[i + 2 + k] == given[2 + k]);
                }
            }
            lemma_regex_literal_at(s, i + 2, p);
        },
    }
}

#[verifier::rlimit(100)]
proof fn lemma_matcher_of_rendered(s: Seq<char>, i: int, m: MatcherModel)
    requires
        matcher_canonical_wf(m),
        0 <= i,
        i + canon_matcher(m).len() <= s.len(),
        s.subrange(i, i + canon_matcher(m).len() as int) == canon_matcher(m),
    ensures
        spec_matcher(s, i) == Parsed::Found(m, i + canon_matcher(m).len() as int),
{
    let name = canon_key(m.key);
    let cv = canon_vm(m.value_matcher);
    let cm = canon_matcher(m);
    let given = s.subrange(i, i + cm.len() as int);
    assert(name.len() > 0) by {
        match m.key {
            crate::filter::MatcherKeyModel::HeaderMatcher(nm) => {},
            crate::filter::MatcherKeyModel::BodyMatcher(_) => {},
        }
    }
    assert(cv.len() > 0 && !is_alpha_char(cv[0])) by {
        match m.value_matcher {
            ValueMatcherModel::Exact(v) => {
                assert(cv[0] == '=');
            },
            ValueMatcherModel::StartsWith(v) => {
                assert(cv[0] == '^');
            },
            ValueMatcherModel::EndsWith(v) => {
                assert(cv[0] == '$');
            },
            ValueMatcherModel::NotEqual(v) => {
                assert(cv[0] == '!');
            },
            ValueMatcherModel::Regex(p) => {
                assert(cv[0] == '=');
            },
            ValueMatcherModel::NotRegex(p) => {
                assert(cv[0] == '!');
            },
        }
    }
    assert(forall|k: int|
        0 <= k < name.len() ==> is_alpha_char(#[trigger] name[k])) by {
        match m.key {
            crate::filter::MatcherKeyModel::HeaderMatcher(nm) => {},
            crate::filter::MatcherKeyModel::BodyMatcher(_) => {
                assert(name[0] == 'b' && name[1] == 'o' && name[2] == 'd' && name[3] == 'y');
            },
        }
    }
    assert forall|k: int| i <= k < i + name.len() implies is_alpha_char(#[trigger] s[k]) by {
        assert(s[k] == given[k - i]);
        assert(given[k - i] == name[k - i]);
    }
    assert(s[i + name.len() as int] == given[name.len() as int]);
    assert(s[i + name.len() as int] == cv[0]);
    lemma_alpha_run_scan(s, i, name.len() as int);
    assert(s.subrange(i, i + name.len() as int) =~= name) by {
        assert forall|k: int| 0 <= k < name.len() implies s[i + k] == name[k] by {
            assert(s[i + k] == given[k]);
        }
    }
    match m.key {
        crate::filter::MatcherKeyModel::BodyMatcher(e) => {
            proof_strlit_body();
            assert(name =~= "body"@);
            assert(crate::filter::spec_matcher_key(name) == m.key);
        },
        crate::filter::MatcherKeyModel::HeaderMatcher(nm) => {
            proof_strlit_body();
            assert(nm != "body"@);
            if crate::text::is_prefix("body."@, nm) {
                assert(nm[4] == "body."@[4]) by {
                    assert(nm.subrange(0, 5)[4] == nm[4]);
                }
                assert(nm[4] == '.');
                assert(is_alpha_char(nm[4]));
                assert(false);
            }
            assert(crate::filter::spec_matcher_key(name) == m.key);
        },
    }
    assert(s.subrange(i + name.len() as int, i + name.len() as int + cv.len() as int)
        =~= cv) by {
        assert forall|k: int| 0 <= k < cv.len() implies s[i + name.len() as int + k]
            == cv[k] by {
            assert(s[i + name.len() as int + k] == given[name.len() as int + k]);
        }
    }
    lemma_vm_of_rendered(s, i + name.len() as int, m.value_matcher);
}

proof fn proof_strlit_body()
    ensures
        "body"@ =~= seq!['b', 'o', 'd', 'y'],
        "body."@ =~= seq!['b', 'o', 'd', 'y', '.'],
{
    reveal_strlit("body");
    reveal_strlit("body.");
}

proof fn lemma_expr_view_shape(e: Expression)
    ensures
        expr_view(e).matchers.len() == expr_view(e).connectives.len() + 1,
    decreases e,
{
    match e {
        Expression::Matcher(m) => {},
        Expression::Or(m, rest) => {
            lemma_expr_view_shape(*rest);
        },
        Expression::And(m, rest) => {
            lemma_expr_view_shape(*rest);
        },
    }
}

proof fn lemma_render_first_alpha(e: Expression)
    requires
        expr_canonical_wf(e),
    ensures
        canon_chain(expr_view(e).matchers, expr_view(e).connectives).len() > 0,
        is_alpha_char(canon_chain(expr_view(e).matchers, expr_view(e).connectives)[0]),
    decreases e,
{
    let em = expr_view(e);
    let first = em.matchers[0];
    assert(matcher_canonical_wf(first)) by {
        match e {
            Expression::Matcher(m) => {},
            Expression::Or(m, rest) => {},
            Expression::And(m, rest) => {},
        }
    }
    let name = canon_key(first.key);
    assert(name.len() > 0 && is_alpha_char(name[0])) by {
        match first.key {
            crate::filter::MatcherKeyModel::HeaderMatcher(nm) => {},
            crate::filter::MatcherKeyModel::BodyMatcher(_) => {
                assert(name[0] == 'b');
            },
        }
    }
    lemma_expr_view_shape(e);
    assert(canon_chain(em.matchers, em.connectives)[0] == canon_matcher(first)[0]);
    assert(canon_matcher(first)[0] == name[0]);
}

#[verifier::rlimit(100)]
proof fn lemma_expr_of_rendered(e: Expression, s: Seq<char>, i: int)
    requires
        expr_canonical_wf(e),
        0 <= i,
        s.len() == i + canon_chain(expr_view(e).matchers, expr_view(e).connectives).len(),
        s.subrange(i, s.len() as int) == canon_chain(
            expr_view(e).matchers,
            expr_view(e).connectives,
        ),
    ensures
        spec_expression(s, i) == Parsed::Found(expr_view(e), s.len() as int),
    decreases e,
{
    let em = expr_view(e);
    let render = canon_chain(em.matchers, em.connectives);
    let given = s.subrange(i, s.len() as int);
    match e {
        Expression::Matcher(m) => {
            let mv = matcher_view(m);
            assert(render == canon_matcher(mv));
            lemma_matcher_of_rendered(s, i, mv);
            let n = i + canon_matcher(mv).len() as int;
            assert(n == s.len());
            assert(n > i) by {
                assert(canon_key(mv.key).len() > 0) by {
                    match mv.key {
                        crate::filter::MatcherKeyModel::HeaderMatcher(nm) => {},
                        crate::filter::MatcherKeyModel::BodyMatcher(_) => {},
                    }
                }
            }
            assert(space_scan(s, n) == n);
            assert(ExprModel { matchers: seq![mv], connectives: Seq::<ConnectiveModel>::empty() }
                =~~= em);
        },
        Expression::And(m, rest) => {
            let mv = matcher_view(m);
            let rm = expr_view(*rest);
            let cm = canon_matcher(mv);
            let ct = conn_text(ConnectiveModel::AndOp);
            let rrender = canon_chain(rm.matchers, rm.connectives);
            lemma_expr_view_shape(*rest);
            assert(em.matchers.drop_first() =~= rm.matchers);
            assert(em.connectives.drop_first() =~= rm.connectives);
            assert(em.matchers[0] == mv && em.connectives[0] == ConnectiveModel::AndOp);
            assert(em.matchers.len() >= 2 && em.connectives.len() >= 1);
            assert(render == cm + ct + rrender);
            assert(s.subrange(i, i + cm.len() as int) =~= cm) by {
                assert forall|k: int| 0 <= k < cm.len() implies s[i + k] == cm[k] by {
                    assert(s[i + k] == given[k]);
                    assert(given[k] == (cm + ct + rrender)[k]);
                }
            }
            lemma_matcher_of_rendered(s, i, mv);
            let n = i + cm.len() as int;
            assert(n > i) by {
                assert(canon_key(mv.key).len() > 0) by {
                    match mv.key {
                        crate::filter::MatcherKeyModel::HeaderMatcher(nm) => {},
                        crate::filter::MatcherKeyModel::BodyMatcher(_) => {},
                    }
                }
            }
            lemma_render_first_alpha(*rest);
            assert forall|t: int| 0 <= t < 5 implies s[n + t] == ct[t] by {
                assert(s[n + t] == given[cm.len() as int + t]);
                assert(given[cm.len() as int + t] == (cm + ct + rrender)[cm.len() as int + t]);
            }
            assert(s[n] == ' ' && s[n + 1] == 'a' && s[n + 2] == 'n' && s[n + 3] == 'd' && s[n
                + 4] == ' ');
            assert(s[n + 5] == rrender[0]) by {
                assert(s[n + 5] == given[cm.len() as int + 5]);
            }
            assert(space_scan(s, n + 1) == n + 1);
            assert(space_scan(s, n) == n + 1);
            let w = n + 1;
            proof_strlit_keywords();
            assert(keyword_at(s, w, "and"@)) by {
                assert(s.subrange(w, w + 3) =~= "and"@);
            }
            assert(!is_space_char(s[n + 5]));
            assert(space_scan(s, w + 4) == w + 4);
            assert(space_scan(s, w + 3) == w + 4);
            let w2 = w + 4;
            assert(s.subrange(w2, s.len() as int) =~= rrender) by {
                assert forall|k: int| 0 <= k < rrender.len() implies s[w2 + k] == rrender[k] by {
                    assert(s[w2 + k] == given[cm.len() as int + 5 + k]);
                    assert(given[cm.len() as int + 5 + k] == (cm + ct + rrender)[cm.len() as int + 5 + k]);
                }
            }
            lemma_expr_of_rendered(*rest, s, w2);
            assert(ExprModel {
                matchers: seq![mv] + rm.matchers,
                connectives: seq![ConnectiveModel::AndOp] + rm.connectives,
            } =~~= em);
        },
        Expression::Or(m, rest) => {
            let mv = matcher_view(m);
            let rm = expr_view(*rest);
            let cm = canon_matcher(mv);
            let ct = conn_text(ConnectiveModel::OrOp);
            let rrender = canon_chain(rm.matchers, rm.connectives);
            lemma_expr_view_shape(*rest);
            assert(em.matchers.drop_first() =~= rm.matchers);
            assert(em.connectives.drop_first() =~= rm.connectives);
            assert(em.matchers[0] == mv && em.connectives[0] == ConnectiveModel::OrOp);
            assert(em.matchers.len() >= 2 && em.connectives.len() >= 1);
            assert(render == cm + ct + rrender);
            assert(s.subrange(i, i + cm.len() as int) =~= cm) by {
                assert forall|k: int| 0 <= k < cm.len() implies s[i + k] == cm[k] by {
                    assert(s[i + k] == given[k]);
                    assert(given[k] == (cm + ct + rrender)[k]);
                }
            }
            lemma_matcher_of_rendered(s, i, mv);
            let n = i + cm.len() as int;
            assert(n > i) by {
                assert(canon_key(mv.key).len() > 0) by {
                    match mv.key {
                        crate::filter::MatcherKeyModel::HeaderMatcher(nm) => {},
                        crate::filter::MatcherKeyModel::BodyMatcher(_) => {},
                    }
                }
            }
            lemma_render_first_alpha(*rest);
            assert forall|t: int| 0 <= t < 4 implies s[n + t] == ct[t] by {
                assert(s[n + t] == given[cm.len() as int + t]);
                assert(given[cm.len() as int + t] == (cm + ct + rrender)[cm.len() as int + t]);
            }
            assert(s[n] == ' ' && s[n + 1] == 'o' && s[n + 2] == 'r' && s[n + 3] == ' ');
            assert(s[n + 4] == rrender[0]) by {
                assert(s[n + 4] == given[cm.len() as int + 4]);
            }
            assert(space_scan(s, n + 1) == n + 1);
            assert(space_scan(s, n) == n + 1);
            let w = n + 1;
            proof_strlit_keywords();
            if keyword_at(s, w, "and"@) {
                assert(seq_lower(s.subrange(w, w + 3))[0] == seq_lower("and"@)[0]);
                assert(lower_u32(s[w]) == lower_u32('a'));
                assert(false);
            }
            assert(keyword_at(s, w, "or"@)) by {
                assert(s.subrange(w, w + 2) =~= "or"@);
            }
            assert(!is_space_char(s[n + 4]));
            assert(space_scan(s, w + 3) == w + 3);
            assert(space_scan(s, w + 2) == w + 3);
            let w2 = w + 3;
            assert(s.subrange(w2, s.len() as int) =~= rrender) by {
                assert forall|k: int| 0 <= k < rrender.len() implies s[w2 + k] == rrender[k] by {
                    assert(s[w2 + k] == given[cm.len() as int + 4 + k]);
                    assert(given[cm.len() as int + 4 + k] == (cm + ct + rrender)[cm.len() as int + 4 + k]);
                }
            }
            lemma_expr_of_rendered(*rest, s, w2);
            assert(ExprModel {
                matchers: seq![mv] + rm.matchers,
                connectives: seq![ConnectiveModel::OrOp] + rm.connectives,
            } =~~= em);
        },
    }
}

proof fn proof_strlit_keywords()
    ensures
        "and"@ =~= seq!['a', 'n', 'd'],
        "or"@ =~= seq!['o', 'r'],
{
    reveal_strlit("and");
    reveal_strlit("or");
}

/// Parsing is idempotent on the canonical string form: the canonical text
/// of a filter whose matchers are as the parser produces them parses back
/// to an expression with the very same chain, consuming the whole text —
/// so rendering, reparsing and rendering again gives the same text.
pub proof fn lemma_canonical_roundtrip(f: Filter, e: Expression)
    requires
        f.expression == Some(e),
        expr_canonical_wf(e),
    ensures
        spec_expression(spec_canonical_filter(f), 0) == Parsed::Found(
            expr_view(e),
            spec_canonical_filter(f).len() as int,
        ),
{
    let s = spec_canonical_filter(f);
    assert(s.subrange(0, s.len() as int) =~= s);
    lemma_expr_of_rendered(e, s, 0);
}

proof fn lemma_alpha_scan_chars(s: Seq<char>, i: int)
    requires
        0 <= i <= s.len(),
    ensures
        i <= alpha_scan(s, i) <= s.len(),
        forall|k: int| i <= k < alpha_scan(s, i) ==> is_alpha_char(#[trigger] s[k]),
    decreases s.len() - i,
{
    if i < s.len() && is_alpha_char(s[i]) {
        lemma_alpha_scan_chars(s, i + 1);
    }
}

proof fn lemma_regex_scan_no_backslash(s: Seq<char>, i: int)
    requires
        0 <= i,
    ensures
        regex_scan(s, i) matches Some(p) ==> forall|k: int|
            0 <= k < p.0.len() ==> #[trigger] p.0[k] != '\\',
    decreases s.len() - i,
{
    if 0 <= i && i < s.len() {
        if s[i] == '\\' {
            if i + 1 < s.len() && s[i + 1] == '/' {
                lemma_regex_scan_no_backslash(s, i + 2);
            }
        } else if s[i] != '/' {
            lemma_regex_scan_no_backslash(s, i + 1);
        }
    }
}

proof fn lemma_spec_vm_wf(s: Seq<char>, i: int)
    requires
        0 <= i,
    ensures
        spec_value_matcher(s, i) matches Parsed::Found(vm, n) ==> vm_canonical_wf(vm),
{
    lemma_regex_scan_no_backslash(s, i + 3);
}

proof fn lemma_spec_matcher_wf(s: Seq<char>, i: int)
    requires
        0 <= i <= s.len(),
    ensures
        spec_matcher(s, i) matches Parsed::Found(m, n) ==> matcher_canonical_wf(m),
{
    let kn = alpha_scan(s, i);
    lemma_alpha_scan_chars(s, i);
    if kn > i {
        let name = s.subrange(i, kn);
        proof_strlit_body();
        assert(forall|k: int| 0 <= k < name.len() ==> is_alpha_char(#[trigger] name[k]));
        if name != "body"@ && crate::text::is_prefix("body."@, name) {
            assert(name[4] == name.subrange(0, 5)[4]);
            assert(name[4] == '.');
            assert(is_alpha_char(name[4]));
            assert(false);
        }
        lemma_spec_vm_wf(s, kn);
    }
}

proof fn lemma_spec_expression_wf(s: Seq<char>, i: int)
    requires
        0 <= i <= s.len(),
    ensures
        spec_expression(s, i) matches Parsed::Found(em, k) ==> forall|j: int|
            0 <= j < em.matchers.len() ==> matcher_canonical_wf(#[trigger] em.matchers[j]),
    decreases s.len() - i,
{
    lemma_spec_matcher_wf(s, i);
    match spec_matcher(s, i) {
        Parsed::Found(m, n) => {
            if i < n <= s.len() {
                let w = space_scan(s, n);
                if w > n && w <= s.len() && keyword_at(s, w, "and"@) && space_scan(s, w + 3) > w
                    + 3 && space_scan(s, w + 3) <= s.len() {
                    lemma_spec_expression_wf(s, space_scan(s, w + 3));
                } else if w > n && w <= s.len() && keyword_at(s, w, "or"@) && space_scan(s, w + 2)
                    > w + 2 && space_scan(s, w + 2) <= s.len() {
                    lemma_spec_expression_wf(s, space_scan(s, w + 2));
                }
            }
        },
        Parsed::Invalid(p) => {},
        Parsed::Missing => {},
    }
}

proof fn lemma_wf_bridge(e: Expression)
    requires
        forall|j: int|
            0 <= j < expr_view(e).matchers.len() ==> matcher_canonical_wf(
                #[trigger] expr_view(e).matchers[j],
            ),
    ensures
        expr_canonical_wf(e),
    decreases e,
{
    match e {
        Expression::Matcher(m) => {
            assert(expr_view(e).matchers[0] == matcher_view(m));
        },
        Expression::Or(m, rest) => {
            assert(expr_view(e).matchers[0] == matcher_view(m));
            assert forall|j: int| 0 <= j < expr_view(*rest).matchers.len() implies
                matcher_canonical_wf(#[trigger] expr_view(*rest).matchers[j]) by {
                assert(expr_view(*rest).matchers[j] == expr_view(e).matchers[j + 1]);
            }
            lemma_wf_bridge(*rest);
        },
        Expression::And(m, rest) => {
            assert(expr_view(e).matchers[0] == matcher_view(m));
            assert forall|j: int| 0 <= j < expr_view(*rest).matchers.len() implies
                matcher_canonical_wf(#[trigger] expr_view(*rest).matchers[j]) by {
                assert(expr_view(*rest).matchers[j] == expr_view(e).matchers[j + 1]);
            }
            lemma_wf_bridge(*rest);
        },
    }
}

/// Everything the parser produces is canonically well formed: a body key
/// always names the `text/plain` part, header keys are non-empty
/// alphabetic words other than `body`, and regex patterns are non-empty,
/// validated and free of backslashes. With the round trip above, every
/// parsed filter reparses from its canonical string form to the same
/// expression.
pub proof fn lemma_parsed_expr_canonical_wf(s: Seq<char>, e: Expression, k: int)
    requires
        spec_expression(s, 0) == Parsed::Found(expr_view(e), k),
    ensures
        expr_canonical_wf(e),
{
    lemma_spec_expression_wf(s, 0);
    assert(spec_expression(s, 0) matches Parsed::Found(em, kk) ==> em == expr_view(e));
    assert(forall|j: int|
        0 <= j < expr_view(e).matchers.len() ==> matcher_canonical_wf(
            #[trigger] expr_view(e).matchers[j],
        ));
    lemma_wf_bridge(e);
}

} // verus!
