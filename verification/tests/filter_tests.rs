use mailfilter::filter::{Expression, Filter, Matcher, MatcherKey, ValueMatcher};
use mailfilter::mail::Mail;
use mailfilter::parser::{parse, quoted_string, regex, FilterError};

#[test]
fn test_example() {
    let (_, program) = parse("subject=~/check off$/ or body=~/body/").unwrap();
    let envelope = Mail::parse(
        r#"From 1@mail Fri Jun 05 23:22:35 2020
From: A Person <me@readme.com>
Subject: Items to check off
To: You <you@readme.com>
Content-Type: multipart/alternative; boundary="0000000000006e22da05a4839fb9"

--0000000000006e22da05a4839fb9
Content-Type: text/plain; charset="UTF-8"

Email body goes here.
--0000000000006e22da05a4839fb9
Content-Type: text/html; charset="UTF-8"
Content-Transfer-Encoding: quoted-printable

<div>Hello!</div>
--0000000000006e22da05a4839fb9

"#,
    )
    .unwrap();

    assert!(program.matches(&envelope));
}

#[test]
fn test_empty_program_returns_all_envelopes() {
    let program = Filter { expression: None };
    let envelope = Mail::parse(
        "From 1@mail Fri Jun 05 23:22:35 2020\nFrom: One <1@mail>\n\n\n",
    )
    .unwrap();

    assert!(program.matches(&envelope));
}

#[test]
fn test_includes_header() {
    let (_, program) = parse("From=One").unwrap();
    let envelope = Mail::parse(
        "From 1@mail Fri Jun 05 23:22:35 2020\nFrom: One <1@mail>\n\n\n",
    )
    .unwrap();

    assert!(program.includes_header(&envelope.headers[0]));

    let (_, non_matching_program) = parse("subject=Hello").unwrap();
    assert!(!non_matching_program.includes_header(&envelope.headers[0]));
}

#[test]
fn test_includes_header_empty_email_fails_match() {
    let envelope = Mail::new();

    let (_, program) = parse("From=One").unwrap();
    assert!(!program.matches(&envelope));

    let (_, program) = parse("From=One and subject=dude").unwrap();
    assert!(!program.matches(&envelope));
}

#[test]
fn test_parse_single_matcher() {
    assert_eq!(
        parse("subject=hello").unwrap(),
        (
            "".to_string(),
            Filter {
                expression: Some(Expression::Matcher(Matcher {
                    key: MatcherKey::new("subject"),
                    value_matcher: ValueMatcher::Exact("hello".to_string()),
                }))
            }
        )
    );
}

#[test]
fn test_parse_single_regex() {
    assert_eq!(
        parse("subject=~/^hello$/").unwrap(),
        (
            "".to_string(),
            Filter {
                expression: Some(Expression::Matcher(Matcher {
                    key: MatcherKey::new("subject"),
                    value_matcher: ValueMatcher::Regex("^hello$".to_string()),
                }))
            }
        )
    );
}

#[test]
fn test_parse_regex_or_starts_with() {
    assert_eq!(
        parse("subject=~/this \\/ then that/ or body^=Dear").unwrap(),
        (
            "".to_string(),
            Filter {
                expression: Some(Expression::Or(
                    Matcher {
                        key: MatcherKey::new("subject"),
                        value_matcher: ValueMatcher::Regex("this / then that".to_string()),
                    },
                    Box::new(Expression::Matcher(Matcher {
                        key: MatcherKey::new("body"),
                        value_matcher: ValueMatcher::StartsWith("Dear".to_string()),
                    })),
                ))
            }
        )
    );
}

#[test]
fn test_quoted_string_empty() {
    assert_eq!(
        quoted_string(r#""""#).unwrap(),
        ("".to_string(), "".to_string())
    );
}

#[test]
fn test_quoted_string_whitespace() {
    assert_eq!(
        quoted_string(r#"" ""#).unwrap(),
        ("".to_string(), " ".to_string())
    );
}

#[test]
fn test_quoted_string_single_quote() {
    assert_eq!(
        quoted_string(r#""a \" b""#).unwrap(),
        ("".to_string(), "a \" b".to_string())
    );
}

#[test]
fn test_quoted_string_unicode() {
    assert_eq!(
        quoted_string(r#""a \u{1F602} b""#).unwrap(),
        ("".to_string(), "a \u{1F602} b".to_string())
    );
}

#[test]
fn test_quoted_string_multiple_quotes() {
    assert_eq!(
        quoted_string(r#""x \" y \" z""#).unwrap(),
        ("".to_string(), "x \" y \" z".to_string())
    );
}

#[test]
fn test_quoted_string_escaped_whitespace() {
    assert_eq!(
        quoted_string("\"a \\   b\"").unwrap(),
        ("".to_string(), "a b".to_string())
    );
}

#[test]
fn test_quoted_string_control_escapes() {
    assert_eq!(
        quoted_string("\"a\\nb\\tc\"").unwrap(),
        ("".to_string(), "a\nb\tc".to_string())
    );
}

#[test]
fn test_header_matching_ignores_key_case() {
    let (_, program) = parse("SUBJECT=hello").unwrap();
    let mut mail = Mail::new();
    mail.headers.push(mailfilter::Header::new(
        "Subject".to_string(),
        "hello".to_string(),
    ));
    assert!(program.matches(&mail));
}

#[test]
fn test_regex_empty() {
    assert!(regex(r"//").is_err());
}

#[test]
fn test_regex_group() {
    assert_eq!(
        regex(r"/(.*)/").unwrap(),
        ("".to_string(), "(.*)".to_string())
    );
}

#[test]
fn test_regex_escaped_slash() {
    assert_eq!(regex(r"/\//").unwrap(), ("".to_string(), r"/".to_string()));
}

#[test]
fn test_regex_escaped_slash_and_whitespace() {
    assert_eq!(
        regex(r"/\/ \//").unwrap(),
        ("".to_string(), "/ /".to_string())
    );
}

#[test]
fn test_regex_slash_embedded_class() {
    assert_eq!(
        regex(r"/[\/]/").unwrap(),
        ("".to_string(), r"[/]".to_string())
    );
}

#[test]
fn test_right_fold_chain() {
    assert_eq!(
        parse("A=1 and B=2 or C=3").unwrap(),
        (
            "".to_string(),
            Filter {
                expression: Some(Expression::And(
                    Matcher {
                        key: MatcherKey::new("A"),
                        value_matcher: ValueMatcher::Exact("1".to_string()),
                    },
                    Box::new(Expression::Or(
                        Matcher {
                            key: MatcherKey::new("B"),
                            value_matcher: ValueMatcher::Exact("2".to_string()),
                        },
                        Box::new(Expression::Matcher(Matcher {
                            key: MatcherKey::new("C"),
                            value_matcher: ValueMatcher::Exact("3".to_string()),
                        })),
                    )),
                ))
            }
        )
    );
}

#[test]
fn test_parse_deterministic_and_stable() {
    let query = "subject=~/check off$/ or body=~/body/ and From^=One";
    let first = parse(query).unwrap();
    let second = parse(query).unwrap();
    assert_eq!(first, second);
}

#[test]
fn test_canonical_form_rendering() {
    let (_, simple) = parse("subject=hello").unwrap();
    assert_eq!(simple.canonical_query(), "subject=\"hello\"");
    let (_, rx) = parse("body=~/a\\/b/").unwrap();
    assert_eq!(rx.canonical_query(), "body=~/a\\/b/");
    let universal = Filter { expression: None };
    assert_eq!(universal.canonical_query(), "");
}

#[test]
fn test_canonical_form_idempotent() {
    let queries = [
        "subject=hello",
        "subject=~/check off$/ or body=~/body/ and From^=One",
        "A=1 and B=2 or C=3",
        "subject=\"a \\\" b\" and body!~/[\\/]/",
    ];
    for query in queries {
        let (_, first) = parse(query).unwrap();
        let canonical = first.canonical_query();
        let (_, second) = parse(&canonical).unwrap();
        assert_eq!(second.canonical_query(), canonical);
        assert_eq!(second, first);
    }
}

#[test]
fn test_parse_syntax_error_keeps_remainder() {
    match parse("!!").unwrap_err() {
        FilterError::Syntax(rest) => assert_eq!(rest, "!!"),
        other => panic!("unexpected error: {:?}", other),
    }
}

#[test]
fn test_parse_invalid_regex_is_fatal() {
    match parse("subject=~/(/").unwrap_err() {
        FilterError::InvalidRegex(pattern) => assert_eq!(pattern, "("),
        other => panic!("unexpected error: {:?}", other),
    }
}

#[test]
fn test_regex_matcher_consults_regex_engine() {
    let (_, program) = parse("subject=~/^hello$/").unwrap();
    let mut yes = Mail::new();
    yes.headers.push(mailfilter::Header::new(
        "Subject".to_string(),
        "hello".to_string(),
    ));
    assert!(program.matches(&yes));

    let mut no = Mail::new();
    no.headers.push(mailfilter::Header::new(
        "Subject".to_string(),
        "hhello".to_string(),
    ));
    assert!(!program.matches(&no));
}

#[test]
fn test_not_equal_and_not_regex() {
    let (_, ne) = parse("subject!=hello").unwrap();
    let mut mail = Mail::new();
    mail.headers.push(mailfilter::Header::new(
        "Subject".to_string(),
        "other".to_string(),
    ));
    assert!(ne.matches(&mail));

    let (_, nr) = parse("subject!~/other/").unwrap();
    assert!(!nr.matches(&mail));
}

#[test]
fn test_includes_header_ignores_value() {
    let (_, program) = parse("subject=Hello").unwrap();
    let subject_other = mailfilter::Header::new(
        "Subject".to_string(),
        "completely unrelated".to_string(),
    );
    let from = mailfilter::Header::new("From".to_string(), "Hello".to_string());
    assert!(program.includes_header(&subject_other));
    assert!(!program.includes_header(&from));
}

#[test]
fn test_body_key_resolution() {
    assert_eq!(
        MatcherKey::new("body"),
        MatcherKey::BodyMatcher(Some("text/plain".to_string()))
    );
    assert_eq!(
        MatcherKey::new("body.text/html"),
        MatcherKey::BodyMatcher(Some("text/html".to_string()))
    );
    assert_eq!(MatcherKey::new("body.madeup"), MatcherKey::BodyMatcher(None));
    assert_eq!(
        MatcherKey::new("subject"),
        MatcherKey::HeaderMatcher("subject".to_string())
    );
}

#[test]
fn test_keywords_match_any_case() {
    let (rest, program) = parse("A=1 AND B=2 Or C=3").unwrap();
    assert_eq!(rest, "");
    match program.expression.unwrap() {
        Expression::And(_, rest) => match *rest {
            Expression::Or(_, _) => {}
            other => panic!("unexpected chain: {:?}", other),
        },
        other => panic!("unexpected chain: {:?}", other),
    }
}
