use mailfilter::content_type::{parse_content_type_header, ContentTypeError};
use mailfilter::mail::{Context, Mail};
use mailfilter::Header;

fn email() -> &'static str {
    r#"From 1@mail Fri Jun 05 23:22:35 2020
From: One <1@mail>
Content-Type: multipart/alternative;
 boundary="--_NmP-d4c3c3eca06b99af-Part_1"


----_NmP-d4c3c3eca06b99af-Part_1
Content-Type: text/plain
Content-Transfer-Encoding: quoted-printable

This is an email
----_NmP-d4c3c3eca06b99af-Part_1


"#
}

#[test]
fn test_parse_empty() {
    assert!(Mail::parse("").is_err());
}

#[test]
fn test_parse_valid_email() {
    let envelope_result = Mail::parse(email());
    assert!(envelope_result.is_ok());
    let envelope = envelope_result.unwrap();
    assert_eq!(
        envelope.boundary,
        "----_NmP-d4c3c3eca06b99af-Part_1".to_string()
    );
    assert_eq!(envelope.headers.len(), 2);
    assert_eq!(envelope.headers[0].key.as_str(), "From");
    assert_eq!(envelope.headers[1].key.as_str(), "Content-Type");
    assert_eq!(envelope.body.len(), 1);
    assert_eq!(envelope.body[0].mime_type.as_str(), "text/plain");
    assert_eq!(envelope.body[0].content, b"This is an email\n".to_vec());
}

#[test]
fn test_parse_content_type_header() {
    assert_eq!(
        parse_content_type_header("text/html").unwrap().mime_type,
        "text/html".to_string()
    );
    assert_eq!(
        parse_content_type_header("text/html; garbage")
            .unwrap()
            .mime_type,
        "text/html".to_string()
    );
    assert_eq!(
        parse_content_type_header("text").unwrap().mime_type,
        "text/plain".to_string()
    );
    let multipart = parse_content_type_header(
        r#"multipart/alternative; boundary="--_NmP-d4c3c3eca06b99af-Part_1""#,
    )
    .unwrap();
    assert_eq!(
        multipart.boundary,
        Some("--_NmP-d4c3c3eca06b99af-Part_1".to_string())
    );
}

#[test]
fn test_parse_content_type_header_rejects_garbage() {
    assert_eq!(
        parse_content_type_header("garbage").unwrap_err(),
        ContentTypeError::TypeError
    );
}

#[test]
fn test_multipart_two_parts_decode() {
    let mut ctx = Context::new();
    ctx.begin();
    ctx.header(&Header::new(
        "Content-Type".to_string(),
        "multipart/alternative; boundary=\"X\"".to_string(),
    ));
    ctx.body(b"--X");
    ctx.body(b"Content-Type: text/plain");
    ctx.body(b"");
    ctx.body(b"plain one");
    ctx.body(b"plain two");
    ctx.body(b"--X");
    ctx.body(b"Content-Type: text/html");
    ctx.body(b"");
    ctx.body(b"<p>html</p>");
    ctx.body(b"--X");
    let mail = ctx.end().unwrap();

    assert_eq!(mail.boundary, "--X".to_string());
    assert_eq!(mail.body.len(), 2);
    assert_eq!(mail.body[0].mime_type.as_str(), "text/plain");
    assert_eq!(mail.body[0].content, b"plain one\nplain two\n".to_vec());
    assert_eq!(mail.body[1].mime_type.as_str(), "text/html");
    assert_eq!(mail.body[1].content, b"<p>html</p>\n".to_vec());
}

#[test]
fn test_single_part_body_accumulates() {
    let mut ctx = Context::new();
    ctx.begin();
    ctx.header(&Header::new("From".to_string(), "One <1@mail>".to_string()));
    ctx.body(b"first line");
    ctx.body(b"second line");
    let mail = ctx.end().unwrap();

    assert_eq!(mail.boundary, "".to_string());
    assert_eq!(mail.body.len(), 1);
    assert_eq!(mail.body[0].mime_type.as_str(), "text/plain");
    assert_eq!(mail.body[0].content, b"first line\nsecond line\n".to_vec());
    assert_eq!(mail.body_text(), "first line\nsecond line\n".to_string());
}

#[test]
fn test_end_without_begin() {
    let mut ctx = Context::new();
    assert!(ctx.end().is_none());
}

#[test]
fn test_subject_and_date() {
    let mut ctx = Context::new();
    ctx.begin();
    ctx.header(&Header::new(
        "Subject".to_string(),
        "Items to check off".to_string(),
    ));
    ctx.header(&Header::new(
        "Date".to_string(),
        "Fri, 05 Jun 2020 23:22:35 +0000".to_string(),
    ));
    let mail = ctx.end().unwrap();

    assert_eq!(mail.subject(), "Items to check off".to_string());
    assert_eq!(mail.date(), "20200605T232235".to_string());
}

#[test]
fn test_date_falls_back_to_raw_value() {
    let mut ctx = Context::new();
    ctx.begin();
    ctx.header(&Header::new(
        "Date".to_string(),
        "not a timestamp".to_string(),
    ));
    let mail = ctx.end().unwrap();

    assert_eq!(mail.date(), "not a timestamp".to_string());
    assert_eq!(mail.subject(), "".to_string());
}

#[test]
fn test_source_error_on_malformed_envelope() {
    // The tokenizer accepts only a 24-character envelope timestamp, so a
    // longer one stops the stream with a source error.
    let err = Mail::parse(
        "From 1@mail Fri Jun 05 23:22:35 +0000 2020\nFrom: One <1@mail>\n\n\n",
    )
    .unwrap_err();
    assert_eq!(err, mailfilter::mail::MailParseError::SourceError);
}

#[test]
fn test_unexpected_end_of_stream() {
    let err = Mail::parse("From 1@mail Fri Jun 05 23:22:35 2020\nFrom: One <1@mail>\n")
        .unwrap_err();
    assert_eq!(
        err,
        mailfilter::mail::MailParseError::UnexpectedEndOfStream
    );
}
