//! The mail record and the streaming MIME-multipart decoder.
//!
//! A [`Mail`] is a header list plus a mapping from MIME essence type to
//! accumulated body bytes. The decoder, [`Context`], consumes one typed
//! event per physical line — begin, header, body, end — and builds one
//! `Mail` per message, tracking the multipart boundary as it goes.
use vstd::prelude::*;
use vstd::utf8::{decode_utf8, encode_utf8, valid_utf8};
use crate::content_type::{
    option_str_view, parse_content_type_header, spec_content_type, ContentTypeHeader,
};
use crate::header::{header_case, key_in_header_case_is, parse_header_line, spec_parse_header_line, Header};
use crate::text::{bytes_as_str, bytes_eq};
use mailbox::stream::Entry as MbEntry;

verus! {

/// One accumulated body part: the `type/subtype` essence that keys it and
/// the bytes collected for it so far.
#[derive(Debug)]
pub struct BodyPart {
    pub mime_type: String,
    pub content: Vec<u8>,
}

/// A decoded mail: its headers in order, its body parts keyed by MIME
/// essence, and the multipart boundary line, empty for single-part mail.
#[derive(Debug)]
pub struct Mail {
    pub headers: Vec<Header>,
    pub body: Vec<BodyPart>,
    pub boundary: String,
}

/// The mathematical image of a mail: header key/value pairs, body parts as
/// essence/bytes pairs, and the boundary.
#[verifier::ext_equal]
pub ghost struct MailModel {
    pub headers: Seq<(Seq<char>, Seq<char>)>,
    pub body: Seq<(Seq<char>, Seq<u8>)>,
    pub boundary: Seq<char>,
}

/// The image of a body part vector.
pub open spec fn parts_view(v: Seq<BodyPart>) -> Seq<(Seq<char>, Seq<u8>)> {
    v.map_values(|p: BodyPart| (p.mime_type@, p.content@))
}

impl View for Mail {
    type V = MailModel;

    open spec fn view(&self) -> MailModel {
        MailModel {
            headers: self.headers@.map_values(|h: Header| (h.key@, h.value@)),
            body: parts_view(self.body@),
            boundary: self.boundary@,
        }
    }
}

/// The index of the first body part at or after `i` keyed by `key`, or the
/// length of `body` where there is none.
pub open spec fn body_scan(body: Seq<(Seq<char>, Seq<u8>)>, key: Seq<char>, i: int) -> int
    decreases body.len() - i,
{
    if i < 0 || i >= body.len() {
        body.len() as int
    } else if body[i].0 == key {
        i
    } else {
        body_scan(body, key, i + 1)
    }
}

/// `body` with `line` and a newline appended to the part keyed by `key`,
/// the part being created first where it does not exist yet.
pub open spec fn append_line(
    body: Seq<(Seq<char>, Seq<u8>)>,
    key: Seq<char>,
    line: Seq<u8>,
) -> Seq<(Seq<char>, Seq<u8>)> {
    let i = body_scan(body, key, 0);
    if i < body.len() {
        body.update(i, (key, body[i].1 + line + seq![10u8]))
    } else {
        body.push((key, line + seq![10u8]))
    }
}

/// `body` with an empty part keyed by `key` added, unless one exists.
pub open spec fn ensure_entry(body: Seq<(Seq<char>, Seq<u8>)>, key: Seq<char>) -> Seq<
    (Seq<char>, Seq<u8>),
> {
    let i = body_scan(body, key, 0);
    if i < body.len() {
        body
    } else {
        body.push((key, Seq::<u8>::empty()))
    }
}

/// The index of the first header at or after `i` whose key, in canonical
/// header case, reads as `canon`; the length where there is none.
pub open spec fn header_scan(
    headers: Seq<(Seq<char>, Seq<char>)>,
    canon: Seq<char>,
    i: int,
) -> int
    decreases headers.len() - i,
{
    if i < 0 || i >= headers.len() {
        headers.len() as int
    } else if header_case(headers[i].0) == canon {
        i
    } else {
        header_scan(headers, canon, i + 1)
    }
}

/// The empty mail.
pub open spec fn empty_mail_model() -> MailModel {
    MailModel { headers: Seq::empty(), body: Seq::empty(), boundary: Seq::empty() }
}

/// What one top-level header does to a mail under construction: the header
/// is appended, and a `Content-Type` header carrying a `boundary` parameter
/// records the boundary, prefixed with two dashes as boundary delimiter
/// lines appear in the body stream.
pub open spec fn mail_with_header(m: MailModel, key: Seq<char>, value: Seq<char>) -> MailModel {
    let boundary = if header_case(key) == "Content-Type"@ {
        match spec_content_type(value) {
            Some((ess, Some(b))) => "--"@ + b,
            Some((ess, None)) => m.boundary,
            None => m.boundary,
        }
    } else {
        m.boundary
    };
    MailModel { headers: m.headers.push((key, value)), body: m.body, boundary }
}

/// The mathematical image of the decoder: the mail being built, the two
/// part-reading flags, and the essence of the part currently accumulating.
#[verifier::ext_equal]
pub ghost struct ContextModel {
    pub mail: Option<MailModel>,
    pub reading_headers: bool,
    pub reading_body: bool,
    pub current_body: Option<Seq<char>>,
}

/// The decoder before any message: no mail in progress, no part state.
pub open spec fn initial_context() -> ContextModel {
    ContextModel { mail: None, reading_headers: false, reading_body: false, current_body: None }
}

/// The decoder right after a begin event: a fresh mail, all sub-state reset.
pub open spec fn spec_begin_step() -> ContextModel {
    ContextModel {
        mail: Some(empty_mail_model()),
        reading_headers: false,
        reading_body: false,
        current_body: None,
    }
}

/// What a top-level header event does to the decoder.
pub open spec fn spec_header_step(c: ContextModel, key: Seq<char>, value: Seq<char>) -> ContextModel {
    match c.mail {
        Some(m) => ContextModel {
            mail: Some(mail_with_header(m, key, value)),
            reading_headers: c.reading_headers,
            reading_body: c.reading_body,
            current_body: c.current_body,
        },
        None => c,
    }
}

/// What one raw body line does to the decoder.
///
/// With no boundary known the line goes to the `text/plain` part. With a
/// boundary, two checks run in order on the same line: while reading a
/// part's body, a boundary line ends the part and any other line goes to
/// the current part; while reading a part's headers, an empty line starts
/// the part's body, and a `Content-Type` header line selects the part that
/// subsequent lines accumulate into; outside both, a boundary line starts a
/// new part's headers.
pub open spec fn spec_body_step(c: ContextModel, line: Seq<u8>) -> ContextModel {
    match c.mail {
        None => c,
        Some(m) => {
            if m.boundary.len() == 0 {
                ContextModel {
                    mail: Some(
                        MailModel {
                            headers: m.headers,
                            body: append_line(m.body, "text/plain"@, line),
                            boundary: m.boundary,
                        },
                    ),
                    reading_headers: c.reading_headers,
                    reading_body: c.reading_body,
                    current_body: c.current_body,
                }
            } else {
                let is_boundary = line == encode_utf8(m.boundary);
                let body1 = if c.reading_body && !is_boundary {
                    match c.current_body {
                        Some(mt) => append_line(m.body, mt, line),
                        None => m.body,
                    }
                } else {
                    m.body
                };
                let rb1 = if c.reading_body && is_boundary {
                    false
                } else {
                    c.reading_body
                };
                if c.reading_headers {
                    if line.len() == 0 {
                        ContextModel {
                            mail: Some(MailModel { headers: m.headers, body: body1, boundary: m.boundary }),
                            reading_headers: false,
                            reading_body: true,
                            current_body: c.current_body,
                        }
                    } else {
                        match spec_parse_header_line(line) {
                            Some((k, v)) => {
                                if header_case(k) == "Content-Type"@ {
                                    match spec_content_type(v) {
                                        Some((ess, b)) => ContextModel {
                                            mail: Some(
                                                MailModel {
                                                    headers: m.headers,
                                                    body: ensure_entry(body1, ess),
                                                    boundary: m.boundary,
                                                },
                                            ),
                                            reading_headers: c.reading_headers,
                                            reading_body: rb1,
                                            current_body: Some(ess),
                                        },
                                        None => ContextModel {
                                            mail: Some(
                                                MailModel { headers: m.headers, body: body1, boundary: m.boundary },
                                            ),
                                            reading_headers: c.reading_headers,
                                            reading_body: rb1,
                                            current_body: c.current_body,
                                        },
                                    }
                                } else {
                                    ContextModel {
                                        mail: Some(
                                            MailModel { headers: m.headers, body: body1, boundary: m.boundary },
                                        ),
                                        reading_headers: c.reading_headers,
                                        reading_body: rb1,
                                        current_body: c.current_body,
                                    }
                                }
                            },
                            None => ContextModel {
                                mail: Some(
                                    MailModel { headers: m.headers, body: body1, boundary: m.boundary },
                                ),
                                reading_headers: c.reading_headers,
                                reading_body: rb1,
                                current_body: c.current_body,
                            },
                        }
                    }
                } else {
                    ContextModel {
                        mail: Some(
                            MailModel { headers: m.headers, body: body1, boundary: m.boundary },
                        ),
                        reading_headers: is_boundary,
                        reading_body: if is_boundary {
                            false
                        } else {
                            rb1
                        },
                        current_body: c.current_body,
                    }
                }
            }
        },
    }
}

/// The long-lived decoder: the mail in progress and the part-reading state,
/// reset at each begin event and reused across all messages of one archive.
pub struct Context {
    mail: Option<Mail>,
    reading_headers: bool,
    reading_body: bool,
    current_body: Option<String>,
}

impl View for Context {
    type V = ContextModel;

    closed spec fn view(&self) -> ContextModel {
        ContextModel {
            mail: match self.mail {
                Some(m) => Some(m@),
                None => None,
            },
            reading_headers: self.reading_headers,
            reading_body: self.reading_body,
            current_body: option_str_view(self.current_body),
        }
    }
}

/// The index of the first body part keyed by `key`, or the length.
pub(crate) fn find_part(body: &Vec<BodyPart>, key: &String) -> (r: usize)
    ensures
        r == body_scan(parts_view(body@), key@, 0),
        r <= body@.len(),
        r < body@.len() ==> parts_view(body@)[r as int].0 == key@,
{
    let n: usize = body.len();
    let mut i: usize = 0;
    while i < n
        invariant
            n == body@.len(),
            i <= n,
            body_scan(parts_view(body@), key@, 0) == body_scan(parts_view(body@), key@, i as int),
        ensures
            i <= n,
            body_scan(parts_view(body@), key@, 0) == i,
            i < n ==> parts_view(body@)[i as int].0 == key@,
        decreases n - i,
    {
        if body[i].mime_type.eq(key) {
            proof {
                assert(parts_view(body@)[i as int].0 == key@);
            }
            break;
        }
        proof {
            assert(parts_view(body@)[i as int].0 != key@);
        }
        i = i + 1;
    }
    i
}

/// Appends `line` plus a newline to the part keyed by `key`, creating the
/// part first when there is none.
fn append_body_line(body: &mut Vec<BodyPart>, key: &String, line: &[u8])
    ensures
        parts_view(final(body)@) == append_line(parts_view(old(body)@), key@, line@),
{
    let i: usize = find_part(body, key);
    if i < body.len() {
        let part: &mut BodyPart = &mut body[i];
        part.content.extend_from_slice(line);
        part.content.push(10u8);
        proof {
            assert(body@[i as int].content@ =~= old(body)@[i as int].content@ + line@ + seq![
                10u8,
            ]);
            assert(parts_view(body@) =~~= append_line(parts_view(old(body)@), key@, line@));
        }
    } else {
        let mut content: Vec<u8> = vstd::slice::slice_to_vec(line);
        content.push(10u8);
        body.push(BodyPart { mime_type: key.clone(), content });
        proof {
            assert(body@.last().content@ =~= line@ + seq![10u8]);
            assert(parts_view(body@) =~~= append_line(parts_view(old(body)@), key@, line@));
        }
    }
}

/// Adds an empty part keyed by `key` unless one exists.
fn ensure_body_entry(body: &mut Vec<BodyPart>, key: &String)
    ensures
        parts_view(final(body)@) == ensure_entry(parts_view(old(body)@), key@),
{
    let i: usize = find_part(body, key);
    if i >= body.len() {
        body.push(BodyPart { mime_type: key.clone(), content: Vec::new() });
        proof {
            assert(parts_view(body@) =~~= ensure_entry(parts_view(old(body)@), key@));
        }
    } else {
        proof {
            assert(parts_view(body@) =~~= ensure_entry(parts_view(old(body)@), key@));
        }
    }
}

impl Context {
    /// A decoder with no mail in progress.
    pub fn new() -> (c: Context)
        ensures
            c@ == initial_context(),
    {
        Context { mail: None, reading_headers: false, reading_body: false, current_body: None }
    }

    /// Starts a fresh mail and resets all decoder sub-state.
    pub fn begin(&mut self)
        ensures
            final(self)@ == spec_begin_step(),
    {
        self.mail = Some(
            Mail { headers: Vec::new(), body: Vec::new(), boundary: String::new() },
        );
        self.reading_headers = false;
        self.reading_body = false;
        self.current_body = None;
        proof {
            assert(self@.mail.unwrap() =~~= empty_mail_model());
            assert(self@ =~~= spec_begin_step());
        }
    }

    /// Hands the completed mail out, leaving no mail in progress.
    pub fn end(&mut self) -> (r: Option<Mail>)
        ensures
            final(self)@ == (ContextModel {
                mail: None,
                reading_headers: old(self)@.reading_headers,
                reading_body: old(self)@.reading_body,
                current_body: old(self)@.current_body,
            }),
            match r {
                Some(m) => old(self)@.mail == Some(m@),
                None => old(self)@.mail is None,
            },
    {
        let mut taken: Option<Mail> = None;
        core::mem::swap(&mut taken, &mut self.mail);
        taken
    }

    /// Records one top-level header: appends it to the mail and, for a
    /// `Content-Type` header with a `boundary` parameter, notes the
    /// boundary line.
    pub fn header(&mut self, header: &Header)
        ensures
            final(self)@ == spec_header_step(old(self)@, header.key@, header.value@),
    {
        match &mut self.mail {
            Some(m) => {
                if key_in_header_case_is(header.key.as_str(), "Content-Type") {
                    match parse_content_type_header(header.value.as_str()) {
                        Ok(ct) => {
                            if let Some(b) = ct.boundary {
                                let mut nb: String = "--".to_owned();
                                nb.append(b.as_str());
                                m.boundary = nb;
                            }
                        },
                        Err(_) => {},
                    }
                }
                m.headers.push(header.duplicate());
                proof {
                    assert(m@.headers =~= old(self)@.mail.unwrap().headers.push(
                        (header.key@, header.value@),
                    ));
                }
            },
            None => {},
        }
    }

    /// Feeds one raw body line to the decoder.
    pub fn body(&mut self, body: &[u8])
        ensures
            final(self)@ == spec_body_step(old(self)@, body@),
    {
        match &mut self.mail {
            None => {},
            Some(m) => {
                if m.boundary.as_str().is_empty() {
                    let key: String = "text/plain".to_owned();
                    append_body_line(&mut m.body, &key, body);
                } else {
                    let is_boundary: bool = bytes_eq(body, m.boundary.as_str().as_bytes());
                    if self.reading_body {
                        if is_boundary {
                            self.reading_body = false;
                        } else {
                            match &self.current_body {
                                Some(mt) => {
                                    append_body_line(&mut m.body, mt, body);
                                },
                                None => {},
                            }
                        }
                    }
                    if self.reading_headers {
                        if body.len() == 0 {
                            self.reading_headers = false;
                            self.reading_body = true;
                        } else {
                            match parse_header_line(body) {
                                Some(h) => {
                                    if key_in_header_case_is(h.key.as_str(), "Content-Type") {
                                        match parse_content_type_header(h.value.as_str()) {
                                            Ok(ct) => {
                                                ensure_body_entry(&mut m.body, &ct.mime_type);
                                                self.current_body = Some(ct.mime_type);
                                            },
                                            Err(_) => {},
                                        }
                                    }
                                },
                                None => {},
                            }
                        }
                    } else if is_boundary {
                        self.reading_headers = true;
                        self.reading_body = false;
                    }
                }
            },
        }
    }
}

/// Why no mail could be decoded from a stream.
#[derive(Debug, PartialEq, Eq)]
pub enum MailParseError {
    /// The stream ended before an end event closed the message in progress.
    UnexpectedEndOfStream,
    /// The stream source reported a malformed line.
    SourceError,
}

/// One typed event of the entry stream, one per physical line.
#[derive(Debug)]
pub enum Entry {
    Begin,
    Header(Header),
    Body(Vec<u8>),
    End,
}

/// One event of the entry stream at the model level: a header as its key
/// and value, a body line as its bytes.
pub ghost enum EventModel {
    Begin,
    Header(Seq<char>, Seq<char>),
    Body(Seq<u8>),
    End,
}

/// The image of one event.
pub open spec fn event_view(e: Entry) -> EventModel {
    match e {
        Entry::Begin => EventModel::Begin,
        Entry::Header(h) => EventModel::Header(h.key@, h.value@),
        Entry::Body(b) => EventModel::Body(b@),
        Entry::End => EventModel::End,
    }
}

/// The image of an event vector.
pub open spec fn events_view(evs: Seq<Entry>) -> Seq<EventModel> {
    evs.map_values(|e: Entry| event_view(e))
}

/// What the mailbox tokenizer makes of an mbox text: the events of its
/// entry stream, or the error it stops at. The tokenizer reads the text
/// from memory, so the outcome depends on the characters of the text
/// alone.
pub uninterp spec fn mbox_events(s: Seq<char>) -> Result<Seq<EventModel>, MailParseError>;

/// Relies on the mailbox crate's stream tokenizer `stream::entries`: it
/// splits mbox text into begin, header, body and end events, framing
/// messages on `From ` envelope lines, unfolding folded headers, and
/// handing header keys out in canonical header case.
#[verifier::external_body]
fn tokenize(input: &str) -> (r: Result<Vec<Entry>, MailParseError>)
    ensures
        match r {
            Ok(evs) => mbox_events(input@) == Ok::<Seq<EventModel>, MailParseError>(
                events_view(evs@),
            ),
            Err(e) => mbox_events(input@) == Err::<Seq<EventModel>, MailParseError>(e),
        },
{
    let mut out = Vec::new();
    for entry in mailbox::stream::entries(std::io::Cursor::new(input)) {
        match entry {
            Ok(MbEntry::Begin(..)) => out.push(Entry::Begin),
            Ok(MbEntry::Header(h)) => out.push(
                Entry::Header(Header { key: h.key().to_string(), value: h.value().to_string() }),
            ),
            Ok(MbEntry::Body(b)) => out.push(Entry::Body(b)),
            Ok(MbEntry::End) => out.push(Entry::End),
            Err(_) => return Err(MailParseError::SourceError),
        }
    }
    Ok(out)
}

/// The mail decoded from an event stream: events drive the decoder until
/// the first end event that closes a message; a stream that runs out first
/// is an error.
pub open spec fn spec_decode(events: Seq<EventModel>, c: ContextModel) -> Result<
    MailModel,
    MailParseError,
>
    decreases events.len(),
{
    if events.len() == 0 {
        Err(MailParseError::UnexpectedEndOfStream)
    } else {
        match events[0] {
            EventModel::Begin => spec_decode(events.drop_first(), spec_begin_step()),
            EventModel::Header(k, v) => spec_decode(
                events.drop_first(),
                spec_header_step(c, k, v),
            ),
            EventModel::Body(b) => spec_decode(events.drop_first(), spec_body_step(c, b)),
            EventModel::End => match c.mail {
                Some(m) => Ok(m),
                None => spec_decode(events.drop_first(), c),
            },
        }
    }
}

/// Feeds an event stream through a fresh decoder and returns the first
/// completed mail.
pub fn decode_events(events: &Vec<Entry>) -> (r: Result<Mail, MailParseError>)
    ensures
        match r {
            Ok(m) => spec_decode(events_view(events@), initial_context()) == Ok::<
                MailModel,
                MailParseError,
            >(m@),
            Err(e) => spec_decode(events_view(events@), initial_context()) == Err::<
                MailModel,
                MailParseError,
            >(e),
        },
{
    let ghost ev = events_view(events@);
    let mut ctx = Context::new();
    let n: usize = events.len();
    let mut i: usize = 0;
    proof {
        assert(ev.skip(0) =~= ev);
    }
    while i < n
        invariant
            ev == events_view(events@),
            n == events@.len(),
            i <= n,
            spec_decode(ev, initial_context()) == spec_decode(ev.skip(i as int), ctx@),
        decreases n - i,
    {
        proof {
            assert(ev.skip(i as int).drop_first() =~= ev.skip(i + 1));
            assert(ev.skip(i as int)[0] == ev[i as int]);
            assert(ev[i as int] == event_view(events@[i as int]));
        }
        let ghost pre = ctx@;
        match &events[i] {
            Entry::Begin => {
                ctx.begin();
            },
            Entry::Header(h) => {
                ctx.header(h);
            },
            Entry::Body(b) => {
                ctx.body(b.as_slice());
            },
            Entry::End => {
                match ctx.end() {
                    Some(m) => {
                        return Ok(m);
                    },
                    None => {
                        proof {
                            assert(ctx@ =~~= pre);
                        }
                    },
                }
            },
        }
        i = i + 1;
    }
    proof {
        assert(ev.skip(n as int) =~= Seq::<EventModel>::empty());
    }
    Err(MailParseError::UnexpectedEndOfStream)
}

/// The index of the first header whose key, in canonical header case,
/// reads as `canon`; the length where there is none.
fn find_header(headers: &Vec<Header>, canon: &str) -> (r: usize)
    ensures
        r == header_scan(headers@.map_values(|h: Header| (h.key@, h.value@)), canon@, 0),
        r <= headers@.len(),
        r < headers@.len() ==> header_case(headers@[r as int].key@) == canon@,
{
    let ghost view = headers@.map_values(|h: Header| (h.key@, h.value@));
    let n: usize = headers.len();
    let mut i: usize = 0;
    while i < n
        invariant
            n == headers@.len(),
            i <= n,
            view == headers@.map_values(|h: Header| (h.key@, h.value@)),
            header_scan(view, canon@, 0) == header_scan(view, canon@, i as int),
        ensures
            i <= n,
            header_scan(view, canon@, 0) == i,
            i < n ==> header_case(headers@[i as int].key@) == canon@,
        decreases n - i,
    {
        if key_in_header_case_is(headers[i].key.as_str(), canon) {
            proof {
                assert(view[i as int].0 == headers@[i as int].key@);
            }
            break;
        }
        proof {
            assert(view[i as int].0 == headers@[i as int].key@);
        }
        i = i + 1;
    }
    i
}

/// What the chrono crate makes of a `Date` header value: `None` where the
/// value is not an RFC 2822 timestamp, otherwise the timestamp rewritten in
/// the compact sortable form `YYYYMMDDTHHMMSS`. The outcome depends on the
/// characters of the value alone.
pub uninterp spec fn rfc2822_compact(s: Seq<char>) -> Option<Seq<char>>;

/// Relies on chrono: `DateTime::parse_from_rfc2822` reads an RFC 2822
/// timestamp, and the parsed date is reformatted with `%Y%m%dT%H%M%S`.
#[verifier::external_body]
fn date_compact(value: &str) -> (r: Option<String>)
    ensures
        r is Some <==> rfc2822_compact(value@) is Some,
        r matches Some(s) ==> Some(s@) == rfc2822_compact(value@),
{
    chrono::DateTime::parse_from_rfc2822(value).ok().map(
        |d| d.format("%Y%m%dT%H%M%S").to_string(),
    )
}

/// The `text/plain` part of a mail, read as UTF-8 text; empty where there
/// is no such part or its bytes are not valid UTF-8.
pub open spec fn spec_body_text(m: MailModel) -> Seq<char> {
    let i = body_scan(m.body, "text/plain"@, 0);
    if i < m.body.len() && valid_utf8(m.body[i].1) {
        decode_utf8(m.body[i].1)
    } else {
        Seq::empty()
    }
}

/// The value of the first `Subject` header, or the empty string.
pub open spec fn spec_subject(m: MailModel) -> Seq<char> {
    let i = header_scan(m.headers, "Subject"@, 0);
    if i < m.headers.len() {
        m.headers[i].1
    } else {
        Seq::empty()
    }
}

/// The mail an mbox text decodes to: the tokenizer's events fed through
/// a fresh decoder, or the error where the tokenizer stops on a malformed
/// line or the stream ends before a message is closed.
pub open spec fn spec_parse_mbox(s: Seq<char>) -> Result<MailModel, MailParseError> {
    match mbox_events(s) {
        Ok(evs) => spec_decode(evs, initial_context()),
        Err(e) => Err(e),
    }
}

/// The value of the first `Date` header rewritten as `YYYYMMDDTHHMMSS`,
/// the raw value where it is not an RFC 2822 timestamp, or the empty
/// string where there is no such header.
pub open spec fn spec_date(m: MailModel) -> Seq<char> {
    let i = header_scan(m.headers, "Date"@, 0);
    if i < m.headers.len() {
        match rfc2822_compact(m.headers[i].1) {
            Some(t) => t,
            None => m.headers[i].1,
        }
    } else {
        Seq::empty()
    }
}

impl Mail {
    /// An empty mail: no headers, no body parts, no boundary.
    pub fn new() -> (m: Mail)
        ensures
            m@ == empty_mail_model(),
    {
        let m = Mail { headers: Vec::new(), body: Vec::new(), boundary: String::new() };
        proof {
            assert(m@ =~~= empty_mail_model());
        }
        m
    }

    /// The first message of an mbox text, decoded: exactly what the
    /// decoder makes of the tokenizer's events, with the tokenizer's own
    /// error where it stops first. The result, where there is one, has
    /// body parts unique by MIME essence.
    pub fn parse(input: &str) -> (r: Result<Mail, MailParseError>)
        ensures
            match r {
                Ok(m) => spec_parse_mbox(input@) == Ok::<MailModel, MailParseError>(m@)
                    && mail_body_unique(m@),
                Err(e) => spec_parse_mbox(input@) == Err::<MailModel, MailParseError>(e),
            },
    {
        match tokenize(input) {
            Ok(events) => {
                let res = decode_events(&events);
                proof {
                    if res is Ok {
                        lemma_decode_body_unique(events_view(events@), initial_context());
                    }
                }
                res
            },
            Err(e) => Err(e),
        }
    }

    /// The `text/plain` part of this mail as text, or the empty string.
    pub fn body_text(&self) -> (r: String)
        ensures
            r@ == spec_body_text(self@),
    {
        let key: String = "text/plain".to_owned();
        let i: usize = find_part(&self.body, &key);
        if i < self.body.len() {
            match bytes_as_str(self.body[i].content.as_slice()) {
                Some(s) => s.to_owned(),
                None => String::new(),
            }
        } else {
            String::new()
        }
    }

    /// The value of this mail's `Subject` header, or the empty string.
    pub fn subject(&self) -> (r: String)
        ensures
            r@ == spec_subject(self@),
    {
        let i: usize = find_header(&self.headers, "Subject");
        if i < self.headers.len() {
            self.headers[i].value.clone()
        } else {
            String::new()
        }
    }

    /// The value of this mail's `Date` header in compact sortable form,
    /// the raw value where it does not parse, or the empty string.
    pub fn date(&self) -> (r: String)
        ensures
            r@ == spec_date(self@),
    {
        let i: usize = find_header(&self.headers, "Date");
        if i < self.headers.len() {
            match date_compact(self.headers[i].value.as_str()) {
                Some(t) => t,
                None => self.headers[i].value.clone(),
            }
        } else {
            String::new()
        }
    }
}


/// The body mapping of a mail has keys unique by MIME essence: at most
/// one accumulation buffer per essence type.
pub open spec fn mail_body_unique(m: MailModel) -> bool {
    forall|i: int, j: int| 0 <= i < j < m.body.len() ==> m.body[i].0 != m.body[j].0
}

/// The mail under construction, if any, has unique body keys.
pub open spec fn ctx_body_unique(c: ContextModel) -> bool {
    match c.mail {
        Some(m) => mail_body_unique(m),
        None => true,
    }
}

proof fn lemma_body_scan_props(body: Seq<(Seq<char>, Seq<u8>)>, key: Seq<char>, i: int)
    requires
        0 <= i <= body.len(),
    ensures
        i <= body_scan(body, key, i) <= body.len(),
        body_scan(body, key, i) < body.len() ==> body[body_scan(body, key, i)].0 == key,
        forall|j: int| i <= j < body_scan(body, key, i) ==> body[j].0 != key,
    decreases body.len() - i,
{
    if i < body.len() && body[i].0 != key {
        lemma_body_scan_props(body, key, i + 1);
    }
}

proof fn lemma_append_line_unique(body: Seq<(Seq<char>, Seq<u8>)>, key: Seq<char>, line: Seq<u8>)
    requires
        forall|i: int, j: int| 0 <= i < j < body.len() ==> body[i].0 != body[j].0,
    ensures
        forall|i: int, j: int|
            0 <= i < j < append_line(body, key, line).len() ==> append_line(body, key, line)[i].0
                != append_line(body, key, line)[j].0,
{
    lemma_body_scan_props(body, key, 0);
}

proof fn lemma_ensure_entry_unique(body: Seq<(Seq<char>, Seq<u8>)>, key: Seq<char>)
    requires
        forall|i: int, j: int| 0 <= i < j < body.len() ==> body[i].0 != body[j].0,
    ensures
        forall|i: int, j: int|
            0 <= i < j < ensure_entry(body, key).len() ==> ensure_entry(body, key)[i].0
                != ensure_entry(body, key)[j].0,
{
    lemma_body_scan_props(body, key, 0);
}

proof fn lemma_body_step_unique(c: ContextModel, line: Seq<u8>)
    requires
        ctx_body_unique(c),
    ensures
        ctx_body_unique(spec_body_step(c, line)),
{
    match c.mail {
        None => {},
        Some(m) => {
            if m.boundary.len() == 0 {
                lemma_append_line_unique(m.body, "text/plain"@, line);
            } else {
                let body1 = if c.reading_body && !(line == encode_utf8(m.boundary)) {
                    match c.current_body {
                        Some(mt) => append_line(m.body, mt, line),
                        None => m.body,
                    }
                } else {
                    m.body
                };
                match c.current_body {
                    Some(mt) => lemma_append_line_unique(m.body, mt, line),
                    None => {},
                }
                if c.reading_headers && line.len() > 0 {
                    match spec_parse_header_line(line) {
                        Some((k, v)) => {
                            if header_case(k) == "Content-Type"@ {
                                match spec_content_type(v) {
                                    Some((ess, b)) => lemma_ensure_entry_unique(body1, ess),
                                    None => {},
                                }
                            }
                        },
                        None => {},
                    }
                }
            }
        },
    }
}

proof fn lemma_decode_body_unique(events: Seq<EventModel>, c: ContextModel)
    requires
        ctx_body_unique(c),
    ensures
        spec_decode(events, c) matches Ok(m) ==> mail_body_unique(m),
    decreases events.len(),
{
    if events.len() > 0 {
        match events[0] {
            EventModel::Begin => {
                lemma_decode_body_unique(events.drop_first(), spec_begin_step());
            },
            EventModel::Header(k, v) => {
                lemma_decode_body_unique(events.drop_first(), spec_header_step(c, k, v));
            },
            EventModel::Body(b) => {
                lemma_body_step_unique(c, b);
                lemma_decode_body_unique(events.drop_first(), spec_body_step(c, b));
            },
            EventModel::End => {
                match c.mail {
                    Some(m) => {},
                    None => {
                        lemma_decode_body_unique(events.drop_first(), c);
                    },
                }
            },
        }
    }
}

/// Every mail the decoder completes has body parts unique by MIME
/// essence: however the events interleave, at most one buffer per essence
/// type is ever created.
pub proof fn lemma_decoded_mail_unique_essences(events: Seq<EventModel>)
    ensures
        spec_decode(events, initial_context()) matches Ok(m) ==> mail_body_unique(m),
{
    lemma_decode_body_unique(events, initial_context());
}

} // verus!
