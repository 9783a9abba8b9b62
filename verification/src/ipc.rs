//! Versioned local IPC messages and bounded length-prefixed framing.

use vstd::prelude::*;
use vstd::utf8::*;
use crate::domain::{
    kind_bytes, kind_from_bytes, kind_name_bytes, kind_with_bytes, HitView, ItemKind, SearchHit,
    SearchItem,
};
use crate::text::{
    all_ascii, ascii_chars, bytes_of, copy_bytes, decimal, parse_bounded, parse_unsigned, push_str,
    split_at_byte, split_on, string_from_ascii, string_from_utf8, utf8_is_valid, write_decimal, decimal_text, push_decimal, lossy_text,
};
use crate::wire::{decode_bytes, encode_bytes_into, escape_bytes, float_literal, is_float_literal, lines_of, split_lines, unescape_bytes};

verus! {

pub const PROTOCOL_VERSION: u16 = 1;

pub const MAX_FRAME_SIZE: usize = 1048576;

/// The largest search limit a request may ask for.
pub const MAX_SEARCH_LIMIT: usize = 1000;

#[derive(Clone, Debug, PartialEq, Eq)]
pub enum Request {
    Ping,
    Status,
    Shutdown,
    Search { query: String, limit: usize },
}

pub enum RequestView {
    Ping,
    Status,
    Shutdown,
    Search { query: Seq<char>, limit: usize },
}

impl View for Request {
    type V = RequestView;

    open spec fn view(&self) -> RequestView {
        match self {
            Request::Ping => RequestView::Ping,
            Request::Status => RequestView::Status,
            Request::Shutdown => RequestView::Shutdown,
            Request::Search { query, limit } => RequestView::Search { query: query@, limit: *limit },
        }
    }
}

#[derive(Clone, Copy, Debug, PartialEq, Eq, Structural)]
pub struct DaemonStatus {
    pub indexed_items: usize,
    pub skipped_paths: usize,
    pub truncated: bool,
}

#[derive(Clone, Debug, PartialEq, Eq)]
pub enum Response {
    Acknowledged,
    Pong { protocol_version: u16 },
    Status(DaemonStatus),
    Search { elapsed_us: u64, hits: Vec<SearchHit> },
    Error(String),
}

pub enum ResponseView {
    Acknowledged,
    Pong { protocol_version: u16 },
    Status(DaemonStatus),
    Search { elapsed_us: u64, hits: Seq<HitView> },
    Error(Seq<char>),
}

impl View for Response {
    type V = ResponseView;

    open spec fn view(&self) -> ResponseView {
        match self {
            Response::Acknowledged => ResponseView::Acknowledged,
            Response::Pong { protocol_version } => ResponseView::Pong {
                protocol_version: *protocol_version,
            },
            Response::Status(s) => ResponseView::Status(*s),
            Response::Search { elapsed_us, hits } => ResponseView::Search {
                elapsed_us: *elapsed_us,
                hits: hits@.map_values(|h: SearchHit| h@),
            },
            Response::Error(m) => ResponseView::Error(m@),
        }
    }
}

#[verifier::external_type_specification]
#[verifier::external_body]
pub struct ExIoError(std::io::Error);

#[derive(Debug)]
pub enum ProtocolError {
    EmptyMessage,
    InvalidMessage(&'static str),
    InvalidNumber,
    InvalidEscape,
    InvalidUtf8,
    FrameTooLarge(usize),
    Io(std::io::Error),
}

#[derive(Debug)]
pub enum ClientError {
    Connect { socket: Vec<u8>, source: std::io::Error },
    Protocol(ProtocolError),
}

/// Calls `Display` for `std::io::Error` through `format!`. The text depends on the
/// operating system's error messages and is left unsaid.
#[verifier::external_body]
pub(crate) fn io_error_text(error: &std::io::Error) -> String {
    format!("{error}")
}

/// The text of a protocol error other than an I/O failure, as `Display` writes it.
pub open spec fn fault_text(e: ProtocolError) -> Seq<char> {
    match e {
        ProtocolError::EmptyMessage => "empty IPC message"@,
        ProtocolError::InvalidMessage(reason) => "invalid IPC message: "@ + reason@,
        ProtocolError::InvalidNumber => "invalid numeric IPC field"@,
        ProtocolError::InvalidEscape => "invalid percent-encoded IPC field"@,
        ProtocolError::InvalidUtf8 => "IPC text field is not valid UTF-8"@,
        ProtocolError::FrameTooLarge(size) => "IPC frame is too large: "@ + decimal_text(size as nat) + " bytes"@,
        ProtocolError::Io(_) => "IPC I/O error: "@,
    }
}

impl ProtocolError {
    /// The text of the error. An I/O failure reads `IPC I/O error: ` followed by the
    /// system's description of it.
    pub fn message(&self) -> (text: String)
        ensures
            !(self is Io) ==> text@ == fault_text(*self),
            self is Io ==> crate::text::starts_with(text@, fault_text(*self)),
    {
        let mut text = String::new();
        match self {
            ProtocolError::EmptyMessage => push_str(&mut text, "empty IPC message"),
            ProtocolError::InvalidMessage(reason) => {
                push_str(&mut text, "invalid IPC message: ");
                push_str(&mut text, reason);
            },
            ProtocolError::InvalidNumber => push_str(&mut text, "invalid numeric IPC field"),
            ProtocolError::InvalidEscape => push_str(&mut text, "invalid percent-encoded IPC field"),
            ProtocolError::InvalidUtf8 => push_str(&mut text, "IPC text field is not valid UTF-8"),
            ProtocolError::FrameTooLarge(size) => {
                push_str(&mut text, "IPC frame is too large: ");
                push_decimal(&mut text, *size as u64);
                push_str(&mut text, " bytes");
            },
            ProtocolError::Io(error) => {
                push_str(&mut text, "IPC I/O error: ");
                let ghost head = text@;
                let detail = io_error_text(error);
                push_str(&mut text, detail.as_str());
                assert(text@.take(head.len() as int) =~= head);
            },
        }
        text
    }
}

/// The text of a client error, as `Display` writes it: the failed connection with the
/// socket path (read as text) and the system's description, or the protocol error.
pub open spec fn client_error_prefix(e: ClientError) -> Seq<char> {
    match e {
        ClientError::Connect { socket, .. } => "cannot connect to "@ + lossy_text(socket@) + ": "@,
        ClientError::Protocol(p) => fault_text(p),
    }
}

impl ClientError {
    pub fn message(&self) -> (text: String)
        ensures
            (self matches ClientError::Protocol(p) && !(p is Io)) ==> text@ == client_error_prefix(*self),
            crate::text::starts_with(text@, client_error_prefix(*self)),
    {
        match self {
            ClientError::Connect { socket, source } => {
                let mut text = String::new();
                push_str(&mut text, "cannot connect to ");
                let shown = crate::text::lossy_chars(socket.as_slice());
                let shown_text = crate::text::string_from_chars(&shown);
                push_str(&mut text, shown_text.as_str());
                push_str(&mut text, ": ");
                let ghost head = text@;
                assert(head =~= client_error_prefix(*self));
                let detail = io_error_text(source);
                push_str(&mut text, detail.as_str());
                assert(text@.take(head.len() as int) =~= head);
                text
            },
            ClientError::Protocol(p) => {
                let text = p.message();
                assert(text@.take(text@.len() as int) =~= text@);
                text
            },
        }
    }
}

/// The ways a payload can be malformed.
pub enum Fault {
    EmptyMessage,
    InvalidMessage(Seq<char>),
    InvalidNumber,
    InvalidEscape,
    InvalidUtf8,
}

pub open spec fn fault_is(e: ProtocolError, f: Fault) -> bool {
    match (e, f) {
        (ProtocolError::EmptyMessage, Fault::EmptyMessage) => true,
        (ProtocolError::InvalidMessage(m), Fault::InvalidMessage(n)) => m@ == n,
        (ProtocolError::InvalidNumber, Fault::InvalidNumber) => true,
        (ProtocolError::InvalidEscape, Fault::InvalidEscape) => true,
        (ProtocolError::InvalidUtf8, Fault::InvalidUtf8) => true,
        _ => false,
    }
}

/// A decoding result agrees with its specification.
pub open spec fn decoded_as<T: View>(r: Result<T, ProtocolError>, s: Result<T::V, Fault>) -> bool {
    match (r, s) {
        (Ok(v), Ok(w)) => v@ == w,
        (Err(e), Err(f)) => fault_is(e, f),
        _ => false,
    }
}

// ---------------------------------------------------------------------------
// Keywords
// ---------------------------------------------------------------------------

pub open spec fn tab() -> u8 {
    0x09
}

pub open spec fn kw_ping() -> Seq<u8> {
    seq![0x50u8, 0x49, 0x4E, 0x47]
}

pub open spec fn kw_pong() -> Seq<u8> {
    seq![0x50u8, 0x4F, 0x4E, 0x47]
}

pub open spec fn kw_status() -> Seq<u8> {
    seq![0x53u8, 0x54, 0x41, 0x54, 0x55, 0x53]
}

pub open spec fn kw_shutdown() -> Seq<u8> {
    seq![0x53u8, 0x48, 0x55, 0x54, 0x44, 0x4F, 0x57, 0x4E]
}

pub open spec fn kw_search() -> Seq<u8> {
    seq![0x53u8, 0x45, 0x41, 0x52, 0x43, 0x48]
}

pub open spec fn kw_ack() -> Seq<u8> {
    seq![0x41u8, 0x43, 0x4B]
}

pub open spec fn kw_error() -> Seq<u8> {
    seq![0x45u8, 0x52, 0x52, 0x4F, 0x52]
}

pub open spec fn kw_results() -> Seq<u8> {
    seq![0x52u8, 0x45, 0x53, 0x55, 0x4C, 0x54, 0x53]
}

fn keyword(which: u8) -> (k: Vec<u8>)
    requires
        which < 8,
    ensures
        which == 0 ==> k@ == kw_ping(),
        which == 1 ==> k@ == kw_pong(),
        which == 2 ==> k@ == kw_status(),
        which == 3 ==> k@ == kw_shutdown(),
        which == 4 ==> k@ == kw_search(),
        which == 5 ==> k@ == kw_ack(),
        which == 6 ==> k@ == kw_error(),
        which == 7 ==> k@ == kw_results(),
{
    let k = if which == 0 {
        vec![0x50u8, 0x49, 0x4E, 0x47]
    } else if which == 1 {
        vec![0x50u8, 0x4F, 0x4E, 0x47]
    } else if which == 2 {
        vec![0x53u8, 0x54, 0x41, 0x54, 0x55, 0x53]
    } else if which == 3 {
        vec![0x53u8, 0x48, 0x55, 0x54, 0x44, 0x4F, 0x57, 0x4E]
    } else if which == 4 {
        vec![0x53u8, 0x45, 0x41, 0x52, 0x43, 0x48]
    } else if which == 5 {
        vec![0x41u8, 0x43, 0x4B]
    } else if which == 6 {
        vec![0x45u8, 0x52, 0x52, 0x4F, 0x52]
    } else {
        vec![0x52u8, 0x45, 0x53, 0x55, 0x4C, 0x54, 0x53]
    };
    assert(which == 0 ==> k@ =~= kw_ping());
    assert(which == 1 ==> k@ =~= kw_pong());
    assert(which == 2 ==> k@ =~= kw_status());
    assert(which == 3 ==> k@ =~= kw_shutdown());
    assert(which == 4 ==> k@ =~= kw_search());
    assert(which == 5 ==> k@ =~= kw_ack());
    assert(which == 6 ==> k@ =~= kw_error());
    assert(which == 7 ==> k@ =~= kw_results());
    k
}

fn append(out: &mut Vec<u8>, tail: &Vec<u8>)
    ensures
        final(out)@ == old(out)@ + tail@,
{
    out.extend_from_slice(tail.as_slice());
}

// ---------------------------------------------------------------------------
// Field readers
// ---------------------------------------------------------------------------

pub open spec fn number_field(f: Seq<Seq<u8>>, i: int, max: nat) -> Result<nat, Fault> {
    if i >= f.len() {
        Err(Fault::InvalidMessage("missing field"@))
    } else {
        match parse_bounded(f[i], max) {
            Some(v) => Ok(v),
            None => Err(Fault::InvalidNumber),
        }
    }
}

pub open spec fn text_field(f: Seq<Seq<u8>>, i: int) -> Result<Seq<char>, Fault> {
    if i >= f.len() {
        Err(Fault::InvalidMessage("missing text field"@))
    } else {
        match unescape_bytes(f[i]) {
            None => Err(Fault::InvalidEscape),
            Some(b) => if valid_utf8(b) {
                Ok(decode_utf8(b))
            } else {
                Err(Fault::InvalidUtf8)
            },
        }
    }
}

pub open spec fn bool_field(f: Seq<Seq<u8>>, i: int) -> Result<bool, Fault> {
    if i < f.len() && f[i] == seq![0x30u8] {
        Ok(false)
    } else if i < f.len() && f[i] == seq![0x31u8] {
        Ok(true)
    } else {
        Err(Fault::InvalidMessage("invalid boolean field"@))
    }
}

fn read_number(f: &Vec<Vec<u8>>, i: usize, max: u64) -> (r: Result<u64, ProtocolError>)
    ensures
        match (r, number_field(f@.map_values(|v: Vec<u8>| v@), i as int, max as nat)) {
            (Ok(v), Ok(w)) => v as nat == w,
            (Err(e), Err(g)) => fault_is(e, g),
            _ => false,
        },
{
    if i >= f.len() {
        return Err(ProtocolError::InvalidMessage("missing field"));
    }
    assert(f@.map_values(|v: Vec<u8>| v@)[i as int] == f@[i as int]@);
    match parse_unsigned(f[i].as_slice(), max) {
        Some(v) => Ok(v),
        None => Err(ProtocolError::InvalidNumber),
    }
}

fn read_text(f: &Vec<Vec<u8>>, i: usize) -> (r: Result<String, ProtocolError>)
    ensures
        match (r, text_field(f@.map_values(|v: Vec<u8>| v@), i as int)) {
            (Ok(v), Ok(w)) => v@ == w,
            (Err(e), Err(g)) => fault_is(e, g),
            _ => false,
        },
{
    if i >= f.len() {
        return Err(ProtocolError::InvalidMessage("missing text field"));
    }
    assert(f@.map_values(|v: Vec<u8>| v@)[i as int] == f@[i as int]@);
    match decode_bytes(f[i].as_slice()) {
        None => Err(ProtocolError::InvalidEscape),
        Some(bytes) => match string_from_utf8(bytes) {
            Some(s) => Ok(s),
            None => Err(ProtocolError::InvalidUtf8),
        },
    }
}

fn read_bool(f: &Vec<Vec<u8>>, i: usize) -> (r: Result<bool, ProtocolError>)
    ensures
        match (r, bool_field(f@.map_values(|v: Vec<u8>| v@), i as int)) {
            (Ok(v), Ok(w)) => v == w,
            (Err(e), Err(g)) => fault_is(e, g),
            _ => false,
        },
{
    if i < f.len() {
        assert(f@.map_values(|v: Vec<u8>| v@)[i as int] == f@[i as int]@);
        if f[i].len() == 1 && f[i][0] == 0x30 {
            assert(f@[i as int]@ =~= seq![0x30u8]);
            return Ok(false);
        }
        if f[i].len() == 1 && f[i][0] == 0x31 {
            assert(f@[i as int]@ =~= seq![0x31u8]);
            return Ok(true);
        }
        assert(f@[i as int]@ != seq![0x30u8]) by {
            if f@[i as int]@.len() == 1 {
                assert(f@[i as int]@[0] != seq![0x30u8][0]);
            }
        }
        assert(f@[i as int]@ != seq![0x31u8]) by {
            if f@[i as int]@.len() == 1 {
                assert(f@[i as int]@[0] != seq![0x31u8][0]);
            }
        }
    }
    Err(ProtocolError::InvalidMessage("invalid boolean field"))
}

fn field_is(f: &Vec<Vec<u8>>, i: usize, word: &Vec<u8>) -> (r: bool)
    requires
        i < f.len(),
    ensures
        r == (f@.map_values(|v: Vec<u8>| v@)[i as int] == word@),
{
    assert(f@.map_values(|v: Vec<u8>| v@)[i as int] == f@[i as int]@);
    crate::text::same_elements_bytes(f[i].as_slice(), word.as_slice())
}

// ---------------------------------------------------------------------------
// Requests
// ---------------------------------------------------------------------------

/// The encoding of a request.
pub open spec fn request_bytes(r: RequestView) -> Seq<u8> {
    match r {
        RequestView::Ping => kw_ping(),
        RequestView::Status => kw_status(),
        RequestView::Shutdown => kw_shutdown(),
        RequestView::Search { query, limit } => kw_search().push(tab()) + decimal(limit as nat).push(
            tab(),
        ) + escape_bytes(encode_utf8(query)),
    }
}

/// How a request payload decodes.
pub open spec fn request_of(b: Seq<u8>) -> Result<RequestView, Fault> {
    if !valid_utf8(b) {
        Err(Fault::InvalidUtf8)
    } else {
        let f = split_on(b, tab());
        let head = f[0];
        if head == kw_ping() && f.len() == 1 {
            Ok(RequestView::Ping)
        } else if head == kw_status() && f.len() == 1 {
            Ok(RequestView::Status)
        } else if head == kw_shutdown() && f.len() == 1 {
            Ok(RequestView::Shutdown)
        } else if head == kw_search() {
            match number_field(f, 1, usize::MAX as nat) {
                Err(e) => Err(e),
                Ok(limit) => if limit > MAX_SEARCH_LIMIT {
                    Err(Fault::InvalidMessage("search limit exceeds 1000"@))
                } else {
                    match text_field(f, 2) {
                        Err(e) => Err(e),
                        Ok(query) => if f.len() > 3 {
                            Err(Fault::InvalidMessage("too many SEARCH fields"@))
                        } else {
                            Ok(RequestView::Search { query, limit: limit as usize })
                        },
                    }
                },
            }
        } else {
            Err(Fault::InvalidMessage("unknown request"@))
        }
    }
}

pub fn encode_request(request: &Request) -> (bytes: Vec<u8>)
    ensures
        bytes@ == request_bytes(request@),
{
    match request {
        Request::Ping => keyword(0),
        Request::Status => keyword(2),
        Request::Shutdown => keyword(3),
        Request::Search { query, limit } => {
            let mut out = keyword(4);
            out.push(0x09);
            write_decimal(*limit as u64, &mut out);
            out.push(0x09);
            let text = bytes_of(query.as_str());
            encode_bytes_into(text.as_slice(), &mut out);
            assert(out@ =~= request_bytes(request@));
            out
        },
    }
}

/// Decodes one request payload.
pub fn decode_request(bytes: &[u8]) -> (r: Result<Request, ProtocolError>)
    ensures
        decoded_as(r, request_of(bytes@)),
{
    if !utf8_is_valid(bytes) {
        return Err(ProtocolError::InvalidUtf8);
    }
    let fields = split_at_byte(bytes, 0x09);
    let ghost f = fields@.map_values(|v: Vec<u8>| v@);
    let n = fields.len();
    if field_is(&fields, 0, &keyword(0)) && n == 1 {
        return Ok(Request::Ping);
    }
    if field_is(&fields, 0, &keyword(2)) && n == 1 {
        return Ok(Request::Status);
    }
    if field_is(&fields, 0, &keyword(3)) && n == 1 {
        return Ok(Request::Shutdown);
    }
    if field_is(&fields, 0, &keyword(4)) {
        let limit = match read_number(&fields, 1, usize::MAX as u64) {
            Ok(v) => v,
            Err(e) => return Err(e),
        };
        if limit > 1000 {
            return Err(ProtocolError::InvalidMessage("search limit exceeds 1000"));
        }
        let query = match read_text(&fields, 2) {
            Ok(q) => q,
            Err(e) => return Err(e),
        };
        if n > 3 {
            return Err(ProtocolError::InvalidMessage("too many SEARCH fields"));
        }
        return Ok(Request::Search { query, limit: limit as usize });
    }
    Err(ProtocolError::InvalidMessage("unknown request"))
}

// ---------------------------------------------------------------------------
// Responses
// ---------------------------------------------------------------------------

pub open spec fn flag_byte(b: bool) -> u8 {
    if b {
        0x31
    } else {
        0x30
    }
}

/// One result line.
pub open spec fn hit_line(h: HitView) -> Seq<u8> {
    decimal(h.id as nat).push(tab()) + encode_utf8(h.score).push(tab()) + kind_bytes(h.kind).push(
        tab(),
    ) + seq![flag_byte(h.hidden), tab()] + escape_bytes(encode_utf8(h.name)).push(tab())
        + escape_bytes(h.path)
}

/// Each result on a line of its own, every line introduced by a line feed.
pub open spec fn hit_lines(hits: Seq<HitView>) -> Seq<u8>
    decreases hits.len(),
{
    if hits.len() == 0 {
        seq![]
    } else {
        hit_lines(hits.drop_last()).push(0x0Au8) + hit_line(hits.last())
    }
}

/// The encoding of a response.
pub open spec fn response_bytes(r: ResponseView) -> Seq<u8> {
    match r {
        ResponseView::Acknowledged => kw_ack(),
        ResponseView::Pong { protocol_version } => kw_pong().push(tab()) + decimal(
            protocol_version as nat,
        ),
        ResponseView::Status(s) => kw_status().push(tab()) + decimal(s.indexed_items as nat).push(
            tab(),
        ) + decimal(s.skipped_paths as nat).push(tab()) + seq![flag_byte(s.truncated)],
        ResponseView::Error(m) => kw_error().push(tab()) + escape_bytes(encode_utf8(m)),
        ResponseView::Search { elapsed_us, hits } => kw_results().push(tab()) + decimal(
            elapsed_us as nat,
        ).push(tab()) + decimal(hits.len()) + hit_lines(hits),
    }
}

/// How one result line decodes.
pub open spec fn hit_of(line: Seq<u8>) -> Result<HitView, Fault> {
    let f = split_on(line, tab());
    match number_field(f, 0, u64::MAX as nat) {
        Err(e) => Err(e),
        Ok(id) => if f.len() < 2 {
            Err(Fault::InvalidMessage("missing field"@))
        } else if !float_literal(f[1]) || !all_ascii(f[1]) {
            Err(Fault::InvalidNumber)
        } else if f.len() < 3 {
            Err(Fault::InvalidMessage("missing result kind"@))
        } else {
            match kind_with_bytes(f[2]) {
                None => Err(Fault::InvalidMessage("unknown result kind"@)),
                Some(kind) => match bool_field(f, 3) {
                    Err(e) => Err(e),
                    Ok(hidden) => match text_field(f, 4) {
                        Err(e) => Err(e),
                        Ok(name) => if f.len() < 6 {
                            Err(Fault::InvalidMessage("missing path field"@))
                        } else {
                            match unescape_bytes(f[5]) {
                                None => Err(Fault::InvalidEscape),
                                Some(path) => if f.len() > 6 {
                                    Err(Fault::InvalidMessage("too many fields"@))
                                } else {
                                    Ok(
                                        HitView {
                                            id: id as u64,
                                            score: ascii_chars(f[1]),
                                            kind,
                                            hidden,
                                            name,
                                            path,
                                        },
                                    )
                                },
                            }
                        },
                    },
                },
            }
        },
    }
}

/// Result lines decoded in order; the first malformed line decides the error.
pub open spec fn hits_of(lines: Seq<Seq<u8>>) -> Result<Seq<HitView>, Fault>
    decreases lines.len(),
{
    if lines.len() == 0 {
        Ok(seq![])
    } else {
        match hit_of(lines[0]) {
            Err(e) => Err(e),
            Ok(h) => match hits_of(lines.drop_first()) {
                Err(e) => Err(e),
                Ok(rest) => Ok(seq![h] + rest),
            },
        }
    }
}

/// How a response payload decodes.
pub open spec fn response_of(b: Seq<u8>) -> Result<ResponseView, Fault> {
    if !valid_utf8(b) {
        Err(Fault::InvalidUtf8)
    } else if lines_of(b).len() == 0 {
        Err(Fault::EmptyMessage)
    } else {
        let ls = lines_of(b);
        let f = split_on(ls[0], tab());
        let head = f[0];
        if head == kw_ack() {
            if f.len() > 1 {
                Err(Fault::InvalidMessage("too many fields"@))
            } else {
                Ok(ResponseView::Acknowledged)
            }
        } else if head == kw_pong() {
            match number_field(f, 1, u16::MAX as nat) {
                Err(e) => Err(e),
                Ok(v) => if f.len() > 2 {
                    Err(Fault::InvalidMessage("too many fields"@))
                } else {
                    Ok(ResponseView::Pong { protocol_version: v as u16 })
                },
            }
        } else if head == kw_status() {
            match number_field(f, 1, usize::MAX as nat) {
                Err(e) => Err(e),
                Ok(indexed) => match number_field(f, 2, usize::MAX as nat) {
                    Err(e) => Err(e),
                    Ok(skipped) => match bool_field(f, 3) {
                        Err(e) => Err(e),
                        Ok(truncated) => if f.len() > 4 {
                            Err(Fault::InvalidMessage("too many fields"@))
                        } else {
                            Ok(
                                ResponseView::Status(
                                    DaemonStatus {
                                        indexed_items: indexed as usize,
                                        skipped_paths: skipped as usize,
                                        truncated,
                                    },
                                ),
                            )
                        },
                    },
                },
            }
        } else if head == kw_error() {
            match text_field(f, 1) {
                Err(e) => Err(e),
                Ok(m) => if f.len() > 2 {
                    Err(Fault::InvalidMessage("too many fields"@))
                } else {
                    Ok(ResponseView::Error(m))
                },
            }
        } else if head == kw_results() {
            match number_field(f, 1, u64::MAX as nat) {
                Err(e) => Err(e),
                Ok(elapsed) => match number_field(f, 2, usize::MAX as nat) {
                    Err(e) => Err(e),
                    Ok(count) => if f.len() > 3 {
                        Err(Fault::InvalidMessage("too many fields"@))
                    } else {
                        match hits_of(ls.drop_first()) {
                            Err(e) => Err(e),
                            Ok(hits) => if hits.len() != count {
                                Err(Fault::InvalidMessage("result count mismatch"@))
                            } else {
                                Ok(ResponseView::Search { elapsed_us: elapsed as u64, hits })
                            },
                        }
                    },
                },
            }
        } else {
            Err(Fault::InvalidMessage("unknown response"@))
        }
    }
}

fn encode_hit_into(hit: &SearchHit, out: &mut Vec<u8>)
    ensures
        final(out)@ == old(out)@ + hit_line(hit@),
{
    let ghost start = out@;
    write_decimal(hit.item.id, out);
    out.push(0x09);
    let score = bytes_of(hit.score.as_str());
    append(out, &score);
    out.push(0x09);
    let kind = kind_name_bytes(hit.item.kind);
    append(out, &kind);
    out.push(0x09);
    out.push(if hit.item.hidden {
        0x31
    } else {
        0x30
    });
    out.push(0x09);
    let name = bytes_of(hit.item.name.as_str());
    encode_bytes_into(name.as_slice(), out);
    out.push(0x09);
    encode_bytes_into(hit.item.path.as_slice(), out);
    assert(out@ =~= start + hit_line(hit@));
}

pub fn encode_response(response: &Response) -> (bytes: Vec<u8>)
    ensures
        bytes@ == response_bytes(response@),
{
    match response {
        Response::Acknowledged => keyword(5),
        Response::Pong { protocol_version } => {
            let mut out = keyword(1);
            out.push(0x09);
            write_decimal(*protocol_version as u64, &mut out);
            assert(out@ =~= response_bytes(response@));
            out
        },
        Response::Status(status) => {
            let mut out = keyword(2);
            out.push(0x09);
            write_decimal(status.indexed_items as u64, &mut out);
            out.push(0x09);
            write_decimal(status.skipped_paths as u64, &mut out);
            out.push(0x09);
            out.push(if status.truncated {
                0x31
            } else {
                0x30
            });
            assert(out@ =~= response_bytes(response@));
            out
        },
        Response::Error(message) => {
            let mut out = keyword(6);
            out.push(0x09);
            let text = bytes_of(message.as_str());
            encode_bytes_into(text.as_slice(), &mut out);
            assert(out@ =~= response_bytes(response@));
            out
        },
        Response::Search { elapsed_us, hits } => {
            let mut out = keyword(7);
            out.push(0x09);
            write_decimal(*elapsed_us, &mut out);
            out.push(0x09);
            write_decimal(hits.len() as u64, &mut out);
            let ghost head = out@;
            let ghost views = hits@.map_values(|h: SearchHit| h@);
            let mut i: usize = 0;
            assert(hit_lines(views.take(0)) =~= Seq::<u8>::empty());
            while i < hits.len()
                invariant
                    i <= hits.len(),
                    views == hits@.map_values(|h: SearchHit| h@),
                    out@ == head + hit_lines(views.take(i as int)),
                decreases hits.len() - i,
            {
                out.push(0x0A);
                encode_hit_into(&hits[i], &mut out);
                assert(views.take(i + 1).drop_last() == views.take(i as int));
                assert(views.take(i + 1).last() == hits@[i as int]@);
                assert(out@ =~= head + hit_lines(views.take(i + 1)));
                i += 1;
            }
            assert(views.take(hits.len() as int) == views);
            assert(out@ =~= response_bytes(response@));
            out
        },
    }
}

fn decode_hit(line: &Vec<u8>) -> (r: Result<SearchHit, ProtocolError>)
    ensures
        decoded_as(r, hit_of(line@)),
{
    let fields = split_at_byte(line.as_slice(), 0x09);
    let ghost f = fields@.map_values(|v: Vec<u8>| v@);
    let id = match read_number(&fields, 0, u64::MAX) {
        Ok(v) => v,
        Err(e) => return Err(e),
    };
    if fields.len() < 2 {
        return Err(ProtocolError::InvalidMessage("missing field"));
    }
    assert(f[1] == fields@[1]@);
    if !is_float_literal(fields[1].as_slice()) || !crate::text::is_ascii_bytes(fields[1].as_slice()) {
        return Err(ProtocolError::InvalidNumber);
    }
    let score = string_from_ascii(&fields[1]);
    if fields.len() < 3 {
        return Err(ProtocolError::InvalidMessage("missing result kind"));
    }
    assert(f[2] == fields@[2]@);
    let kind = match kind_from_bytes(fields[2].as_slice()) {
        Some(k) => k,
        None => return Err(ProtocolError::InvalidMessage("unknown result kind")),
    };
    let hidden = match read_bool(&fields, 3) {
        Ok(b) => b,
        Err(e) => return Err(e),
    };
    let name = match read_text(&fields, 4) {
        Ok(s) => s,
        Err(e) => return Err(e),
    };
    if fields.len() < 6 {
        return Err(ProtocolError::InvalidMessage("missing path field"));
    }
    assert(f[5] == fields@[5]@);
    let path = match decode_bytes(fields[5].as_slice()) {
        Some(p) => p,
        None => return Err(ProtocolError::InvalidEscape),
    };
    if fields.len() > 6 {
        return Err(ProtocolError::InvalidMessage("too many fields"));
    }
    Ok(SearchHit { item: SearchItem { id, name, path, kind, hidden }, score })
}

pub open spec fn prepend_hits(prefix: Seq<HitView>, r: Result<Seq<HitView>, Fault>) -> Result<
    Seq<HitView>,
    Fault,
> {
    match r {
        Ok(rest) => Ok(prefix + rest),
        Err(e) => Err(e),
    }
}

fn decode_hits(lines: &Vec<Vec<u8>>) -> (r: Result<Vec<SearchHit>, ProtocolError>)
    requires
        lines.len() >= 1,
    ensures
        match (r, hits_of(lines@.map_values(|v: Vec<u8>| v@).drop_first())) {
            (Ok(v), Ok(w)) => v@.map_values(|h: SearchHit| h@) == w,
            (Err(e), Err(g)) => fault_is(e, g),
            _ => false,
        },
{
    let ghost ls = lines@.map_values(|v: Vec<u8>| v@).drop_first();
    let mut hits: Vec<SearchHit> = Vec::new();
    let mut i: usize = 1;
    assert(ls.skip(0) == ls);
    proof {
        match hits_of(ls) {
            Ok(w) => {
                assert(Seq::<HitView>::empty() + w =~= w);
            },
            Err(_) => {},
        }
    }
    while i < lines.len()
        invariant
            1 <= i <= lines.len(),
            ls == lines@.map_values(|v: Vec<u8>| v@).drop_first(),
            hits_of(ls) == prepend_hits(hits@.map_values(|h: SearchHit| h@), hits_of(ls.skip(i - 1))),
        decreases lines.len() - i,
    {
        let ghost rest = ls.skip(i - 1);
        assert(rest[0] == lines@[i as int]@);
        assert(rest.drop_first() == ls.skip(i as int));
        match decode_hit(&lines[i]) {
            Ok(hit) => {
                let ghost before = hits@.map_values(|h: SearchHit| h@);
                let ghost hv = hit@;
                hits.push(hit);
                assert(hits@.map_values(|h: SearchHit| h@) =~= before.push(hv));
                proof {
                    match hits_of(ls.skip(i as int)) {
                        Ok(t) => {
                            assert(before + (seq![hv] + t) =~= before.push(hv) + t);
                        },
                        Err(_) => {},
                    }
                }
            },
            Err(e) => {
                return Err(e);
            },
        }
        i += 1;
    }
    assert(ls.skip(lines.len() - 1) =~= Seq::<Seq<u8>>::empty());
    assert(hits@.map_values(|h: SearchHit| h@) + Seq::<HitView>::empty() =~= hits@.map_values(
        |h: SearchHit| h@,
    ));
    Ok(hits)
}

/// Decodes one response payload.
pub fn decode_response(bytes: &[u8]) -> (r: Result<Response, ProtocolError>)
    ensures
        decoded_as(r, response_of(bytes@)),
{
    if !utf8_is_valid(bytes) {
        return Err(ProtocolError::InvalidUtf8);
    }
    let lines = split_lines(bytes);
    let ghost ls = lines@.map_values(|v: Vec<u8>| v@);
    if lines.len() == 0 {
        return Err(ProtocolError::EmptyMessage);
    }
    assert(ls[0] == lines@[0]@);
    let fields = split_at_byte(lines[0].as_slice(), 0x09);
    let ghost f = fields@.map_values(|v: Vec<u8>| v@);
    let n = fields.len();
    if field_is(&fields, 0, &keyword(5)) {
        if n > 1 {
            return Err(ProtocolError::InvalidMessage("too many fields"));
        }
        return Ok(Response::Acknowledged);
    }
    if field_is(&fields, 0, &keyword(1)) {
        let v = match read_number(&fields, 1, 65535) {
            Ok(v) => v,
            Err(e) => return Err(e),
        };
        if n > 2 {
            return Err(ProtocolError::InvalidMessage("too many fields"));
        }
        return Ok(Response::Pong { protocol_version: v as u16 });
    }
    if field_is(&fields, 0, &keyword(2)) {
        let indexed = match read_number(&fields, 1, usize::MAX as u64) {
            Ok(v) => v,
            Err(e) => return Err(e),
        };
        let skipped = match read_number(&fields, 2, usize::MAX as u64) {
            Ok(v) => v,
            Err(e) => return Err(e),
        };
        let truncated = match read_bool(&fields, 3) {
            Ok(b) => b,
            Err(e) => return Err(e),
        };
        if n > 4 {
            return Err(ProtocolError::InvalidMessage("too many fields"));
        }
        return Ok(
            Response::Status(
                DaemonStatus {
                    indexed_items: indexed as usize,
                    skipped_paths: skipped as usize,
                    truncated,
                },
            ),
        );
    }
    if field_is(&fields, 0, &keyword(6)) {
        let message = match read_text(&fields, 1) {
            Ok(s) => s,
            Err(e) => return Err(e),
        };
        if n > 2 {
            return Err(ProtocolError::InvalidMessage("too many fields"));
        }
        return Ok(Response::Error(message));
    }
    if field_is(&fields, 0, &keyword(7)) {
        let elapsed = match read_number(&fields, 1, u64::MAX) {
            Ok(v) => v,
            Err(e) => return Err(e),
        };
        let count = match read_number(&fields, 2, usize::MAX as u64) {
            Ok(v) => v,
            Err(e) => return Err(e),
        };
        if n > 3 {
            return Err(ProtocolError::InvalidMessage("too many fields"));
        }
        let hits = match decode_hits(&lines) {
            Ok(h) => h,
            Err(e) => return Err(e),
        };
        if hits.len() as u64 != count {
            return Err(ProtocolError::InvalidMessage("result count mismatch"));
        }
        return Ok(Response::Search { elapsed_us: elapsed, hits });
    }
    Err(ProtocolError::InvalidMessage("unknown response"))
}

// ---------------------------------------------------------------------------
// Framing
// ---------------------------------------------------------------------------

/// Big-endian bytes of a frame length.
pub open spec fn length_prefix(n: nat) -> Seq<u8> {
    seq![(n / 16777216 % 256) as u8, (n / 65536 % 256) as u8, (n / 256 % 256) as u8, (n % 256) as u8]
}

/// The value of four big-endian bytes.
pub open spec fn prefix_value(b: Seq<u8>) -> nat {
    (b[0] as nat) * 16777216 + (b[1] as nat) * 65536 + (b[2] as nat) * 256 + (b[3] as nat)
}

/// A frame: the payload length as four big-endian bytes, then the payload.
pub open spec fn frame_bytes(payload: Seq<u8>) -> Seq<u8> {
    length_prefix(payload.len()) + payload
}

/// Calls `std::io::Error::from` with `ErrorKind::UnexpectedEof`, the error that
/// `read_exact` reports for input that ends early.
#[verifier::external_body]
fn unexpected_eof() -> std::io::Error {
    std::io::Error::from(std::io::ErrorKind::UnexpectedEof)
}

/// Appends one bounded, length-prefixed frame to `output`.
pub fn write_frame(output: &mut Vec<u8>, payload: &[u8]) -> (r: Result<(), ProtocolError>)
    ensures
        payload.len() > MAX_FRAME_SIZE ==> (r matches Err(ProtocolError::FrameTooLarge(n)) && n
            == payload.len()) && final(output)@ == old(output)@,
        payload.len() <= MAX_FRAME_SIZE ==> r is Ok && final(output)@ == old(output)@ + frame_bytes(
            payload@,
        ),
{
    if payload.len() > MAX_FRAME_SIZE {
        return Err(ProtocolError::FrameTooLarge(payload.len()));
    }
    let size = payload.len() as u32;
    output.push((size / 16777216 % 256) as u8);
    output.push((size / 65536 % 256) as u8);
    output.push((size / 256 % 256) as u8);
    output.push((size % 256) as u8);
    output.extend_from_slice(payload);
    assert(final(output)@ =~= old(output)@ + frame_bytes(payload@));
    Ok(())
}

/// An in-memory source of bytes that frames are read from.
pub struct ByteReader {
    bytes: Vec<u8>,
    position: usize,
}

impl ByteReader {
    pub closed spec fn remaining(&self) -> Seq<u8> {
        self.bytes@.skip(self.position as int)
    }

    pub closed spec fn well_formed(&self) -> bool {
        self.position <= self.bytes.len()
    }

    pub fn new(bytes: Vec<u8>) -> (reader: ByteReader)
        ensures
            reader.well_formed(),
            reader.remaining() == bytes@,
    {
        let reader = ByteReader { bytes, position: 0 };
        assert(reader.bytes@.skip(0) == reader.bytes@);
        reader
    }

    /// The bytes not read yet.
    pub fn unread(&self) -> (rest: Vec<u8>)
        requires
            self.well_formed(),
        ensures
            rest@ == self.remaining(),
    {
        let mut rest: Vec<u8> = Vec::new();
        let mut i = self.position;
        while i < self.bytes.len()
            invariant
                self.position <= i <= self.bytes.len(),
                rest@ == self.bytes@.subrange(self.position as int, i as int),
            decreases self.bytes.len() - i,
        {
            rest.push(self.bytes[i]);
            i += 1;
            assert(rest@ =~= self.bytes@.subrange(self.position as int, i as int));
        }
        assert(rest@ =~= self.remaining());
        rest
    }
}

/// Whether a frame length is acceptable.
pub fn check_frame_length(size: usize) -> (r: Result<usize, ProtocolError>)
    ensures
        size <= MAX_FRAME_SIZE ==> r == Ok::<usize, ProtocolError>(size),
        size > MAX_FRAME_SIZE ==> (r matches Err(ProtocolError::FrameTooLarge(n)) && n == size),
{
    if size > MAX_FRAME_SIZE {
        Err(ProtocolError::FrameTooLarge(size))
    } else {
        Ok(size)
    }
}

/// The length announced by a four-byte big-endian prefix.
pub fn frame_length(prefix: [u8; 4]) -> (n: usize)
    ensures
        n as nat == prefix_value(prefix@),
{
    let v: u64 = (prefix[0] as u64) * 16777216 + (prefix[1] as u64) * 65536 + (prefix[2] as u64) * 256
        + (prefix[3] as u64);
    assert(v <= 0xFFFF_FFFF);
    assert(v as nat == prefix_value(prefix@));
    v as usize
}

/// Reads one bounded, length-prefixed frame.
pub fn read_frame(reader: &mut ByteReader) -> (r: Result<Vec<u8>, ProtocolError>)
    requires
        old(reader).well_formed(),
    ensures
        final(reader).well_formed(),
        ({
            let input = old(reader).remaining();
            if input.len() < 4 {
                r matches Err(ProtocolError::Io(_)) && final(reader).remaining() == Seq::<u8>::empty()
            } else if prefix_value(input) > MAX_FRAME_SIZE {
                r matches Err(ProtocolError::FrameTooLarge(n)) && n == prefix_value(input)
                    && final(reader).remaining() == input.skip(4)
            } else if input.len() < 4 + prefix_value(input) {
                r matches Err(ProtocolError::Io(_)) && final(reader).remaining() == Seq::<u8>::empty()
            } else {
                r matches Ok(payload) && payload@ == input.subrange(4, 4 + prefix_value(input) as int)
                    && final(reader).remaining() == input.skip(4 + prefix_value(input) as int)
            }
        }),
{
    let ghost input = reader.remaining();
    let available = reader.bytes.len() - reader.position;
    if available < 4 {
        reader.position = reader.bytes.len();
        assert(reader.remaining() =~= Seq::<u8>::empty());
        return Err(ProtocolError::Io(unexpected_eof()));
    }
    let p = reader.position;
    let prefix = [reader.bytes[p], reader.bytes[p + 1], reader.bytes[p + 2], reader.bytes[p + 3]];
    assert(prefix@ =~= input.take(4));
    let size = frame_length(prefix);
    assert(prefix_value(prefix@) == prefix_value(input));
    reader.position = p + 4;
    assert(reader.remaining() =~= input.skip(4));
    if size > MAX_FRAME_SIZE {
        return Err(ProtocolError::FrameTooLarge(size));
    }
    if reader.bytes.len() - reader.position < size {
        reader.position = reader.bytes.len();
        assert(reader.remaining() =~= Seq::<u8>::empty());
        return Err(ProtocolError::Io(unexpected_eof()));
    }
    let mut payload: Vec<u8> = Vec::new();
    let start = reader.position;
    let mut i: usize = 0;
    while i < size
        invariant
            start == p + 4,
            start + size <= reader.bytes.len(),
            i <= size,
            reader.position == start,
            payload@ == reader.bytes@.subrange(start as int, start + i),
        decreases size - i,
    {
        payload.push(reader.bytes[start + i]);
        i += 1;
        assert(payload@ =~= reader.bytes@.subrange(start as int, start + i));
    }
    reader.position = start + size;
    assert(payload@ =~= input.subrange(4, 4 + prefix_value(input) as int));
    assert(reader.remaining() =~= input.skip(4 + prefix_value(input) as int));
    Ok(payload)
}

// ---------------------------------------------------------------------------
// Socket location
// ---------------------------------------------------------------------------

/// `dir` joined with a relative path, as `Path::join` does: a separator goes between
/// them unless `dir` already ends with one.
pub open spec fn join_relative(dir: Seq<u8>, rel: Seq<u8>) -> Seq<u8> {
    if dir.len() > 0 && dir.last() == 0x2F {
        dir + rel
    } else {
        dir.push(0x2Fu8) + rel
    }
}

pub open spec fn is_ascii_digit_char(c: char) -> bool {
    '0' <= c <= '9'
}

/// The characters a user name keeps in the fallback socket directory.
pub open spec fn identity_char(c: char) -> bool {
    crate::text::is_ascii_alnum_char(c) || c == '-' || c == '_'
}

pub open spec fn identity_chars(s: Seq<char>) -> Seq<char> {
    s.filter(|c: char| identity_char(c))
}

/// Who the fallback socket directory belongs to: a numeric `UID`, else the user name
/// reduced to letters, digits, `-` and `_`, else `unknown`.
pub open spec fn socket_identity(uid: Option<Seq<char>>, user: Option<Seq<char>>) -> Seq<char> {
    let chosen = match uid {
        Some(u) if (forall|i: int| 0 <= i < u.len() ==> is_ascii_digit_char(#[trigger] u[i])) => u,
        _ => match user {
            Some(v) => identity_chars(v),
            None => seq![],
        },
    };
    if chosen.len() == 0 {
        "unknown"@
    } else {
        chosen
    }
}

/// The daemon's socket: under `XDG_RUNTIME_DIR` where that is set and not empty, else
/// in a per-user directory under `/tmp`.
pub open spec fn socket_path(runtime_dir: Option<Seq<u8>>, uid: Option<Seq<char>>, user: Option<Seq<char>>) -> Seq<u8> {
    match runtime_dir {
        Some(d) if d.len() > 0 => join_relative(d, encode_utf8("ruyiseek/daemon.sock"@)),
        _ => encode_utf8("/tmp/ruyiseek-"@ + socket_identity(uid, user) + "/daemon.sock"@),
    }
}

/// The default socket path, from the values of `XDG_RUNTIME_DIR`, `UID` and `USER`
/// (each `None` where unset; the last two also where not valid Unicode).
pub fn default_socket_path(runtime_dir: Option<Vec<u8>>, uid: Option<String>, user: Option<String>) -> (path: Vec<u8>)
    ensures
        path@ == socket_path(
            match runtime_dir {
                Some(d) => Some(d@),
                None => None,
            },
            match uid {
                Some(u) => Some(u@),
                None => None,
            },
            match user {
                Some(u) => Some(u@),
                None => None,
            },
        ),
{
    if let Some(dir) = &runtime_dir {
        if dir.len() > 0 {
            let mut path = copy_bytes(dir.as_slice());
            if dir[dir.len() - 1] != 0x2F {
                path.push(0x2F);
            }
            let tail = bytes_of("ruyiseek/daemon.sock");
            append(&mut path, &tail);
            return path;
        }
    }
    let mut chosen: Vec<char> = Vec::new();
    let mut decided = false;
    if let Some(u) = &uid {
        let chars = crate::text::chars_of(u.as_str());
        let mut all_digits = true;
        let mut i: usize = 0;
        while i < chars.len()
            invariant
                i <= chars.len(),
                all_digits == forall|k: int| 0 <= k < i ==> is_ascii_digit_char(#[trigger] chars@[k]),
            decreases chars.len() - i,
        {
            if !('0' <= chars[i] && chars[i] <= '9') {
                all_digits = false;
            }
            i += 1;
        }
        if all_digits {
            chosen = chars;
            decided = true;
        }
    }
    if !decided {
        if let Some(v) = &user {
            let chars = crate::text::chars_of(v.as_str());
            let mut i: usize = 0;
            while i < chars.len()
                invariant
                    i <= chars.len(),
                    chosen@ == identity_chars(chars@.take(i as int)),
                decreases chars.len() - i,
            {
                let c = chars[i];
                proof {
                    let t = chars@.take(i + 1);
                    assert(t.drop_last() == chars@.take(i as int));
                    assert(t.last() == c);
                    reveal(Seq::filter);
                }
                if crate::text::is_ascii_alnum(c) || c == '-' || c == '_' {
                    chosen.push(c);
                }
                i += 1;
            }
            assert(chars@.take(chars.len() as int) == chars@);
        }
    }
    let mut text = String::new();
    push_str(&mut text, "/tmp/ruyiseek-");
    if chosen.len() == 0 {
        push_str(&mut text, "unknown");
    } else {
        let id = crate::text::string_from_chars(&chosen);
        push_str(&mut text, id.as_str());
    }
    push_str(&mut text, "/daemon.sock");
    bytes_of(text.as_str())
}

} // verus!
