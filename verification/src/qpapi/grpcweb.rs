//! The gRPC-Web text protocol: frames, trailers, status errors and cookies.
use vstd::prelude::*;
use base64::Engine;
use crate::keyed::{
    find_slot, lemma_absent_lookup, lemma_keys_sorted, lemma_upsert_absent, lemma_upsert_found,
    lemma_upsert_sorted, lookup, sorted_keys, upsert, Keyed, Slot,
};
use crate::text::{
    append, chars_of, concat, contains, eq_chars, find, has_sub, lower, lower_vec, split,
    split_once, split_once_vec, split_vec, string_of, trim, trim_vec,
};

verus! {

// ------------------------------------------------------------------
// Status errors
// ------------------------------------------------------------------
/// A failed gRPC call, with the QueryPie error carried in its status.
#[derive(Debug, Clone)]
pub struct GrpcError {
    pub code: String,
    pub app_code: i32,
    pub message: String,
    pub domain: String,
}

/// Does a lower-cased message say that the access token is no longer valid.
pub open spec fn auth_expired_text(m: Seq<char>) -> bool {
    has_sub(m, "access token expired"@) || has_sub(m, "invalid token"@) || has_sub(m, "no_user"@)
}

/// The advice shown for an error with this message and application code.
pub open spec fn hint_text(message: Seq<char>, app_code: i32) -> Option<Seq<char>> {
    let m = lower(message);
    if auth_expired_text(m) {
        Some("Your QueryPie session expired. Run `querypie auth login`, then retry."@)
    } else if app_code == 10308 || has_sub(m, "privilege has deactivated"@) {
        Some("Your access to this connection has expired. Request access again in QueryPie."@)
    } else if app_code == 14000 || has_sub(m, "ledger table policy"@) {
        Some("This object is governed by a Ledger Table Policy and cannot be queried ad hoc."@)
    } else if has_sub(m, "connect timeout"@) {
        Some("QueryPie could not reach the database. Check the connection/instance, or try again."@)
    } else if has_sub(m, "sessionnotfound"@) {
        Some("The cached session is stale. Run `querypie session clear` and retry."@)
    } else {
        None
    }
}

/// Does the string contain the literal `needle`.
pub fn has_text(hay: &Vec<char>, needle: &str) -> (res: bool)
    ensures
        res == has_sub(hay@, needle@),
{
    let n = chars_of(needle);
    contains(hay, &n)
}

/// Does a lower-cased message say that the access token is no longer valid.
pub fn is_auth_expired_message(m: &Vec<char>) -> (res: bool)
    ensures
        res == auth_expired_text(m@),
{
    has_text(m, "access token expired") || has_text(m, "invalid token") || has_text(m, "no_user")
}

impl GrpcError {
    /// Advice for the user on how to recover from this error.
    pub fn hint(&self) -> (res: Option<&'static str>)
        ensures
            match res {
                Some(h) => hint_text(self.message@, self.app_code) == Some(h@),
                None => hint_text(self.message@, self.app_code) is None,
            },
    {
        let raw = chars_of(self.message.as_str());
        let m = lower_vec(&raw);
        if is_auth_expired_message(&m) {
            Some("Your QueryPie session expired. Run `querypie auth login`, then retry.")
        } else if self.app_code == 10308 || has_text(&m, "privilege has deactivated") {
            Some("Your access to this connection has expired. Request access again in QueryPie.")
        } else if self.app_code == 14000 || has_text(&m, "ledger table policy") {
            Some("This object is governed by a Ledger Table Policy and cannot be queried ad hoc.")
        } else if has_text(&m, "connect timeout") {
            Some(
                "QueryPie could not reach the database. Check the connection/instance, or try again.",
            )
        } else if has_text(&m, "sessionnotfound") {
            Some("The cached session is stale. Run `querypie session clear` and retry.")
        } else {
            None
        }
    }

    /// Did the call fail because the database session no longer exists.
    pub fn is_session_not_found(&self) -> (res: bool)
        ensures
            res == (self.code@ == "10"@ && has_sub(self.message@, "SessionNotFound"@)),
    {
        let code = chars_of(self.code.as_str());
        let ten = chars_of("10");
        let m = chars_of(self.message.as_str());
        eq_chars(&code, &ten) && has_text(&m, "SessionNotFound")
    }

    /// Did the call fail because the access token is no longer valid.
    pub fn is_auth_expired(&self) -> (res: bool)
        ensures
            res == auth_expired_text(lower(self.message@)),
    {
        let raw = chars_of(self.message.as_str());
        let m = lower_vec(&raw);
        is_auth_expired_message(&m)
    }
}

/// The status of a failed call as the server sent it: the `grpc-status`
/// code and the raw `grpc-message`.
#[derive(Debug, Clone)]
pub struct GrpcStatus {
    pub code: String,
    pub message: String,
}

/// The QueryPie error carried, base64-encoded, in a `grpc-message`.
#[derive(Debug, Clone)]
pub struct CommonError {
    pub code: i32,
    pub message: Option<String>,
    pub source: Option<String>,
}

/// The printable ASCII bytes (0x20 to 0x7e) of `raw`, in order, as
/// characters.
pub open spec fn printable(raw: Seq<u8>) -> Seq<char>
    decreases raw.len(),
{
    if raw.len() == 0 {
        Seq::empty()
    } else {
        let rest = printable(raw.drop_last());
        let b = raw.last();
        if 0x20 <= b && b < 0x7f {
            rest.push(b as char)
        } else {
            rest
        }
    }
}

/// The printable ASCII text of `raw`.
pub fn printable_text(raw: &[u8]) -> (res: String)
    ensures
        res@ == printable(raw@),
{
    let mut out: Vec<char> = Vec::new();
    let mut i: usize = 0;
    while i < raw.len()
        invariant
            i <= raw.len(),
            out@ == printable(raw@.take(i as int)),
        decreases raw.len() - i,
    {
        let b = raw[i];
        assert(raw@.take(i as int + 1).drop_last() == raw@.take(i as int));
        if 0x20 <= b && b < 0x7f {
            out.push(b as char);
        }
        i = i + 1;
    }
    assert(raw@.take(raw.len() as int) == raw@);
    string_of(&out)
}

/// The application code, message and domain carried in a `grpc-message`:
/// when the text is not base64, the text itself; when the decoded bytes are
/// not a QueryPie error, their printable text; otherwise the error's code,
/// its message (or the printable text when that is empty) and its source.
pub open spec fn status_fields(
    input: Seq<char>,
    raw: Option<Seq<u8>>,
    decoded: Option<(i32, Seq<char>, Seq<char>)>,
) -> (i32, Seq<char>, Seq<char>) {
    match raw {
        None => (0, input, Seq::empty()),
        Some(r) => match decoded {
            None => (0, printable(r), Seq::empty()),
            Some((code, message, source)) => (
                code,
                if message.len() == 0 {
                    printable(r)
                } else {
                    message
                },
                source,
            ),
        },
    }
}

pub open spec fn opt_text(s: Option<String>) -> Seq<char> {
    match s {
        Some(x) => x@,
        None => Seq::empty(),
    }
}

pub open spec fn common_view(c: Option<CommonError>) -> Option<(i32, Seq<char>, Seq<char>)> {
    match c {
        Some(e) => Some((e.code, opt_text(e.message), opt_text(e.source))),
        None => None,
    }
}

/// The bytes that a `grpc-message` decodes to as base64.
pub fn status_bytes(grpc_message: &str) -> (res: Option<Vec<u8>>)
    ensures
        match res {
            Some(v) => base64_decoded(grpc_message@) == Some(v@),
            None => base64_decoded(grpc_message@) is None,
        },
{
    match b64_decode(grpc_message) {
        Ok(v) => Some(v),
        Err(_) => None,
    }
}

fn opt_string(s: &Option<String>) -> (res: String)
    ensures
        res@ == opt_text(*s),
{
    match s {
        Some(x) => x.clone(),
        None => String::new(),
    }
}

/// The error for a failed call with status `code` and `grpc_message`, where
/// `decoded` is the QueryPie error that the message's base64 bytes decode
/// to, if they decode to one.
pub fn new_grpc_error(code: &str, grpc_message: &str, decoded: Option<CommonError>) -> (res:
    GrpcError)
    ensures
        res.code@ == code@,
        (res.app_code, res.message@, res.domain@) == status_fields(
            grpc_message@,
            base64_decoded(grpc_message@),
            common_view(decoded),
        ),
{
    match status_bytes(grpc_message) {
        None => GrpcError {
            code: code.to_owned(),
            app_code: 0,
            message: grpc_message.to_owned(),
            domain: String::new(),
        },
        Some(raw) => match decoded {
            None => GrpcError {
                code: code.to_owned(),
                app_code: 0,
                message: printable_text(raw.as_slice()),
                domain: String::new(),
            },
            Some(e) => {
                let message = opt_string(&e.message);
                let message = if message.as_str().is_empty() {
                    printable_text(raw.as_slice())
                } else {
                    message
                };
                GrpcError {
                    code: code.to_owned(),
                    app_code: e.code,
                    message,
                    domain: opt_string(&e.source),
                }
            },
        },
    }
}

// ------------------------------------------------------------------
// base64
// ------------------------------------------------------------------
/// The standard, padded base64 text of some bytes.
pub uninterp spec fn base64_text(bytes: Seq<u8>) -> Seq<char>;

/// The bytes that a text decodes to in standard, padded base64, if it is
/// valid base64.
pub uninterp spec fn base64_decoded(text: Seq<char>) -> Option<Seq<u8>>;

/// A character of the standard base64 alphabet or the padding `=`.
pub open spec fn base64_symbol(c: char) -> bool {
    ('A' <= c && c <= 'Z') || ('a' <= c && c <= 'z') || ('0' <= c && c <= '9') || c == '+' || c
        == '/' || c == '='
}

/// Padding only at the end: every character after a `=` is a `=`, and
/// there are at most two of them.
pub open spec fn padded_at_end(t: Seq<char>) -> bool {
    &&& forall|i: int, j: int| 0 <= i < j < t.len() && t[i] == '=' ==> t[j] == '='
    &&& forall|i: int| 0 <= i < t.len() - 2 ==> t[i] != '='
}

/// Encodes bytes with `base64::engine::general_purpose::STANDARD`: the
/// standard alphabet, padded with `=` at the end; decoding the text gives the
/// bytes back.
#[verifier::external_body]
pub(crate) fn b64_encode(bytes: &[u8]) -> (res: String)
    requires
        bytes@.len() <= usize::MAX / 2,
    ensures
        res@ == base64_text(bytes@),
        base64_decoded(res@) == Some(bytes@),
        forall|i: int| 0 <= i < res@.len() ==> base64_symbol(#[trigger] res@[i]),
        padded_at_end(res@),
        bytes@.len() > 0 ==> res@.len() > 0,
{
    base64::engine::general_purpose::STANDARD.encode(bytes)
}

/// Decodes text with `base64::engine::general_purpose::STANDARD`; on failure
/// returns the decode error's text.
#[verifier::external_body]
pub(crate) fn b64_decode(text: &str) -> (res: Result<Vec<u8>, String>)
    ensures
        match res {
            Ok(v) => base64_decoded(text@) == Some(v@),
            Err(_) => base64_decoded(text@) is None,
        },
{
    base64::engine::general_purpose::STANDARD.decode(text).map_err(|e| e.to_string())
}

// ------------------------------------------------------------------
// Frames
// ------------------------------------------------------------------
/// One gRPC-Web frame: a flag byte and a payload.  A flag with its high bit
/// set marks a trailer frame.
#[derive(Debug, Clone)]
pub struct Frame {
    pub flag: u8,
    pub payload: Vec<u8>,
}

pub open spec fn frame_view(f: Frame) -> (u8, Seq<u8>) {
    (f.flag, f.payload@)
}

pub open spec fn frames_view(v: Seq<Frame>) -> Seq<(u8, Seq<u8>)> {
    v.map_values(|f: Frame| frame_view(f))
}

/// A 32-bit number as four big-endian bytes.
pub open spec fn be32(n: u32) -> Seq<u8> {
    seq![(n / 16777216) as u8, ((n / 65536) % 256) as u8, ((n / 256) % 256) as u8, (n % 256) as u8]
}

/// The number that four big-endian bytes encode.
pub open spec fn be32_value(b0: u8, b1: u8, b2: u8, b3: u8) -> int {
    b0 * 16777216 + b1 * 65536 + b2 * 256 + b3
}

/// The bytes of a data frame holding `msg`: a zero flag, the length of `msg`
/// (as a 32-bit number) in big-endian order, and `msg`.
pub open spec fn frame_bytes_view(msg: Seq<u8>) -> Seq<u8> {
    seq![0u8] + be32(msg.len() as u32) + msg
}

/// The bytes of a data frame holding `msg`.
pub fn frame_bytes(msg: &[u8]) -> (res: Vec<u8>)
    ensures
        res@ == frame_bytes_view(msg@),
{
    let n = msg.len() as u32;
    let mut buf: Vec<u8> = Vec::new();
    buf.push(0u8);
    buf.push((n / 16777216) as u8);
    buf.push(((n / 65536) % 256) as u8);
    buf.push(((n / 256) % 256) as u8);
    buf.push((n % 256) as u8);
    let mut i: usize = 0;
    while i < msg.len()
        invariant
            i <= msg.len(),
            buf@ == seq![0u8] + be32(n) + msg@.take(i as int),
        decreases msg.len() - i,
    {
        buf.push(msg[i]);
        assert(msg@.take(i as int + 1) == msg@.take(i as int).push(msg@[i as int]));
        i = i + 1;
    }
    assert(msg@.take(msg.len() as int) == msg@);
    buf
}

/// The gRPC-Web text of a request body: the frame of `msg` in base64.
/// Decoding that text gives back exactly one data frame holding `msg`.
pub fn encode_frame(msg: &[u8]) -> (res: String)
    requires
        msg@.len() + 5 <= usize::MAX / 2,
    ensures
        res@ == base64_text(frame_bytes_view(msg@)),
        msg@.len() < 0x1_0000_0000 ==> body_frames(res@) == Some(Some(seq![(0u8, msg@)])),
{
    let buf = frame_bytes(msg);
    let text = b64_encode(buf.as_slice());
    proof {
        lemma_base64_text_pieces(text@);
        if msg@.len() < 0x1_0000_0000 {
            lemma_frames_of_frame(msg@);
        }
        assert(decode_pieces(seq![text@]) == Some(buf@)) by {
            assert(seq![text@].drop_last() =~= Seq::<Seq<char>>::empty());
            assert(decode_pieces(Seq::<Seq<char>>::empty()) == Some(Seq::<u8>::empty()));
            assert(seq![text@].last() == text@);
            assert(Seq::<u8>::empty() + buf@ =~= buf@);
        }
    }
    text
}

proof fn lemma_base64_text_pieces(t: Seq<char>)
    requires
        t.len() > 0,
        forall|i: int| 0 <= i < t.len() ==> base64_symbol(#[trigger] t[i]),
        padded_at_end(t),
    ensures
        trim(t) == t,
        base64_pieces(t) == seq![t],
{
    assert(!crate::text::is_ws(t[0]));
    assert(!crate::text::is_ws(t.last()));
    crate::text::lemma_find_from_range(t, '=', 0);
    match find(t, '=') {
        Some(i) => {
            let end = if i + 1 < t.len() && t[i + 1] == '=' {
                i + 2
            } else {
                i + 1
            };
            if i + 1 < t.len() {
                assert(t[i + 1] == '=');
            }
            assert(end == t.len());
            assert(t.take(end) == t);
            assert(base64_pieces(t.skip(end)) == Seq::<Seq<char>>::empty()) by {
                assert(t.skip(end).len() == 0);
                crate::text::lemma_find_from_range(t.skip(end), '=', 0);
            }
            assert(base64_pieces(t) =~= seq![t]);
        },
        None => {},
    }
}

proof fn lemma_frames_of_frame(msg: Seq<u8>)
    requires
        msg.len() < 0x1_0000_0000,
    ensures
        frames_of(frame_bytes_view(msg)) == Some(seq![(0u8, msg)]),
{
    let raw = frame_bytes_view(msg);
    let n = msg.len() as u32;
    assert(n == msg.len());
    let b = be32(n);
    assert(raw[1] == b[0] && raw[2] == b[1] && raw[3] == b[2] && raw[4] == b[3]);
    assert(be32_value(b[0], b[1], b[2], b[3]) == n) by (nonlinear_arith)
        requires
            b == be32(n),
    {
    }
    assert(raw.subrange(5, 5 + msg.len() as int) =~= msg);
    assert(raw.skip(5 + msg.len() as int).len() == 0);
    assert(frames_of(raw.skip(5 + msg.len() as int)) == Some(Seq::<(u8, Seq<u8>)>::empty()));
    assert(seq![(0u8, msg)] + Seq::<(u8, Seq<u8>)>::empty() =~= seq![(0u8, msg)]);
}

/// The frames of a decoded body, in order; bytes after the last whole
/// frame header are ignored, and a frame whose payload runs past the end
/// makes the body truncated (`None`).
pub open spec fn frames_of(raw: Seq<u8>) -> Option<Seq<(u8, Seq<u8>)>>
    decreases raw.len(),
{
    if raw.len() < 5 {
        Some(Seq::empty())
    } else {
        let len = be32_value(raw[1], raw[2], raw[3], raw[4]);
        if 5 + len > raw.len() {
            None
        } else {
            match frames_of(raw.skip(5 + len)) {
                Some(rest) => Some(seq![(raw[0], raw.subrange(5, 5 + len))] + rest),
                None => None,
            }
        }
    }
}

/// The frames of a decoded body (`None` when a frame is truncated).
pub fn parse_frames(raw: &Vec<u8>) -> (res: Option<Vec<Frame>>)
    ensures
        match res {
            Some(v) => frames_of(raw@) == Some(frames_view(v@)),
            None => frames_of(raw@) is None,
        },
{
    let mut frames: Vec<Frame> = Vec::new();
    let mut i: usize = 0;
    assert(raw@.skip(0) == raw@);
    while raw.len() - i >= 5
        invariant
            i <= raw.len(),
            frames_of(raw@) == match frames_of(raw@.skip(i as int)) {
                Some(rest) => Some(frames_view(frames@) + rest),
                None => None,
            },
        decreases raw.len() - i,
    {
        let flag = raw[i];
        let len: usize = (raw[i + 1] as usize) * 16777216 + (raw[i + 2] as usize) * 65536 + (raw[i
            + 3] as usize) * 256 + (raw[i + 4] as usize);
        let ghost rest = raw@.skip(i as int);
        assert(rest[0] == flag && rest[1] == raw@[i + 1] && rest[2] == raw@[i + 2] && rest[3]
            == raw@[i + 3] && rest[4] == raw@[i + 4]);
        assert(len == be32_value(rest[1], rest[2], rest[3], rest[4]));
        if len > raw.len() - i - 5 {
            return None;
        }
        let start = i + 5;
        let mut payload: Vec<u8> = Vec::new();
        let mut k: usize = start;
        while k < start + len
            invariant
                start <= k <= start + len,
                start + len <= raw.len(),
                payload@ == raw@.subrange(start as int, k as int),
            decreases start + len - k,
        {
            payload.push(raw[k]);
            assert(raw@.subrange(start as int, k + 1) == raw@.subrange(start as int, k as int).push(
                raw@[k as int],
            ));
            k = k + 1;
        }
        assert(rest.subrange(5, 5 + len) == payload@);
        assert(rest.skip(5 + len) == raw@.skip(start + len));
        let ghost before = frames@;
        frames.push(Frame { flag, payload });
        assert(frames_view(frames@) == frames_view(before).push((flag, rest.subrange(5, 5 + len))));
        proof {
            match frames_of(raw@.skip(start + len)) {
                Some(r) => {
                    assert(frames_view(before) + (seq![(flag, rest.subrange(5, 5 + len))] + r)
                        =~= frames_view(frames@) + r);
                },
                None => {},
            }
        }
        i = start + len;
    }
    assert(frames_view(frames@) + Seq::<(u8, Seq<u8>)>::empty() == frames_view(frames@));
    Some(frames)
}

/// The pieces a gRPC-Web text body is decoded in: each piece ends after a
/// `=` (or a `==`), and the text after the last such end is the last piece.
pub open spec fn base64_pieces(s: Seq<char>) -> Seq<Seq<char>>
    decreases s.len(),
{
    match find(s, '=') {
        Some(i) => {
            let end = if i + 1 < s.len() && s[i + 1] == '=' {
                i + 2
            } else {
                i + 1
            };
            if 0 <= i < s.len() {
                seq![s.take(end)] + base64_pieces(s.skip(end))
            } else {
                Seq::empty()
            }
        },
        None => if s.len() > 0 {
            seq![s]
        } else {
            Seq::empty()
        },
    }
}

/// The bytes of the pieces, each decoded as base64 and concatenated (`None`
/// when a piece is not valid base64).
pub open spec fn decode_pieces(pieces: Seq<Seq<char>>) -> Option<Seq<u8>>
    decreases pieces.len(),
{
    if pieces.len() == 0 {
        Some(Seq::empty())
    } else {
        match (decode_pieces(pieces.drop_last()), base64_decoded(pieces.last())) {
            (Some(a), Some(b)) => Some(a + b),
            _ => None,
        }
    }
}

/// Why a gRPC-Web body could not be decoded.
#[derive(Debug, Clone)]
pub enum FrameError {
    /// A piece of the body is not valid base64; the decoder's message.
    Base64(String),
    /// A frame runs past the end of the body.
    Truncated,
}

impl FrameError {
    /// The error's message.
    pub fn message(&self) -> (res: String)
        ensures
            match self {
                FrameError::Base64(m) => res@ == m@,
                FrameError::Truncated => res@ == "grpc-web: truncated frame"@,
            },
    {
        match self {
            FrameError::Base64(m) => m.clone(),
            FrameError::Truncated => "grpc-web: truncated frame".to_owned(),
        }
    }
}

proof fn lemma_decode_pieces_push(pieces: Seq<Seq<char>>, p: Seq<char>)
    ensures
        decode_pieces(pieces.push(p)) == match (decode_pieces(pieces), base64_decoded(p)) {
            (Some(a), Some(b)) => Some(a + b),
            _ => None,
        },
{
    assert(pieces.push(p).drop_last() == pieces);
}

/// The bytes of a gRPC-Web text body: its base64 pieces decoded and
/// concatenated.
pub fn decode_grpc_web_text(body: &str) -> (res: Result<Vec<u8>, FrameError>)
    ensures
        match res {
            Ok(v) => decode_pieces(base64_pieces(body@)) == Some(v@),
            Err(e) => decode_pieces(base64_pieces(body@)) is None && e is Base64,
        },
{
    let s = chars_of(body);
    let mut out: Vec<u8> = Vec::new();
    let ghost mut pieces_done: Seq<Seq<char>> = Seq::empty();
    let mut start: usize = 0;
    let mut i: usize = 0;
    assert(s@.skip(0) == s@);
    while i < s.len()
        invariant
            start <= i <= s.len(),
            s@ == body@,
            base64_pieces(s@) == pieces_done + base64_pieces(s@.skip(start as int)),
            decode_pieces(pieces_done) == Some(out@),
            find(s@.skip(start as int), '=') == crate::text::find_from(
                s@.skip(start as int),
                '=',
                (i - start) as int,
            ),
        decreases s.len() - i,
    {
        if s[i] == '=' {
            let mut end = i + 1;
            if end < s.len() && s[end] == '=' {
                end = end + 1;
            }
            let ghost rest = s@.skip(start as int);
            proof {
                assert(rest[(i - start) as int] == '=');
                crate::text::lemma_find_from_range(rest, '=', (i - start) as int);
                assert(find(rest, '=') == Some((i - start) as int));
                if i + 1 < s.len() {
                    assert(rest[(i - start) + 1] == s@[i + 1]);
                }
                assert(rest.take((end - start) as int) == s@.subrange(start as int, end as int));
                assert(rest.skip((end - start) as int) == s@.skip(end as int));
            }
            let piece = crate::text::subrange_vec(&s, start, end);
            let piece_s = string_of(&piece);
            match b64_decode(piece_s.as_str()) {
                Ok(mut bytes) => {
                    proof {
                        lemma_decode_pieces_push(pieces_done, piece@);
                    }
                    let ghost before = out@;
                    out.append(&mut bytes);
                    proof {
                        assert(base64_pieces(s@) == pieces_done.push(piece@) + base64_pieces(
                            s@.skip(end as int),
                        ));
                        pieces_done = pieces_done.push(piece@);
                    }
                },
                Err(m) => {
                    proof {
                        lemma_decode_pieces_push(pieces_done, piece@);
                        lemma_decode_pieces_prefix_none(
                            pieces_done.push(piece@),
                            base64_pieces(s@.skip(end as int)),
                        );
                        assert(base64_pieces(s@) == pieces_done.push(piece@) + base64_pieces(
                            s@.skip(end as int),
                        ));
                    }
                    return Err(FrameError::Base64(m));
                },
            }
            start = end;
            i = end;
            assert(s@.skip(start as int).skip(0) == s@.skip(start as int));
        } else {
            proof {
                let rest = s@.skip(start as int);
                assert(rest[(i - start) as int] == s@[i as int]);
            }
            i = i + 1;
        }
    }
    proof {
        let rest = s@.skip(start as int);
        crate::text::lemma_find_from_range(rest, '=', (i - start) as int);
    }
    if start < s.len() {
        let piece = crate::text::subrange_vec(&s, start, s.len());
        assert(piece@ == s@.skip(start as int));
        let piece_s = string_of(&piece);
        proof {
            lemma_decode_pieces_push(pieces_done, piece@);
            assert(base64_pieces(s@) == pieces_done.push(piece@));
        }
        match b64_decode(piece_s.as_str()) {
            Ok(mut bytes) => {
                out.append(&mut bytes);
            },
            Err(m) => {
                return Err(FrameError::Base64(m));
            },
        }
    } else {
        assert(s@.skip(start as int).len() == 0);
        assert(pieces_done + Seq::<Seq<char>>::empty() == pieces_done);
    }
    Ok(out)
}

proof fn lemma_decode_pieces_prefix_none(a: Seq<Seq<char>>, b: Seq<Seq<char>>)
    requires
        decode_pieces(a) is None,
    ensures
        decode_pieces(a + b) is None,
    decreases b.len(),
{
    if b.len() > 0 {
        lemma_decode_pieces_prefix_none(a, b.drop_last());
        assert((a + b).drop_last() == a + b.drop_last());
    } else {
        assert(a + b == a);
    }
}

/// The frames of a gRPC-Web text body (after trimming surrounding white
/// space).
pub open spec fn body_frames(body: Seq<char>) -> Option<Option<Seq<(u8, Seq<u8>)>>> {
    match decode_pieces(base64_pieces(trim(body))) {
        Some(raw) => Some(frames_of(raw)),
        None => None,
    }
}

/// The frames of a gRPC-Web text body.
pub fn decode_frames(body: &str) -> (res: Result<Vec<Frame>, FrameError>)
    ensures
        match res {
            Ok(v) => body_frames(body@) == Some(Some(frames_view(v@))),
            Err(FrameError::Truncated) => body_frames(body@) == Some(
                None::<Seq<(u8, Seq<u8>)>>,
            ),
            Err(FrameError::Base64(_)) => body_frames(body@) is None,
        },
{
    let t = crate::text::trim_str(body);
    let ts = string_of(&t);
    let raw = match decode_grpc_web_text(ts.as_str()) {
        Ok(r) => r,
        Err(FrameError::Base64(m)) => {
            return Err(FrameError::Base64(m));
        },
        Err(FrameError::Truncated) => {
            return Err(FrameError::Truncated);
        },
    };
    match parse_frames(&raw) {
        Some(frames) => Ok(frames),
        None => Err(FrameError::Truncated),
    }
}

// ------------------------------------------------------------------
// Trailers
// ------------------------------------------------------------------
/// Text from bytes as `String::from_utf8_lossy` makes it.
pub uninterp spec fn utf8_lossy(bytes: Seq<u8>) -> Seq<char>;

/// Wraps `String::from_utf8_lossy`.
#[verifier::external_body]
pub(crate) fn from_utf8_lossy(bytes: &[u8]) -> (res: String)
    ensures
        res@ == utf8_lossy(bytes@),
{
    String::from_utf8_lossy(bytes).into_owned()
}

/// Index of the first `\r\n` at or after `from`.
pub open spec fn find_crlf(s: Seq<char>, from: int) -> Option<int>
    decreases s.len() - from,
{
    if from < 0 || from + 1 >= s.len() {
        None
    } else if s[from] == '\r' && s[from + 1] == '\n' {
        Some(from)
    } else {
        find_crlf(s, from + 1)
    }
}

/// `str::split` with the pattern `"\r\n"`.
pub open spec fn split_crlf(s: Seq<char>) -> Seq<Seq<char>>
    decreases s.len(),
{
    match find_crlf(s, 0) {
        Some(i) => if 0 <= i && i + 2 <= s.len() {
            seq![s.take(i)] + split_crlf(s.skip(i + 2))
        } else {
            seq![s]
        },
        None => seq![s],
    }
}

proof fn lemma_find_crlf(s: Seq<char>, from: int)
    requires
        0 <= from,
    ensures
        find_crlf(s, from) matches Some(i) ==> from <= i && i + 2 <= s.len(),
    decreases s.len() - from,
{
    if from + 1 < s.len() && !(s[from] == '\r' && s[from + 1] == '\n') {
        lemma_find_crlf(s, from + 1);
    }
}

/// The lines of a text separated by `\r\n`.
pub fn split_crlf_vec(v: &Vec<char>) -> (res: Vec<Vec<char>>)
    ensures
        res@.map_values(|p: Vec<char>| p@) == split_crlf(v@),
    decreases v.len(),
{
    let mut i: usize = 0;
    while v.len() - i >= 2
        invariant
            i <= v.len(),
            find_crlf(v@, 0) == find_crlf(v@, i as int),
        decreases v.len() - i,
    {
        if v[i] == '\r' && v[i + 1] == '\n' {
            let head = crate::text::subrange_vec(v, 0, i);
            let rest = crate::text::skip_vec(v, i + 2);
            let tail = split_crlf_vec(&rest);
            let mut out: Vec<Vec<char>> = Vec::new();
            out.push(head);
            let mut k: usize = 0;
            while k < tail.len()
                invariant
                    k <= tail.len(),
                    out@.len() == k + 1,
                    out@[0]@ == v@.take(i as int),
                    forall|m: int| 0 <= m < k ==> out@[m + 1]@ == tail@[m]@,
                decreases tail.len() - k,
            {
                out.push(tail[k].clone());
                k = k + 1;
            }
            assert(out@.map_values(|p: Vec<char>| p@) =~= seq![v@.take(i as int)]
                + tail@.map_values(|p: Vec<char>| p@));
            return out;
        }
        i = i + 1;
    }
    let mut out: Vec<Vec<char>> = Vec::new();
    out.push(v.clone());
    assert(out@.map_values(|p: Vec<char>| p@) =~= seq![v@]);
    out
}

/// The `grpc-status` and `grpc-message` of trailer lines: for each line
/// `key: value` whose trimmed, lower-cased key is one of these, the trimmed
/// value; the last such line wins.
pub open spec fn trailer_fields(lines: Seq<Seq<char>>) -> (Option<Seq<char>>, Option<Seq<char>>)
    decreases lines.len(),
{
    if lines.len() == 0 {
        (None, None)
    } else {
        let (status, message) = trailer_fields(lines.drop_last());
        match split_once(lines.last(), ':') {
            Some((k, v)) => {
                let key = lower(trim(k));
                if key == "grpc-status"@ {
                    (Some(trim(v)), message)
                } else if key == "grpc-message"@ {
                    (status, Some(trim(v)))
                } else {
                    (status, message)
                }
            },
            None => (status, message),
        }
    }
}

/// The `grpc-status` and `grpc-message` of a trailer frame's payload.
pub open spec fn trailer_of(payload: Seq<u8>) -> (Option<Seq<char>>, Option<Seq<char>>) {
    trailer_fields(split_crlf(utf8_lossy(payload)))
}

pub open spec fn opt_view(s: Option<String>) -> Option<Seq<char>> {
    match s {
        Some(x) => Some(x@),
        None => None,
    }
}

/// The `grpc-status` and `grpc-message` of a trailer frame's payload.
pub fn parse_trailer(payload: &[u8]) -> (res: (Option<String>, Option<String>))
    ensures
        (opt_view(res.0), opt_view(res.1)) == trailer_of(payload@),
{
    let text = from_utf8_lossy(payload);
    let chars = chars_of(text.as_str());
    let lines = split_crlf_vec(&chars);
    let ghost ls = lines@.map_values(|p: Vec<char>| p@);
    let status_key = chars_of("grpc-status");
    let message_key = chars_of("grpc-message");
    let mut status: Option<String> = None;
    let mut message: Option<String> = None;
    let mut i: usize = 0;
    while i < lines.len()
        invariant
            i <= lines.len(),
            ls == lines@.map_values(|p: Vec<char>| p@),
            status_key@ == "grpc-status"@,
            message_key@ == "grpc-message"@,
            (opt_view(status), opt_view(message)) == trailer_fields(ls.take(i as int)),
        decreases lines.len() - i,
    {
        assert(ls.take(i as int + 1).drop_last() == ls.take(i as int));
        assert(ls.take(i as int + 1).last() == lines@[i as int]@);
        match split_once_vec(&lines[i], ':') {
            Some((k, v)) => {
                let kt = trim_vec(&k);
                let key = lower_vec(&kt);
                let value = trim_vec(&v);
                if eq_chars(&key, &status_key) {
                    status = Some(string_of(&value));
                } else if eq_chars(&key, &message_key) {
                    message = Some(string_of(&value));
                }
            },
            None => {},
        }
        i = i + 1;
    }
    assert(ls.take(lines.len() as int) == ls);
    (status, message)
}

/// Is a status code absent or `0` (success).
pub open spec fn status_ok(status: Option<Seq<char>>) -> bool {
    match status {
        Some(s) => s == "0"@,
        None => true,
    }
}

fn is_zero_status(s: &String) -> (res: bool)
    ensures
        res == (s@ == "0"@),
{
    let v = chars_of(s.as_str());
    let z = chars_of("0");
    eq_chars(&v, &z)
}

/// Checks a trailer frame: a missing or `0` status passes; any other status
/// fails with that code and the trailer's message (empty when missing).
pub fn check_trailer(payload: &[u8]) -> (res: Result<(), GrpcStatus>)
    ensures
        ({
            let (status, message) = trailer_of(payload@);
            match res {
                Ok(()) => status_ok(status),
                Err(e) => !status_ok(status) && Some(e.code@) == status && e.message@ == match message {
                    Some(m) => m,
                    None => Seq::empty(),
                },
            }
        }),
{
    let (status, message) = parse_trailer(payload);
    match status {
        None => Ok(()),
        Some(code) => {
            if is_zero_status(&code) {
                Ok(())
            } else {
                let message = match message {
                    Some(m) => m,
                    None => String::new(),
                };
                Err(GrpcStatus { code, message })
            }
        },
    }
}

/// Checks the `grpc-status` and `grpc-message` response headers the same
/// way as a trailer.
pub fn check_response_status(status: Option<String>, message: Option<String>) -> (res: Result<
    (),
    GrpcStatus,
>)
    ensures
        match res {
            Ok(()) => status_ok(opt_view(status)),
            Err(e) => !status_ok(opt_view(status)) && Some(e.code@) == opt_view(status)
                && e.message@ == opt_text(message),
        },
{
    match status {
        None => Ok(()),
        Some(code) => {
            if is_zero_status(&code) {
                Ok(())
            } else {
                Err(GrpcStatus { code, message: opt_string(&message) })
            }
        },
    }
}

/// Is a frame a trailer (high bit of its flag set).
pub open spec fn is_trailer(flag: u8) -> bool {
    flag >= 0x80
}

/// The message bytes of a response's frames: the payloads of the data
/// frames concatenated, unless a trailer reports a failure, in which case
/// the first such trailer's status.
pub open spec fn collect_view(frames: Seq<(u8, Seq<u8>)>) -> Result<Seq<u8>, (Seq<char>, Seq<char>)>
    decreases frames.len(),
{
    if frames.len() == 0 {
        Ok(Seq::empty())
    } else {
        match collect_view(frames.drop_last()) {
            Err(e) => Err(e),
            Ok(data) => {
                let (flag, payload) = frames.last();
                if is_trailer(flag) {
                    let (status, message) = trailer_of(payload);
                    if status_ok(status) {
                        Ok(data)
                    } else {
                        Err(
                            (
                                status.unwrap(),
                                match message {
                                    Some(m) => m,
                                    None => Seq::empty(),
                                },
                            ),
                        )
                    }
                } else {
                    Ok(data + payload)
                }
            },
        }
    }
}

/// The message bytes of a response's frames (see `collect_view`).
pub fn collect_message(frames: &Vec<Frame>) -> (res: Result<Vec<u8>, GrpcStatus>)
    ensures
        match res {
            Ok(v) => collect_view(frames_view(frames@)) == Ok::<Seq<u8>, (Seq<char>, Seq<char>)>(v@),
            Err(e) => collect_view(frames_view(frames@)) == Err::<Seq<u8>, (Seq<char>, Seq<char>)>(
                (e.code@, e.message@),
            ),
        },
{
    let ghost fv = frames_view(frames@);
    let mut data: Vec<u8> = Vec::new();
    let mut i: usize = 0;
    while i < frames.len()
        invariant
            i <= frames.len(),
            fv == frames_view(frames@),
            collect_view(fv.take(i as int)) == Ok::<Seq<u8>, (Seq<char>, Seq<char>)>(data@),
        decreases frames.len() - i,
    {
        let f = &frames[i];
        assert(fv.take(i as int + 1).drop_last() == fv.take(i as int));
        assert(fv.take(i as int + 1).last() == (f.flag, f.payload@));
        if f.flag >= 0x80 {
            match check_trailer(f.payload.as_slice()) {
                Ok(()) => {},
                Err(e) => {
                    proof {
                        lemma_collect_err_prefix(fv, i as int + 1);
                    }
                    return Err(e);
                },
            }
        } else {
            let mut k: usize = 0;
            let ghost d0 = data@;
            while k < f.payload.len()
                invariant
                    k <= f.payload.len(),
                    data@ == d0 + f.payload@.take(k as int),
                decreases f.payload.len() - k,
            {
                data.push(f.payload[k]);
                assert(f.payload@.take(k as int + 1) == f.payload@.take(k as int).push(
                    f.payload@[k as int],
                ));
                k = k + 1;
            }
            assert(f.payload@.take(f.payload.len() as int) == f.payload@);
        }
        i = i + 1;
    }
    assert(fv.take(frames.len() as int) == fv);
    Ok(data)
}

proof fn lemma_collect_err_prefix(fv: Seq<(u8, Seq<u8>)>, n: int)
    requires
        0 <= n <= fv.len(),
        collect_view(fv.take(n)) is Err,
    ensures
        collect_view(fv) == collect_view(fv.take(n)),
    decreases fv.len() - n,
{
    if n < fv.len() {
        assert(fv.take(n + 1).drop_last() == fv.take(n));
        lemma_collect_err_prefix(fv, n + 1);
    } else {
        assert(fv.take(n) == fv);
    }
}

/// Why a response body did not yield a message.
#[derive(Debug, Clone)]
pub enum CallError {
    Frame(FrameError),
    Status(GrpcStatus),
}

/// The message bytes of a gRPC-Web text response body.
pub fn decode_response_body(body: &str) -> (res: Result<Vec<u8>, CallError>)
    ensures
        match res {
            Ok(v) => body_frames(body@) matches Some(Some(fs)) && collect_view(fs) == Ok::<
                Seq<u8>,
                (Seq<char>, Seq<char>),
            >(v@),
            Err(CallError::Status(e)) => body_frames(body@) matches Some(Some(fs)) && collect_view(fs)
                == Err::<Seq<u8>, (Seq<char>, Seq<char>)>((e.code@, e.message@)),
            Err(CallError::Frame(FrameError::Truncated)) => body_frames(body@) == Some(
                None::<Seq<(u8, Seq<u8>)>>,
            ),
            Err(CallError::Frame(FrameError::Base64(_))) => body_frames(body@) is None,
        },
{
    match decode_frames(body) {
        Ok(frames) => match collect_message(&frames) {
            Ok(v) => Ok(v),
            Err(e) => Err(CallError::Status(e)),
        },
        Err(e) => Err(CallError::Frame(e)),
    }
}

/// The status of the first trailer frame of a body (none when the body
/// does not decode or has no trailer).
pub open spec fn first_trailer_status(frames: Seq<(u8, Seq<u8>)>) -> Option<Seq<char>>
    decreases frames.len(),
{
    if frames.len() == 0 {
        None
    } else if is_trailer(frames[0].0) {
        trailer_of(frames[0].1).0
    } else {
        first_trailer_status(frames.drop_first())
    }
}

pub open spec fn body_status(body: Seq<char>) -> Option<Seq<char>> {
    match body_frames(body) {
        Some(Some(fs)) => first_trailer_status(fs),
        _ => None,
    }
}

/// The `grpc-status` of a body's first trailer frame.
pub fn grpc_web_status(body: &str) -> (res: Option<String>)
    ensures
        opt_view(res) == body_status(body@),
{
    let frames = match decode_frames(body) {
        Ok(f) => f,
        Err(_) => {
            return None;
        },
    };
    let ghost fv = frames_view(frames@);
    let mut i: usize = 0;
    assert(fv.skip(0) == fv);
    while i < frames.len()
        invariant
            i <= frames.len(),
            fv == frames_view(frames@),
            body_frames(body@) == Some(Some(fv)),
            first_trailer_status(fv) == first_trailer_status(fv.skip(i as int)),
        decreases frames.len() - i,
    {
        assert(fv.skip(i as int)[0] == fv[i as int]);
        assert(fv[i as int] == (frames[i as int].flag, frames[i as int].payload@));
        if frames[i].flag >= 0x80 {
            let pair = parse_trailer(frames[i].payload.as_slice());
            assert(opt_view(pair.0) == trailer_of(frames[i as int].payload@).0);
            assert(first_trailer_status(fv.skip(i as int)) == trailer_of(frames[i as int].payload@).0);
            return pair.0;
        }
        assert(fv.skip(i as int).drop_first() == fv.skip(i + 1));
        i = i + 1;
    }
    None
}

// ------------------------------------------------------------------
// Cookies
// ------------------------------------------------------------------
pub type CookieJar = Vec<Keyed<String>>;

pub open spec fn jar_view(j: Seq<Keyed<String>>) -> Seq<(Seq<char>, Seq<char>)> {
    j.map_values(|x: Keyed<String>| (x.key@, x.value@))
}

/// The cookies of a `Cookie` header: each `;`-separated part that, trimmed,
/// holds a `=` gives the trimmed name and value; parts with an empty name
/// are skipped and a later cookie replaces an earlier one of the same name.
pub open spec fn cookie_pairs(parts: Seq<Seq<char>>) -> Seq<(Seq<char>, Seq<char>)>
    decreases parts.len(),
{
    if parts.len() == 0 {
        Seq::empty()
    } else {
        let acc = cookie_pairs(parts.drop_last());
        match split_once(trim(parts.last()), '=') {
            Some((n, v)) => if trim(n).len() > 0 {
                upsert(acc, trim(n), trim(v))
            } else {
                acc
            },
            None => acc,
        }
    }
}

pub open spec fn cookie_header_view(cookies: Seq<char>) -> Seq<(Seq<char>, Seq<char>)> {
    cookie_pairs(split(cookies, ';'))
}

proof fn lemma_cookie_pairs_sorted(parts: Seq<Seq<char>>)
    ensures
        sorted_keys(cookie_pairs(parts)),
    decreases parts.len(),
{
    if parts.len() > 0 {
        lemma_cookie_pairs_sorted(parts.drop_last());
        let acc = cookie_pairs(parts.drop_last());
        match split_once(trim(parts.last()), '=') {
            Some((n, v)) => {
                if trim(n).len() > 0 {
                    lemma_upsert_sorted(acc, trim(n), trim(v));
                }
            },
            None => {},
        }
    }
}

/// Stores a cookie value under its name.
pub fn jar_insert(jar: &mut CookieJar, name: &Vec<char>, value: &Vec<char>)
    requires
        sorted_keys(jar_view(old(jar)@)),
    ensures
        jar_view(final(jar)@) == upsert(jar_view(old(jar)@), name@, value@),
        sorted_keys(jar_view(final(jar)@)),
{
    let ghost old_v = jar_view(jar@);
    proof {
        lemma_keys_sorted(jar@, |x: Keyed<String>| (x.key@, x.value@));
    }
    let item = Keyed { key: string_of(name), value: string_of(value) };
    match find_slot(jar, name) {
        Slot::Found(i) => {
            let _ = jar.remove(i);
            jar.insert(i, item);
            proof {
                assert(old_v[i as int].0 == name@);
                lemma_upsert_found(old_v, i as int, value@);
                assert(jar_view(jar@) =~= old_v.update(i as int, (name@, value@)));
            }
        },
        Slot::Absent(p) => {
            jar.insert(p, item);
            proof {
                assert forall|j: int| 0 <= j < p implies crate::text::lex_lt(
                    #[trigger] old_v[j].0,
                    name@,
                ) by {
                    assert(old_v[j].0 == old(jar)@[j].key@);
                }
                assert forall|j: int| p <= j < old_v.len() implies crate::text::lex_lt(
                    name@,
                    #[trigger] old_v[j].0,
                ) by {
                    assert(old_v[j].0 == old(jar)@[j].key@);
                }
                lemma_upsert_absent(old_v, p as int, name@, value@);
                assert(jar_view(jar@) =~= old_v.insert(p as int, (name@, value@)));
            }
        },
    }
    proof {
        lemma_upsert_sorted(old_v, name@, value@);
    }
}

/// The cookies of a `Cookie` header, sorted by name.
pub fn parse_cookie_header(cookies: &str) -> (res: CookieJar)
    ensures
        jar_view(res@) == cookie_header_view(cookies@),
        sorted_keys(jar_view(res@)),
{
    let v = chars_of(cookies);
    let parts = split_vec(&v, ';');
    let ghost ps = parts@.map_values(|p: Vec<char>| p@);
    let mut jar: CookieJar = Vec::new();
    let mut i: usize = 0;
    assert(jar_view(jar@) =~= cookie_pairs(ps.take(0)));
    while i < parts.len()
        invariant
            i <= parts.len(),
            ps == parts@.map_values(|p: Vec<char>| p@),
            jar_view(jar@) == cookie_pairs(ps.take(i as int)),
        decreases parts.len() - i,
    {
        proof {
            lemma_cookie_pairs_sorted(ps.take(i as int));
        }
        assert(ps.take(i as int + 1).drop_last() == ps.take(i as int));
        assert(ps.take(i as int + 1).last() == parts@[i as int]@);
        let part = trim_vec(&parts[i]);
        match split_once_vec(&part, '=') {
            Some((n, val)) => {
                let name = trim_vec(&n);
                if name.len() > 0 {
                    let value = trim_vec(&val);
                    jar_insert(&mut jar, &name, &value);
                }
            },
            None => {},
        }
        i = i + 1;
    }
    assert(ps.take(parts.len() as int) == ps);
    proof {
        lemma_cookie_pairs_sorted(ps);
    }
    jar
}

/// The value of the cookie `name` in a jar.
pub fn jar_get<'a>(jar: &'a CookieJar, name: &str) -> (res: Option<&'a String>)
    requires
        sorted_keys(jar_view(jar@)),
    ensures
        match res {
            Some(v) => lookup(jar_view(jar@), name@) == Some(v@),
            None => lookup(jar_view(jar@), name@) is None,
        },
{
    let key = chars_of(name);
    proof {
        lemma_keys_sorted(jar@, |x: Keyed<String>| (x.key@, x.value@));
    }
    match find_slot(jar, &key) {
        Slot::Found(i) => {
            proof {
                assert(jar_view(jar@)[i as int] == (name@, jar@[i as int].value@));
                crate::keyed::lemma_lookup_at(jar_view(jar@), i as int);
            }
            Some(&jar[i].value)
        },
        Slot::Absent(p) => {
            proof {
                let jv = jar_view(jar@);
                assert forall|j: int| 0 <= j < p implies crate::text::lex_lt(#[trigger] jv[j].0, name@) by {
                    assert(jv[j].0 == jar@[j].key@);
                }
                assert forall|j: int| p <= j < jv.len() implies crate::text::lex_lt(
                    name@,
                    #[trigger] jv[j].0,
                ) by {
                    assert(jv[j].0 == jar@[j].key@);
                }
                lemma_absent_lookup(jv, p as int, name@);
            }
            None
        },
    }
}

/// Does a `Cookie` header hold a non-empty cookie named `name`.
pub open spec fn cookie_header_has(cookies: Seq<char>, name: Seq<char>) -> bool {
    lookup(cookie_header_view(cookies), name) matches Some(v) && v.len() > 0
}

/// Does a `Cookie` header hold a non-empty cookie named `name`.
pub fn cookie_header_contains(cookies: &str, name: &str) -> (res: bool)
    ensures
        res == cookie_header_has(cookies@, name@),
{
    let jar = parse_cookie_header(cookies);
    match jar_get(&jar, name) {
        Some(v) => !v.as_str().is_empty(),
        None => false,
    }
}

/// The name and value of a `Set-Cookie` header: its text up to the first
/// `;`, split at the first `=`.
pub open spec fn set_cookie_pair_view(set_cookie: Seq<char>) -> Option<(Seq<char>, Seq<char>)> {
    split_once(split(set_cookie, ';')[0], '=')
}

proof fn lemma_split_nonempty(s: Seq<char>, c: char)
    ensures
        split(s, c).len() > 0,
{
}

/// The name and value of a `Set-Cookie` header.
pub fn set_cookie_pair(set_cookie: &str) -> (res: Option<(String, String)>)
    ensures
        match res {
            Some((n, v)) => set_cookie_pair_view(set_cookie@) == Some((n@, v@)),
            None => set_cookie_pair_view(set_cookie@) is None,
        },
{
    let v = chars_of(set_cookie);
    let parts = split_vec(&v, ';');
    proof {
        lemma_split_nonempty(v@, ';');
        assert(parts@.map_values(|p: Vec<char>| p@)[0] == parts@[0]@);
    }
    match split_once_vec(&parts[0], '=') {
        Some((n, val)) => Some((string_of(&n), string_of(&val))),
        None => None,
    }
}

/// The trimmed cookie name of a `Set-Cookie` header.
pub fn set_cookie_name(set_cookie: &str) -> (res: Option<String>)
    ensures
        match res {
            Some(n) => set_cookie_pair_view(set_cookie@) matches Some((name, _)) && n@ == trim(name),
            None => set_cookie_pair_view(set_cookie@) is None,
        },
{
    match set_cookie_pair(set_cookie) {
        Some((n, _)) => {
            let t = crate::text::trim_str(n.as_str());
            Some(string_of(&t))
        },
        None => None,
    }
}

/// Should a refresh be attempted: only when the cookies hold a non-empty
/// `qp_refresh_token`.
pub fn refresh_wanted(cookies: &str) -> (res: bool)
    ensures
        res == cookie_header_has(cookies@, "qp_refresh_token"@),
{
    cookie_header_contains(cookies, "qp_refresh_token")
}

/// Does any `Set-Cookie` header set the cookie `name`.
pub open spec fn sets_cookie(set_cookies: Seq<String>, name: Seq<char>) -> bool {
    exists|i: int|
        0 <= i < set_cookies.len() && (set_cookie_pair_view(#[trigger] set_cookies[i]@) matches Some(
            (n, _),
        ) && trim(n) == name)
}

/// Do the response status and headers of a refresh request let it succeed:
/// an HTTP success, a missing or `0` `grpc-status` header and a
/// `Set-Cookie` for `qp_access_token`.
pub fn refresh_headers_accept(http_ok: bool, header_status: Option<String>, set_cookies: &Vec<String>) -> (res: bool)
    ensures
        res == (http_ok && status_ok(opt_view(header_status)) && sets_cookie(
            set_cookies@,
            "qp_access_token"@,
        )),
{
    if !http_ok {
        return false;
    }
    match &header_status {
        Some(s) => {
            if !is_zero_status(s) {
                return false;
            }
        },
        None => {},
    }
    let access = chars_of("qp_access_token");
    let mut i: usize = 0;
    while i < set_cookies.len()
        invariant
            i <= set_cookies.len(),
            access@ == "qp_access_token"@,
            http_ok,
            status_ok(opt_view(header_status)),
            forall|j: int|
                0 <= j < i ==> !(set_cookie_pair_view(#[trigger] set_cookies@[j]@) matches Some(
                    (n, _),
                ) && trim(n) == "qp_access_token"@),
        decreases set_cookies.len() - i,
    {
        match set_cookie_name(set_cookies[i].as_str()) {
            Some(n) => {
                let nv = chars_of(n.as_str());
                if eq_chars(&nv, &access) {
                    assert(set_cookie_pair_view(set_cookies@[i as int]@) matches Some((m, _)) && trim(m)
                        == "qp_access_token"@);
                    assert(sets_cookie(set_cookies@, "qp_access_token"@));
                    assert(status_ok(opt_view(header_status)));
                    return true;
                }
            },
            None => {},
        }
        i = i + 1;
    }
    false
}

/// Does the body of a refresh response let it succeed: its first trailer
/// reports no failure.
pub fn refresh_body_accepts(body: &str) -> (res: bool)
    ensures
        res == status_ok(body_status(body@)),
{
    match grpc_web_status(body) {
        Some(s) => is_zero_status(&s),
        None => true,
    }
}

/// The URL of an engine gRPC method on a host.
pub fn engine_grpc_url(host: &str, method: &str) -> (res: String)
    ensures
        res@ == "https://"@ + host@ + "/engine-grpc/"@ + method@,
{
    let a = chars_of("https://");
    let b = chars_of(host);
    let c = chars_of("/engine-grpc/");
    let d = chars_of(method);
    let ab = concat(&a, &b);
    let abc = concat(&ab, &c);
    let all = concat(&abc, &d);
    string_of(&all)
}

} // verus!
