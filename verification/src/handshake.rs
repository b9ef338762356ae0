//! The opening HTTP Upgrade handshake: building the client request and
//! the server response, and validating what the peer sent.
//!
//! The HTTP text itself is parsed by an outside parser behind a trusted
//! wrapper that hands back plain owned values; every rule about what a
//! conformant request or response must contain is stated as a spec
//! predicate and proved of the validators.

use vstd::prelude::*;
use vstd::utf8::encode_utf8;

use sha1::Digest;

use crate::error::{InvalidHandshake, WebSocketError};
use crate::frame::copy_range;

verus! {

/// The most headers a request or response may carry.
pub const MAX_HEADERS: usize = 124;

/// One HTTP header, owned: name and value as plain bytes.
#[derive(Debug, Clone)]
pub struct Header {
    pub name: Vec<u8>,
    pub value: Vec<u8>,
}

/// The mathematical value of a header.
#[verifier::ext_equal]
pub struct HeaderView {
    pub name: Seq<u8>,
    pub value: Seq<u8>,
}

impl View for Header {
    type V = HeaderView;

    open spec fn view(&self) -> HeaderView {
        HeaderView { name: self.name@, value: self.value@ }
    }
}

/// A parsed HTTP request, owned.  Fields the parser could not determine
/// are `None`, as the outside parser reports them.
#[derive(Debug)]
pub struct ParsedRequest {
    pub method: Option<Vec<u8>>,
    pub path: Option<Vec<u8>>,
    pub version: Option<u8>,
    pub headers: Vec<Header>,
}

/// The mathematical value of a parsed request.
#[verifier::ext_equal]
pub struct RequestView {
    pub method: Option<Seq<u8>>,
    pub path: Option<Seq<u8>>,
    pub version: Option<u8>,
    pub headers: Seq<HeaderView>,
}

impl View for ParsedRequest {
    type V = RequestView;

    open spec fn view(&self) -> RequestView {
        RequestView {
            method: match self.method {
                Some(ref m) => Some(m@),
                None => None,
            },
            path: match self.path {
                Some(ref p) => Some(p@),
                None => None,
            },
            version: self.version,
            headers: self.headers@.map_values(|h: Header| h@),
        }
    }
}

/// A parsed HTTP response, owned.
#[derive(Debug)]
pub struct ParsedResponse {
    pub version: Option<u8>,
    pub code: Option<u16>,
    pub headers: Vec<Header>,
}

/// The mathematical value of a parsed response.
#[verifier::ext_equal]
pub struct ResponseView {
    pub version: Option<u8>,
    pub code: Option<u16>,
    pub headers: Seq<HeaderView>,
}

impl View for ParsedResponse {
    type V = ResponseView;

    open spec fn view(&self) -> ResponseView {
        ResponseView {
            version: self.version,
            code: self.code,
            headers: self.headers@.map_values(|h: Header| h@),
        }
    }
}

/// What the outside HTTP parser makes of a request head: the parsed
/// value it accepts the bytes as, or nothing when it rejects them or
/// finds them incomplete.  The parse is a function of the bytes alone.
pub uninterp spec fn http_request_of(raw: Seq<u8>) -> Option<RequestView>;

/// As `http_request_of`, for a response head.
pub uninterp spec fn http_response_of(raw: Seq<u8>) -> Option<ResponseView>;

/// Relies on `httparse::Request::parse`: it parses the HTTP request
/// head, deterministically in the bytes alone; on success every
/// captured field is copied out as plain bytes, a partial or
/// unparseable head is an error.
#[verifier::external_body]
fn parse_request_raw(raw: &Vec<u8>) -> (r: Result<ParsedRequest, InvalidHandshake>)
    ensures
        r matches Ok(p) ==> http_request_of(raw@) == Some(p@),
        r is Err ==> http_request_of(raw@) is None,
{
    let mut headers = [httparse::EMPTY_HEADER; MAX_HEADERS];
    let mut req = httparse::Request::new(&mut headers);
    match req.parse(raw.as_slice()) {
        Ok(httparse::Status::Complete(_)) => Ok(ParsedRequest {
            method: req.method.map(|s| s.as_bytes().to_vec()),
            path: req.path.map(|s| s.as_bytes().to_vec()),
            version: req.version,
            headers: req.headers.iter().map(
                |h| Header { name: h.name.as_bytes().to_vec(), value: h.value.to_vec() },
            ).collect(),
        }),
        Ok(httparse::Status::Partial) => Err(InvalidHandshake::NonConformant),
        Err(_) => Err(InvalidHandshake::HttpRequestParser),
    }
}

/// Relies on `httparse::Response::parse`: as `parse_request_raw`, for
/// the response head.
#[verifier::external_body]
fn parse_response_raw(raw: &Vec<u8>) -> (r: Result<ParsedResponse, InvalidHandshake>)
    ensures
        r matches Ok(p) ==> http_response_of(raw@) == Some(p@),
        r is Err ==> http_response_of(raw@) is None,
{
    let mut headers = [httparse::EMPTY_HEADER; MAX_HEADERS];
    let mut resp = httparse::Response::new(&mut headers);
    match resp.parse(raw.as_slice()) {
        Ok(httparse::Status::Complete(_)) => Ok(ParsedResponse {
            version: resp.version,
            code: resp.code,
            headers: resp.headers.iter().map(
                |h| Header { name: h.name.as_bytes().to_vec(), value: h.value.to_vec() },
            ).collect(),
        }),
        Ok(httparse::Status::Partial) => Err(InvalidHandshake::NonConformant),
        Err(_) => Err(InvalidHandshake::HttpResponseParser),
    }
}

/// Parses the raw bytes of a request head: the result is `Ok` exactly
/// when the parser accepts the bytes, and then carries their parse.
pub fn parse_request(raw: &Vec<u8>) -> (r: Result<ParsedRequest, WebSocketError>)
    ensures
        r matches Ok(p) ==> http_request_of(raw@) == Some(p@),
        r is Err ==> http_request_of(raw@) is None,
        r matches Err(e) ==> e matches WebSocketError::InvalidHandshake(_),
{
    match parse_request_raw(raw) {
        Ok(p) => Ok(p),
        Err(e) => Err(WebSocketError::InvalidHandshake(e)),
    }
}

/// Parses the raw bytes of a response head: the result is `Ok` exactly
/// when the parser accepts the bytes, and then carries their parse.
pub fn parse_response(raw: &Vec<u8>) -> (r: Result<ParsedResponse, WebSocketError>)
    ensures
        r matches Ok(p) ==> http_response_of(raw@) == Some(p@),
        r is Err ==> http_response_of(raw@) is None,
        r matches Err(e) ==> e matches WebSocketError::InvalidHandshake(_),
{
    match parse_response_raw(raw) {
        Ok(p) => Ok(p),
        Err(e) => Err(WebSocketError::InvalidHandshake(e)),
    }
}

/// True when the first `e` bytes of `s` form a head ending in the blank
/// line — carriage return, line feed, twice — that closes an HTTP head.
pub open spec fn head_boundary(s: Seq<u8>, e: int) -> bool {
    &&& 4 <= e <= s.len()
    &&& s[e - 4] == 13
    &&& s[e - 3] == 10
    &&& s[e - 2] == 13
    &&& s[e - 1] == 10
}

/// Splits the bytes read so far at the end of the HTTP head: the
/// shortest prefix closed by a blank line, and the rest, which belongs
/// to the frame stream that follows the handshake.  `None` until a
/// blank line has arrived.
pub fn split_http_head(buf: &Vec<u8>) -> (r: Option<(Vec<u8>, Vec<u8>)>)
    ensures
        r is Some <==> exists|e: int| head_boundary(buf@, e),
        r matches Some(p) ==> ({
            let e = p.0@.len() as int;
            &&& head_boundary(buf@, e)
            &&& forall|e2: int| head_boundary(buf@, e2) ==> e <= e2
            &&& p.0@ == buf@.subrange(0, e)
            &&& p.1@ == buf@.subrange(e, buf@.len() as int)
        }),
{
    let n = buf.len();
    if n < 4 {
        return None;
    }
    let mut j: usize = 0;
    while j <= n - 4
        invariant
            4 <= n == buf@.len(),
            j <= n - 3,
            forall|e: int| 4 <= e < j + 4 ==> !head_boundary(buf@, e),
        decreases n - j,
    {
        if buf[j] == 13 && buf[j + 1] == 10 && buf[j + 2] == 13 && buf[j + 3] == 10 {
            let e = j + 4;
            let head = copy_range(buf, 0, e);
            let rest = copy_range(buf, e, n);
            proof {
                assert(head_boundary(buf@, e as int));
            }
            return Some((head, rest));
        }
        j = j + 1;
    }
    None
}

/// A byte lowered to its ASCII lower-case form.
pub open spec fn ascii_lower(b: u8) -> u8 {
    if 65 <= b <= 90 {
        (b + 32) as u8
    } else {
        b
    }
}

/// Byte strings equal up to ASCII case.
pub open spec fn eq_ignore_case(a: Seq<u8>, b: Seq<u8>) -> bool {
    a.len() == b.len() && forall|i: int| 0 <= i < a.len() ==> ascii_lower(a[i]) == ascii_lower(b[i])
}

/// Compares two byte strings ignoring ASCII case.
pub fn eq_ignore_ascii_case(a: &Vec<u8>, b: &Vec<u8>) -> (r: bool)
    ensures
        r == eq_ignore_case(a@, b@),
{
    if a.len() != b.len() {
        return false;
    }
    let mut i: usize = 0;
    while i < a.len()
        invariant
            a@.len() == b@.len(),
            i <= a@.len(),
            forall|j: int| 0 <= j < i ==> ascii_lower(a@[j]) == ascii_lower(b@[j]),
        decreases a@.len() - i,
    {
        let x = a[i];
        let y = b[i];
        let lx = if 65 <= x && x <= 90 {
            x + 32
        } else {
            x
        };
        let ly = if 65 <= y && y <= 90 {
            y + 32
        } else {
            y
        };
        if lx != ly {
            return false;
        }
        i = i + 1;
    }
    true
}

/// Compares two byte strings exactly.
pub fn eq_bytes(a: &Vec<u8>, b: &Vec<u8>) -> (r: bool)
    ensures
        r == (a@ == b@),
{
    if a.len() != b.len() {
        proof {
            assert(a@ != b@);
        }
        return false;
    }
    let mut i: usize = 0;
    while i < a.len()
        invariant
            a@.len() == b@.len(),
            i <= a@.len(),
            forall|j: int| 0 <= j < i ==> a@[j] == b@[j],
        decreases a@.len() - i,
    {
        if a[i] != b[i] {
            proof {
                assert(a@ != b@);
            }
            return false;
        }
        i = i + 1;
    }
    proof {
        assert(a@ =~= b@);
    }
    true
}

/// The result of the standard base64 encoding of a byte string.
pub uninterp spec fn base64_of(s: Seq<u8>) -> Seq<u8>;

/// The bytes whose standard base64 encoding the input is, if it is one.
pub uninterp spec fn base64_decode_of(s: Seq<u8>) -> Option<Seq<u8>>;

/// The 20-byte SHA-1 digest of a byte string.
pub uninterp spec fn sha1_of(s: Seq<u8>) -> Seq<u8>;

/// Relies on `base64::Engine::encode` with the standard alphabet: the
/// encoding is a function of the input bytes alone, four output bytes
/// for every three of input, padded; decoding the result with the same
/// engine returns the input.
#[verifier::external_body]
fn b64_encode(data: &Vec<u8>) -> (r: Vec<u8>)
    ensures
        r@ == base64_of(data@),
        r@.len() == 4 * ((data@.len() + 2) / 3),
        base64_decode_of(r@) == Some(data@),
{
    base64::Engine::encode(&base64::prelude::BASE64_STANDARD, data.as_slice()).into_bytes()
}

/// Relies on `base64::Engine::decode` with the standard alphabet: it
/// returns the decoded bytes exactly when the input is a standard
/// base64 encoding, and an error otherwise.
#[verifier::external_body]
fn b64_decode(data: &Vec<u8>) -> (r: Option<Vec<u8>>)
    ensures
        r matches Some(v) ==> base64_decode_of(data@) == Some(v@),
        r is None ==> base64_decode_of(data@) is None,
{
    base64::Engine::decode(&base64::prelude::BASE64_STANDARD, data.as_slice()).ok()
}

/// Relies on `sha1::Sha1::digest`: the 20-byte SHA-1 digest, a function
/// of the input bytes alone.
#[verifier::external_body]
fn sha1_digest(data: &Vec<u8>) -> (r: Vec<u8>)
    ensures
        r@ == sha1_of(data@),
        r@.len() == 20,
{
    sha1::Sha1::digest(data.as_slice()).to_vec()
}

/// The accept value derived from an offered key: the base64 encoding of
/// the SHA-1 digest of the key followed by the fixed magic string.
pub open spec fn accept_key_of(key: Seq<u8>) -> Seq<u8> {
    base64_of(sha1_of(key + encode_utf8("258EAFA5-E914-47DA-95CA-C5AB0DC85B11"@)))
}

/// Computes the `Sec-WebSocket-Accept` value owed for an offered key.
pub fn accept_key(key: &Vec<u8>) -> (r: Vec<u8>)
    ensures
        r@ == accept_key_of(key@),
{
    let mut buf = copy_range(key, 0, key.len());
    proof {
        assert(buf@ =~= key@);
    }
    let mut magic = vstd::slice::slice_to_vec("258EAFA5-E914-47DA-95CA-C5AB0DC85B11".as_bytes());
    proof {
        assert(magic@ == encode_utf8("258EAFA5-E914-47DA-95CA-C5AB0DC85B11"@));
    }
    buf.append(&mut magic);
    let digest = sha1_digest(&buf);
    b64_encode(&digest)
}

/// An `Upgrade: websocket` header: the name up to case, the value
/// exact.
pub open spec fn is_upgrade_websocket(h: HeaderView) -> bool {
    eq_ignore_case(h.name, encode_utf8("upgrade"@)) && h.value == encode_utf8("websocket"@)
}

/// A `Connection: Upgrade` header: the name up to case, the value
/// exact.
pub open spec fn is_connection_upgrade(h: HeaderView) -> bool {
    eq_ignore_case(h.name, encode_utf8("connection"@)) && h.value == encode_utf8("Upgrade"@)
}

/// A `Host` header, whatever its value.
pub open spec fn is_host(h: HeaderView) -> bool {
    eq_ignore_case(h.name, encode_utf8("host"@))
}

/// A `Sec-WebSocket-Version: 13` header.
pub open spec fn is_version_13(h: HeaderView) -> bool {
    eq_ignore_case(h.name, encode_utf8("sec-websocket-version"@)) && h.value == encode_utf8("13"@)
}

/// A `Sec-WebSocket-Key` header whose value decodes from base64 to a
/// 16-byte nonce.
pub open spec fn is_valid_key_header(h: HeaderView) -> bool {
    &&& eq_ignore_case(h.name, encode_utf8("sec-websocket-key"@))
    &&& base64_decode_of(h.value) matches Some(d) && d.len() == 16
}

/// A `Sec-WebSocket-Accept` header, whatever its value.
pub open spec fn is_accept_name(h: HeaderView) -> bool {
    eq_ignore_case(h.name, encode_utf8("sec-websocket-accept"@))
}

/// A header advertising an extension or a subprotocol, neither of which
/// is supported.
pub open spec fn is_forbidden_name(h: HeaderView) -> bool {
    ||| eq_ignore_case(h.name, encode_utf8("sec-websocket-extensions"@))
    ||| eq_ignore_case(h.name, encode_utf8("sec-websocket-protocol"@))
}

/// What a conformant upgrade request must hold: a `GET` at HTTP/1.1,
/// and the five required headers — `Host`, `Upgrade: websocket`,
/// `Connection: Upgrade`, a base64 key decoding to 16 bytes, and
/// version 13.  The path is not constrained.
pub open spec fn valid_request(r: RequestView) -> bool {
    &&& r.method == Some(encode_utf8("GET"@))
    &&& r.version == Some(1u8)
    &&& exists|i: int| 0 <= i < r.headers.len() && is_host(#[trigger] r.headers[i])
    &&& exists|i: int| 0 <= i < r.headers.len() && is_upgrade_websocket(#[trigger] r.headers[i])
    &&& exists|i: int| 0 <= i < r.headers.len() && is_connection_upgrade(#[trigger] r.headers[i])
    &&& exists|i: int| 0 <= i < r.headers.len() && is_valid_key_header(#[trigger] r.headers[i])
    &&& exists|i: int| 0 <= i < r.headers.len() && is_version_13(#[trigger] r.headers[i])
}

/// How many `Upgrade: websocket` headers a sequence holds.
pub open spec fn count_upgrade(hs: Seq<HeaderView>) -> int
    decreases hs.len(),
{
    if hs.len() == 0 {
        0
    } else {
        count_upgrade(hs.drop_last()) + (if is_upgrade_websocket(hs.last()) {
            1int
        } else {
            0int
        })
    }
}

/// How many `Connection: Upgrade` headers a sequence holds.
pub open spec fn count_connection(hs: Seq<HeaderView>) -> int
    decreases hs.len(),
{
    if hs.len() == 0 {
        0
    } else {
        count_connection(hs.drop_last()) + (if is_connection_upgrade(hs.last()) {
            1int
        } else {
            0int
        })
    }
}

/// What a conformant upgrade response to the offered key must hold:
/// HTTP/1.1 status 101; `Upgrade: websocket` and `Connection: Upgrade`
/// exactly once each; a `Sec-WebSocket-Accept` header present, and
/// every such header carrying exactly the accept value owed for the
/// key; and no extension or subprotocol advertised.
pub open spec fn valid_response(key: Seq<u8>, r: ResponseView) -> bool {
    &&& r.version == Some(1u8)
    &&& r.code == Some(101u16)
    &&& count_upgrade(r.headers) == 1
    &&& count_connection(r.headers) == 1
    &&& exists|i: int| 0 <= i < r.headers.len() && is_accept_name(#[trigger] r.headers[i])
    &&& forall|i: int|
        0 <= i < r.headers.len() && is_accept_name(#[trigger] r.headers[i]) ==> r.headers[i].value
            == accept_key_of(key)
    &&& forall|i: int| 0 <= i < r.headers.len() ==> !is_forbidden_name(#[trigger] r.headers[i])
}

fn header_is_host(h: &Header) -> (r: bool)
    ensures
        r == is_host(h@),
{
    let name = vstd::slice::slice_to_vec("host".as_bytes());
    eq_ignore_ascii_case(&h.name, &name)
}

fn header_is_upgrade(h: &Header) -> (r: bool)
    ensures
        r == is_upgrade_websocket(h@),
{
    let name = vstd::slice::slice_to_vec("upgrade".as_bytes());
    let value = vstd::slice::slice_to_vec("websocket".as_bytes());
    eq_ignore_ascii_case(&h.name, &name) && eq_bytes(&h.value, &value)
}

fn header_is_connection(h: &Header) -> (r: bool)
    ensures
        r == is_connection_upgrade(h@),
{
    let name = vstd::slice::slice_to_vec("connection".as_bytes());
    let value = vstd::slice::slice_to_vec("Upgrade".as_bytes());
    eq_ignore_ascii_case(&h.name, &name) && eq_bytes(&h.value, &value)
}

fn header_is_version(h: &Header) -> (r: bool)
    ensures
        r == is_version_13(h@),
{
    let name = vstd::slice::slice_to_vec("sec-websocket-version".as_bytes());
    let value = vstd::slice::slice_to_vec("13".as_bytes());
    eq_ignore_ascii_case(&h.name, &name) && eq_bytes(&h.value, &value)
}

fn header_is_valid_key(h: &Header) -> (r: bool)
    ensures
        r == is_valid_key_header(h@),
{
    let name = vstd::slice::slice_to_vec("sec-websocket-key".as_bytes());
    if !eq_ignore_ascii_case(&h.name, &name) {
        return false;
    }
    match b64_decode(&h.value) {
        Some(d) => d.len() == 16,
        None => false,
    }
}

fn header_is_accept_name(h: &Header) -> (r: bool)
    ensures
        r == is_accept_name(h@),
{
    let name = vstd::slice::slice_to_vec("sec-websocket-accept".as_bytes());
    eq_ignore_ascii_case(&h.name, &name)
}

fn header_is_forbidden(h: &Header) -> (r: bool)
    ensures
        r == is_forbidden_name(h@),
{
    let ext = vstd::slice::slice_to_vec("sec-websocket-extensions".as_bytes());
    let proto = vstd::slice::slice_to_vec("sec-websocket-protocol".as_bytes());
    eq_ignore_ascii_case(&h.name, &ext) || eq_ignore_ascii_case(&h.name, &proto)
}

/// The server's half of the handshake, carrying the key the client
/// offered.
#[derive(Debug)]
pub struct ServerHanshake {
    key: Vec<u8>,
}

impl View for ServerHanshake {
    type V = Seq<u8>;

    closed spec fn view(&self) -> Seq<u8> {
        self.key@
    }
}

/// The bytes of the server's `101 Switching Protocols` response for a
/// given accept value.
pub open spec fn server_response_bytes(acc: Seq<u8>) -> Seq<u8> {
    encode_utf8("HTTP/1.1 101 Switching Protocols\r\nSec-WebSocket-Accept: "@) + acc + encode_utf8(
        "\r\nUpgrade: websocket\r\nConnection: Upgrade\r\n\r\n"@,
    )
}

impl ServerHanshake {
    /// Validates a parsed upgrade request.  The result is `Some`
    /// exactly when the request conforms, and then carries the offered
    /// key — the last valid key header, when several are present.
    pub fn from_request(request: &ParsedRequest) -> (r: Option<ServerHanshake>)
        ensures
            r is Some <==> valid_request(request@),
            r matches Some(h) ==> exists|i: int|
                0 <= i < request@.headers.len() && is_valid_key_header(
                    #[trigger] request@.headers[i],
                ) && h@ == request@.headers[i].value,
    {
        let ghost hs = request@.headers;
        let method_ok = match &request.method {
            Some(m) => {
                let get = vstd::slice::slice_to_vec("GET".as_bytes());
                eq_bytes(m, &get)
            },
            None => false,
        };
        let version_ok = match request.version {
            Some(v) => v == 1,
            None => false,
        };
        proof {
            assert(method_ok == (request@.method == Some(encode_utf8("GET"@))));
            assert(version_ok == (request@.version == Some(1u8)));
        }
        let mut has_host = false;
        let mut has_upgrade = false;
        let mut has_connection = false;
        let mut has_version = false;
        let mut has_key = false;
        let mut key: Vec<u8> = Vec::new();
        let n = request.headers.len();
        let mut i: usize = 0;
        while i < n
            invariant
                n == hs.len(),
                i <= n,
                hs == request@.headers,
                request@.headers == request.headers@.map_values(|h: Header| h@),
                has_host == exists|j: int| 0 <= j < i && is_host(#[trigger] hs[j]),
                has_upgrade == exists|j: int|
                    0 <= j < i && is_upgrade_websocket(#[trigger] hs[j]),
                has_connection == exists|j: int|
                    0 <= j < i && is_connection_upgrade(#[trigger] hs[j]),
                has_version == exists|j: int| 0 <= j < i && is_version_13(#[trigger] hs[j]),
                has_key == exists|j: int| 0 <= j < i && is_valid_key_header(#[trigger] hs[j]),
                has_key ==> exists|j: int|
                    0 <= j < i && is_valid_key_header(#[trigger] hs[j]) && key@ == hs[j].value,
            decreases n - i,
        {
            let h = &request.headers[i];
            proof {
                assert(hs[i as int] == h@);
            }
            if header_is_host(h) {
                has_host = true;
            }
            if header_is_upgrade(h) {
                has_upgrade = true;
            }
            if header_is_connection(h) {
                has_connection = true;
            }
            if header_is_version(h) {
                has_version = true;
            }
            if header_is_valid_key(h) {
                has_key = true;
                key = copy_range(&h.value, 0, h.value.len());
                proof {
                    assert(key@ =~= hs[i as int].value);
                }
            }
            i = i + 1;
        }
        if method_ok && version_ok && has_host && has_upgrade && has_connection && has_version
            && has_key {
            Some(ServerHanshake { key })
        } else {
            None
        }
    }

    /// The server's `101 Switching Protocols` response, carrying the
    /// accept value owed for the client's key.
    pub fn into_raw_response(self) -> (r: Vec<u8>)
        ensures
            r@ == server_response_bytes(accept_key_of(self@)),
    {
        let mut out = vstd::slice::slice_to_vec(
            "HTTP/1.1 101 Switching Protocols\r\nSec-WebSocket-Accept: ".as_bytes(),
        );
        let mut acc = accept_key(&self.key);
        out.append(&mut acc);
        let mut tail = vstd::slice::slice_to_vec(
            "\r\nUpgrade: websocket\r\nConnection: Upgrade\r\n\r\n".as_bytes(),
        );
        out.append(&mut tail);
        out
    }
}

/// The mathematical value of the client's half of the handshake.
#[verifier::ext_equal]
pub struct ClientHandshakeView {
    pub host: Seq<u8>,
    pub key: Seq<u8>,
}

/// The client's half of the handshake: the host it dials and the
/// freshly drawn key it offers.
#[derive(Debug)]
pub struct ClientHandshake {
    host: Vec<u8>,
    key: Vec<u8>,
}

impl View for ClientHandshake {
    type V = ClientHandshakeView;

    closed spec fn view(&self) -> ClientHandshakeView {
        ClientHandshakeView { host: self.host@, key: self.key@ }
    }
}

/// The bytes of the client's upgrade request for a given key and host.
pub open spec fn client_request_bytes(key: Seq<u8>, host: Seq<u8>) -> Seq<u8> {
    encode_utf8(
        "GET /chat HTTP/1.1\r\nUpgrade: websocket\r\nConnection: Upgrade\r\nSec-WebSocket-Version: 13\r\nSec-WebSocket-Key: "@,
    ) + key + encode_utf8("\r\nHost: "@) + host + encode_utf8("\r\n\r\n"@)
}

impl ClientHandshake {
    /// A fresh client handshake for the given host: draws a random
    /// 16-byte nonce and offers its base64 encoding, 24 bytes that
    /// decode back to the nonce, as the key.
    pub fn new(host: Vec<u8>) -> (c: ClientHandshake)
        ensures
            c@.host == host@,
            c@.key.len() == 24,
            exists|nonce: Seq<u8>| nonce.len() == 16 && c@.key == base64_of(nonce),
            base64_decode_of(c@.key) matches Some(d) && d.len() == 16,
    {
        let nonce: [u8; 16] = rand::random();
        let mut nv: Vec<u8> = Vec::new();
        let mut i: usize = 0;
        while i < 16
            invariant
                i <= 16,
                nv@.len() == i,
            decreases 16 - i,
        {
            nv.push(nonce[i]);
            i = i + 1;
        }
        let key = b64_encode(&nv);
        proof {
            assert(nv@.len() == 16 && key@ == base64_of(nv@));
        }
        ClientHandshake { host, key }
    }

    /// The key this handshake offers.
    pub fn key(&self) -> (r: &Vec<u8>)
        ensures
            r@ == self@.key,
    {
        &self.key
    }

    /// The exact bytes of the upgrade request to send.
    pub fn raw_request(&self) -> (r: Vec<u8>)
        ensures
            r@ == client_request_bytes(self@.key, self@.host),
    {
        let mut out = vstd::slice::slice_to_vec(
            "GET /chat HTTP/1.1\r\nUpgrade: websocket\r\nConnection: Upgrade\r\nSec-WebSocket-Version: 13\r\nSec-WebSocket-Key: ".as_bytes(),
        );
        let mut key = copy_range(&self.key, 0, self.key.len());
        proof {
            assert(key@ =~= self@.key);
        }
        out.append(&mut key);
        let mut mid = vstd::slice::slice_to_vec("\r\nHost: ".as_bytes());
        out.append(&mut mid);
        let mut host = copy_range(&self.host, 0, self.host.len());
        proof {
            assert(host@ =~= self@.host);
        }
        out.append(&mut host);
        let mut tail = vstd::slice::slice_to_vec("\r\n\r\n".as_bytes());
        out.append(&mut tail);
        out
    }

    /// Validates the peer's response against the offered key.  True
    /// exactly when the response conforms.
    pub fn is_valid_response(&self, response: &ParsedResponse) -> (r: bool)
        ensures
            r == valid_response(self@.key, response@),
    {
        let ghost hs = response@.headers;
        let version_ok = match response.version {
            Some(v) => v == 1,
            None => false,
        };
        let code_ok = match response.code {
            Some(c) => c == 101,
            None => false,
        };
        proof {
            assert(version_ok == (response@.version == Some(1u8)));
            assert(code_ok == (response@.code == Some(101u16)));
        }
        let acc = accept_key(&self.key);
        let mut upgrade_count: usize = 0;
        let mut connection_count: usize = 0;
        let mut saw_accept = false;
        let mut accept_ok = true;
        let mut clean = true;
        let n = response.headers.len();
        let mut i: usize = 0;
        while i < n
            invariant
                n == hs.len(),
                i <= n,
                hs == response@.headers,
                response@.headers == response.headers@.map_values(|h: Header| h@),
                acc@ == accept_key_of(self@.key),
                upgrade_count <= i,
                connection_count <= i,
                upgrade_count == count_upgrade(hs.take(i as int)),
                connection_count == count_connection(hs.take(i as int)),
                saw_accept == exists|j: int| 0 <= j < i && is_accept_name(#[trigger] hs[j]),
                accept_ok == forall|j: int|
                    0 <= j < i && is_accept_name(#[trigger] hs[j]) ==> hs[j].value
                        == accept_key_of(self@.key),
                clean == forall|j: int| 0 <= j < i ==> !is_forbidden_name(#[trigger] hs[j]),
            decreases n - i,
        {
            let h = &response.headers[i];
            proof {
                assert(hs[i as int] == h@);
                assert(hs.take(i + 1).drop_last() =~= hs.take(i as int));
                assert(hs.take(i + 1).last() == hs[i as int]);
            }
            if header_is_upgrade(h) {
                upgrade_count = upgrade_count + 1;
            }
            if header_is_connection(h) {
                connection_count = connection_count + 1;
            }
            if header_is_accept_name(h) {
                saw_accept = true;
                if !eq_bytes(&h.value, &acc) {
                    accept_ok = false;
                }
            }
            if header_is_forbidden(h) {
                clean = false;
            }
            i = i + 1;
        }
        proof {
            assert(hs.take(n as int) =~= hs);
        }
        version_ok && code_ok && upgrade_count == 1 && connection_count == 1 && saw_accept
            && accept_ok && clean
    }
}

} // verus!
