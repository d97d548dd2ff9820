//! Handshake negotiation: locating the `Sec-WebSocket-Key` header in the
//! raw request bytes, deriving the accept key from it, and building the
//! 101 Switching Protocols response.

use vstd::prelude::*;
use vstd::string::StrSliceExecFns;
use vstd::string::StringExecFns;
use crate::text::lossy_utf8;
use crate::text::utf8_lossy;

verus! {

/// The errors a handshake can end in: the required key header is absent
/// from the request, or reading or writing the socket failed. Either is
/// fatal to that connection's setup only.
#[derive(Clone, Copy, Debug, PartialEq, Eq, Structural)]
pub enum HandshakeError {
    MissingKeyHeader,
    IoFailure,
}

/// The SHA-1 digest of the given bytes: a pure function of the bytes
/// alone, 20 bytes long.
pub uninterp spec fn sha1_of(data: Seq<u8>) -> Seq<u8>;

/// The standard base64 encoding (with padding) of the given bytes: a
/// pure function of the bytes alone, four output characters for every
/// three input bytes, rounded up.
pub uninterp spec fn b64_of(data: Seq<u8>) -> Seq<char>;

/// Relies on sha1::Sha1::digest: the SHA-1 hash of the input, a pure
/// function of the bytes alone; always 20 bytes.
#[verifier::external_body]
fn sha1_digest(data: &Vec<u8>) -> (r: Vec<u8>)
    ensures
        r@ == sha1_of(data@),
        r@.len() == 20,
{
    <sha1::Sha1 as sha1::Digest>::digest(data.as_slice()).to_vec()
}

/// Relies on base64::encode: the standard padded base64 encoding of the
/// input, a pure function of the bytes alone; 4 * ceil(len / 3)
/// characters long.
#[verifier::external_body]
fn base64_encode(data: &Vec<u8>) -> (r: String)
    ensures
        r@ == b64_of(data@),
        r@.len() == 4 * ((data@.len() + 2) / 3),
{
    base64::encode(data.as_slice())
}

/// The protocol's fixed GUID, as bytes: every accept key is derived by
/// hashing the client key with this constant appended.
pub open spec fn guid_bytes() -> Seq<u8> {
    vstd::utf8::encode_utf8("258EAFA5-E914-47DA-95CA-C5AB0DC85B11"@)
}

/// The accept key derived from a client key: base64 of the SHA-1 digest
/// of the key's UTF-8 bytes followed by the fixed GUID.
pub open spec fn accept_key_chars(key: Seq<char>) -> Seq<char> {
    b64_of(sha1_of(vstd::utf8::encode_utf8(key) + guid_bytes()))
}

/// Derives the accept key the response must carry for the given client
/// key. Equal inputs always produce equal outputs.
pub fn calculate_accept_key(key: &str) -> (r: String)
    ensures
        r@ == accept_key_chars(key@),
        r@.len() == 28,
{
    let mut combined = key.as_bytes_vec();
    let mut guid = "258EAFA5-E914-47DA-95CA-C5AB0DC85B11".as_bytes_vec();
    combined.append(&mut guid);
    let digest = sha1_digest(&combined);
    base64_encode(&digest)
}

/// The header-name bytes the request is searched for, colon and space
/// included, exact case and spacing.
pub open spec fn key_marker_bytes() -> Seq<u8> {
    vstd::utf8::encode_utf8("Sec-WebSocket-Key: "@)
}

/// The first position at or after `i` where `pat` occurs in `hay`.
pub open spec fn spec_find_from(hay: Seq<u8>, pat: Seq<u8>, i: int) -> Option<int>
    decreases hay.len() - i,
{
    if i < 0 || i + pat.len() > hay.len() {
        None
    } else if pat.len() == 0 {
        Some(i)
    } else if hay.subrange(i, i + pat.len()) == pat {
        Some(i)
    } else {
        spec_find_from(hay, pat, i + 1)
    }
}

/// The first position at or after `i` holding the byte `b`.
pub open spec fn spec_find_byte(hay: Seq<u8>, b: u8, i: int) -> Option<int>
    decreases hay.len() - i,
{
    if i < 0 || i >= hay.len() {
        None
    } else if hay[i] == b {
        Some(i)
    } else {
        spec_find_byte(hay, b, i + 1)
    }
}

/// ASCII whitespace, as trimmed from around the header value.
pub open spec fn is_ws(b: u8) -> bool {
    b == 0x20 || b == 0x09 || b == 0x0d || b == 0x0a
}

/// The sequence with leading whitespace removed.
pub open spec fn trim_front(s: Seq<u8>) -> Seq<u8>
    decreases s.len(),
{
    if s.len() > 0 && is_ws(s[0]) {
        trim_front(s.drop_first())
    } else {
        s
    }
}

/// The sequence with trailing whitespace removed.
pub open spec fn trim_back(s: Seq<u8>) -> Seq<u8>
    decreases s.len(),
{
    if s.len() > 0 && is_ws(s.last()) {
        trim_back(s.drop_last())
    } else {
        s
    }
}

/// The sequence with surrounding whitespace removed.
pub open spec fn spec_trim(s: Seq<u8>) -> Seq<u8> {
    trim_back(trim_front(s))
}

/// The trimmed value of the `Sec-WebSocket-Key` header: the bytes after
/// the first occurrence of the header name up to the next carriage
/// return, whitespace-trimmed; `None` when the header name is absent or
/// no carriage return follows the value.
pub open spec fn spec_key_value(req: Seq<u8>) -> Option<Seq<u8>> {
    match spec_find_from(req, key_marker_bytes(), 0) {
        None => None,
        Some(i) => {
            let v = i + key_marker_bytes().len();
            match spec_find_byte(req, 0x0d, v) {
                None => None,
                Some(j) => Some(spec_trim(req.subrange(v, j))),
            }
        },
    }
}

/// Whether `pat` occurs in `hay` at position `i` exactly.
fn bytes_match(hay: &Vec<u8>, i: usize, pat: &Vec<u8>) -> (r: bool)
    requires
        i + pat@.len() <= hay@.len(),
    ensures
        r == (hay@.subrange(i as int, i + pat@.len()) == pat@),
{
    proof {
        vstd::std_specs::vec::axiom_spec_len(hay);
    }
    let mut j: usize = 0;
    while j < pat.len()
        invariant
            j <= pat@.len(),
            i + pat@.len() <= hay@.len(),
            hay@.len() <= usize::MAX,
            forall|t: int| 0 <= t < j ==> hay@[i + t] == pat@[t],
        decreases pat.len() - j,
    {
        if hay[i + j] != pat[j] {
            assert(hay@.subrange(i as int, i + pat@.len())[j as int] != pat@[j as int]);
            return false;
        }
        j = j + 1;
    }
    assert(hay@.subrange(i as int, i + pat@.len()) =~= pat@);
    true
}

/// The first occurrence of `pat` in `hay`, if any.
fn find_subsequence(hay: &Vec<u8>, pat: &Vec<u8>) -> (r: Option<usize>)
    ensures
        match r {
            Some(i) => spec_find_from(hay@, pat@, 0) == Some(i as int) && i + pat@.len()
                <= hay@.len(),
            None => spec_find_from(hay@, pat@, 0) is None,
        },
{
    if pat.len() > hay.len() {
        return None;
    }
    if pat.len() == 0 {
        return Some(0);
    }
    let last = hay.len() - pat.len();
    let mut i: usize = 0;
    loop
        invariant
            i <= last,
            last == hay@.len() - pat@.len(),
            0 < pat@.len() <= hay@.len(),
            spec_find_from(hay@, pat@, 0) == spec_find_from(hay@, pat@, i as int),
        decreases last - i,
    {
        if bytes_match(hay, i, pat) {
            return Some(i);
        }
        proof {
            assert(spec_find_from(hay@, pat@, i as int) == spec_find_from(hay@, pat@, i + 1));
        }
        if i == last {
            proof {
                assert(spec_find_from(hay@, pat@, i + 1) is None);
            }
            return None;
        }
        i = i + 1;
    }
}

/// The first carriage return at or after `from`, if any.
fn find_cr(hay: &Vec<u8>, from: usize) -> (r: Option<usize>)
    requires
        from <= hay@.len(),
    ensures
        match r {
            Some(j) => spec_find_byte(hay@, 0x0d, from as int) == Some(j as int) && from <= j
                < hay@.len(),
            None => spec_find_byte(hay@, 0x0d, from as int) is None,
        },
{
    let mut i: usize = from;
    while i < hay.len()
        invariant
            from <= i <= hay@.len(),
            spec_find_byte(hay@, 0x0d, from as int) == spec_find_byte(hay@, 0x0d, i as int),
        decreases hay.len() - i,
    {
        if hay[i] == 0x0d {
            return Some(i);
        }
        i = i + 1;
    }
    None
}

fn is_ws_exec(b: u8) -> (r: bool)
    ensures
        r == is_ws(b),
{
    b == 0x20 || b == 0x09 || b == 0x0d || b == 0x0a
}

/// Copies `hay[lo..hi]` with surrounding whitespace removed.
fn trim_range(hay: &Vec<u8>, lo: usize, hi: usize) -> (r: Vec<u8>)
    requires
        lo <= hi <= hay@.len(),
    ensures
        r@ == spec_trim(hay@.subrange(lo as int, hi as int)),
{
    let ghost s = hay@.subrange(lo as int, hi as int);
    let mut a: usize = lo;
    while a < hi && is_ws_exec(hay[a])
        invariant
            lo <= a <= hi <= hay@.len(),
            trim_front(s) == trim_front(hay@.subrange(a as int, hi as int)),
        decreases hi - a,
    {
        proof {
            let cur = hay@.subrange(a as int, hi as int);
            assert(cur.drop_first() =~= hay@.subrange(a + 1, hi as int));
        }
        a = a + 1;
    }
    proof {
        assert(trim_front(s) == hay@.subrange(a as int, hi as int));
    }
    let mut b: usize = hi;
    while b > a && is_ws_exec(hay[b - 1])
        invariant
            a <= b <= hi <= hay@.len(),
            trim_front(s) == hay@.subrange(a as int, hi as int),
            trim_back(hay@.subrange(a as int, hi as int)) == trim_back(
                hay@.subrange(a as int, b as int),
            ),
        decreases b,
    {
        proof {
            let cur = hay@.subrange(a as int, b as int);
            assert(cur.drop_last() =~= hay@.subrange(a as int, b - 1));
        }
        b = b - 1;
    }
    proof {
        assert(trim_back(hay@.subrange(a as int, b as int)) == hay@.subrange(a as int, b as int));
    }
    let mut out: Vec<u8> = Vec::new();
    let mut i: usize = a;
    while i < b
        invariant
            a <= i <= b <= hay@.len(),
            out@ == hay@.subrange(a as int, i as int),
        decreases b - i,
    {
        out.push(hay[i]);
        proof {
            assert(hay@.subrange(a as int, i as int) + seq![hay@[i as int]] =~= hay@.subrange(
                a as int,
                i + 1,
            ));
        }
        i = i + 1;
    }
    proof {
        assert(out@ == hay@.subrange(a as int, b as int));
    }
    out
}

/// Parses the raw upgrade request and derives the accept key from the
/// `Sec-WebSocket-Key` header it carries; fails with `MissingKeyHeader`
/// exactly when the header (or the carriage return ending its value) is
/// absent.
pub fn negotiate(request: &Vec<u8>) -> (r: Result<String, HandshakeError>)
    ensures
        r is Ok <==> spec_key_value(request@) is Some,
        r is Ok ==> (r->Ok_0)@ == accept_key_chars(lossy_utf8(spec_key_value(request@)->0)),
        r is Err ==> r == Err::<String, HandshakeError>(HandshakeError::MissingKeyHeader),
{
    proof {
        vstd::std_specs::vec::axiom_spec_len(request);
    }
    let marker = "Sec-WebSocket-Key: ".as_bytes_vec();
    let start = match find_subsequence(request, &marker) {
        Some(i) => i,
        None => {
            return Err(HandshakeError::MissingKeyHeader);
        },
    };
    let value_start = start + marker.len();
    assert(value_start <= request@.len());
    let value_end = match find_cr(request, value_start) {
        Some(j) => j,
        None => {
            return Err(HandshakeError::MissingKeyHeader);
        },
    };
    let key_bytes = trim_range(request, value_start, value_end);
    let key = utf8_lossy(&key_bytes);
    Ok(calculate_accept_key(key.as_str()))
}

/// The full 101 Switching Protocols response carrying the given accept
/// key, terminated by a blank line.
pub open spec fn response_chars(accept: Seq<char>) -> Seq<char> {
    "HTTP/1.1 101 Switching Protocols\r\nUpgrade: websocket\r\nConnection: Upgrade\r\nSec-WebSocket-Accept: "@
        + accept + "\r\n\r\n"@
}

/// Builds the 101 response around an accept key.
pub fn build_response(accept: &str) -> (r: String)
    ensures
        r@ == response_chars(accept@),
{
    let mut out = String::from_str(
        "HTTP/1.1 101 Switching Protocols\r\nUpgrade: websocket\r\nConnection: Upgrade\r\nSec-WebSocket-Accept: ",
    );
    out.append(accept);
    out.append("\r\n\r\n");
    out
}

} // verus!
