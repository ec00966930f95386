//! The computations of the HTTP Upgrade handshake: the accept key, the
//! request and response texts, header comparison and line parsing. The
//! reads and writes around them stay with the caller.

use vstd::prelude::*;

use vstd::string::{StrSliceExecFns, StringExecFns, StringSliceAdditionalSpecFns};
use vstd::slice::slice_index_get;
use vstd::utf8::{decode_utf8, encode_utf8, valid_utf8};

use crate::digest::{base64_encode, base64_of, sha1_digest, sha1_of};
use crate::error::UpgradeError;
use crate::text::string_from_utf8;

verus! {

/// The accept key owed for a handshake key: the Base64 text of the
/// SHA-1 digest of the key followed by the fixed handshake GUID.
pub open spec fn spec_accept_key(key_bytes: Seq<u8>) -> Seq<char> {
    base64_of(sha1_of(key_bytes + "258EAFA5-E914-47DA-95CA-C5AB0DC85B11".spec_bytes()))
}

/// Computes the accept key for a handshake key.
pub fn hash_key(s: &str) -> (r: String)
    ensures
        r@ == spec_accept_key(s.spec_bytes()),
{
    let mut data = s.as_bytes_vec();
    let mut guid = "258EAFA5-E914-47DA-95CA-C5AB0DC85B11".as_bytes_vec();
    data.append(&mut guid);
    let digest = sha1_digest(data.as_slice());
    base64_encode(digest.as_slice())
}

/// The byte with an ASCII upper-case letter folded to lower case.
pub open spec fn spec_lower_byte(b: u8) -> u8 {
    if 65 <= b <= 90 {
        (b + 32) as u8
    } else {
        b
    }
}

/// Case-insensitive ASCII equality of two byte sequences.
pub open spec fn spec_eq_ignore_case(a: Seq<u8>, b: Seq<u8>) -> bool {
    a.len() == b.len() && forall|i: int|
        0 <= i < a.len() ==> spec_lower_byte(#[trigger] a[i]) == spec_lower_byte(b[i])
}

/// Plain equality of two byte slices.
pub fn bytes_eq(a: &[u8], b: &[u8]) -> (r: bool)
    ensures
        r == (a@ == b@),
{
    let n = a.len();
    if n != b.len() {
        proof {
            assert(a@ != b@);
        }
        return false;
    }
    let mut i: usize = 0;
    while i < n
        invariant
            0 <= i <= n,
            n == a@.len() && n == b@.len(),
            forall|j: int| 0 <= j < i ==> a@[j] == b@[j],
        decreases n - i,
    {
        if *slice_index_get(a, i) != *slice_index_get(b, i) {
            proof {
                assert(a@[i as int] != b@[i as int]);
            }
            return false;
        }
        i = i + 1;
    }
    proof {
        assert(a@ =~= b@);
    }
    true
}

/// Case-insensitive ASCII equality of two strings, by their bytes.
pub fn str_eq_ignore_case(a: &str, b: &str) -> (r: bool)
    ensures
        r == spec_eq_ignore_case(a.spec_bytes(), b.spec_bytes()),
{
    let ab = a.as_bytes();
    let bb = b.as_bytes();
    let n = ab.len();
    if n != bb.len() {
        return false;
    }
    let mut i: usize = 0;
    while i < n
        invariant
            0 <= i <= n,
            n == ab@.len() && n == bb@.len(),
            ab@ == a.spec_bytes() && bb@ == b.spec_bytes(),
            forall|j: int|
                0 <= j < i ==> spec_lower_byte(#[trigger] ab@[j]) == spec_lower_byte(bb@[j]),
        decreases n - i,
    {
        let x = *slice_index_get(ab, i);
        let y = *slice_index_get(bb, i);
        let xl = if 65 <= x && x <= 90 {
            x + 32
        } else {
            x
        };
        let yl = if 65 <= y && y <= 90 {
            y + 32
        } else {
            y
        };
        if xl != yl {
            return false;
        }
        i = i + 1;
    }
    true
}

/// The value of the last header whose name matches exactly, as a
/// hash-map built by insertion would hold it.
pub open spec fn spec_header_lookup(hs: Seq<(String, String)>, name: Seq<char>) -> Option<
    Seq<char>,
>
    decreases hs.len(),
{
    if hs.len() == 0 {
        None
    } else if hs.last().0@ == name {
        Some(hs.last().1@)
    } else {
        spec_header_lookup(hs.drop_last(), name)
    }
}

/// Looks a header up by exact name, later entries shadowing earlier
/// ones.
pub fn header_get<'a>(headers: &'a Vec<(String, String)>, name: &str) -> (r: Option<&'a String>)
    ensures
        match r {
            Some(v) => spec_header_lookup(headers@, name@) == Some(v@),
            None => spec_header_lookup(headers@, name@) is None,
        },
{
    let n = headers.len();
    let mut i: usize = n;
    proof {
        assert(headers@.take(n as int) =~= headers@);
    }
    while i > 0
        invariant
            0 <= i <= n,
            n == headers@.len(),
            spec_header_lookup(headers@, name@) == spec_header_lookup(
                headers@.take(i as int),
                name@,
            ),
        decreases i,
    {
        i = i - 1;
        let ghost pre = headers@.take(i as int + 1);
        proof {
            assert(pre.last() == headers@[i as int]);
            assert(pre.drop_last() =~= headers@.take(i as int));
        }
        let entry = &headers[i];
        let same = {
            let eb = entry.0.as_str().as_bytes();
            let nb = name.as_bytes();
            bytes_eq(eb, nb)
        };
        proof {
            if same {
                assert(encode_utf8(entry.0@) == encode_utf8(name@));
                vstd::utf8::encode_utf8_decode_utf8(entry.0@);
                vstd::utf8::encode_utf8_decode_utf8(name@);
                assert(entry.0@ == name@);
            } else {
                assert(entry.0@ != name@);
            }
        }
        if same {
            return Some(&entry.1);
        }
    }
    proof {
        assert(headers@.take(0) =~= Seq::<(String, String)>::empty());
    }
    None
}

/// Validates one handshake header: it must be present and its value
/// must match the expectation up to ASCII case.
pub fn validate_header(
    headers: &Vec<(String, String)>,
    field: &'static str,
    expected: &str,
) -> (r: Result<(), UpgradeError>)
    ensures
        match spec_header_lookup(headers@, field@) {
            None => r matches Err(UpgradeError::MissingHeader(f)) && f@ == field@,
            Some(v) => if spec_eq_ignore_case(encode_utf8(v), expected.spec_bytes()) {
                r is Ok
            } else {
                r matches Err(UpgradeError::Header { field: f, expected: e, got: g }) && f@
                    == field@ && e@ == expected@ && g@ == v
            },
        },
{
    let value = match header_get(headers, field) {
        Some(v) => v,
        None => {
            return Err(UpgradeError::MissingHeader(field));
        },
    };
    if str_eq_ignore_case(value.as_str(), expected) {
        Ok(())
    } else {
        Err(
            UpgradeError::Header {
                field,
                expected: String::from_str(expected),
                got: value.clone(),
            },
        )
    }
}

/// The upgrade request a client opens the handshake with.
pub fn build_client_request(host: &str, key: &str) -> (r: String)
    ensures
        r@ == "GET / HTTP/1.1\r\nHost: "@ + host@
            + "\r\nUpgrade: websocket\r\nConnection: Upgrade\r\nSec-WebSocket-Key: "@ + key@
            + "\r\nSec-WebSocket-Version: 13\r\n\r\n"@,
{
    let mut r = String::from_str("GET / HTTP/1.1\r\nHost: ");
    r.append(host);
    r.append("\r\nUpgrade: websocket\r\nConnection: Upgrade\r\nSec-WebSocket-Key: ");
    r.append(key);
    r.append("\r\nSec-WebSocket-Version: 13\r\n\r\n");
    r
}

/// The 101 response a server accepts the handshake with.
pub fn build_server_response(accept: &str) -> (r: String)
    ensures
        r@ ==
        "HTTP/1.1 101 Switching Protocols\r\nUpgrade: websocket\r\nConnection: Upgrade\r\nSec-WebSocket-Accept: "@
            + accept@ + "\r\n\r\n"@,
{
    let mut r = String::from_str(
        "HTTP/1.1 101 Switching Protocols\r\nUpgrade: websocket\r\nConnection: Upgrade\r\nSec-WebSocket-Accept: ",
    );
    r.append(accept);
    r.append("\r\n\r\n");
    r
}

/// True of the ASCII whitespace that separates tokens in a start line.
pub open spec fn spec_is_ws(b: u8) -> bool {
    b == 32 || b == 9 || b == 13 || b == 10
}

/// Recognizes the ASCII whitespace that separates tokens.
pub fn is_ws_byte(b: u8) -> (r: bool)
    ensures
        r == spec_is_ws(b),
{
    b == 32 || b == 9 || b == 13 || b == 10
}

/// The bytes left once leading whitespace is gone.
pub open spec fn spec_skip_ws(s: Seq<u8>) -> Seq<u8>
    decreases s.len(),
{
    if s.len() > 0 && spec_is_ws(s[0]) {
        spec_skip_ws(s.drop_first())
    } else {
        s
    }
}

/// The token at the front of `s`: its longest whitespace-free prefix.
pub open spec fn spec_take_token(s: Seq<u8>) -> Seq<u8>
    decreases s.len(),
{
    if s.len() > 0 && !spec_is_ws(s[0]) {
        seq![s[0]] + spec_take_token(s.drop_first())
    } else {
        Seq::empty()
    }
}

/// What follows the token at the front of `s`.
pub open spec fn spec_drop_token(s: Seq<u8>) -> Seq<u8>
    decreases s.len(),
{
    if s.len() > 0 && !spec_is_ws(s[0]) {
        spec_drop_token(s.drop_first())
    } else {
        s
    }
}

/// The next whitespace-separated token and what follows it.
pub open spec fn spec_next_token(s: Seq<u8>) -> (Seq<u8>, Seq<u8>) {
    let t = spec_skip_ws(s);
    (spec_take_token(t), spec_drop_token(t))
}

/// Splits the next whitespace-separated token off the front of `s`.
pub fn next_token<'a>(s: &'a [u8]) -> (r: (&'a [u8], &'a [u8]))
    ensures
        r.0@ == spec_next_token(s@).0,
        r.1@ == spec_next_token(s@).1,
{
    let n = s.len();
    let mut i: usize = 0;
    proof {
        assert(s@.skip(0) =~= s@);
    }
    while i < n && is_ws_byte(*slice_index_get(s, i))
        invariant
            0 <= i <= n,
            n == s@.len(),
            spec_skip_ws(s@) == spec_skip_ws(s@.skip(i as int)),
        decreases n - i,
    {
        proof {
            assert(s@.skip(i as int).drop_first() =~= s@.skip(i as int + 1));
        }
        i = i + 1;
    }
    proof {
        if i < n {
            assert(spec_skip_ws(s@.skip(i as int)) == s@.skip(i as int));
        } else {
            assert(s@.skip(i as int) =~= Seq::<u8>::empty());
        }
    }
    let start = i;
    let mut j: usize = i;
    proof {
        assert(s@.subrange(start as int, start as int) + spec_take_token(s@.skip(start as int))
            =~= spec_take_token(s@.skip(start as int)));
    }
    while j < n && !is_ws_byte(*slice_index_get(s, j))
        invariant
            0 <= start <= j <= n,
            n == s@.len(),
            spec_skip_ws(s@) == s@.skip(start as int),
            spec_take_token(s@.skip(start as int)) == s@.subrange(start as int, j as int)
                + spec_take_token(s@.skip(j as int)),
            spec_drop_token(s@.skip(start as int)) == spec_drop_token(s@.skip(j as int)),
        decreases n - j,
    {
        proof {
            assert(s@.skip(j as int).drop_first() =~= s@.skip(j as int + 1));
            assert(s@.subrange(start as int, j as int) + seq![s@[j as int]] =~= s@.subrange(
                start as int,
                j as int + 1,
            ));
            assert(seq![s@[j as int]] + spec_take_token(s@.skip(j as int + 1)) =~= seq![
                s@.skip(j as int)[0],
            ] + spec_take_token(s@.skip(j as int).drop_first()));
        }
        j = j + 1;
    }
    proof {
        if j < n {
            assert(spec_take_token(s@.skip(j as int)) =~= Seq::<u8>::empty());
            assert(spec_drop_token(s@.skip(j as int)) == s@.skip(j as int));
        } else {
            assert(s@.skip(j as int) =~= Seq::<u8>::empty());
        }
        assert(s@.subrange(start as int, j as int) + Seq::<u8>::empty() =~= s@.subrange(
            start as int,
            j as int,
        ));
    }
    let (_, from_start) = s.split_at(start);
    let token_len = j - start;
    let (token, rest) = from_start.split_at(token_len);
    proof {
        assert(token@ =~= s@.subrange(start as int, j as int));
        assert(rest@ =~= s@.skip(j as int));
    }
    (token, rest)
}

/// True when a client may proceed: the peer's status line names code
/// 101 in its second token.
pub open spec fn spec_status_is_switching(line: Seq<u8>) -> bool {
    let (t1, rest) = spec_next_token(line);
    let (t2, _) = spec_next_token(rest);
    t1.len() > 0 && t2 == seq![0x31u8, 0x30u8, 0x31u8]
}

/// Checks the status line a client received: its second token must be
/// the code 101.
pub fn status_is_switching(line: &str) -> (r: bool)
    ensures
        r == spec_status_is_switching(line.spec_bytes()),
{
    let bytes = line.as_bytes();
    let (t1, rest) = next_token(bytes);
    let (t2, _) = next_token(rest);
    let code: [u8; 3] = [0x31, 0x30, 0x31];
    t1.len() > 0 && bytes_eq(t2, code.as_slice())
}

/// True when a server may proceed: the request line reads GET, a
/// target, and HTTP/1.1.
pub open spec fn spec_request_line_ok(line: Seq<u8>) -> bool {
    let (t1, rest1) = spec_next_token(line);
    let (t2, rest2) = spec_next_token(rest1);
    let (t3, _) = spec_next_token(rest2);
    &&& t1 == seq![0x47u8, 0x45u8, 0x54u8]
    &&& t2.len() > 0
    &&& t3 == seq![0x48u8, 0x54u8, 0x54u8, 0x50u8, 0x2Fu8, 0x31u8, 0x2Eu8, 0x31u8]
}

/// Checks the request line a server received: GET, a target, HTTP/1.1.
pub fn request_line_ok(line: &str) -> (r: bool)
    ensures
        r == spec_request_line_ok(line.spec_bytes()),
{
    let bytes = line.as_bytes();
    let (t1, rest1) = next_token(bytes);
    let (t2, rest2) = next_token(rest1);
    let (t3, _) = next_token(rest2);
    let get: [u8; 3] = [0x47, 0x45, 0x54];
    let http: [u8; 8] = [0x48, 0x54, 0x54, 0x50, 0x2F, 0x31, 0x2E, 0x31];
    bytes_eq(t1, get.as_slice()) && t2.len() > 0 && bytes_eq(t3, http.as_slice())
}

/// Leading and trailing ASCII whitespace stripped.
pub open spec fn spec_trim(s: Seq<u8>) -> Seq<u8> {
    spec_trim_end(spec_skip_ws(s))
}

/// Trailing ASCII whitespace stripped.
pub open spec fn spec_trim_end(s: Seq<u8>) -> Seq<u8>
    decreases s.len(),
{
    if s.len() > 0 && spec_is_ws(s.last()) {
        spec_trim_end(s.drop_last())
    } else {
        s
    }
}

/// Strips leading and trailing ASCII whitespace from a byte slice.
pub fn trim_bytes<'a>(s: &'a [u8]) -> (r: &'a [u8])
    ensures
        r@ == spec_trim(s@),
{
    let n = s.len();
    let mut i: usize = 0;
    proof {
        assert(s@.skip(0) =~= s@);
    }
    while i < n && is_ws_byte(*slice_index_get(s, i))
        invariant
            0 <= i <= n,
            n == s@.len(),
            spec_skip_ws(s@) == spec_skip_ws(s@.skip(i as int)),
        decreases n - i,
    {
        proof {
            assert(s@.skip(i as int).drop_first() =~= s@.skip(i as int + 1));
        }
        i = i + 1;
    }
    proof {
        if i < n {
            assert(spec_skip_ws(s@.skip(i as int)) == s@.skip(i as int));
        } else {
            assert(s@.skip(i as int) =~= Seq::<u8>::empty());
        }
    }
    let mut j: usize = n;
    proof {
        assert(s@.subrange(i as int, n as int) =~= s@.skip(i as int));
    }
    while j > i && is_ws_byte(*slice_index_get(s, j - 1))
        invariant
            i <= j <= n,
            n == s@.len(),
            spec_skip_ws(s@) == s@.skip(i as int),
            spec_trim_end(s@.skip(i as int)) == spec_trim_end(s@.subrange(i as int, j as int)),
        decreases j,
    {
        proof {
            assert(s@.subrange(i as int, j as int).drop_last() =~= s@.subrange(
                i as int,
                j as int - 1,
            ));
            assert(s@.subrange(i as int, j as int).last() == s@[j as int - 1]);
        }
        j = j - 1;
    }
    proof {
        let cur = s@.subrange(i as int, j as int);
        if j > i {
            assert(cur.last() == s@[j as int - 1]);
            assert(spec_trim_end(cur) == cur);
        } else {
            assert(cur =~= Seq::<u8>::empty());
        }
    }
    let (_, from_i) = s.split_at(i);
    let (r, _) = from_i.split_at(j - i);
    proof {
        assert(r@ =~= s@.subrange(i as int, j as int));
    }
    r
}

/// Splits a header line at its first colon and trims both parts; `None`
/// when no colon occurs. The parts of a valid UTF-8 line split at ASCII
/// bytes are themselves valid UTF-8.
pub open spec fn spec_header_line(line: Seq<u8>) -> Option<(Seq<u8>, Seq<u8>)> {
    if exists|i: int| 0 <= i < line.len() && line[i] == 0x3Au8 {
        let i = choose|i: int|
            0 <= i < line.len() && line[i] == 0x3Au8 && forall|j: int|
                0 <= j < i ==> line[j] != 0x3Au8;
        Some((spec_trim(line.take(i)), spec_trim(line.skip(i + 1))))
    } else {
        None
    }
}

/// Parses one header line into its trimmed name and value.
pub fn parse_header_line(line: &str) -> (r: Option<(String, String)>)
    ensures
        match spec_header_line(line.spec_bytes()) {
            Some((name, value)) => {
                &&& (r matches Some((n, v)) ==> valid_utf8(name) && valid_utf8(value) && n@
                    == decode_utf8(name) && v@ == decode_utf8(value))
                &&& (r is None ==> !(valid_utf8(name) && valid_utf8(value)))
            },
            None => r is None,
        },
{
    let bytes = line.as_bytes();
    let n = bytes.len();
    let mut i: usize = 0;
    while i < n && *slice_index_get(bytes, i) != 0x3A
        invariant
            0 <= i <= n,
            n == bytes@.len(),
            forall|j: int| 0 <= j < i ==> bytes@[j] != 0x3Au8,
        decreases n - i,
    {
        i = i + 1;
    }
    if i >= n {
        proof {
            assert(forall|j: int| 0 <= j < bytes@.len() ==> bytes@[j] != 0x3Au8);
        }
        return None;
    }
    proof {
        let w = choose|w: int|
            0 <= w < bytes@.len() && bytes@[w] == 0x3Au8 && forall|j: int|
                0 <= j < w ==> bytes@[j] != 0x3Au8;
        assert(bytes@[i as int] == 0x3Au8);
        assert(w == i as int);
    }
    let (head, tail_with_colon) = bytes.split_at(i);
    let (_, tail) = tail_with_colon.split_at(1);
    proof {
        assert(head@ =~= bytes@.take(i as int));
        assert(tail@ =~= bytes@.skip(i as int + 1));
    }
    let name_bytes = trim_bytes(head);
    let value_bytes = trim_bytes(tail);
    let name = match string_from_utf8(vstd::slice::slice_to_vec(name_bytes)) {
        Some(s) => s,
        None => {
            return None;
        },
    };
    let value = match string_from_utf8(vstd::slice::slice_to_vec(value_bytes)) {
        Some(s) => s,
        None => {
            return None;
        },
    };
    Some((name, value))
}

} // verus!
