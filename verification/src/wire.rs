//! The envelope's file form: the JSON object the store writes to disk and
//! reads back, as bytes.
//!
//! The writer produces exactly two layouts: a compact one for the local
//! data file and a pretty-printed one for backups. The reader accepts both
//! (and any interleaved JSON whitespace), with the members in the order the
//! store writes them: `v`, `nonce_b64`, `ct_b64`, then an optional
//! `hmac_b64` whose value may be `null`. String values may hold any bytes
//! except quotes, backslashes and control characters — base64 text never
//! needs more, so escape sequences are rejected rather than interpreted.
//!
//! The strictness is deliberate: this is the store's own closed format,
//! not general JSON. Everything the store ever writes parses back (proved
//! below), while reordered members, unknown members or escapes — which a
//! general JSON reader would tolerate — are treated as corruption.

use vstd::prelude::*;
use crate::bytes::{append_bytes, bytes_eq, copy_range};
use crate::envelope::{Envelope, EnvelopeView, SUPPORTED_VERSION};
use crate::errors::StoreError;

verus! {

// --- The byte runs the writer emits, and the member keys. ---

/// `{"v":1,"nonce_b64":"`
pub open spec fn compact_head() -> Seq<u8> {
    seq![123u8, 34, 118, 34, 58, 49, 44, 34, 110, 111, 110, 99, 101, 95, 98, 54, 52, 34, 58, 34]
}

/// `","ct_b64":"`
pub open spec fn compact_ct_sep() -> Seq<u8> {
    seq![34u8, 44, 34, 99, 116, 95, 98, 54, 52, 34, 58, 34]
}

/// `","hmac_b64":"`
pub open spec fn compact_hmac_sep() -> Seq<u8> {
    seq![34u8, 44, 34, 104, 109, 97, 99, 95, 98, 54, 52, 34, 58, 34]
}

/// `"}`
pub open spec fn compact_tail() -> Seq<u8> {
    seq![34u8, 125]
}

/// `","hmac_b64":null}`
pub open spec fn compact_hmac_null_tail() -> Seq<u8> {
    seq![34u8, 44, 34, 104, 109, 97, 99, 95, 98, 54, 52, 34, 58, 110, 117, 108, 108, 125]
}

/// `{\n  "v": 1,\n  "nonce_b64": "`
pub open spec fn pretty_head() -> Seq<u8> {
    seq![123u8, 10, 32, 32, 34, 118, 34, 58, 32, 49, 44, 10, 32, 32, 34, 110, 111, 110, 99, 101,
        95, 98, 54, 52, 34, 58, 32, 34]
}

/// `",\n  "ct_b64": "`
pub open spec fn pretty_ct_sep() -> Seq<u8> {
    seq![34u8, 44, 10, 32, 32, 34, 99, 116, 95, 98, 54, 52, 34, 58, 32, 34]
}

/// `",\n  "hmac_b64": "`
pub open spec fn pretty_hmac_sep() -> Seq<u8> {
    seq![34u8, 44, 10, 32, 32, 34, 104, 109, 97, 99, 95, 98, 54, 52, 34, 58, 32, 34]
}

/// `"\n}`
pub open spec fn pretty_tail() -> Seq<u8> {
    seq![34u8, 10, 125]
}

/// `",\n  "hmac_b64": null\n}`
pub open spec fn pretty_hmac_null_tail() -> Seq<u8> {
    seq![34u8, 44, 10, 32, 32, 34, 104, 109, 97, 99, 95, 98, 54, 52, 34, 58, 32, 110, 117, 108,
        108, 10, 125]
}

/// `v`
pub open spec fn key_v() -> Seq<u8> {
    seq![118u8]
}

/// `nonce_b64`
pub open spec fn key_nonce() -> Seq<u8> {
    seq![110u8, 111, 110, 99, 101, 95, 98, 54, 52]
}

/// `ct_b64`
pub open spec fn key_ct() -> Seq<u8> {
    seq![99u8, 116, 95, 98, 54, 52]
}

/// `hmac_b64`
pub open spec fn key_hmac() -> Seq<u8> {
    seq![104u8, 109, 97, 99, 95, 98, 54, 52]
}

/// The exact bytes the store writes for an envelope (whose version is the
/// supported one, written as the literal digit `1`).
pub open spec fn json_of(e: EnvelopeView, pretty: bool) -> Seq<u8> {
    let head = if pretty {
        pretty_head()
    } else {
        compact_head()
    };
    let ct_sep = if pretty {
        pretty_ct_sep()
    } else {
        compact_ct_sep()
    };
    match e.hmac_b64 {
        Some(h) => head + e.nonce_b64 + ct_sep + e.ct_b64 + (if pretty {
            pretty_hmac_sep()
        } else {
            compact_hmac_sep()
        }) + h + (if pretty {
            pretty_tail()
        } else {
            compact_tail()
        }),
        None => head + e.nonce_b64 + ct_sep + e.ct_b64 + (if pretty {
            pretty_hmac_null_tail()
        } else {
            compact_hmac_null_tail()
        }),
    }
}

// --- The reader's grammar, as spec functions over the byte sequence. ---

/// JSON whitespace.
pub open spec fn is_ws(c: u8) -> bool {
    c == 32 || c == 9 || c == 10 || c == 13
}

/// An ASCII digit.
pub open spec fn is_digit(c: u8) -> bool {
    48 <= c <= 57
}

/// A byte that may stand unescaped inside a JSON string: anything but a
/// quote, a backslash or a control character.
pub open spec fn is_content(c: u8) -> bool {
    c != 34 && c != 92 && c >= 32
}

/// The first position at or after `i` that does not hold whitespace.
pub open spec fn ws_end(s: Seq<u8>, i: int) -> int
    decreases s.len() - i,
{
    if 0 <= i && i < s.len() && is_ws(s[i]) {
        ws_end(s, i + 1)
    } else {
        i
    }
}

/// The first position at or after `i` that cannot continue a string body.
pub open spec fn content_end(s: Seq<u8>, i: int) -> int
    decreases s.len() - i,
{
    if 0 <= i && i < s.len() && is_content(s[i]) {
        content_end(s, i + 1)
    } else {
        i
    }
}

/// The first position at or after `i` that does not hold a digit.
pub open spec fn digits_end(s: Seq<u8>, i: int) -> int
    decreases s.len() - i,
{
    if 0 <= i && i < s.len() && is_digit(s[i]) {
        digits_end(s, i + 1)
    } else {
        i
    }
}

/// The value of the digit run `s[i..j)`.
pub open spec fn digits_val(s: Seq<u8>, i: int, j: int) -> nat
    decreases j - i,
{
    if 0 <= i && i < j && j <= s.len() {
        digits_val(s, i, j - 1) * 10 + (s[j - 1] - 48) as nat
    } else {
        0
    }
}

/// A string token at `i`: an opening quote, a run of content bytes, a
/// closing quote. Yields the body and the position after the token.
pub open spec fn parse_str_at(s: Seq<u8>, i: int) -> Option<(Seq<u8>, int)> {
    if 0 <= i && i < s.len() && s[i] == 34 {
        let j = content_end(s, i + 1);
        if j < s.len() && s[j] == 34 {
            Some((s.subrange(i + 1, j), j + 1))
        } else {
            None
        }
    } else {
        None
    }
}

/// A number token at `i`: a nonempty digit run. Yields its value and the
/// position after it.
pub open spec fn parse_num_at(s: Seq<u8>, i: int) -> Option<(nat, int)> {
    let j = digits_end(s, i);
    if 0 <= i && i < j {
        Some((digits_val(s, i, j), j))
    } else {
        None
    }
}

/// The literal `null` stands at `i`.
pub open spec fn null_at(s: Seq<u8>, i: int) -> bool {
    0 <= i && i + 4 <= s.len() && s[i] == 110 && s[i + 1] == 117 && s[i + 2] == 108 && s[i + 3]
        == 108
}

/// A member at `i` whose key must be `key` and whose value is a string.
pub open spec fn named_str_at(s: Seq<u8>, i: int, key: Seq<u8>) -> Option<(Seq<u8>, int)> {
    match parse_str_at(s, i) {
        Some((k, i2)) => if k == key {
            let i3 = ws_end(s, i2);
            if i3 < s.len() && s[i3] == 58 {
                parse_str_at(s, ws_end(s, i3 + 1))
            } else {
                None
            }
        } else {
            None
        },
        None => None,
    }
}

/// A member at `i` whose key must be `key` and whose value is a number.
pub open spec fn named_num_at(s: Seq<u8>, i: int, key: Seq<u8>) -> Option<(nat, int)> {
    match parse_str_at(s, i) {
        Some((k, i2)) => if k == key {
            let i3 = ws_end(s, i2);
            if i3 < s.len() && s[i3] == 58 {
                parse_num_at(s, ws_end(s, i3 + 1))
            } else {
                None
            }
        } else {
            None
        },
        None => None,
    }
}

/// A member at `i` whose key must be `key` and whose value is a string or
/// `null`.
pub open spec fn named_opt_at(s: Seq<u8>, i: int, key: Seq<u8>) -> Option<(Option<Seq<u8>>, int)> {
    match parse_str_at(s, i) {
        Some((k, i2)) => if k == key {
            let i3 = ws_end(s, i2);
            if i3 < s.len() && s[i3] == 58 {
                let i4 = ws_end(s, i3 + 1);
                if null_at(s, i4) {
                    Some((None, i4 + 4))
                } else {
                    match parse_str_at(s, i4) {
                        Some((v, j)) => Some((Some(v), j)),
                        None => None,
                    }
                }
            } else {
                None
            }
        } else {
            None
        },
        None => None,
    }
}

/// The whole document: the envelope object, with nothing but whitespace
/// around and between its tokens, and nothing after it.
pub open spec fn parse_envelope_spec(s: Seq<u8>) -> Option<EnvelopeView> {
    let i0 = ws_end(s, 0);
    if !(i0 < s.len() && s[i0] == 123) {
        None
    } else {
        match named_num_at(s, ws_end(s, i0 + 1), key_v()) {
            None => None,
            Some((n, a)) => if n > u32::MAX {
                None
            } else {
                let a1 = ws_end(s, a);
                if !(a1 < s.len() && s[a1] == 44) {
                    None
                } else {
                    match named_str_at(s, ws_end(s, a1 + 1), key_nonce()) {
                        None => None,
                        Some((nv, b)) => {
                            let b1 = ws_end(s, b);
                            if !(b1 < s.len() && s[b1] == 44) {
                                None
                            } else {
                                match named_str_at(s, ws_end(s, b1 + 1), key_ct()) {
                                    None => None,
                                    Some((cv, c)) => parse_closing(s, c, n, nv, cv),
                                }
                            }
                        },
                    }
                }
            },
        }
    }
}

/// What may follow the `ct_b64` member: either the closing brace, or the
/// optional `hmac_b64` member and then the closing brace.
pub open spec fn parse_closing(s: Seq<u8>, c: int, n: nat, nv: Seq<u8>, cv: Seq<u8>) -> Option<
    EnvelopeView,
> {
    let c1 = ws_end(s, c);
    if c1 < s.len() && s[c1] == 125 {
        if ws_end(s, c1 + 1) == s.len() {
            Some(EnvelopeView { v: n, nonce_b64: nv, ct_b64: cv, hmac_b64: None })
        } else {
            None
        }
    } else if c1 < s.len() && s[c1] == 44 {
        match named_opt_at(s, ws_end(s, c1 + 1), key_hmac()) {
            None => None,
            Some((hv, d)) => {
                let d1 = ws_end(s, d);
                if d1 < s.len() && s[d1] == 125 && ws_end(s, d1 + 1) == s.len() {
                    Some(EnvelopeView { v: n, nonce_b64: nv, ct_b64: cv, hmac_b64: hv })
                } else {
                    None
                }
            },
        }
    } else {
        None
    }
}

// --- The writer. ---

/// Serialize an envelope into the bytes of its file form: compact for the
/// local data file, pretty-printed for backups.
pub fn serialize_envelope(env: &Envelope, pretty: bool) -> (r: Vec<u8>)
    requires
        env@.v == SUPPORTED_VERSION,
    ensures
        r@ == json_of(env@, pretty),
{
    let mut out: Vec<u8> = Vec::new();
    if pretty {
        let head: [u8; 28] = [123u8, 10, 32, 32, 34, 118, 34, 58, 32, 49, 44, 10, 32, 32, 34, 110,
            111, 110, 99, 101, 95, 98, 54, 52, 34, 58, 32, 34];
        let ct_sep: [u8; 16] = [34u8, 44, 10, 32, 32, 34, 99, 116, 95, 98, 54, 52, 34, 58, 32, 34];
        proof {
            assert(head@ =~= pretty_head());
            assert(ct_sep@ =~= pretty_ct_sep());
        }
        append_bytes(&mut out, head.as_slice());
        append_bytes(&mut out, env.nonce_b64.as_slice());
        append_bytes(&mut out, ct_sep.as_slice());
        append_bytes(&mut out, env.ct_b64.as_slice());
        match &env.hmac_b64 {
            Some(h) => {
                let hmac_sep: [u8; 18] = [34u8, 44, 10, 32, 32, 34, 104, 109, 97, 99, 95, 98, 54,
                    52, 34, 58, 32, 34];
                let tail: [u8; 3] = [34u8, 10, 125];
                proof {
                    assert(hmac_sep@ =~= pretty_hmac_sep());
                    assert(tail@ =~= pretty_tail());
                }
                append_bytes(&mut out, hmac_sep.as_slice());
                append_bytes(&mut out, h.as_slice());
                append_bytes(&mut out, tail.as_slice());
            },
            None => {
                let null_tail: [u8; 23] = [34u8, 44, 10, 32, 32, 34, 104, 109, 97, 99, 95, 98, 54,
                    52, 34, 58, 32, 110, 117, 108, 108, 10, 125];
                proof {
                    assert(null_tail@ =~= pretty_hmac_null_tail());
                }
                append_bytes(&mut out, null_tail.as_slice());
            },
        }
    } else {
        let head: [u8; 20] = [123u8, 34, 118, 34, 58, 49, 44, 34, 110, 111, 110, 99, 101, 95, 98,
            54, 52, 34, 58, 34];
        let ct_sep: [u8; 12] = [34u8, 44, 34, 99, 116, 95, 98, 54, 52, 34, 58, 34];
        proof {
            assert(head@ =~= compact_head());
            assert(ct_sep@ =~= compact_ct_sep());
        }
        append_bytes(&mut out, head.as_slice());
        append_bytes(&mut out, env.nonce_b64.as_slice());
        append_bytes(&mut out, ct_sep.as_slice());
        append_bytes(&mut out, env.ct_b64.as_slice());
        match &env.hmac_b64 {
            Some(h) => {
                let hmac_sep: [u8; 14] = [34u8, 44, 34, 104, 109, 97, 99, 95, 98, 54, 52, 34, 58,
                    34];
                let tail: [u8; 2] = [34u8, 125];
                proof {
                    assert(hmac_sep@ =~= compact_hmac_sep());
                    assert(tail@ =~= compact_tail());
                }
                append_bytes(&mut out, hmac_sep.as_slice());
                append_bytes(&mut out, h.as_slice());
                append_bytes(&mut out, tail.as_slice());
            },
            None => {
                let null_tail: [u8; 18] = [34u8, 44, 34, 104, 109, 97, 99, 95, 98, 54, 52, 34, 58,
                    110, 117, 108, 108, 125];
                proof {
                    assert(null_tail@ =~= compact_hmac_null_tail());
                }
                append_bytes(&mut out, null_tail.as_slice());
            },
        }
    }
    proof {
        assert(out@ =~= json_of(env@, pretty));
    }
    out
}


// --- The reader. ---

fn is_ws_byte(c: u8) -> (r: bool)
    ensures
        r == is_ws(c),
{
    c == 32 || c == 9 || c == 10 || c == 13
}

fn is_content_byte(c: u8) -> (r: bool)
    ensures
        r == is_content(c),
{
    c != 34 && c != 92 && c >= 32
}

/// Advance past whitespace.
fn skip_ws(s: &[u8], i: usize) -> (j: usize)
    requires
        i <= s@.len(),
    ensures
        i <= j <= s@.len(),
        j == ws_end(s@, i as int),
{
    let mut k = i;
    while k < s.len() && is_ws_byte(s[k])
        invariant
            i <= k <= s@.len(),
            ws_end(s@, i as int) == ws_end(s@, k as int),
        decreases s@.len() - k,
    {
        proof {
            assert(ws_end(s@, k as int) == ws_end(s@, k as int + 1));
        }
        k = k + 1;
    }
    k
}

/// Read a string token.
fn parse_str(s: &[u8], i: usize) -> (r: Option<(Vec<u8>, usize)>)
    requires
        i <= s@.len(),
    ensures
        r is None ==> parse_str_at(s@, i as int) is None,
        r matches Some((v, j)) ==> parse_str_at(s@, i as int) == Some((v@, j as int)) && i < j
            <= s@.len(),
{
    if !(i < s.len() && s[i] == 34) {
        return None;
    }
    let mut k = i + 1;
    while k < s.len() && is_content_byte(s[k])
        invariant
            i + 1 <= k <= s@.len(),
            content_end(s@, i as int + 1) == content_end(s@, k as int),
        decreases s@.len() - k,
    {
        proof {
            assert(content_end(s@, k as int) == content_end(s@, k as int + 1));
        }
        k = k + 1;
    }
    if !(k < s.len() && s[k] == 34) {
        return None;
    }
    let body = copy_range(s, i + 1, k);
    Some((body, k + 1))
}

/// Read a nonempty digit run. The value is exact up to `u32::MAX`; any
/// larger run is reported as `u32::MAX as u64 + 1`, still distinguishing
/// "too large" from every representable value.
fn parse_num(s: &[u8], i: usize) -> (r: Option<(u64, usize)>)
    requires
        i <= s@.len(),
    ensures
        r is None ==> parse_num_at(s@, i as int) is None,
        r matches Some((n, j)) ==> {
            &&& parse_num_at(s@, i as int) matches Some((nv, jj))
            &&& jj == j as int
            &&& i < j <= s@.len()
            &&& n <= u32::MAX as u64 ==> nv == n as nat
            &&& n > u32::MAX as u64 ==> nv > u32::MAX
        },
{
    let mut k = i;
    let mut val: u64 = 0;
    while k < s.len() && 48 <= s[k] && s[k] <= 57
        invariant
            i <= k <= s@.len(),
            digits_end(s@, i as int) == digits_end(s@, k as int),
            forall|t: int| i <= t < k ==> is_digit(s@[t]),
            val <= u32::MAX as u64 ==> digits_val(s@, i as int, k as int) == val as nat,
            val > u32::MAX as u64 ==> digits_val(s@, i as int, k as int) > u32::MAX && val
                == u32::MAX as u64 + 1,
        decreases s@.len() - k,
    {
        proof {
            assert(digits_end(s@, k as int) == digits_end(s@, k as int + 1));
            assert(digits_val(s@, i as int, k as int + 1) == digits_val(s@, i as int, k as int)
                * 10 + (s@[k as int] - 48) as nat);
            if val > u32::MAX as u64 {
                assert(digits_val(s@, i as int, k as int) * 10 >= digits_val(
                    s@,
                    i as int,
                    k as int,
                )) by (nonlinear_arith);
            }
        }
        let d: u64 = (s[k] - 48) as u64;
        let next: u64 = val * 10 + d;
        if next > u32::MAX as u64 {
            val = u32::MAX as u64 + 1;
        } else {
            val = next;
        }
        k = k + 1;
    }
    if k == i {
        return None;
    }
    Some((val, k))
}

/// Read a member with the given key and a string value.
fn named_str(s: &[u8], i: usize, key: &[u8]) -> (r: Option<(Vec<u8>, usize)>)
    requires
        i <= s@.len(),
    ensures
        r is None ==> named_str_at(s@, i as int, key@) is None,
        r matches Some((v, j)) ==> named_str_at(s@, i as int, key@) == Some((v@, j as int)) && i
            < j <= s@.len(),
{
    let (k, i2) = match parse_str(s, i) {
        Some(p) => p,
        None => {
            return None;
        },
    };
    if !bytes_eq(k.as_slice(), key) {
        return None;
    }
    let i3 = skip_ws(s, i2);
    if !(i3 < s.len() && s[i3] == 58) {
        return None;
    }
    let i4 = skip_ws(s, i3 + 1);
    parse_str(s, i4)
}

/// Read a member with the given key and a number value.
fn named_num(s: &[u8], i: usize, key: &[u8]) -> (r: Option<(u64, usize)>)
    requires
        i <= s@.len(),
    ensures
        r is None ==> named_num_at(s@, i as int, key@) is None,
        r matches Some((n, j)) ==> {
            &&& named_num_at(s@, i as int, key@) matches Some((nv, jj))
            &&& jj == j as int
            &&& i < j <= s@.len()
            &&& n <= u32::MAX as u64 ==> nv == n as nat
            &&& n > u32::MAX as u64 ==> nv > u32::MAX
        },
{
    let (k, i2) = match parse_str(s, i) {
        Some(p) => p,
        None => {
            return None;
        },
    };
    if !bytes_eq(k.as_slice(), key) {
        return None;
    }
    let i3 = skip_ws(s, i2);
    if !(i3 < s.len() && s[i3] == 58) {
        return None;
    }
    let i4 = skip_ws(s, i3 + 1);
    parse_num(s, i4)
}

/// Read a member with the given key and a string-or-`null` value.
fn named_opt(s: &[u8], i: usize, key: &[u8]) -> (r: Option<(Option<Vec<u8>>, usize)>)
    requires
        i <= s@.len(),
    ensures
        r is None ==> named_opt_at(s@, i as int, key@) is None,
        r matches Some((v, j)) ==> {
            &&& i < j <= s@.len()
            &&& named_opt_at(s@, i as int, key@) matches Some((vv, jj))
            &&& jj == j as int
            &&& (v matches Some(b) ==> vv == Some(b@))
            &&& (v is None ==> vv is None)
        },
{
    let (k, i2) = match parse_str(s, i) {
        Some(p) => p,
        None => {
            return None;
        },
    };
    if !bytes_eq(k.as_slice(), key) {
        return None;
    }
    let i3 = skip_ws(s, i2);
    if !(i3 < s.len() && s[i3] == 58) {
        return None;
    }
    let i4 = skip_ws(s, i3 + 1);
    if s.len() >= 4 && i4 <= s.len() - 4 && s[i4] == 110 && s[i4 + 1] == 117 && s[i4 + 2] == 108
        && s[i4 + 3] == 108 {
        return Some((None, i4 + 4));
    }
    proof {
        assert(!null_at(s@, i4 as int));
    }
    match parse_str(s, i4) {
        Some((v, j)) => Some((Some(v), j)),
        None => None,
    }
}

/// Parse the bytes of an envelope file. Succeeds exactly on the documents
/// of the reader's grammar; everything else is `Codec`.
pub fn parse_envelope(s: &[u8]) -> (r: Result<Envelope, StoreError>)
    ensures
        r matches Ok(env) ==> parse_envelope_spec(s@) == Some(env@),
        r is Err ==> parse_envelope_spec(s@) is None && r->Err_0 == StoreError::Codec,
{
    let key_v_lit: [u8; 1] = [118u8];
    let key_nonce_lit: [u8; 9] = [110u8, 111, 110, 99, 101, 95, 98, 54, 52];
    let key_ct_lit: [u8; 6] = [99u8, 116, 95, 98, 54, 52];
    let key_hmac_lit: [u8; 8] = [104u8, 109, 97, 99, 95, 98, 54, 52];
    proof {
        assert(key_v_lit@ =~= key_v());
        assert(key_nonce_lit@ =~= key_nonce());
        assert(key_ct_lit@ =~= key_ct());
        assert(key_hmac_lit@ =~= key_hmac());
    }
    let i0 = skip_ws(s, 0);
    if !(i0 < s.len() && s[i0] == 123) {
        return Err(StoreError::Codec);
    }
    let w1 = skip_ws(s, i0 + 1);
    let (n, a) = match named_num(s, w1, key_v_lit.as_slice()) {
        Some(p) => p,
        None => {
            return Err(StoreError::Codec);
        },
    };
    if n > u32::MAX as u64 {
        return Err(StoreError::Codec);
    }
    let a1 = skip_ws(s, a);
    if !(a1 < s.len() && s[a1] == 44) {
        return Err(StoreError::Codec);
    }
    let w2 = skip_ws(s, a1 + 1);
    let (nv, b) = match named_str(s, w2, key_nonce_lit.as_slice()) {
        Some(p) => p,
        None => {
            return Err(StoreError::Codec);
        },
    };
    let b1 = skip_ws(s, b);
    if !(b1 < s.len() && s[b1] == 44) {
        return Err(StoreError::Codec);
    }
    let w3 = skip_ws(s, b1 + 1);
    let (cv, c) = match named_str(s, w3, key_ct_lit.as_slice()) {
        Some(p) => p,
        None => {
            return Err(StoreError::Codec);
        },
    };
    let c1 = skip_ws(s, c);
    if c1 < s.len() && s[c1] == 125 {
        if skip_ws(s, c1 + 1) == s.len() {
            let env = Envelope { v: n as u32, nonce_b64: nv, ct_b64: cv, hmac_b64: None };
            return Ok(env);
        }
        return Err(StoreError::Codec);
    }
    if !(c1 < s.len() && s[c1] == 44) {
        return Err(StoreError::Codec);
    }
    let w4 = skip_ws(s, c1 + 1);
    let (hv, d) = match named_opt(s, w4, key_hmac_lit.as_slice()) {
        Some(p) => p,
        None => {
            return Err(StoreError::Codec);
        },
    };
    let d1 = skip_ws(s, d);
    if d1 < s.len() && s[d1] == 125 && skip_ws(s, d1 + 1) == s.len() {
        let env = Envelope { v: n as u32, nonce_b64: nv, ct_b64: cv, hmac_b64: hv };
        return Ok(env);
    }
    Err(StoreError::Codec)
}


// --- The writer's output parses back to the same envelope. ---

/// A whitespace scan stops exactly at `j` when everything before `j` (from
/// `i`) is whitespace and `j` is the end or holds something else.
proof fn lemma_ws_end_run(s: Seq<u8>, i: int, j: int)
    requires
        0 <= i <= j <= s.len(),
        forall|k: int| i <= k < j ==> is_ws(#[trigger] s[k]),
        j == s.len() || !is_ws(s[j]),
    ensures
        ws_end(s, i) == j,
    decreases j - i,
{
    if i < j {
        lemma_ws_end_run(s, i + 1, j);
    }
}

/// A string-body scan stops exactly at `j` when everything before `j`
/// (from `i`) is content and `j` is the end or holds something else.
proof fn lemma_content_end_run(s: Seq<u8>, i: int, j: int)
    requires
        0 <= i <= j <= s.len(),
        forall|k: int| i <= k < j ==> is_content(#[trigger] s[k]),
        j == s.len() || !is_content(s[j]),
    ensures
        content_end(s, i) == j,
    decreases j - i,
{
    if i < j {
        lemma_content_end_run(s, i + 1, j);
    }
}

/// Parsing the compact form the store writes for the local data file
/// (no signature) yields the envelope back.
#[verifier::rlimit(100)]
pub proof fn lemma_parse_local_json(e: EnvelopeView)
    requires
        e.v == SUPPORTED_VERSION,
        e.hmac_b64 is None,
        forall|k: int| 0 <= k < e.nonce_b64.len() ==> is_content(#[trigger] e.nonce_b64[k]),
        forall|k: int| 0 <= k < e.ct_b64.len() ==> is_content(#[trigger] e.ct_b64[k]),
    ensures
        parse_envelope_spec(json_of(e, false)) == Some(e),
{
    let s = json_of(e, false);
    let nl = e.nonce_b64.len() as int;
    let cl = e.ct_b64.len() as int;
    assert(s == compact_head() + e.nonce_b64 + compact_ct_sep() + e.ct_b64
        + compact_hmac_null_tail());
    assert(s.len() == 50 + nl + cl);

    // `{"v":`
    lemma_ws_end_run(s, 0, 0);
    lemma_ws_end_run(s, 1, 1);
    lemma_content_end_run(s, 2, 3);
    assert(s.subrange(2, 3) =~= key_v());
    assert(parse_str_at(s, 1) == Some((key_v(), 4int)));
    lemma_ws_end_run(s, 4, 4);
    lemma_ws_end_run(s, 5, 5);
    assert(digits_end(s, 6) == 6);
    assert(digits_end(s, 5) == 6);
    assert(digits_val(s, 5, 5) == 0);
    assert(digits_val(s, 5, 6) == 1);
    assert(parse_num_at(s, 5) == Some((1nat, 6int)));
    assert(named_num_at(s, 1, key_v()) == Some((1nat, 6int)));

    // `,"nonce_b64":"` and the nonce text
    lemma_ws_end_run(s, 6, 6);
    lemma_ws_end_run(s, 7, 7);
    lemma_content_end_run(s, 8, 17);
    assert(s.subrange(8, 17) =~= key_nonce());
    assert(parse_str_at(s, 7) == Some((key_nonce(), 18int)));
    lemma_ws_end_run(s, 18, 18);
    lemma_ws_end_run(s, 19, 19);
    assert(forall|k: int| 20 <= k < 20 + nl ==> is_content(#[trigger] s[k])) by {
        assert forall|k: int| 20 <= k < 20 + nl implies is_content(#[trigger] s[k]) by {
            assert(s[k] == e.nonce_b64[k - 20]);
        }
    }
    assert(s[20 + nl] == 34);
    lemma_content_end_run(s, 20, 20 + nl);
    assert(s.subrange(20, 20 + nl) =~= e.nonce_b64);
    assert(parse_str_at(s, 19) == Some((e.nonce_b64, 21 + nl)));
    assert(named_str_at(s, 7, key_nonce()) == Some((e.nonce_b64, 21 + nl)));

    // `,"ct_b64":"` and the ciphertext text
    assert(s[21 + nl] == 44);
    lemma_ws_end_run(s, 21 + nl, 21 + nl);
    assert(s[22 + nl] == 34);
    lemma_ws_end_run(s, 22 + nl, 22 + nl);
    assert(forall|k: int| 23 + nl <= k < 29 + nl ==> is_content(#[trigger] s[k])) by {
        assert forall|k: int| 23 + nl <= k < 29 + nl implies is_content(#[trigger] s[k]) by {
            assert(s[k] == compact_ct_sep()[k - 20 - nl]);
        }
    }
    assert(s[29 + nl] == 34);
    lemma_content_end_run(s, 23 + nl, 29 + nl);
    assert(s.subrange(23 + nl, 29 + nl) =~= key_ct());
    assert(parse_str_at(s, 22 + nl) == Some((key_ct(), 30 + nl)));
    assert(s[30 + nl] == 58);
    lemma_ws_end_run(s, 30 + nl, 30 + nl);
    assert(s[31 + nl] == 34);
    lemma_ws_end_run(s, 31 + nl, 31 + nl);
    assert(forall|k: int| 32 + nl <= k < 32 + nl + cl ==> is_content(#[trigger] s[k])) by {
        assert forall|k: int| 32 + nl <= k < 32 + nl + cl implies is_content(
            #[trigger] s[k],
        ) by {
            assert(s[k] == e.ct_b64[k - 32 - nl]);
        }
    }
    assert(s[32 + nl + cl] == 34);
    lemma_content_end_run(s, 32 + nl, 32 + nl + cl);
    assert(s.subrange(32 + nl, 32 + nl + cl) =~= e.ct_b64);
    assert(parse_str_at(s, 31 + nl) == Some((e.ct_b64, 33 + nl + cl)));
    assert(named_str_at(s, 22 + nl, key_ct()) == Some((e.ct_b64, 33 + nl + cl)));

    // `,"hmac_b64":null}`
    assert(s[33 + nl + cl] == 44);
    lemma_ws_end_run(s, 33 + nl + cl, 33 + nl + cl);
    assert(s[34 + nl + cl] == 34);
    lemma_ws_end_run(s, 34 + nl + cl, 34 + nl + cl);
    assert(forall|k: int| 35 + nl + cl <= k < 43 + nl + cl ==> is_content(#[trigger] s[k])) by {
        assert forall|k: int| 35 + nl + cl <= k < 43 + nl + cl implies is_content(
            #[trigger] s[k],
        ) by {
            assert(s[k] == compact_hmac_null_tail()[k - 32 - nl - cl]);
        }
    }
    assert(s[43 + nl + cl] == 34);
    lemma_content_end_run(s, 35 + nl + cl, 43 + nl + cl);
    assert(s.subrange(35 + nl + cl, 43 + nl + cl) =~= key_hmac());
    assert(parse_str_at(s, 34 + nl + cl) == Some((key_hmac(), 44 + nl + cl)));
    assert(s[44 + nl + cl] == 58);
    lemma_ws_end_run(s, 44 + nl + cl, 44 + nl + cl);
    assert(s[45 + nl + cl] == 110);
    lemma_ws_end_run(s, 45 + nl + cl, 45 + nl + cl);
    assert(s[46 + nl + cl] == 117);
    assert(s[47 + nl + cl] == 108);
    assert(s[48 + nl + cl] == 108);
    assert(null_at(s, 45 + nl + cl));
    assert(named_opt_at(s, 34 + nl + cl, key_hmac()) == Some((
        None::<Seq<u8>>,
        49 + nl + cl,
    )));
    assert(s[49 + nl + cl] == 125);
    lemma_ws_end_run(s, 49 + nl + cl, 49 + nl + cl);
    lemma_ws_end_run(s, 50 + nl + cl, 50 + nl + cl);

    assert(parse_closing(s, 33 + nl + cl, 1nat, e.nonce_b64, e.ct_b64) == Some(
        EnvelopeView { v: 1nat, nonce_b64: e.nonce_b64, ct_b64: e.ct_b64, hmac_b64: None },
    ));
    assert(parse_envelope_spec(s) == Some(e));
}


/// Parsing the pretty-printed form the store writes for a backup file
/// (with its signature) yields the envelope back.
#[verifier::rlimit(100)]
pub proof fn lemma_parse_backup_json(e: EnvelopeView)
    requires
        e.v == SUPPORTED_VERSION,
        e.hmac_b64 is Some,
        forall|k: int| 0 <= k < e.nonce_b64.len() ==> is_content(#[trigger] e.nonce_b64[k]),
        forall|k: int| 0 <= k < e.ct_b64.len() ==> is_content(#[trigger] e.ct_b64[k]),
        forall|k: int|
            0 <= k < e.hmac_b64->0.len() ==> is_content(#[trigger] e.hmac_b64->0[k]),
    ensures
        parse_envelope_spec(json_of(e, true)) == Some(e),
{
    let s = json_of(e, true);
    let h = e.hmac_b64->0;
    let nl = e.nonce_b64.len() as int;
    let cl = e.ct_b64.len() as int;
    let hl = h.len() as int;
    assert(s == pretty_head() + e.nonce_b64 + pretty_ct_sep() + e.ct_b64 + pretty_hmac_sep() + h
        + pretty_tail());
    assert(s.len() == 65 + nl + cl + hl);

    // `{\n  "v": 1,`
    lemma_ws_end_run(s, 0, 0);
    lemma_ws_end_run(s, 1, 4);
    lemma_content_end_run(s, 5, 6);
    assert(s.subrange(5, 6) =~= key_v());
    assert(parse_str_at(s, 4) == Some((key_v(), 7int)));
    lemma_ws_end_run(s, 7, 7);
    lemma_ws_end_run(s, 8, 9);
    assert(digits_end(s, 10) == 10);
    assert(digits_end(s, 9) == 10);
    assert(digits_val(s, 9, 9) == 0);
    assert(digits_val(s, 9, 10) == 1);
    assert(parse_num_at(s, 9) == Some((1nat, 10int)));
    assert(named_num_at(s, 4, key_v()) == Some((1nat, 10int)));

    // `\n  "nonce_b64": "` and the nonce text
    lemma_ws_end_run(s, 10, 10);
    lemma_ws_end_run(s, 11, 14);
    assert(forall|k: int| 15 <= k < 24 ==> is_content(#[trigger] s[k])) by {
        assert forall|k: int| 15 <= k < 24 implies is_content(#[trigger] s[k]) by {
            assert(s[k] == pretty_head()[k]);
        }
    }
    assert(s[24] == 34);
    lemma_content_end_run(s, 15, 24);
    assert(s.subrange(15, 24) =~= key_nonce());
    assert(parse_str_at(s, 14) == Some((key_nonce(), 25int)));
    lemma_ws_end_run(s, 25, 25);
    lemma_ws_end_run(s, 26, 27);
    assert(forall|k: int| 28 <= k < 28 + nl ==> is_content(#[trigger] s[k])) by {
        assert forall|k: int| 28 <= k < 28 + nl implies is_content(#[trigger] s[k]) by {
            assert(s[k] == e.nonce_b64[k - 28]);
        }
    }
    assert(s[28 + nl] == 34);
    lemma_content_end_run(s, 28, 28 + nl);
    assert(s.subrange(28, 28 + nl) =~= e.nonce_b64);
    assert(parse_str_at(s, 27) == Some((e.nonce_b64, 29 + nl)));
    assert(named_str_at(s, 14, key_nonce()) == Some((e.nonce_b64, 29 + nl)));

    // `,\n  "ct_b64": "` and the ciphertext text
    assert(s[29 + nl] == 44);
    lemma_ws_end_run(s, 29 + nl, 29 + nl);
    lemma_ws_end_run(s, 30 + nl, 33 + nl);
    assert(forall|k: int| 34 + nl <= k < 40 + nl ==> is_content(#[trigger] s[k])) by {
        assert forall|k: int| 34 + nl <= k < 40 + nl implies is_content(#[trigger] s[k]) by {
            assert(s[k] == pretty_ct_sep()[k - 28 - nl]);
        }
    }
    assert(s[40 + nl] == 34);
    lemma_content_end_run(s, 34 + nl, 40 + nl);
    assert(s.subrange(34 + nl, 40 + nl) =~= key_ct());
    assert(parse_str_at(s, 33 + nl) == Some((key_ct(), 41 + nl)));
    assert(s[41 + nl] == 58);
    lemma_ws_end_run(s, 41 + nl, 41 + nl);
    lemma_ws_end_run(s, 42 + nl, 43 + nl);
    assert(forall|k: int| 44 + nl <= k < 44 + nl + cl ==> is_content(#[trigger] s[k])) by {
        assert forall|k: int| 44 + nl <= k < 44 + nl + cl implies is_content(
            #[trigger] s[k],
        ) by {
            assert(s[k] == e.ct_b64[k - 44 - nl]);
        }
    }
    assert(s[44 + nl + cl] == 34);
    lemma_content_end_run(s, 44 + nl, 44 + nl + cl);
    assert(s.subrange(44 + nl, 44 + nl + cl) =~= e.ct_b64);
    assert(parse_str_at(s, 43 + nl) == Some((e.ct_b64, 45 + nl + cl)));
    assert(named_str_at(s, 33 + nl, key_ct()) == Some((e.ct_b64, 45 + nl + cl)));

    // `,\n  "hmac_b64": "` and the signature text
    assert(s[45 + nl + cl] == 44);
    lemma_ws_end_run(s, 45 + nl + cl, 45 + nl + cl);
    lemma_ws_end_run(s, 46 + nl + cl, 49 + nl + cl);
    assert(forall|k: int| 50 + nl + cl <= k < 58 + nl + cl ==> is_content(#[trigger] s[k])) by {
        assert forall|k: int| 50 + nl + cl <= k < 58 + nl + cl implies is_content(
            #[trigger] s[k],
        ) by {
            assert(s[k] == pretty_hmac_sep()[k - 44 - nl - cl]);
        }
    }
    assert(s[58 + nl + cl] == 34);
    lemma_content_end_run(s, 50 + nl + cl, 58 + nl + cl);
    assert(s.subrange(50 + nl + cl, 58 + nl + cl) =~= key_hmac());
    assert(parse_str_at(s, 49 + nl + cl) == Some((key_hmac(), 59 + nl + cl)));
    assert(s[59 + nl + cl] == 58);
    lemma_ws_end_run(s, 59 + nl + cl, 59 + nl + cl);
    lemma_ws_end_run(s, 60 + nl + cl, 61 + nl + cl);
    assert(s[61 + nl + cl] == 34);
    assert(!null_at(s, 61 + nl + cl));
    assert(forall|k: int| 62 + nl + cl <= k < 62 + nl + cl + hl ==> is_content(
        #[trigger] s[k],
    )) by {
        assert forall|k: int| 62 + nl + cl <= k < 62 + nl + cl + hl implies is_content(
            #[trigger] s[k],
        ) by {
            assert(s[k] == h[k - 62 - nl - cl]);
        }
    }
    assert(s[62 + nl + cl + hl] == 34);
    lemma_content_end_run(s, 62 + nl + cl, 62 + nl + cl + hl);
    assert(s.subrange(62 + nl + cl, 62 + nl + cl + hl) =~= h);
    assert(parse_str_at(s, 61 + nl + cl) == Some((h, 63 + nl + cl + hl)));
    assert(named_opt_at(s, 49 + nl + cl, key_hmac()) == Some((Some(h), 63 + nl + cl + hl)));

    // `\n}` and the end of the document
    assert(s[63 + nl + cl + hl] == 10);
    assert(s[64 + nl + cl + hl] == 125);
    lemma_ws_end_run(s, 63 + nl + cl + hl, 64 + nl + cl + hl);
    lemma_ws_end_run(s, 65 + nl + cl + hl, 65 + nl + cl + hl);
    assert(parse_closing(s, 45 + nl + cl, 1nat, e.nonce_b64, e.ct_b64) == Some(
        EnvelopeView { v: 1nat, nonce_b64: e.nonce_b64, ct_b64: e.ct_b64, hmac_b64: Some(h) },
    ));
    assert(parse_envelope_spec(s) == Some(e));
}

} // verus!
