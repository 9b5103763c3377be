//! Stripe Checkout: the form parameters of a new session, the fields read from a session
//! object, and webhook signatures (`Stripe-Signature: t=...,v1=...`).

use hmac::Mac;
use vstd::prelude::*;
use vstd::string::StrSliceExecFns;
use vstd::string::StringExecFns;
use vstd::utf8::encode_utf8;

use crate::text::{
    chars_eq, chars_of, concat2, decimal, i64_decimal, is_digit, is_white_space, lemma_decimal_digits,
    lemma_parse_signed_decimal, lemma_split_nonempty, parse_i64, parse_i64_spec, signed_decimal,
    split_chars, split_spec, string_of, trim_chars, trim_end_spec, trim_spec, trim_start_spec,
    views_of,
};

verus! {

// ---------------------------------------------------------------------------------------------
// Hex (the `hex` crate)
// ---------------------------------------------------------------------------------------------

pub open spec fn is_hex_digit(c: char) -> bool {
    ('0' <= c && c <= '9') || ('a' <= c && c <= 'f') || ('A' <= c && c <= 'F')
}

pub open spec fn hex_digit_value(c: char) -> int {
    if '0' <= c && c <= '9' {
        c as int - '0' as int
    } else if 'a' <= c && c <= 'f' {
        c as int - 'a' as int + 10
    } else {
        c as int - 'A' as int + 10
    }
}

/// What `hex::decode` gives for a string: an even number of hex digits, two per byte,
/// high nibble first; anything else is an error.
pub open spec fn hex_decoded(s: Seq<char>) -> Option<Seq<u8>> {
    if s.len() % 2 == 0 && (forall|i: int| 0 <= i < s.len() ==> #[trigger] is_hex_digit(s[i])) {
        Some(
            Seq::new(
                (s.len() / 2) as nat,
                |i: int| (16 * hex_digit_value(s[2 * i]) + hex_digit_value(s[2 * i + 1])) as u8,
            ),
        )
    } else {
        None
    }
}

/// The lowercase hex digit of a nibble.
pub open spec fn hex_lower(d: int) -> char {
    if d < 10 {
        (('0' as int) + d) as char
    } else {
        (('a' as int) + d - 10) as char
    }
}

/// What `hex::encode` gives for bytes: two lowercase hex digits per byte, high nibble first.
pub open spec fn hex_encoded(b: Seq<u8>) -> Seq<char> {
    Seq::new(
        2 * b.len(),
        |i: int|
            if i % 2 == 0 {
                hex_lower(b[i / 2] as int / 16)
            } else {
                hex_lower(b[i / 2] as int % 16)
            },
    )
}

/// `hex::decode`. Trusted: `Ok` exactly for an even number of hex digits (either case),
/// decoded two digits per byte, as the crate's `FromHex for Vec<u8>` does.
#[verifier::external_body]
fn hex_decode(s: &str) -> (r: Option<Vec<u8>>)
    ensures
        match r {
            Some(b) => hex_decoded(s@) == Some(b@),
            None => hex_decoded(s@) is None,
        },
{
    match hex::decode(s) {
        Ok(b) => Some(b),
        Err(_) => None,
    }
}

/// `hex::encode`. Trusted: two lowercase hex digits per byte, high nibble first.
#[verifier::external_body]
fn hex_encode(b: &[u8]) -> (r: String)
    ensures
        r@ == hex_encoded(b@),
{
    hex::encode(b)
}

proof fn lemma_hex_lower(d: int)
    requires
        0 <= d < 16,
    ensures
        is_hex_digit(hex_lower(d)),
        hex_digit_value(hex_lower(d)) == d,
        !is_white_space(hex_lower(d)),
        hex_lower(d) != ',',
        hex_lower(d) != '=',
{
    if d < 10 {
        assert((('0' as int) + d) as char as int == ('0' as int) + d);
    } else {
        assert((('a' as int) + d - 10) as char as int == ('a' as int) + d - 10);
    }
}

/// Decoding what `hex::encode` printed gives the bytes back.
pub proof fn lemma_hex_roundtrip(b: Seq<u8>)
    ensures
        hex_decoded(hex_encoded(b)) == Some(b),
{
    let s = hex_encoded(b);
    assert forall|i: int| 0 <= i < s.len() implies #[trigger] is_hex_digit(s[i]) by {
        lemma_hex_lower(b[i / 2] as int / 16);
        lemma_hex_lower(b[i / 2] as int % 16);
    }
    assert(s.len() % 2 == 0);
    let d = Seq::new(
        (s.len() / 2) as nat,
        |i: int| (16 * hex_digit_value(s[2 * i]) + hex_digit_value(s[2 * i + 1])) as u8,
    );
    assert forall|i: int| 0 <= i < b.len() implies d[i] == b[i] by {
        let x = b[i] as int;
        lemma_hex_lower(x / 16);
        lemma_hex_lower(x % 16);
        assert((2 * i) / 2 == i);
        assert((2 * i + 1) / 2 == i);
        assert((2 * i) % 2 == 0);
        assert((2 * i + 1) % 2 == 1);
        assert(16 * (x / 16) + x % 16 == x);
    }
    assert(d =~= b);
}

// ---------------------------------------------------------------------------------------------
// HMAC-SHA256 (the `hmac` and `sha2` crates)
// ---------------------------------------------------------------------------------------------

/// The HMAC-SHA256 tag of `msg` under `key`.
pub uninterp spec fn hmac_sha256(key: Seq<u8>, msg: Seq<u8>) -> Seq<u8>;

/// `Hmac::<Sha256>::new_from_slice(key)`, `update(msg)`, `finalize()`. Trusted: the tag is
/// named `hmac_sha256` of the key and message and is 32 bytes long; `new_from_slice` accepts
/// a key of any length.
#[verifier::external_body]
fn hmac_tag(key: &[u8], msg: &[u8]) -> (r: Vec<u8>)
    ensures
        r@ == hmac_sha256(key@, msg@),
        r@.len() == 32,
{
    let mut mac = hmac::Hmac::<sha2::Sha256>::new_from_slice(key).expect("HMAC accepts any key length");
    mac.update(msg);
    mac.finalize().into_bytes().to_vec()
}

/// `Mac::verify_slice` on an HMAC-SHA256 of `msg` under `key`. Trusted: `Ok` exactly when
/// `tag` equals the whole tag (compared in constant time by the crate).
#[verifier::external_body]
fn hmac_verify(key: &[u8], msg: &[u8], tag: &[u8]) -> (r: bool)
    ensures
        r == (tag@ == hmac_sha256(key@, msg@)),
{
    let mut mac = hmac::Hmac::<sha2::Sha256>::new_from_slice(key).expect("HMAC accepts any key length");
    mac.update(msg);
    mac.verify_slice(tag).is_ok()
}

// ---------------------------------------------------------------------------------------------
// The signature header
// ---------------------------------------------------------------------------------------------

/// `i` is the first index of `c` in `s`.
pub open spec fn is_first_at(s: Seq<char>, c: char, i: int) -> bool {
    &&& 0 <= i < s.len()
    &&& s[i] == c
    &&& forall|j: int| 0 <= j < i ==> s[j] != c
}

/// `str::split_once(c)`: the text before and after the first `c`.
pub open spec fn split_once_spec(s: Seq<char>, c: char) -> Option<(Seq<char>, Seq<char>)> {
    if exists|i: int| is_first_at(s, c, i) {
        let i = choose|i: int| is_first_at(s, c, i);
        Some((s.take(i), s.skip(i + 1)))
    } else {
        None
    }
}

proof fn lemma_split_once_at(s: Seq<char>, c: char, i: int)
    requires
        is_first_at(s, c, i),
    ensures
        split_once_spec(s, c) == Some((s.take(i), s.skip(i + 1))),
{
    let k = choose|k: int| is_first_at(s, c, k);
    assert(is_first_at(s, c, k));
    if k < i {
        assert(s[k] != c);
    }
    if i < k {
        assert(s[i] != c);
    }
}

/// One comma-separated part of the header, trimmed, updates the timestamp (`t=`, the last
/// one wins, an unparsable one clears it) or adds a signature (`v1=`, when it is hex).
pub open spec fn scan_part(acc: (Option<i64>, Seq<Seq<u8>>), part: Seq<char>) -> (
    Option<i64>,
    Seq<Seq<u8>>,
) {
    match split_once_spec(trim_spec(part), '=') {
        Some((k, v)) => if k == "t"@ {
            (parse_i64_spec(v), acc.1)
        } else if k == "v1"@ {
            match hex_decoded(v) {
                Some(b) => (acc.0, acc.1.push(b)),
                None => acc,
            }
        } else {
            acc
        },
        None => acc,
    }
}

pub open spec fn scan_parts(parts: Seq<Seq<char>>) -> (Option<i64>, Seq<Seq<u8>>)
    decreases parts.len(),
{
    if parts.len() == 0 {
        (None, Seq::<Seq<u8>>::empty())
    } else {
        scan_part(scan_parts(parts.drop_last()), parts.last())
    }
}

/// The timestamp and the `v1` signatures of a `Stripe-Signature` header.
pub open spec fn header_fields(header: Seq<char>) -> (Option<i64>, Seq<Seq<u8>>) {
    scan_parts(split_spec(header, ','))
}

pub open spec fn bytes_views(v: Seq<Vec<u8>>) -> Seq<Seq<u8>> {
    v.map_values(|x: Vec<u8>| x@)
}

/// What a `Stripe-Signature` header carries.
#[derive(Debug)]
pub struct SignatureHeader {
    pub timestamp: Option<i64>,
    pub signatures: Vec<Vec<u8>>,
}

fn chars_are(a: &Vec<char>, lit: &str) -> (r: bool)
    ensures
        r == (a@ == lit@),
{
    let b = chars_of(lit);
    chars_eq(a, &b)
}

/// Splits at the first `c`, if there is one.
fn split_once_chars(s: &Vec<char>, c: char) -> (r: Option<(Vec<char>, Vec<char>)>)
    ensures
        match r {
            Some(p) => split_once_spec(s@, c) == Some((p.0@, p.1@)),
            None => split_once_spec(s@, c) is None,
        },
{
    let mut i: usize = 0;
    while i < s.len()
        invariant
            i <= s.len(),
            forall|j: int| 0 <= j < i ==> s@[j] != c,
        decreases s.len() - i,
    {
        if s[i] == c {
            proof {
                lemma_split_once_at(s@, c, i as int);
            }
            let mut head: Vec<char> = Vec::new();
            let mut k: usize = 0;
            while k < i
                invariant
                    k <= i < s.len(),
                    head@ == s@.take(k as int),
                decreases i - k,
            {
                head.push(s[k]);
                k = k + 1;
                assert(head@ =~= s@.take(k as int));
            }
            let mut tail: Vec<char> = Vec::new();
            let mut k: usize = i + 1;
            while k < s.len()
                invariant
                    i < k <= s.len(),
                    tail@ == s@.subrange(i + 1, k as int),
                decreases s.len() - k,
            {
                tail.push(s[k]);
                k = k + 1;
                assert(tail@ =~= s@.subrange(i + 1, k as int));
            }
            assert(tail@ =~= s@.skip(i + 1));
            return Some((head, tail));
        }
        i = i + 1;
    }
    assert(!exists|k: int| is_first_at(s@, c, k));
    None
}

/// Reads the timestamp and the signatures out of a `Stripe-Signature` header.
pub fn parse_signature_header(header: &str) -> (r: SignatureHeader)
    ensures
        (r.timestamp, bytes_views(r.signatures@)) == header_fields(header@),
{
    let cs = chars_of(header);
    let parts = split_chars(&cs, ',');
    let mut timestamp: Option<i64> = None;
    let mut sigs: Vec<Vec<u8>> = Vec::new();
    let mut i: usize = 0;
    assert(views_of(parts@).take(0) =~= Seq::<Seq<char>>::empty());
    assert(bytes_views(sigs@) =~= Seq::<Seq<u8>>::empty());
    while i < parts.len()
        invariant
            i <= parts.len(),
            views_of(parts@) == split_spec(header@, ','),
            (timestamp, bytes_views(sigs@)) == scan_parts(views_of(parts@).take(i as int)),
        decreases parts.len() - i,
    {
        let ghost before = (timestamp, bytes_views(sigs@));
        let ghost vs = views_of(parts@);
        assert(vs.take(i + 1).drop_last() =~= vs.take(i as int));
        assert(vs.take(i + 1).last() == parts[i as int]@);
        let p = trim_chars(&parts[i]);
        match split_once_chars(&p, '=') {
            Some((k, v)) => {
                if chars_are(&k, "t") {
                    timestamp = parse_i64(&v);
                } else if chars_are(&k, "v1") {
                    let vs_str = string_of(&v);
                    match hex_decode(vs_str.as_str()) {
                        Some(b) => {
                            sigs.push(b);
                            assert(bytes_views(sigs@) =~= before.1.push(b@));
                        },
                        None => {},
                    }
                }
            },
            None => {},
        }
        i = i + 1;
    }
    assert(views_of(parts@).take(parts.len() as int) =~= views_of(parts@));
    SignatureHeader { timestamp, signatures: sigs }
}

// ---------------------------------------------------------------------------------------------
// Verifying and signing
// ---------------------------------------------------------------------------------------------

/// The signed text: the timestamp in decimal, a dot, and the raw body.
pub open spec fn signed_message(t: i64, payload: Seq<u8>) -> Seq<u8> {
    encode_utf8(signed_decimal(t as int)) + seq![46u8] + payload
}

/// The tag that a party holding `secret` computes over `payload` sent at time `t`.
pub open spec fn expected_tag(secret: Seq<char>, t: i64, payload: Seq<u8>) -> Seq<u8> {
    hmac_sha256(encode_utf8(secret), signed_message(t, payload))
}

pub open spec fn abs_diff(a: i64, b: i64) -> int {
    if a - b < 0 {
        b - a
    } else {
        a - b
    }
}

/// A header is accepted when it carries a timestamp within `tolerance` of `now` and at least
/// one `v1` signature equal to the expected tag.
pub open spec fn signature_valid(
    secret: Seq<char>,
    header: Seq<char>,
    payload: Seq<u8>,
    now: i64,
    tolerance: i64,
) -> bool {
    let (ts, sigs) = header_fields(header);
    match ts {
        None => false,
        Some(t) => abs_diff(now, t) <= tolerance && sigs.contains(expected_tag(secret, t, payload)),
    }
}

/// `now - t` of the header's timestamp fits in an `i64` and so does its absolute value.
pub open spec fn timestamp_fits(header: Seq<char>, now: i64) -> bool {
    match header_fields(header).0 {
        Some(t) => i64::MIN < now - t <= i64::MAX,
        None => true,
    }
}

/// Whether `verify_signature` can compare the header's timestamp with `now_unix` without
/// overflow.
pub fn signature_timestamp_fits(header: &str, now_unix: i64) -> (r: bool)
    ensures
        r == timestamp_fits(header@, now_unix),
{
    let parsed = parse_signature_header(header);
    match parsed.timestamp {
        Some(t) => {
            let d = now_unix as i128 - t as i128;
            d > i64::MIN as i128 && d <= i64::MAX as i128
        },
        None => true,
    }
}

fn append_bytes(out: &mut Vec<u8>, b: &[u8])
    ensures
        final(out)@ == old(out)@ + b@,
{
    let mut i: usize = 0;
    while i < b.len()
        invariant
            i <= b.len(),
            out@ == old(out)@ + b@.take(i as int),
        decreases b.len() - i,
    {
        out.push(b[i]);
        i = i + 1;
        assert(out@ =~= old(out)@ + b@.take(i as int));
    }
    assert(b@.take(b@.len() as int) =~= b@);
}

fn signed_message_bytes(t: i64, payload: &[u8]) -> (r: Vec<u8>)
    ensures
        r@ == signed_message(t, payload@),
{
    let digits = string_of(&i64_decimal(t));
    let mut out = digits.as_str().as_bytes_vec();
    out.push(46u8);
    append_bytes(&mut out, payload);
    out
}

/// Verifies a `Stripe-Signature` header (`t=...,v1=...`) over the raw body.
pub fn verify_signature(
    secret: &str,
    header: &str,
    payload: &[u8],
    now_unix: i64,
    tolerance_secs: i64,
) -> (ok: bool)
    requires
        timestamp_fits(header@, now_unix),
    ensures
        ok == signature_valid(secret@, header@, payload@, now_unix, tolerance_secs),
{
    let parsed = parse_signature_header(header);
    let t = match parsed.timestamp {
        Some(t) => t,
        None => return false,
    };
    let diff = now_unix - t;
    let dist = if diff < 0 {
        -diff
    } else {
        diff
    };
    if dist > tolerance_secs {
        return false;
    }
    let key = secret.as_bytes_vec();
    let msg = signed_message_bytes(t, payload);
    let ghost tag = expected_tag(secret@, t, payload@);
    let mut i: usize = 0;
    while i < parsed.signatures.len()
        invariant
            i <= parsed.signatures.len(),
            key@ == encode_utf8(secret@),
            msg@ == signed_message(t, payload@),
            tag == expected_tag(secret@, t, payload@),
            bytes_views(parsed.signatures@) == header_fields(header@).1,
            header_fields(header@).0 == Some(t),
            abs_diff(now_unix, t) <= tolerance_secs,
            forall|j: int| 0 <= j < i ==> bytes_views(parsed.signatures@)[j] != tag,
        decreases parsed.signatures.len() - i,
    {
        if hmac_verify(&key, &msg, &parsed.signatures[i]) {
            assert(bytes_views(parsed.signatures@)[i as int] == tag);
            assert(header_fields(header@).1[i as int] == tag);
            assert(header_fields(header@).1.contains(tag));
            return true;
        }
        i = i + 1;
    }
    false
}

/// `t=<timestamp>,v1=<tag in lowercase hex>`.
pub open spec fn header_text(t: i64, tag: Seq<u8>) -> Seq<char> {
    "t="@ + signed_decimal(t as int) + ",v1="@ + hex_encoded(tag)
}

/// The header that `sign` builds.
pub open spec fn signature_header(secret: Seq<char>, t: i64, payload: Seq<u8>) -> Seq<char> {
    header_text(t, expected_tag(secret, t, payload))
}

/// A `Stripe-Signature` header carrying one timestamp and one tag.
pub fn signature_header_text(timestamp: i64, tag: &[u8]) -> (h: String)
    ensures
        h@ == header_text(timestamp, tag@),
{
    let hex = hex_encode(tag);
    let mut h = String::from_str("t=");
    let digits = string_of(&i64_decimal(timestamp));
    h.append(digits.as_str());
    h.append(",v1=");
    h.append(hex.as_str());
    h
}

/// Builds a valid header, for tests and local tooling.
pub fn sign(secret: &str, timestamp: i64, payload: &[u8]) -> (h: String)
    ensures
        h@ == signature_header(secret@, timestamp, payload@),
{
    let key = secret.as_bytes_vec();
    let msg = signed_message_bytes(timestamp, payload);
    let tag = hmac_tag(&key, &msg);
    signature_header_text(timestamp, tag.as_slice())
}

// ---------------------------------------------------------------------------------------------
// Signing then verifying
// ---------------------------------------------------------------------------------------------

/// Splitting `p + b` where `b` holds no separator extends the last piece of `p` by `b`.
proof fn lemma_split_extend(p: Seq<char>, b: Seq<char>, sep: char)
    requires
        forall|i: int| 0 <= i < b.len() ==> b[i] != sep,
    ensures
        split_spec(p + b, sep) == split_spec(p, sep).update(
            split_spec(p, sep).len() - 1,
            split_spec(p, sep).last() + b,
        ),
    decreases b.len(),
{
    lemma_split_nonempty(p, sep);
    if b.len() == 0 {
        assert(p + b =~= p);
        assert(split_spec(p, sep).last() + b =~= split_spec(p, sep).last());
        assert(split_spec(p, sep).update(split_spec(p, sep).len() - 1, split_spec(p, sep).last())
            =~= split_spec(p, sep));
    } else {
        let b0 = b.drop_last();
        lemma_split_extend(p, b0, sep);
        assert((p + b).drop_last() =~= p + b0);
        assert((p + b).last() == b.last());
        let prev = split_spec(p + b0, sep);
        let sp = split_spec(p, sep);
        assert(split_spec(p + b, sep) == prev.update(prev.len() - 1, prev.last().push(b.last())));
        assert(prev.len() == sp.len());
        assert(prev.last() == sp.last() + b0);
        assert((sp.last() + b0).push(b.last()) =~= sp.last() + b);
        assert(split_spec(p + b, sep) =~= split_spec(p, sep).update(
            split_spec(p, sep).len() - 1,
            split_spec(p, sep).last() + b,
        ));
    }
}

/// Two pieces without the separator, joined by it, split back into the two pieces.
proof fn lemma_split_two(a: Seq<char>, b: Seq<char>, sep: char)
    requires
        forall|i: int| 0 <= i < a.len() ==> a[i] != sep,
        forall|i: int| 0 <= i < b.len() ==> b[i] != sep,
    ensures
        split_spec(a + seq![sep] + b, sep) == seq![a, b],
{
    let e = Seq::<char>::empty();
    lemma_split_extend(e, a, sep);
    assert(e + a =~= a);
    assert(split_spec(e, sep) == seq![e]);
    assert(split_spec(a, sep) =~= seq![a]) by {
        assert(e + a =~= a);
    }
    let a1 = a + seq![sep];
    assert(a1.drop_last() =~= a);
    assert(split_spec(a1, sep) =~= seq![a, e]);
    lemma_split_extend(a1, b, sep);
    assert(e + b =~= b);
    assert(split_spec(a1 + b, sep) =~= seq![a, b]);
}

/// A non-empty text whose first and last characters are not white space is its own trim.
proof fn lemma_trim_keeps(s: Seq<char>)
    requires
        s.len() > 0,
        !is_white_space(s[0]),
        !is_white_space(s.last()),
    ensures
        trim_spec(s) == s,
{
    assert(trim_start_spec(s) == s);
    assert(trim_end_spec(s) == s);
}

/// The decimal form of a number holds digits and possibly a leading minus sign only.
proof fn lemma_decimal_plain(t: i64)
    ensures
        signed_decimal(t as int).len() > 0,
        forall|i: int|
            0 <= i < signed_decimal(t as int).len() ==> {
                let c = #[trigger] signed_decimal(t as int)[i];
                c != ',' && c != '=' && !is_white_space(c)
            },
        is_digit(signed_decimal(t as int).last()),
{
    let d = signed_decimal(t as int);
    if t < 0 {
        let n = (-t) as nat;
        lemma_decimal_digits(n);
        assert forall|i: int| 0 <= i < d.len() implies {
            let c = #[trigger] d[i];
            c != ',' && c != '=' && !is_white_space(c)
        } by {
            if i > 0 {
                assert(d[i] == decimal(n)[i - 1]);
                assert(is_digit(decimal(n)[i - 1]));
            }
        }
        assert(d.last() == decimal(n).last());
        assert(is_digit(decimal(n)[decimal(n).len() - 1]));
    } else {
        lemma_decimal_digits(t as nat);
        assert forall|i: int| 0 <= i < d.len() implies {
            let c = #[trigger] d[i];
            c != ',' && c != '=' && !is_white_space(c)
        } by {
            assert(is_digit(d[i]));
        }
        assert(is_digit(d[d.len() - 1]));
    }
}

/// The characters of a hex encoding are neither separators nor white space.
proof fn lemma_hex_plain(tag: Seq<u8>)
    ensures
        forall|i: int|
            0 <= i < hex_encoded(tag).len() ==> {
                let c = #[trigger] hex_encoded(tag)[i];
                c != ',' && c != '=' && !is_white_space(c)
            },
{
    let x = hex_encoded(tag);
    assert forall|i: int| 0 <= i < x.len() implies {
        let c = #[trigger] x[i];
        c != ',' && c != '=' && !is_white_space(c)
    } by {
        lemma_hex_lower(tag[i / 2] as int / 16);
        lemma_hex_lower(tag[i / 2] as int % 16);
    }
}

/// The header splits at its one comma into the `t=` part and the `v1=` part.
proof fn lemma_header_parts(t: i64, tag: Seq<u8>)
    ensures
        split_spec("t="@ + signed_decimal(t as int) + ",v1="@ + hex_encoded(tag), ',') == seq![
            "t="@ + signed_decimal(t as int),
            "v1="@ + hex_encoded(tag),
        ],
{
    reveal_strlit("t=");
    reveal_strlit(",v1=");
    reveal_strlit("v1=");
    let d = signed_decimal(t as int);
    let x = hex_encoded(tag);
    let a = "t="@ + d;
    let b = "v1="@ + x;
    lemma_decimal_plain(t);
    lemma_hex_plain(tag);
    assert forall|i: int| 0 <= i < a.len() implies a[i] != ',' by {
        if i >= 2 {
            assert(a[i] == d[i - 2]);
        }
    }
    assert forall|i: int| 0 <= i < b.len() implies b[i] != ',' by {
        if i >= 3 {
            assert(b[i] == x[i - 3]);
        }
    }
    assert("t="@ + d + ",v1="@ + x =~= a + seq![','] + b);
    lemma_split_two(a, b, ',');
}

/// The `t=` part sets the timestamp.
proof fn lemma_scan_timestamp(acc: (Option<i64>, Seq<Seq<u8>>), t: i64)
    ensures
        scan_part(acc, "t="@ + signed_decimal(t as int)) == (Some(t), acc.1),
{
    reveal_strlit("t=");
    reveal_strlit("t");
    let d = signed_decimal(t as int);
    let a = "t="@ + d;
    lemma_decimal_plain(t);
    assert(a.last() == d.last());
    assert(d.last() == d[d.len() - 1]);
    lemma_trim_keeps(a);
    assert(is_first_at(a, '=', 1));
    lemma_split_once_at(a, '=', 1);
    assert(a.take(1) =~= "t"@);
    assert(a.skip(2) =~= d);
    lemma_parse_signed_decimal(t);
}

/// The `v1=` part adds the tag.
proof fn lemma_scan_signature(acc: (Option<i64>, Seq<Seq<u8>>), tag: Seq<u8>)
    ensures
        scan_part(acc, "v1="@ + hex_encoded(tag)) == (acc.0, acc.1.push(tag)),
{
    reveal_strlit("v1=");
    reveal_strlit("t");
    reveal_strlit("v1");
    let x = hex_encoded(tag);
    let b = "v1="@ + x;
    lemma_hex_plain(tag);
    if x.len() > 0 {
        assert(b.last() == x[x.len() - 1]);
    }
    lemma_trim_keeps(b);
    assert(is_first_at(b, '=', 2));
    lemma_split_once_at(b, '=', 2);
    assert(b.take(2) =~= "v1"@);
    assert(b.skip(3) =~= x);
    assert("v1"@ != "t"@) by {
        assert("v1"@.len() != "t"@.len());
    }
    lemma_hex_roundtrip(tag);
}

/// A header built by `sign` carries the timestamp and the expected tag.
pub proof fn lemma_signature_header_fields(secret: Seq<char>, t: i64, payload: Seq<u8>)
    ensures
        header_fields(signature_header(secret, t, payload)) == (
            Some(t),
            seq![expected_tag(secret, t, payload)],
        ),
{
    let tag = expected_tag(secret, t, payload);
    let a = "t="@ + signed_decimal(t as int);
    let b = "v1="@ + hex_encoded(tag);
    lemma_header_parts(t, tag);
    let parts = seq![a, b];
    let empty = (None::<i64>, Seq::<Seq<u8>>::empty());
    assert(parts.drop_last() =~= seq![a]);
    assert(seq![a].drop_last() =~= Seq::<Seq<char>>::empty());
    lemma_scan_timestamp(empty, t);
    assert(scan_parts(Seq::<Seq<char>>::empty()) == empty);
    assert(seq![a].last() == a);
    assert(scan_parts(seq![a]) == scan_part(scan_parts(seq![a].drop_last()), a));
    assert(scan_parts(seq![a]) == (Some(t), Seq::<Seq<u8>>::empty()));
    assert(parts.last() == b);
    lemma_scan_signature((Some(t), Seq::<Seq<u8>>::empty()), tag);
    assert(Seq::<Seq<u8>>::empty().push(tag) =~= seq![tag]);
}

/// A header made by `sign` is accepted by `verify_signature` with the same secret and
/// payload whenever the clock is within the tolerance of the signing time.
pub proof fn lemma_sign_then_verify(secret: Seq<char>, t: i64, payload: Seq<u8>, now: i64, tolerance: i64)
    requires
        abs_diff(now, t) <= tolerance,
    ensures
        timestamp_fits(signature_header(secret, t, payload), now),
        signature_valid(secret, signature_header(secret, t, payload), payload, now, tolerance),
{
    lemma_signature_header_fields(secret, t, payload);
    let tag = expected_tag(secret, t, payload);
    assert(seq![tag][0] == tag);
}

// ---------------------------------------------------------------------------------------------
// Creating a session
// ---------------------------------------------------------------------------------------------

#[derive(Debug)]
pub struct SessionLine {
    pub name: String,
    pub unit_amount: i64,
    pub qty: u32,
    pub image_url: Option<String>,
}

#[derive(Debug)]
pub struct SessionRequest {
    pub order_id: String,
    pub email: String,
    pub lines: Vec<SessionLine>,
    pub success_url: String,
    pub cancel_url: String,
    /// Unix seconds; Stripe requires 30 minutes to 24 hours from now.
    pub expires_at: i64,
}

#[derive(Debug)]
pub struct CreatedSession {
    pub id: String,
    pub url: String,
}

pub open spec fn pairs_view(v: Seq<(String, String)>) -> Seq<(Seq<char>, Seq<char>)> {
    v.map_values(|p: (String, String)| (p.0@, p.1@))
}

/// `line_items[i]`.
pub open spec fn line_prefix(i: nat) -> Seq<char> {
    "line_items["@ + decimal(i) + "]"@
}

/// The form parameters of line `i`: quantity, currency, unit amount, name, and the image
/// when there is one.
pub open spec fn line_params(i: nat, l: SessionLine) -> Seq<(Seq<char>, Seq<char>)> {
    let b = line_prefix(i);
    let base = seq![
        (b + "[quantity]"@, decimal(l.qty as nat)),
        (b + "[price_data][currency]"@, "usd"@),
        (b + "[price_data][unit_amount]"@, signed_decimal(l.unit_amount as int)),
        (b + "[price_data][product_data][name]"@, l.name@),
    ];
    match l.image_url {
        Some(img) => base.push((b + "[price_data][product_data][images][0]"@, img@)),
        None => base,
    }
}

pub open spec fn lines_params(lines: Seq<SessionLine>) -> Seq<(Seq<char>, Seq<char>)>
    decreases lines.len(),
{
    if lines.len() == 0 {
        Seq::empty()
    } else {
        lines_params(lines.drop_last()) + line_params((lines.len() - 1) as nat, lines.last())
    }
}

/// The form parameters of `POST /v1/checkout/sessions`, in order.
pub open spec fn session_params(req: SessionRequest) -> Seq<(Seq<char>, Seq<char>)> {
    seq![
        ("mode"@, "payment"@),
        ("customer_email"@, req.email@),
        ("client_reference_id"@, req.order_id@),
        ("metadata[order_id]"@, req.order_id@),
        ("payment_intent_data[metadata][order_id]"@, req.order_id@),
        ("payment_intent_data[description]"@, "Troop fundraiser order "@ + req.order_id@),
        ("success_url"@, req.success_url@),
        ("cancel_url"@, req.cancel_url@),
        ("expires_at"@, signed_decimal(req.expires_at as int)),
    ] + lines_params(req.lines@)
}

/// In the form `ps`, the parameter `key` has the value `value`: some pair says so and no
/// pair gives `key` another value.
pub open spec fn param_is(ps: Seq<(Seq<char>, Seq<char>)>, key: Seq<char>, value: Seq<char>) -> bool {
    &&& exists|i: int| 0 <= i < ps.len() && ps[i] == (key, value)
    &&& forall|i: int| 0 <= i < ps.len() && (#[trigger] ps[i]).0 == key ==> ps[i].1 == value
}

/// Every key of the line parameters begins with `l` (they are all `line_items[..]..`).
proof fn lemma_line_param_keys(lines: Seq<SessionLine>)
    ensures
        forall|k: int|
            0 <= k < lines_params(lines).len() ==> (#[trigger] lines_params(lines)[k]).0.len() > 0
                && lines_params(lines)[k].0[0] == 'l',
    decreases lines.len(),
{
    reveal_strlit("line_items[");
    if lines.len() > 0 {
        lemma_line_param_keys(lines.drop_last());
        let a = lines_params(lines.drop_last());
        let b = line_params((lines.len() - 1) as nat, lines.last());
        let pre = line_prefix((lines.len() - 1) as nat);
        assert(pre[0] == 'l');
        assert forall|k: int| 0 <= k < b.len() implies (#[trigger] b[k]).0.len() > 0 && b[k].0[0]
            == 'l' by {
            assert(b[k].0[0] == pre[0]);
        }
        assert forall|k: int| 0 <= k < (a + b).len() implies (#[trigger] (a + b)[k]).0.len() > 0
            && (a + b)[k].0[0] == 'l' by {
            if k < a.len() {
                assert((a + b)[k] == a[k]);
            } else {
                assert((a + b)[k] == b[k - a.len()]);
            }
        }
    }
}

/// What the session is created with comes from the order's request: the buyer's email, the
/// order id as the client reference and in the metadata, the success and cancel addresses,
/// each under the parameter of the same name, and payment mode.
#[verifier::rlimit(40)]
pub proof fn lemma_session_params_from_request(req: SessionRequest)
    ensures
        param_is(session_params(req), "mode"@, "payment"@),
        param_is(session_params(req), "customer_email"@, req.email@),
        param_is(session_params(req), "client_reference_id"@, req.order_id@),
        param_is(session_params(req), "metadata[order_id]"@, req.order_id@),
        param_is(session_params(req), "success_url"@, req.success_url@),
        param_is(session_params(req), "cancel_url"@, req.cancel_url@),
        param_is(session_params(req), "expires_at"@, signed_decimal(req.expires_at as int)),
{
    reveal_strlit("mode");
    reveal_strlit("customer_email");
    reveal_strlit("client_reference_id");
    reveal_strlit("metadata[order_id]");
    reveal_strlit("payment_intent_data[metadata][order_id]");
    reveal_strlit("payment_intent_data[description]");
    reveal_strlit("success_url");
    reveal_strlit("cancel_url");
    reveal_strlit("expires_at");
    let ps = session_params(req);
    let fixed = seq![
        ("mode"@, "payment"@),
        ("customer_email"@, req.email@),
        ("client_reference_id"@, req.order_id@),
        ("metadata[order_id]"@, req.order_id@),
        ("payment_intent_data[metadata][order_id]"@, req.order_id@),
        ("payment_intent_data[description]"@, "Troop fundraiser order "@ + req.order_id@),
        ("success_url"@, req.success_url@),
        ("cancel_url"@, req.cancel_url@),
        ("expires_at"@, signed_decimal(req.expires_at as int)),
    ];
    let lp = lines_params(req.lines@);
    assert(ps == fixed + lp);
    lemma_line_param_keys(req.lines@);
    assert forall|i: int| 9 <= i < ps.len() implies (#[trigger] ps[i]).0[0] == 'l' by {
        assert(ps[i] == lp[i - 9]);
    }
    assert(ps[0] == fixed[0] && ps[0].0.len() == 4 && ps[0].0[0] == 'm');
    assert(ps[1] == fixed[1] && ps[1].0.len() == 14 && ps[1].0[0] == 'c');
    assert(ps[2] == fixed[2] && ps[2].0.len() == 19 && ps[2].0[0] == 'c');
    assert(ps[3] == fixed[3] && ps[3].0.len() == 18 && ps[3].0[0] == 'm');
    assert(ps[4] == fixed[4] && ps[4].0.len() == 39 && ps[4].0[0] == 'p');
    assert(ps[5] == fixed[5] && ps[5].0.len() == 32 && ps[5].0[0] == 'p');
    assert(ps[6] == fixed[6] && ps[6].0.len() == 11 && ps[6].0[0] == 's');
    assert(ps[7] == fixed[7] && ps[7].0.len() == 10 && ps[7].0[0] == 'c');
    assert(ps[8] == fixed[8] && ps[8].0.len() == 10 && ps[8].0[0] == 'e');
    assert forall|i: int| 0 <= i < ps.len() && (#[trigger] ps[i]).0 == "mode"@ implies i == 0 by {
        assert(ps[i].0.len() == 4 && ps[i].0[0] == 'm');
    }
    assert forall|i: int| 0 <= i < ps.len() && (#[trigger] ps[i]).0 == "customer_email"@ implies i == 1 by {
        assert(ps[i].0.len() == 14 && ps[i].0[0] == 'c');
    }
    assert forall|i: int| 0 <= i < ps.len() && (#[trigger] ps[i]).0 == "client_reference_id"@ implies i == 2 by {
        assert(ps[i].0.len() == 19 && ps[i].0[0] == 'c');
    }
    assert forall|i: int| 0 <= i < ps.len() && (#[trigger] ps[i]).0 == "metadata[order_id]"@ implies i == 3 by {
        assert(ps[i].0.len() == 18 && ps[i].0[0] == 'm');
    }
    assert forall|i: int| 0 <= i < ps.len() && (#[trigger] ps[i]).0 == "success_url"@ implies i == 6 by {
        assert(ps[i].0.len() == 11 && ps[i].0[0] == 's');
    }
    assert forall|i: int| 0 <= i < ps.len() && (#[trigger] ps[i]).0 == "cancel_url"@ implies i == 7 by {
        assert(ps[i].0.len() == 10 && ps[i].0[0] == 'c');
    }
    assert forall|i: int| 0 <= i < ps.len() && (#[trigger] ps[i]).0 == "expires_at"@ implies i == 8 by {
        assert(ps[i].0.len() == 10 && ps[i].0[0] == 'e');
    }
}

proof fn lemma_lines_params_has(lines: Seq<SessionLine>)
    ensures
        forall|k: int, m: int|
            0 <= k < lines.len() && 0 <= m < line_params(k as nat, lines[k]).len()
                ==> lines_params(lines).contains(#[trigger] line_params(k as nat, lines[k])[m]),
    decreases lines.len(),
{
    if lines.len() > 0 {
        let d = lines.drop_last();
        lemma_lines_params_has(d);
        let a = lines_params(d);
        let n = lines.len() - 1;
        let b = line_params(n as nat, lines.last());
        assert(lines_params(lines) == a + b);
        assert forall|k: int, m: int|
            0 <= k < lines.len() && 0 <= m < line_params(k as nat, lines[k]).len()
                implies lines_params(lines).contains(#[trigger] line_params(k as nat, lines[k])[m]) by {
            let x = line_params(k as nat, lines[k])[m];
            if k < n {
                assert(lines[k] == d[k]);
                assert(a.contains(x));
                let w = choose|w: int| 0 <= w < a.len() && a[w] == x;
                assert((a + b)[w] == a[w]);
            } else {
                assert(lines[k] == lines.last());
                assert((a + b)[a.len() + m] == b[m]);
            }
        }
    }
}

/// Each line of the order is sent as a line item with its own index: its quantity, the
/// currency `usd`, its unit amount in cents, its name, and its image when it has one.
pub proof fn lemma_session_line_items(req: SessionRequest)
    ensures
        forall|k: int|
            0 <= k < req.lines@.len() ==> {
                let l = #[trigger] req.lines@[k];
                let b = "line_items["@ + decimal(k as nat) + "]"@;
                &&& session_params(req).contains((b + "[quantity]"@, decimal(l.qty as nat)))
                &&& session_params(req).contains((b + "[price_data][currency]"@, "usd"@))
                &&& session_params(req).contains(
                    (b + "[price_data][unit_amount]"@, signed_decimal(l.unit_amount as int)),
                )
                &&& session_params(req).contains((b + "[price_data][product_data][name]"@, l.name@))
                &&& l.image_url matches Some(img) ==> session_params(req).contains(
                    (b + "[price_data][product_data][images][0]"@, img@),
                )
            },
{
    let lines = req.lines@;
    let ps = session_params(req);
    lemma_lines_params_has(lines);
    let lp = lines_params(lines);
    let fixed = ps.take(9);
    assert(ps =~= fixed + lp);
    assert forall|x: (Seq<char>, Seq<char>)| lp.contains(x) implies #[trigger] ps.contains(x) by {
        let w = choose|w: int| 0 <= w < lp.len() && lp[w] == x;
        assert(ps[w + 9] == lp[w]);
    }
    assert forall|k: int| 0 <= k < lines.len() implies {
        let l = #[trigger] req.lines@[k];
        let b = "line_items["@ + decimal(k as nat) + "]"@;
        &&& ps.contains((b + "[quantity]"@, decimal(l.qty as nat)))
        &&& ps.contains((b + "[price_data][currency]"@, "usd"@))
        &&& ps.contains((b + "[price_data][unit_amount]"@, signed_decimal(l.unit_amount as int)))
        &&& ps.contains((b + "[price_data][product_data][name]"@, l.name@))
        &&& l.image_url matches Some(img) ==> ps.contains(
            (b + "[price_data][product_data][images][0]"@, img@),
        )
    } by {
        let l = lines[k];
        let lps = line_params(k as nat, l);
        assert(line_prefix(k as nat) == "line_items["@ + decimal(k as nat) + "]"@);
        assert(lp.contains(lps[0]));
        assert(lp.contains(lps[1]));
        assert(lp.contains(lps[2]));
        assert(lp.contains(lps[3]));
        if l.image_url is Some {
            assert(lp.contains(lps[4]));
        }
    }
}

fn str_pair(k: &str, v: &str) -> (r: (String, String))
    ensures
        r.0@ == k@,
        r.1@ == v@,
{
    (String::from_str(k), String::from_str(v))
}

fn push_line_params(p: &mut Vec<(String, String)>, i: usize, l: &SessionLine)
    ensures
        pairs_view(final(p)@) == pairs_view(old(p)@) + line_params(i as nat, *l),
{
    let ghost start = pairs_view(p@);
    let digits = string_of(&crate::text::u64_decimal(i as u64));
    let mut b = String::from_str("line_items[");
    b.append(digits.as_str());
    b.append("]");
    let ghost bv = line_prefix(i as nat);
    assert(b@ == bv);
    let qty = string_of(&crate::text::u64_decimal(l.qty as u64));
    let amount = string_of(&i64_decimal(l.unit_amount));
    p.push((crate::text::concat2(b.as_str(), "[quantity]"), qty));
    p.push((crate::text::concat2(b.as_str(), "[price_data][currency]"), String::from_str("usd")));
    p.push((crate::text::concat2(b.as_str(), "[price_data][unit_amount]"), amount));
    p.push((crate::text::concat2(b.as_str(), "[price_data][product_data][name]"), l.name.clone()));
    match &l.image_url {
        Some(img) => {
            p.push(
                (
                    crate::text::concat2(b.as_str(), "[price_data][product_data][images][0]"),
                    img.clone(),
                ),
            );
        },
        None => {},
    }
    assert(pairs_view(p@) =~= start + line_params(i as nat, *l));
}

/// The `Idempotency-Key` header of the session request for an order, so that a retried
/// request creates no second session: `order-` and the order id.
pub fn idempotency_key(order_id: &str) -> (r: String)
    ensures
        r@ == "order-"@ + order_id@,
{
    concat2("order-", order_id)
}

/// Form parameters for `POST /v1/checkout/sessions`.
pub fn build_session_params(req: &SessionRequest) -> (p: Vec<(String, String)>)
    ensures
        pairs_view(p@) == session_params(*req),
{
    let mut p: Vec<(String, String)> = Vec::new();
    p.push(str_pair("mode", "payment"));
    p.push((String::from_str("customer_email"), req.email.clone()));
    p.push((String::from_str("client_reference_id"), req.order_id.clone()));
    p.push((String::from_str("metadata[order_id]"), req.order_id.clone()));
    p.push((String::from_str("payment_intent_data[metadata][order_id]"), req.order_id.clone()));
    p.push(
        (
            String::from_str("payment_intent_data[description]"),
            crate::text::concat2("Troop fundraiser order ", req.order_id.as_str()),
        ),
    );
    p.push((String::from_str("success_url"), req.success_url.clone()));
    p.push((String::from_str("cancel_url"), req.cancel_url.clone()));
    p.push((String::from_str("expires_at"), string_of(&i64_decimal(req.expires_at))));
    let ghost head = pairs_view(p@);
    assert(head =~= session_params(*req).take(9));
    let mut i: usize = 0;
    assert(req.lines@.take(0) =~= Seq::<SessionLine>::empty());
    while i < req.lines.len()
        invariant
            i <= req.lines.len(),
            head == session_params(*req).take(9),
            pairs_view(p@) == head + lines_params(req.lines@.take(i as int)),
        decreases req.lines.len() - i,
    {
        push_line_params(&mut p, i, &req.lines[i]);
        assert(req.lines@.take(i + 1).drop_last() =~= req.lines@.take(i as int));
        assert(req.lines@.take(i + 1).last() == req.lines@[i as int]);
        i = i + 1;
        assert(pairs_view(p@) =~= head + lines_params(req.lines@.take(i as int)));
    }
    assert(req.lines@.take(req.lines.len() as int) =~= req.lines@);
    assert(session_params(*req) =~= session_params(*req).take(9) + lines_params(req.lines@));
    p
}

// ---------------------------------------------------------------------------------------------
// Reading a session object (the `serde_json` crate)
// ---------------------------------------------------------------------------------------------

/// The string that the JSON pointer `pointer` finds in the JSON document `doc`.
pub uninterp spec fn json_text_at(doc: Seq<u8>, pointer: Seq<char>) -> Option<Seq<char>>;

/// The integer (fitting in an `i64`) that the JSON pointer `pointer` finds in `doc`.
pub uninterp spec fn json_int_at(doc: Seq<u8>, pointer: Seq<char>) -> Option<i64>;

/// Whether `doc` is one JSON document.
pub uninterp spec fn json_valid(doc: Seq<u8>) -> bool;

/// `serde_json::from_slice::<Value>(doc)`, then `Value::pointer(pointer)` and
/// `Value::as_str`. Trusted: the result is named `json_text_at` of the bytes and the
/// pointer; `None` when the bytes are not JSON, nothing is at the pointer, or it is not a
/// string.
#[verifier::external_body]
pub(crate) fn json_text(doc: &[u8], pointer: &str) -> (r: Option<String>)
    ensures
        crate::validate::opt_view(r) == json_text_at(doc@, pointer@),
{
    let v: serde_json::Value = serde_json::from_slice(doc).ok()?;
    v.pointer(pointer).and_then(serde_json::Value::as_str).map(str::to_string)
}

/// `serde_json::from_slice::<Value>(doc)`, then `Value::pointer(pointer)` and
/// `Value::as_i64`. Trusted: the result is named `json_int_at` of the bytes and the pointer.
#[verifier::external_body]
fn json_int(doc: &[u8], pointer: &str) -> (r: Option<i64>)
    ensures
        r == json_int_at(doc@, pointer@),
{
    let v: serde_json::Value = serde_json::from_slice(doc).ok()?;
    v.pointer(pointer).and_then(serde_json::Value::as_i64)
}

/// `serde_json::from_slice::<Value>(doc).is_ok()`. Trusted: the result is named
/// `json_valid` of the bytes.
#[verifier::external_body]
pub(crate) fn json_parses(doc: &[u8]) -> (r: bool)
    ensures
        r == json_valid(doc@),
{
    serde_json::from_slice::<serde_json::Value>(doc).is_ok()
}

/// What we need from a Checkout Session object (webhook payload or API response).
#[derive(Debug, PartialEq)]
pub struct SessionInfo {
    pub id: String,
    pub order_id: Option<String>,
    /// `open`, `complete` or `expired`.
    pub status: String,
    /// `paid`, `unpaid` or `no_payment_required`.
    pub payment_status: String,
    pub amount_total: i64,
    pub payment_intent: Option<String>,
}

impl Clone for SessionInfo {
    fn clone(&self) -> (r: Self)
        ensures
            r == *self,
    {
        SessionInfo {
            id: self.id.clone(),
            order_id: crate::api::clone_opt_string(&self.order_id),
            status: self.status.clone(),
            payment_status: self.payment_status.clone(),
            amount_total: self.amount_total,
            payment_intent: crate::api::clone_opt_string(&self.payment_intent),
        }
    }
}

pub open spec fn text_or_empty(o: Option<Seq<char>>) -> Seq<char> {
    match o {
        Some(s) => s,
        None => Seq::empty(),
    }
}

/// `s` is the session read from these fields: the order id is `client_reference_id`, else
/// `metadata.order_id`; a missing status reads as empty and a missing amount as -1.
pub open spec fn session_is(
    s: SessionInfo,
    id: Seq<char>,
    client_reference_id: Option<Seq<char>>,
    metadata_order_id: Option<Seq<char>>,
    status: Option<Seq<char>>,
    payment_status: Option<Seq<char>>,
    amount_total: Option<i64>,
    payment_intent: Option<Seq<char>>,
) -> bool {
    &&& s.id@ == id
    &&& crate::validate::opt_view(s.order_id) == (if client_reference_id is Some {
        client_reference_id
    } else {
        metadata_order_id
    })
    &&& s.status@ == text_or_empty(status)
    &&& s.payment_status@ == text_or_empty(payment_status)
    &&& s.amount_total == (match amount_total {
        Some(a) => a,
        None => -1i64,
    })
    &&& crate::validate::opt_view(s.payment_intent) == payment_intent
}

/// The session read from the object at `base` (a JSON pointer, `""` for the whole
/// document).
pub open spec fn session_at(s: SessionInfo, doc: Seq<u8>, base: Seq<char>) -> bool {
    &&& json_text_at(doc, base + "/id"@) == Some(s.id@)
    &&& session_is(
        s,
        s.id@,
        json_text_at(doc, base + "/client_reference_id"@),
        json_text_at(doc, base + "/metadata/order_id"@),
        json_text_at(doc, base + "/status"@),
        json_text_at(doc, base + "/payment_status"@),
        json_int_at(doc, base + "/amount_total"@),
        json_text_at(doc, base + "/payment_intent"@),
    )
}

fn text_or_default(o: Option<String>) -> (r: String)
    ensures
        r@ == text_or_empty(crate::validate::opt_view(o)),
{
    match o {
        Some(s) => s,
        None => String::new(),
    }
}

impl SessionInfo {
    /// Builds the session from the fields read out of a session object; `None` without an
    /// id.
    pub fn from_fields(
        id: Option<String>,
        client_reference_id: Option<String>,
        metadata_order_id: Option<String>,
        status: Option<String>,
        payment_status: Option<String>,
        amount_total: Option<i64>,
        payment_intent: Option<String>,
    ) -> (r: Option<SessionInfo>)
        ensures
            r is Some <==> id is Some,
            r matches Some(s) ==> session_is(
                s,
                crate::validate::opt_view(id)->0,
                crate::validate::opt_view(client_reference_id),
                crate::validate::opt_view(metadata_order_id),
                crate::validate::opt_view(status),
                crate::validate::opt_view(payment_status),
                amount_total,
                crate::validate::opt_view(payment_intent),
            ),
    {
        let id = match id {
            Some(id) => id,
            None => return None,
        };
        let order_id = match client_reference_id {
            Some(o) => Some(o),
            None => metadata_order_id,
        };
        let amount_total = match amount_total {
            Some(a) => a,
            None => -1,
        };
        Some(
            SessionInfo {
                id,
                order_id,
                status: text_or_default(status),
                payment_status: text_or_default(payment_status),
                amount_total,
                payment_intent,
            },
        )
    }

    /// Reads the session object found at the JSON pointer `base` of the document `doc`
    /// (`""` for a whole API response, `"/data/object"` for a webhook event); `None`
    /// without a string `id`.
    pub fn from_json(doc: &[u8], base: &str) -> (r: Option<SessionInfo>)
        ensures
            r is Some <==> json_text_at(doc@, base@ + "/id"@) is Some,
            r matches Some(s) ==> session_at(s, doc@, base@),
    {
        let id = json_text(doc, crate::text::concat2(base, "/id").as_str());
        let client_reference_id = json_text(
            doc,
            crate::text::concat2(base, "/client_reference_id").as_str(),
        );
        let metadata_order_id = json_text(
            doc,
            crate::text::concat2(base, "/metadata/order_id").as_str(),
        );
        let status = json_text(doc, crate::text::concat2(base, "/status").as_str());
        let payment_status = json_text(doc, crate::text::concat2(base, "/payment_status").as_str());
        let amount_total = json_int(doc, crate::text::concat2(base, "/amount_total").as_str());
        let payment_intent = json_text(doc, crate::text::concat2(base, "/payment_intent").as_str());
        SessionInfo::from_fields(
            id,
            client_reference_id,
            metadata_order_id,
            status,
            payment_status,
            amount_total,
            payment_intent,
        )
    }
}

impl CreatedSession {
    /// Reads the id and the hosted page's URL from a created session object; which one is
    /// missing otherwise.
    pub fn from_json(doc: &[u8]) -> (r: Result<CreatedSession, &'static str>)
        ensures
            match r {
                Ok(s) => json_text_at(doc@, "/id"@) == Some(s.id@) && json_text_at(doc@, "/url"@)
                    == Some(s.url@),
                Err(m) => if json_text_at(doc@, "/id"@) is None {
                    m@ == "session id missing"@
                } else {
                    json_text_at(doc@, "/url"@) is None && m@ == "session url missing"@
                },
            },
    {
        let id = match json_text(doc, "/id") {
            Some(id) => id,
            None => return Err("session id missing"),
        };
        let url = match json_text(doc, "/url") {
            Some(url) => url,
            None => return Err("session url missing"),
        };
        Ok(CreatedSession { id, url })
    }
}

/// What is wrong with a reply from the Stripe API, if anything: a body that is not JSON,
/// or an error status, reported with Stripe's own message (`status` is the HTTP status as
/// text, such as `400 Bad Request`).
pub fn reply_problem(success: bool, status: &str, body: &[u8]) -> (r: Option<String>)
    ensures
        !json_valid(body@) ==> (r matches Some(m) && m@ == "decoding Stripe response"@),
        json_valid(body@) && success ==> r is None,
        json_valid(body@) && !success ==> (r matches Some(m) && m@ == "Stripe returned "@ + status@
            + ": "@ + (match json_text_at(body@, "/error/message"@) {
            Some(t) => t,
            None => "unknown error"@,
        })),
{
    if !json_parses(body) {
        return Some(String::from_str("decoding Stripe response"));
    }
    if success {
        return None;
    }
    let msg = match json_text(body, "/error/message") {
        Some(t) => t,
        None => String::from_str("unknown error"),
    };
    let mut m = String::from_str("Stripe returned ");
    m.append(status);
    m.append(": ");
    m.append(msg.as_str());
    Some(m)
}

} // verus!
