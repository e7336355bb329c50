//! The stored message envelope: a fixed-shape JSON object holding the
//! base64-encoded ciphertext and nonce. A stored string that does not have
//! this shape is a legacy plaintext record and is returned as it stands.
use vstd::prelude::*;

use base64::Engine;

use crate::crypto::{aead_seal_of, aead_open_of, aead_plain_max, encrypt_bytes, decrypt_bytes};
use crate::model::ServiceError;
use vstd::utf8::{valid_utf8, encode_utf8, encode_scalar};

verus! {

/// The characters of the base64 alphabet, with padding.
pub open spec fn is_b64_char(c: char) -> bool {
    (48 <= (c as u32) && (c as u32) <= 57) || (65 <= (c as u32) && (c as u32) <= 90) || (97 <= (
    c as u32) && (c as u32) <= 122) || c == '+' || c == '/' || c == '='
}

/// What the result of the base64 encoding of a byte sequence is; fixed by
/// the base64 crate's STANDARD engine.
pub uninterp spec fn b64_of(bytes: Seq<u8>) -> Seq<char>;

/// Relies on base64's `STANDARD` engine `encode`: the result is a function
/// of the input bytes alone, four characters per three-byte group, all drawn
/// from the base64 alphabet.
#[verifier::external_body]
pub fn b64_encode(bytes: &Vec<u8>) -> (r: String)
    ensures
        r@ == b64_of(bytes@),
        r@.len() == 4 * ((bytes@.len() + 2) / 3),
        forall|i: int| 0 <= i < r@.len() ==> is_b64_char(#[trigger] r@[i]),
{
    base64::engine::general_purpose::STANDARD.encode(bytes.as_slice())
}

/// What the base64 decoding of a character sequence is: `None` on a string
/// the STANDARD engine rejects; fixed by the base64 crate.
pub uninterp spec fn b64_decoded(s: Seq<char>) -> Option<Seq<u8>>;

/// Relies on base64's `STANDARD` engine `decode`: a function of the input
/// string alone, and the inverse of `encode`, so a string that is the
/// encoding of some bytes decodes to exactly those bytes.
#[verifier::external_body]
pub fn b64_decode(s: &str) -> (r: Option<Vec<u8>>)
    ensures
        r is Some <==> b64_decoded(s@) is Some,
        r matches Some(v) ==> b64_decoded(s@) == Some(v@),
        (exists|b: Seq<u8>| s@ == b64_of(b)) ==> r is Some,
        r matches Some(v) ==> forall|b: Seq<u8>| s@ == b64_of(b) ==> v@ == b,
{
    base64::engine::general_purpose::STANDARD.decode(s.as_bytes()).ok()
}

/// Relies on `uuid::Uuid::new_v4` and `into_bytes`: 16 freshly drawn bytes.
#[verifier::external_body]
pub fn fresh_nonce() -> (r: Vec<u8>)
    ensures
        r@.len() == 16,
{
    uuid::Uuid::new_v4().into_bytes().to_vec()
}

/// Draws a fresh 12-byte cipher nonce: the first twelve of sixteen fresh
/// random bytes.
pub fn fresh_gcm_nonce() -> (r: Vec<u8>)
    ensures
        r@.len() == 12,
{
    let wide = fresh_nonce();
    let mut out: Vec<u8> = Vec::new();
    let mut i: usize = 0;
    while i < 12
        invariant
            0 <= i <= 12,
            wide@.len() == 16,
            out@.len() == i,
        decreases 12 - i,
    {
        out.push(wide[i]);
        i = i + 1;
    }
    out
}

/// Each character encodes to at most four bytes.
pub proof fn lemma_encode_utf8_len(chars: Seq<char>)
    ensures
        encode_utf8(chars).len() <= 4 * chars.len(),
    decreases chars.len(),
{
    if chars.len() > 0 {
        lemma_encode_utf8_len(chars.drop_first());
        assert(encode_scalar(chars[0] as u32).len() <= 4);
    }
}

/// Relies on `String::from_utf8`: succeeds exactly on valid UTF-8 and
/// returns the string whose bytes are the input.
#[verifier::external_body]
fn string_from_utf8(v: Vec<u8>) -> (r: Option<String>)
    ensures
        r is Some <==> valid_utf8(v@),
        r matches Some(s) ==> encode_utf8(s@) == v@,
{
    match String::from_utf8(v) {
        Ok(s) => Some(s),
        Err(_) => None,
    }
}

/// Text that may stand between the quotes of the envelope: anything without
/// a double quote.
pub open spec fn envelope_text(s: Seq<char>) -> bool {
    forall|i: int| 0 <= i < s.len() ==> (#[trigger] s[i]) != '"'
}

pub open spec fn env_prefix() -> Seq<char> {
    "{\"ciphertext\":\""@
}

pub open spec fn env_mid() -> Seq<char> {
    "\",\"nonce\":\""@
}

pub open spec fn env_suffix() -> Seq<char> {
    "\"}"@
}

/// The envelope text holding an encoded ciphertext and nonce.
pub open spec fn envelope_of(ct: Seq<char>, nonce: Seq<char>) -> Seq<char> {
    env_prefix() + ct + env_mid() + nonce + env_suffix()
}

/// The string has the envelope shape for some quote-free pieces.
pub open spec fn is_envelope(s: Seq<char>) -> bool {
    exists|ct: Seq<char>, nonce: Seq<char>|
        envelope_text(ct) && envelope_text(nonce) && s == #[trigger] envelope_of(ct, nonce)
}

/// Reveals the three envelope literals and their lengths.
proof fn envelope_literal_facts()
    ensures
        env_prefix().len() == 15,
        env_mid().len() == 11,
        env_suffix().len() == 2,
        env_mid()[0] == '"',
        env_suffix()[0] == '"',
        env_suffix()[1] == '}',
{
    reveal_strlit("{\"ciphertext\":\"");
    reveal_strlit("\",\"nonce\":\"");
    reveal_strlit("\"}");
}

/// Builds the envelope text around two already-encoded pieces.
pub fn build_envelope(ct: &str, nonce: &str) -> (r: String)
    ensures
        r@ == envelope_of(ct@, nonce@),
{
    let mut r = String::from_str("{\"ciphertext\":\"");
    r.append(ct);
    r.append("\",\"nonce\":\"");
    r.append(nonce);
    r.append("\"}");
    proof {
        assert(r@ =~= envelope_of(ct@, nonce@));
    }
    r
}

/// First index at or after `from` holding a double quote; the length of the
/// string when there is none.
fn find_quote(s: &str, from: usize) -> (r: usize)
    requires
        from <= s@.len(),
    ensures
        from <= r <= s@.len(),
        forall|j: int| from <= j < r ==> (#[trigger] s@[j]) != '"',
        r < s@.len() ==> s@[r as int] == '"',
{
    let n = s.unicode_len();
    let mut i: usize = from;
    while i < n
        invariant
            from <= i <= n,
            n == s@.len(),
            forall|j: int| from <= j < i ==> (#[trigger] s@[j]) != '"',
        decreases n - i,
    {
        if s.get_char(i) == '"' {
            return i;
        }
        i = i + 1;
    }
    n
}

/// Takes an envelope apart into its two quote-free pieces. Returns `Some`
/// exactly on strings of the envelope shape, and then returns the pieces of
/// its one decomposition.
pub fn parse_envelope(s: &str) -> (r: Option<(String, String)>)
    ensures
        r matches Some(p) ==> s@ == envelope_of(p.0@, p.1@) && envelope_text(p.0@)
            && envelope_text(p.1@),
        forall|ct: Seq<char>, nonce: Seq<char>|
            envelope_text(ct) && envelope_text(nonce) && s@ == #[trigger] envelope_of(ct, nonce)
                ==> r is Some && (r matches Some(p) ==> p.0@ == ct && p.1@ == nonce),
        r is Some <==> is_envelope(s@),
{
    proof {
        envelope_literal_facts();
    }
    let n = s.unicode_len();
    if n < 28 {
        proof {
            assert forall|ct: Seq<char>, nonce: Seq<char>|
                !(envelope_text(ct) && envelope_text(nonce) && s@ == #[trigger] envelope_of(
                    ct,
                    nonce,
                )) by {
                assert(envelope_of(ct, nonce).len() >= 28);
            }
        }
        return None;
    }
    let head = s.substring_char(0, 15);
    if !crate::lex::str_eq(head, "{\"ciphertext\":\"") {
        proof {
            assert forall|ct: Seq<char>, nonce: Seq<char>|
                !(envelope_text(ct) && envelope_text(nonce) && s@ == #[trigger] envelope_of(
                    ct,
                    nonce,
                )) by {
                if s@ == envelope_of(ct, nonce) {
                    assert(head@ =~= env_prefix());
                }
            }
        }
        return None;
    }
    let q1 = find_quote(s, 15);
    let ghost dq1: int = q1 as int;
    if q1 > n - 13 {
        proof {
            assert forall|ct: Seq<char>, nonce: Seq<char>|
                !(envelope_text(ct) && envelope_text(nonce) && s@ == #[trigger] envelope_of(
                    ct,
                    nonce,
                )) by {
                if envelope_text(ct) && envelope_text(nonce) && s@ == envelope_of(ct, nonce) {
                    lemma_quote_position(s@, ct, nonce, dq1);
                }
            }
        }
        return None;
    }
    let mid = s.substring_char(q1, q1 + 11);
    if !crate::lex::str_eq(mid, "\",\"nonce\":\"") {
        proof {
            assert forall|ct: Seq<char>, nonce: Seq<char>|
                !(envelope_text(ct) && envelope_text(nonce) && s@ == #[trigger] envelope_of(
                    ct,
                    nonce,
                )) by {
                if envelope_text(ct) && envelope_text(nonce) && s@ == envelope_of(ct, nonce) {
                    lemma_quote_position(s@, ct, nonce, dq1);
                    assert(mid@ =~= env_mid());
                }
            }
        }
        return None;
    }
    let q2 = find_quote(s, q1 + 11);
    let ghost dq2: int = q2 as int;
    if q2 != n - 2 {
        proof {
            assert forall|ct: Seq<char>, nonce: Seq<char>|
                !(envelope_text(ct) && envelope_text(nonce) && s@ == #[trigger] envelope_of(
                    ct,
                    nonce,
                )) by {
                if envelope_text(ct) && envelope_text(nonce) && s@ == envelope_of(ct, nonce) {
                    lemma_quote_position(s@, ct, nonce, dq1);
                    lemma_second_quote_position(s@, ct, nonce, dq2);
                }
            }
        }
        return None;
    }
    if s.get_char(q2 + 1) != '}' {
        proof {
            assert forall|ct: Seq<char>, nonce: Seq<char>|
                !(envelope_text(ct) && envelope_text(nonce) && s@ == #[trigger] envelope_of(
                    ct,
                    nonce,
                )) by {
                if envelope_text(ct) && envelope_text(nonce) && s@ == envelope_of(ct, nonce) {
                    lemma_quote_position(s@, ct, nonce, dq1);
                    lemma_second_quote_position(s@, ct, nonce, dq2);
                    assert(s@[dq2 + 1] == env_suffix()[1]);
                }
            }
        }
        return None;
    }
    let ct_part = s.substring_char(15, q1).to_owned();
    let nn_part = s.substring_char(q1 + 11, q2).to_owned();
    proof {
        assert(s@ =~= s@.subrange(0, 15) + s@.subrange(15, dq1) + s@.subrange(dq1, dq1 + 11)
            + s@.subrange(dq1 + 11, dq2) + s@.subrange(dq2, s@.len() as int));
        assert(s@.subrange(dq2, s@.len() as int) =~= env_suffix());
        assert(s@ == envelope_of(ct_part@, nn_part@));
        assert forall|ct: Seq<char>, nonce: Seq<char>|
            envelope_text(ct) && envelope_text(nonce) && s@ == #[trigger] envelope_of(ct, nonce)
                implies ct_part@ == ct && nn_part@ == nonce by {
            lemma_quote_position(s@, ct, nonce, dq1);
            lemma_second_quote_position(s@, ct, nonce, dq2);
            assert(ct_part@ =~= ct);
            assert(nn_part@ =~= nonce);
        }
    }
    Some((ct_part, nn_part))
}

/// In an envelope, the first quote at or after the prefix stands exactly at
/// the end of the ciphertext piece.
proof fn lemma_quote_position(s: Seq<char>, ct: Seq<char>, nonce: Seq<char>, q1: int)
    requires
        envelope_text(ct),
        envelope_text(nonce),
        s == envelope_of(ct, nonce),
        15 <= q1 <= s.len(),
        forall|j: int| 15 <= j < q1 ==> (#[trigger] s[j]) != '"',
        q1 < s.len() ==> s[q1] == '"',
    ensures
        q1 == 15 + ct.len(),
        s.subrange(15, q1) == ct,
        s.subrange(q1, q1 + 11) == env_mid(),
{
    envelope_literal_facts();
    assert(s.len() == 28 + ct.len() + nonce.len());
    assert forall|j: int| 0 <= j < ct.len() implies s[15 + j as int] == ct[j] by {}
    assert(s[15 + ct.len() as int] == env_mid()[0]);
    if q1 < 15 + ct.len() {
        assert(s[q1] == ct[q1 - 15]);
    }
    if q1 > 15 + ct.len() {
        assert(s[15 + ct.len() as int] == '"');
    }
    assert(q1 == 15 + ct.len());
    assert(s.subrange(15, q1) =~= ct);
    assert(s.subrange(q1, q1 + 11) =~= env_mid());
}

/// In an envelope, the first quote after the middle separator stands exactly
/// at the end of the nonce piece.
proof fn lemma_second_quote_position(s: Seq<char>, ct: Seq<char>, nonce: Seq<char>, q2: int)
    requires
        envelope_text(ct),
        envelope_text(nonce),
        s == envelope_of(ct, nonce),
        26 + ct.len() <= q2 <= s.len(),
        forall|j: int| 26 + ct.len() <= j < q2 ==> (#[trigger] s[j]) != '"',
        q2 < s.len() ==> s[q2] == '"',
    ensures
        q2 == 26 + ct.len() + nonce.len(),
        s.subrange(26 + ct.len() as int, q2) == nonce,
        q2 + 2 == s.len(),
        s[q2] == '"',
        s[q2 + 1] == '}',
    decreases 0int,
{
    envelope_literal_facts();
    assert(s.len() == 28 + ct.len() + nonce.len());
    assert forall|j: int| 0 <= j < nonce.len() implies s[26 + ct.len() as int + j] == nonce[j] by {}
    assert(s[26 + ct.len() + nonce.len() as int] == env_suffix()[0]);
    if q2 < 26 + ct.len() + nonce.len() {
        assert(s[q2] == nonce[q2 - 26 - ct.len()]);
    }
    if q2 > 26 + ct.len() + nonce.len() {
        assert(s[26 + ct.len() + nonce.len() as int] == '"');
    }
    assert(q2 == 26 + ct.len() + nonce.len());
    assert(s.subrange(26 + ct.len() as int, q2) =~= nonce);
    assert(s[q2 + 1] == env_suffix()[1]);
}

/// Encrypts a message into its stored envelope under a given key and nonce.
#[verifier::rlimit(50)]
pub fn seal_message(message: &str, key: &Vec<u8>, nonce: &Vec<u8>) -> (r: String)
    requires
        key@.len() == 32,
        nonce@.len() == 12,
        encode_utf8(message@).len() <= aead_plain_max(),
    ensures
        r@ == envelope_of(b64_of(aead_seal_of(key@, nonce@, encode_utf8(message@))), b64_of(
            nonce@,
        )),
        envelope_text(b64_of(aead_seal_of(key@, nonce@, encode_utf8(message@)))),
        envelope_text(b64_of(nonce@)),
        is_envelope(r@),
        sealed_shape(r@, key@, encode_utf8(message@), nonce@),
{
    let plain = message.as_bytes_vec();
    let ct = encrypt_bytes(&plain, key, nonce);
    let ct_b64 = b64_encode(&ct);
    let nonce_b64 = b64_encode(nonce);
    proof {
        assert forall|i: int| 0 <= i < ct_b64@.len() implies (#[trigger] ct_b64@[i]) != '"' by {
            assert(is_b64_char(ct_b64@[i]));
            assert(('"' as u32) == 34);
        }
        assert forall|i: int| 0 <= i < nonce_b64@.len() implies (#[trigger] nonce_b64@[i])
            != '"' by {
            assert(is_b64_char(nonce_b64@[i]));
            assert(('"' as u32) == 34);
        }
    }
    let r = build_envelope(ct_b64.as_str(), nonce_b64.as_str());
    proof {
        vstd::utf8::encode_utf8_valid_utf8(message@);
        assert(r@ == envelope_of(
            b64_of(aead_seal_of(key@, nonce@, encode_utf8(message@))),
            b64_of(nonce@),
        ));
        assert(is_envelope(r@));
        assert(sealed_shape(r@, key@, encode_utf8(message@), nonce@));
    }
    r
}

/// The stored text is the envelope of `p` encrypted under `key` with
/// `nonce`, `p` is well-formed text, and decryption under the same key and
/// nonce gives `p` back.
pub open spec fn sealed_shape(stored: Seq<char>, key: Seq<u8>, p: Seq<u8>, nonce: Seq<u8>) -> bool {
    &&& key.len() == 32
    &&& nonce.len() == 12
    &&& aead_open_of(key, nonce, aead_seal_of(key, nonce, p)) == Some(p)
    &&& envelope_text(b64_of(aead_seal_of(key, nonce, p)))
    &&& envelope_text(b64_of(nonce))
    &&& stored == envelope_of(b64_of(aead_seal_of(key, nonce, p)), b64_of(nonce))
    &&& valid_utf8(p)
}

/// The stored envelope decodes, authenticates and decrypts under `key` to
/// the plaintext bytes `p`: its ciphertext and nonce pieces are decodable
/// base64, the nonce has cipher length, and authenticated decryption
/// returns `p`, which is well-formed text.
pub open spec fn env_opens_to(body: Seq<char>, key: Seq<u8>, p: Seq<u8>) -> bool {
    exists|cs: Seq<char>, ns: Seq<char>|
        {
            &&& envelope_text(cs)
            &&& envelope_text(ns)
            &&& body == #[trigger] envelope_of(cs, ns)
            &&& b64_decoded(cs) is Some
            &&& b64_decoded(ns) is Some
            &&& b64_decoded(ns)->Some_0.len() == 12
            &&& key.len() == 32
            &&& aead_open_of(key, b64_decoded(ns)->Some_0, b64_decoded(cs)->Some_0) == Some(p)
            &&& valid_utf8(p)
        }
}

/// Opens a stored message body. An envelope is decoded, authenticated and
/// decrypted; in particular a body sealed under this key comes back as the
/// original message. A body that is not an envelope is a legacy plaintext
/// record and is returned as it stands. `DecryptionFailed` arises exactly
/// on a body of envelope shape that does not open under the key.
pub fn open_message(stored: &str, key: &Vec<u8>) -> (r: Result<String, ServiceError>)
    requires
        key@.len() == 32,
    ensures
        forall|p: Seq<u8>, nonce: Seq<u8>|
            #[trigger] sealed_shape(stored@, key@, p, nonce) ==> (r matches Ok(m) && encode_utf8(
                m@,
            ) == p),
        !is_envelope(stored@) ==> (r matches Ok(m) && m@ == stored@),
        r matches Err(e) ==> e == ServiceError::DecryptionFailed,
        r is Err <==> (is_envelope(stored@) && !(exists|p: Seq<u8>| env_opens_to(
            stored@,
            key@,
            p,
        ))),
        r matches Ok(m) ==> (is_envelope(stored@) ==> env_opens_to(
            stored@,
            key@,
            encode_utf8(m@),
        )),
{
    let parsed = parse_envelope(stored);
    match parsed {
        None => {
            proof {
                assert forall|p: Seq<u8>, nonce: Seq<u8>| !(#[trigger] sealed_shape(
                    stored@,
                    key@,
                    p,
                    nonce,
                )) by {
                    if sealed_shape(stored@, key@, p, nonce) {
                        assert(stored@ == envelope_of(
                            b64_of(aead_seal_of(key@, nonce, p)),
                            b64_of(nonce),
                        ));
                        assert(is_envelope(stored@));
                    }
                }
            }
            Ok(stored.to_owned())
        },
        Some((ct_b64, nonce_b64)) => {
            proof {
                assert forall|p: Seq<u8>, nn: Seq<u8>| #[trigger] sealed_shape(
                    stored@,
                    key@,
                    p,
                    nn,
                ) implies ct_b64@ == b64_of(aead_seal_of(key@, nn, p)) && nonce_b64@ == b64_of(
                    nn,
                ) by {}
                assert forall|p: Seq<u8>| #[trigger] env_opens_to(stored@, key@, p)
                    implies b64_decoded(ct_b64@) is Some && b64_decoded(nonce_b64@) is Some
                    && b64_decoded(nonce_b64@)->Some_0.len() == 12 && aead_open_of(
                    key@,
                    b64_decoded(nonce_b64@)->Some_0,
                    b64_decoded(ct_b64@)->Some_0,
                ) == Some(p) && valid_utf8(p) by {
                    let (cs, ns) = choose|cs: Seq<char>, ns: Seq<char>|
                        {
                            &&& envelope_text(cs)
                            &&& envelope_text(ns)
                            &&& stored@ == #[trigger] envelope_of(cs, ns)
                            &&& b64_decoded(cs) is Some
                            &&& b64_decoded(ns) is Some
                            &&& b64_decoded(ns)->Some_0.len() == 12
                            &&& key@.len() == 32
                            &&& aead_open_of(
                                key@,
                                b64_decoded(ns)->Some_0,
                                b64_decoded(cs)->Some_0,
                            ) == Some(p)
                            &&& valid_utf8(p)
                        };
                    assert(cs == ct_b64@ && ns == nonce_b64@);
                }
            }
            let ct = match b64_decode(ct_b64.as_str()) {
                Some(v) => v,
                None => {
                    proof {
                        assert forall|p: Seq<u8>, nn: Seq<u8>| !(#[trigger] sealed_shape(
                            stored@,
                            key@,
                            p,
                            nn,
                        )) by {
                            if sealed_shape(stored@, key@, p, nn) {
                                assert(ct_b64@ == b64_of(aead_seal_of(key@, nn, p)));
                            }
                        }
                    }
                    return Err(ServiceError::DecryptionFailed);
                },
            };
            let nonce = match b64_decode(nonce_b64.as_str()) {
                Some(v) => v,
                None => {
                    proof {
                        assert forall|p: Seq<u8>, nn: Seq<u8>| !(#[trigger] sealed_shape(
                            stored@,
                            key@,
                            p,
                            nn,
                        )) by {
                            if sealed_shape(stored@, key@, p, nn) {
                                assert(nonce_b64@ == b64_of(nn));
                            }
                        }
                    }
                    return Err(ServiceError::DecryptionFailed);
                },
            };
            if nonce.len() != 12 {
                proof {
                    assert forall|p: Seq<u8>, nn: Seq<u8>| !(#[trigger] sealed_shape(
                        stored@,
                        key@,
                        p,
                        nn,
                    )) by {
                        if sealed_shape(stored@, key@, p, nn) {
                            assert(nonce_b64@ == b64_of(nn));
                            assert(nonce@ == nn);
                        }
                    }
                }
                return Err(ServiceError::DecryptionFailed);
            }
            let plain = match decrypt_bytes(&ct, key, &nonce) {
                Some(v) => v,
                None => {
                    proof {
                        assert forall|p: Seq<u8>, nn: Seq<u8>| !(#[trigger] sealed_shape(
                            stored@,
                            key@,
                            p,
                            nn,
                        )) by {
                            if sealed_shape(stored@, key@, p, nn) {
                                assert(ct_b64@ == b64_of(aead_seal_of(key@, nn, p)));
                                assert(nonce_b64@ == b64_of(nn));
                                assert(ct@ == aead_seal_of(key@, nn, p));
                                assert(nonce@ == nn);
                            }
                        }
                    }
                    return Err(ServiceError::DecryptionFailed);
                },
            };
            let ghost plain_view = plain@;
            match string_from_utf8(plain) {
                Some(m) => {
                    proof {
                        assert forall|p: Seq<u8>, nn: Seq<u8>| #[trigger] sealed_shape(
                            stored@,
                            key@,
                            p,
                            nn,
                        ) implies encode_utf8(m@) == p by {
                            assert(ct_b64@ == b64_of(aead_seal_of(key@, nn, p)));
                            assert(nonce_b64@ == b64_of(nn));
                            assert(ct@ == aead_seal_of(key@, nn, p));
                            assert(nonce@ == nn);
                            assert(plain_view == p);
                        }
                        vstd::utf8::encode_utf8_valid_utf8(m@);
                        assert(env_opens_to(stored@, key@, encode_utf8(m@)));
                    }
                    Ok(m)
                },
                None => {
                    proof {
                        assert forall|p: Seq<u8>, nn: Seq<u8>| !(#[trigger] sealed_shape(
                            stored@,
                            key@,
                            p,
                            nn,
                        )) by {
                            if sealed_shape(stored@, key@, p, nn) {
                                assert(ct_b64@ == b64_of(aead_seal_of(key@, nn, p)));
                                assert(nonce_b64@ == b64_of(nn));
                                assert(ct@ == aead_seal_of(key@, nn, p));
                                assert(nonce@ == nn);
                                assert(plain_view == p);
                            }
                        }
                    }
                    Err(ServiceError::DecryptionFailed)
                },
            }
        },
    }
}

/// An envelope decomposes into quote-free pieces in only one way.
proof fn lemma_envelope_injective(c1: Seq<char>, n1: Seq<char>, c2: Seq<char>, n2: Seq<char>)
    requires
        envelope_text(c1),
        envelope_text(n1),
        envelope_text(c2),
        envelope_text(n2),
        envelope_of(c1, n1) == envelope_of(c2, n2),
    ensures
        c1 == c2,
        n1 == n2,
{
    envelope_literal_facts();
    let s = envelope_of(c1, n1);
    assert forall|j: int| 0 <= j < c1.len() implies s[15 + j as int] == c1[j] by {}
    assert(s[15 + c1.len() as int] == env_mid()[0]);
    if c1.len() < c2.len() {
        assert(s[15 + c1.len() as int] == c2[c1.len() as int]);
    }
    if c2.len() < c1.len() {
        assert(s[15 + c2.len() as int] == env_mid()[0]);
        assert(s[15 + c2.len() as int] == c1[c2.len() as int]);
    }
    assert(c1.len() == c2.len());
    assert(c1 =~= c2);
    assert(envelope_of(c1, n1).len() == 28 + c1.len() + n1.len());
    assert(envelope_of(c2, n2).len() == 28 + c2.len() + n2.len());
    assert(n1.len() == n2.len());
    assert forall|j: int| 0 <= j < n1.len() implies n1[j] == n2[j] by {
        assert(s[26 + c1.len() as int + j] == n1[j]);
        assert(s[26 + c2.len() as int + j] == n2[j]);
    }
    assert(n1 =~= n2);
}

} // verus!
