//! Verification of QStash delivery signatures: an HS256 token whose claims
//! bind the delivery to the worker URL and to the SHA-256 digest of the body.
use base64::Engine;
use hmac::Mac;
use serde_json::{from_slice, from_value, Value};
use vstd::prelude::*;
use vstd::utf8::encode_utf8;
use crate::text::{chars_of, starts_with, string_of, trim, trim_ws};

verus! {

pub const UPSTASH_SIGNATURE_HEADER: &'static str = "upstash-signature";

#[derive(Debug, Clone, Copy, PartialEq, Eq)]
pub enum SignatureError {
    MissingSignatureHeader,
    MissingSigningKey,
    InvalidToken,
    SignatureMismatch,
    Expired,
    NotYetActive,
    UnexpectedIssuer,
    UnexpectedSubject,
    MissingBodyClaim,
    BodyMismatch,
}

impl SignatureError {
    /// The human-readable description of the error.
    pub fn message(self) -> (r: &'static str)
        ensures
            r@ == signature_error_message(self),
    {
        match self {
            SignatureError::MissingSignatureHeader => "missing upstash-signature header",
            SignatureError::MissingSigningKey => "missing signing key",
            SignatureError::InvalidToken => "invalid qstash token",
            SignatureError::SignatureMismatch => "signature mismatch",
            SignatureError::Expired => "signature is expired",
            SignatureError::NotYetActive => "signature is not active yet",
            SignatureError::UnexpectedIssuer => "unexpected issuer",
            SignatureError::UnexpectedSubject => "unexpected subject",
            SignatureError::MissingBodyClaim => "missing body claim",
            SignatureError::BodyMismatch => "body hash mismatch",
        }
    }
}

pub open spec fn signature_error_message(e: SignatureError) -> Seq<char> {
    match e {
        SignatureError::MissingSignatureHeader => "missing upstash-signature header"@,
        SignatureError::MissingSigningKey => "missing signing key"@,
        SignatureError::InvalidToken => "invalid qstash token"@,
        SignatureError::SignatureMismatch => "signature mismatch"@,
        SignatureError::Expired => "signature is expired"@,
        SignatureError::NotYetActive => "signature is not active yet"@,
        SignatureError::UnexpectedIssuer => "unexpected issuer"@,
        SignatureError::UnexpectedSubject => "unexpected subject"@,
        SignatureError::MissingBodyClaim => "missing body claim"@,
        SignatureError::BodyMismatch => "body hash mismatch"@,
    }
}

/// The registered claims of a QStash token that the check reads.
#[derive(Debug, PartialEq, Eq)]
pub struct QStashClaims {
    pub exp: Option<i64>,
    pub nbf: Option<i64>,
    pub iss: Option<String>,
    pub sub: Option<String>,
    pub body: Option<String>,
}

/// The claims as plain values.
pub struct ClaimsView {
    pub exp: Option<i64>,
    pub nbf: Option<i64>,
    pub iss: Option<Seq<char>>,
    pub sub: Option<Seq<char>>,
    pub body: Option<Seq<char>>,
}

impl View for QStashClaims {
    type V = ClaimsView;

    open spec fn view(&self) -> ClaimsView {
        ClaimsView {
            exp: self.exp,
            nbf: self.nbf,
            iss: match self.iss { Some(s) => Some(s@), None => None },
            sub: match self.sub { Some(s) => Some(s@), None => None },
            body: match self.body { Some(s) => Some(s@), None => None },
        }
    }
}

/// The SHA-256 digest of `data`.
pub uninterp spec fn sha256(data: Seq<u8>) -> Seq<u8>;

/// The HMAC-SHA256 tag of `msg` under `key`.
pub uninterp spec fn hmac_sha256(key: Seq<u8>, msg: Seq<u8>) -> Seq<u8>;

/// URL-safe base64 text of `data` without `=` padding.
pub uninterp spec fn base64url_unpadded(data: Seq<u8>) -> Seq<char>;

/// URL-safe base64 text of `data` with `=` padding.
pub uninterp spec fn base64url_padded(data: Seq<u8>) -> Seq<char>;

/// The bytes that the unpadded URL-safe base64 engine decodes `text` to, if it accepts it.
pub uninterp spec fn base64url_unpadded_decode(text: Seq<u8>) -> Option<Seq<u8>>;

/// The bytes that the padded URL-safe base64 engine decodes `text` to, if it accepts it.
pub uninterp spec fn base64url_padded_decode(text: Seq<u8>) -> Option<Seq<u8>>;

/// The claims that `json` holds, if it is a JSON object whose claim members have
/// the expected JSON types.
pub uninterp spec fn json_claims(json: Seq<u8>) -> Option<ClaimsView>;

/// `sha2::Sha256::digest`: the result is the digest of `data`, 32 bytes long.
#[verifier::external_body]
fn sha256_digest(data: &[u8]) -> (r: Vec<u8>)
    ensures
        r@ == sha256(data@),
        r@.len() == 32,
{
    <sha2::Sha256 as sha2::Digest>::digest(data).to_vec()
}

/// `hmac::Hmac::<Sha256>` keyed with `key` over `msg`. The crate accepts keys of
/// any length (`new_from_slice` always returns `Ok` for `Hmac`), so the result is
/// always `Some` with the tag of `msg` under `key`; the error arm is kept because
/// the signature of `new_from_slice` allows it.
#[verifier::external_body]
fn hmac_sha256_tag(key: &[u8], msg: &[u8]) -> (r: Option<Vec<u8>>)
    ensures
        r is Some,
        r matches Some(tag) ==> tag@ == hmac_sha256(key@, msg@),
{
    match <hmac::Hmac<sha2::Sha256> as hmac::digest::KeyInit>::new_from_slice(key) {
        Ok(mut mac) => {
            mac.update(msg);
            Some(mac.finalize().into_bytes().to_vec())
        },
        Err(_) => None,
    }
}

/// `URL_SAFE_NO_PAD.encode`: the unpadded URL-safe base64 text of `data`.
#[verifier::external_body]
fn encode_base64url_unpadded(data: &[u8]) -> (r: String)
    ensures
        r@ == base64url_unpadded(data@),
{
    base64::engine::general_purpose::URL_SAFE_NO_PAD.encode(data)
}

/// `URL_SAFE.encode`: the padded URL-safe base64 text of `data`.
#[verifier::external_body]
fn encode_base64url_padded(data: &[u8]) -> (r: String)
    ensures
        r@ == base64url_padded(data@),
{
    base64::engine::general_purpose::URL_SAFE.encode(data)
}

/// `URL_SAFE_NO_PAD.decode`: `None` where the engine reports an error.
#[verifier::external_body]
fn decode_base64url_unpadded(text: &[u8]) -> (r: Option<Vec<u8>>)
    ensures
        r matches Some(v) ==> base64url_unpadded_decode(text@) == Some(v@),
        r is None ==> base64url_unpadded_decode(text@) is None,
{
    base64::engine::general_purpose::URL_SAFE_NO_PAD.decode(text).ok()
}

/// `URL_SAFE.decode`: `None` where the engine reports an error.
#[verifier::external_body]
fn decode_base64url_padded(text: &[u8]) -> (r: Option<Vec<u8>>)
    ensures
        r matches Some(v) ==> base64url_padded_decode(text@) == Some(v@),
        r is None ==> base64url_padded_decode(text@) is None,
{
    base64::engine::general_purpose::URL_SAFE.decode(text).ok()
}

/// The claims as a derived `Deserialize` struct of five optional members reads
/// them: a JSON object through `serde_json::from_slice` into a `Map`, then
/// `serde_json::from_value` of each claim member (an absent member reads as
/// `null`); any other JSON through `serde_json::from_slice` into a tuple of the five
/// claims in their order, which takes an array of exactly five. The result is named,
/// not stated. Unlike a derived struct, an object that repeats a claim member is
/// read here with its last value.
#[verifier::external_body]
fn decode_claims(json: &[u8]) -> (r: Option<QStashClaims>)
    ensures
        r matches Some(c) ==> json_claims(json@) == Some(c@),
        r is None ==> json_claims(json@) is None,
{
    let Ok(object) = from_slice::<serde_json::Map<String, Value>>(json) else {
        let (exp, nbf, iss, sub, body) = from_slice(json).ok()?;
        return Some(QStashClaims { exp, nbf, iss, sub, body });
    };
    Some(QStashClaims {
        exp: from_value(object.get("exp").cloned().unwrap_or_default()).ok()?,
        nbf: from_value(object.get("nbf").cloned().unwrap_or_default()).ok()?,
        iss: from_value(object.get("iss").cloned().unwrap_or_default()).ok()?,
        sub: from_value(object.get("sub").cloned().unwrap_or_default()).ok()?,
        body: from_value(object.get("body").cloned().unwrap_or_default()).ok()?,
    })
}

/// The current UNIX time in seconds (`SystemTime::now` measured from `UNIX_EPOCH`;
/// a clock set before the epoch reads as 0). Nothing is stated of the result: it
/// depends on the clock.
#[verifier::external_body]
pub(crate) fn current_unix_timestamp() -> (r: i64) {
    match std::time::SystemTime::now().duration_since(std::time::UNIX_EPOCH) {
        Ok(elapsed) => elapsed.as_secs() as i64,
        Err(_) => 0,
    }
}

/// The pieces of `b` between the separator bytes `sep`, as `split(sep)` yields them.
pub open spec fn split_bytes_spec(b: Seq<u8>, sep: u8) -> Seq<Seq<u8>>
    decreases b.len(),
{
    if b.len() == 0 {
        seq![Seq::<u8>::empty()]
    } else {
        let parts = split_bytes_spec(b.drop_last(), sep);
        if b.last() == sep {
            parts.push(Seq::<u8>::empty())
        } else {
            parts.update(parts.len() - 1, parts.last().push(b.last()))
        }
    }
}

proof fn lemma_split_nonempty(b: Seq<u8>, sep: u8)
    ensures
        split_bytes_spec(b, sep).len() >= 1,
    decreases b.len(),
{
    if b.len() > 0 {
        lemma_split_nonempty(b.drop_last(), sep);
    }
}

/// The byte contents of each piece.
pub open spec fn pieces_view(v: Seq<Vec<u8>>) -> Seq<Seq<u8>> {
    v.map_values(|p: Vec<u8>| p@)
}

/// `split(sep)` on bytes.
fn split_bytes(b: &[u8], sep: u8) -> (r: Vec<Vec<u8>>)
    ensures
        pieces_view(r@) == split_bytes_spec(b@, sep),
{
    let mut parts: Vec<Vec<u8>> = Vec::new();
    parts.push(Vec::new());
    let mut i: usize = 0;
    proof {
        assert(b@.take(0) =~= Seq::<u8>::empty());
        assert(pieces_view(parts@) =~= seq![Seq::<u8>::empty()]);
    }
    while i < b.len()
        invariant
            i <= b.len(),
            parts.len() >= 1,
            pieces_view(parts@) == split_bytes_spec(b@.take(i as int), sep),
        decreases b.len() - i,
    {
        let ghost before = pieces_view(parts@);
        proof {
            assert(b@.take(i + 1).drop_last() =~= b@.take(i as int));
        }
        if b[i] == sep {
            parts.push(Vec::new());
            proof {
                assert(pieces_view(parts@) =~= before.push(Seq::<u8>::empty()));
            }
        } else {
            let last = parts.len() - 1;
            let mut piece = parts.pop().unwrap();
            piece.push(b[i]);
            parts.push(piece);
            proof {
                assert(pieces_view(parts@) =~= before.update(last as int, before.last().push(b@[i as int])));
            }
        }
        i = i + 1;
    }
    proof {
        assert(b@.take(b@.len() as int) =~= b@);
    }
    parts
}

/// What the URL-safe base64 decoding of a token piece gives: the unpadded engine
/// first, the padded one where the first refuses it.
pub open spec fn decode_base64url_spec(text: Seq<u8>) -> Option<Seq<u8>> {
    match base64url_unpadded_decode(text) {
        Some(v) => Some(v),
        None => base64url_padded_decode(text),
    }
}

/// URL-safe base64 decoding, with or without padding.
pub fn decode_base64url(value: &[u8]) -> (r: Result<Vec<u8>, SignatureError>)
    ensures
        match decode_base64url_spec(value@) {
            Some(v) => r matches Ok(out) && out@ == v,
            None => r == Err::<Vec<u8>, SignatureError>(SignatureError::InvalidToken),
        },
{
    match decode_base64url_unpadded(value) {
        Some(v) => Ok(v),
        None => match decode_base64url_padded(value) {
            Some(v) => Ok(v),
            None => Err(SignatureError::InvalidToken),
        },
    }
}

/// The outcome of checking one token against one signing key at time `now`: the
/// token is three `.`-separated pieces; the third is the HMAC-SHA256 of the first
/// two joined by `.`; the second decodes to claims whose `exp` is not passed, whose
/// `nbf` (if any) is reached, whose `iss` (if any) is `Upstash`, whose `sub` is
/// the URL and whose `body` is the base64url SHA-256 digest of the body.
pub open spec fn key_verdict(
    token: Seq<u8>,
    key: Seq<u8>,
    body: Seq<u8>,
    url: Seq<char>,
    now: i64,
) -> Result<(), SignatureError> {
    let parts = split_bytes_spec(token, 46u8);
    if parts.len() != 3 {
        Err(SignatureError::InvalidToken)
    } else {
        match decode_base64url_spec(parts[2]) {
            None => Err(SignatureError::InvalidToken),
            Some(provided) => if provided != hmac_sha256(key, parts[0] + seq![46u8] + parts[1]) {
                Err(SignatureError::SignatureMismatch)
            } else {
                match decode_base64url_spec(parts[1]) {
                    None => Err(SignatureError::InvalidToken),
                    Some(json) => match json_claims(json) {
                        None => Err(SignatureError::InvalidToken),
                        Some(c) => claims_verdict(c, body, url, now),
                    },
                }
            },
        }
    }
}

/// The outcome of the claim checks.
pub open spec fn claims_verdict(c: ClaimsView, body: Seq<u8>, url: Seq<char>, now: i64) -> Result<(), SignatureError> {
    match c.exp {
        None => Err(SignatureError::InvalidToken),
        Some(exp) => if now > exp {
            Err(SignatureError::Expired)
        } else if c.nbf matches Some(nbf) && now < nbf {
            Err(SignatureError::NotYetActive)
        } else if c.iss matches Some(iss) && iss != "Upstash"@ {
            Err(SignatureError::UnexpectedIssuer)
        } else if c.sub != Some(url) {
            Err(SignatureError::UnexpectedSubject)
        } else {
            match c.body {
                None => Err(SignatureError::MissingBodyClaim),
                Some(h) => if h != base64url_unpadded(sha256(body)) && h != base64url_padded(sha256(body)) {
                    Err(SignatureError::BodyMismatch)
                } else {
                    Ok(())
                },
            }
        },
    }
}

fn opt_string_is(o: &Option<String>, s: &str) -> (r: bool)
    ensures
        r == (o matches Some(v) && v@ == s@),
{
    match o {
        Some(v) => {
            let a = chars_of(v.as_str());
            let b = chars_of(s);
            crate::text::chars_eq(&a, &b)
        },
        None => false,
    }
}

fn string_eq(a: &String, b: &String) -> (r: bool)
    ensures
        r == (a@ == b@),
{
    let x = chars_of(a.as_str());
    let y = chars_of(b.as_str());
    crate::text::chars_eq(&x, &y)
}

fn bytes_eq(a: &Vec<u8>, b: &Vec<u8>) -> (r: bool)
    ensures
        r == (a@ == b@),
{
    if a.len() != b.len() {
        return false;
    }
    let mut i: usize = 0;
    while i < a.len()
        invariant
            a.len() == b.len(),
            i <= a.len(),
            forall|k: int| 0 <= k < i ==> a@[k] == b@[k],
        decreases a.len() - i,
    {
        if a[i] != b[i] {
            return false;
        }
        i = i + 1;
    }
    proof {
        assert(a@ =~= b@);
    }
    true
}

/// The claim checks of `claims_verdict`.
pub fn check_claims(claims: &QStashClaims, body: &[u8], url: &str, now: i64) -> (r: Result<(), SignatureError>)
    ensures
        r == claims_verdict(claims@, body@, url@, now),
{
    let exp = match claims.exp {
        Some(exp) => exp,
        None => return Err(SignatureError::InvalidToken),
    };
    if now > exp {
        return Err(SignatureError::Expired);
    }
    if let Some(nbf) = claims.nbf {
        if now < nbf {
            return Err(SignatureError::NotYetActive);
        }
    }
    if claims.iss.is_some() && !opt_string_is(&claims.iss, "Upstash") {
        return Err(SignatureError::UnexpectedIssuer);
    }
    if !opt_string_is(&claims.sub, url) {
        return Err(SignatureError::UnexpectedSubject);
    }
    let provided = match &claims.body {
        Some(h) => h,
        None => return Err(SignatureError::MissingBodyClaim),
    };
    let digest = sha256_digest(body);
    let unpadded = encode_base64url_unpadded(digest.as_slice());
    let padded = encode_base64url_padded(digest.as_slice());
    if !string_eq(provided, &unpadded) && !string_eq(provided, &padded) {
        return Err(SignatureError::BodyMismatch);
    }
    Ok(())
}

/// Checks one token against one signing key at time `now`.
pub fn verify_signature_with_key(
    token: &[u8],
    signing_key: &[u8],
    body: &[u8],
    url: &str,
    now: i64,
) -> (r: Result<(), SignatureError>)
    ensures
        r == key_verdict(token@, signing_key@, body@, url@, now),
{
    let parts = split_bytes(token, 46u8);
    if parts.len() != 3 {
        return Err(SignatureError::InvalidToken);
    }
    let provided = match decode_base64url(parts[2].as_slice()) {
        Ok(v) => v,
        Err(e) => return Err(e),
    };
    let mut signing_input: Vec<u8> = Vec::new();
    let mut k: usize = 0;
    while k < parts[0].len()
        invariant
            parts.len() == 3,
            k <= parts[0].len(),
            signing_input@ == parts[0]@.take(k as int),
        decreases parts[0].len() - k,
    {
        signing_input.push(parts[0][k]);
        proof {
            assert(parts[0]@.take(k + 1) =~= parts[0]@.take(k as int).push(parts[0]@[k as int]));
        }
        k = k + 1;
    }
    signing_input.push(46u8);
    let mut k: usize = 0;
    let ghost head = signing_input@;
    while k < parts[1].len()
        invariant
            parts.len() == 3,
            k <= parts[1].len(),
            signing_input@ == head + parts[1]@.take(k as int),
        decreases parts[1].len() - k,
    {
        signing_input.push(parts[1][k]);
        proof {
            assert(parts[1]@.take(k + 1) =~= parts[1]@.take(k as int).push(parts[1]@[k as int]));
        }
        k = k + 1;
    }
    proof {
        assert(parts[0]@.take(parts[0]@.len() as int) =~= parts[0]@);
        assert(parts[1]@.take(parts[1]@.len() as int) =~= parts[1]@);
        assert(pieces_view(parts@)[0] == parts[0]@);
        assert(pieces_view(parts@)[1] == parts[1]@);
        assert(pieces_view(parts@)[2] == parts[2]@);
        assert(signing_input@ =~= parts[0]@ + seq![46u8] + parts[1]@);
        assert(split_bytes_spec(token@, 46u8)[0] == parts[0]@);
        assert(split_bytes_spec(token@, 46u8)[1] == parts[1]@);
        assert(split_bytes_spec(token@, 46u8)[2] == parts[2]@);
    }
    let expected = match hmac_sha256_tag(signing_key, signing_input.as_slice()) {
        Some(tag) => tag,
        None => return Err(SignatureError::InvalidToken),
    };
    if !bytes_eq(&provided, &expected) {
        return Err(SignatureError::SignatureMismatch);
    }
    let claims_json = match decode_base64url(parts[1].as_slice()) {
        Ok(v) => v,
        Err(e) => return Err(e),
    };
    let claims = match decode_claims(claims_json.as_slice()) {
        Some(c) => c,
        None => return Err(SignatureError::InvalidToken),
    };
    check_claims(&claims, body, url, now)
}

/// The view of an optional string slice.
pub open spec fn opt_str_view(o: Option<&str>) -> Option<Seq<char>> {
    match o {
        Some(s) => Some(s@),
        None => None,
    }
}

/// A signing key as the check uses it: trimmed, and absent when blank.
pub open spec fn usable_key(k: Option<Seq<char>>) -> Option<Seq<char>> {
    match k {
        Some(s) => if trim(s).len() > 0 { Some(trim(s)) } else { None },
        None => None,
    }
}

/// `t` without a leading `Bearer `.
pub open spec fn strip_bearer(t: Seq<char>) -> Seq<char> {
    let p = "Bearer "@;
    if p.len() <= t.len() && t.take(p.len() as int) == p {
        t.skip(p.len() as int)
    } else {
        t
    }
}

/// The token that a signature header carries: trimmed, without a `Bearer ` prefix;
/// absent when the header is missing or blank.
pub open spec fn header_token(sig: Option<Seq<char>>) -> Option<Seq<char>> {
    match sig {
        Some(s) => if trim(s).len() > 0 { Some(strip_bearer(trim(s))) } else { None },
        None => None,
    }
}

/// The outcome of checking the token with one key, if that key is usable.
pub open spec fn attempt(token: Seq<char>, key: Option<Seq<char>>, body: Seq<u8>, url: Seq<char>, now: i64) -> Option<Result<(), SignatureError>> {
    match usable_key(key) {
        Some(k) => Some(key_verdict(encode_utf8(token), encode_utf8(k), body, url, now)),
        None => None,
    }
}

/// The outcome of checking a QStash delivery at time `now`: a delivery without a
/// token is refused; the token is tried with the current key, then with the next
/// one (blank keys are skipped); it is accepted if either accepts it; with no usable
/// key it is refused for the missing key, else with the error of the last key tried.
pub open spec fn delivery_verdict(
    sig: Option<Seq<char>>,
    body: Seq<u8>,
    url: Seq<char>,
    current: Option<Seq<char>>,
    next: Option<Seq<char>>,
    now: i64,
) -> Result<(), SignatureError> {
    match header_token(sig) {
        None => Err(SignatureError::MissingSignatureHeader),
        Some(t) => {
            let r1 = attempt(t, current, body, url, now);
            let r2 = attempt(t, next, body, url, now);
            if r1 == Some(Ok::<(), SignatureError>(())) || r2 == Some(Ok::<(), SignatureError>(())) {
                Ok(())
            } else {
                match (r1, r2) {
                    (_, Some(e)) => e,
                    (Some(e), None) => e,
                    (None, None) => Err(SignatureError::MissingSigningKey),
                }
            }
        },
    }
}

/// The key's trimmed text, if it is not blank.
fn usable_key_string(key: Option<&str>) -> (r: Option<String>)
    ensures
        match usable_key(opt_str_view(key)) {
            Some(k) => r matches Some(s) && s@ == k,
            None => r is None,
        },
{
    match key {
        Some(k) => {
            let t = crate::text::trimmed(k);
            if t.len() > 0 {
                Some(string_of(&t))
            } else {
                None
            }
        },
        None => None,
    }
}

/// The header's token text, if there is one.
fn header_token_string(signature: Option<&str>) -> (r: Option<String>)
    ensures
        match header_token(opt_str_view(signature)) {
            Some(t) => r matches Some(s) && s@ == t,
            None => r is None,
        },
{
    match signature {
        Some(sig) => {
            let t = crate::text::trimmed(sig);
            if t.len() == 0 {
                return None;
            }
            let bearer = chars_of("Bearer ");
            if starts_with(&t, &bearer) {
                let rest = crate::text::slice_chars(&t, bearer.len(), t.len());
                proof {
                    assert(rest@ =~= t@.skip(bearer@.len() as int));
                }
                Some(string_of(&rest))
            } else {
                Some(string_of(&t))
            }
        },
        None => None,
    }
}

/// Checks a QStash delivery at time `now` (see `delivery_verdict`).
pub fn verify_qstash_signature_at(
    signature: Option<&str>,
    body: &[u8],
    url: &str,
    current_signing_key: Option<&str>,
    next_signing_key: Option<&str>,
    now: i64,
) -> (r: Result<(), SignatureError>)
    ensures
        r == delivery_verdict(
            opt_str_view(signature),
            body@,
            url@,
            opt_str_view(current_signing_key),
            opt_str_view(next_signing_key),
            now,
        ),
{
    let token = match header_token_string(signature) {
        Some(t) => t,
        None => return Err(SignatureError::MissingSignatureHeader),
    };
    let token_bytes = token.as_str().as_bytes();
    let ghost t = token@;
    let r1: Option<Result<(), SignatureError>> = match usable_key_string(current_signing_key) {
        Some(k) => Some(verify_signature_with_key(token_bytes, k.as_str().as_bytes(), body, url, now)),
        None => None,
    };
    if let Some(Ok(())) = r1 {
        return Ok(());
    }
    let r2: Option<Result<(), SignatureError>> = match usable_key_string(next_signing_key) {
        Some(k) => Some(verify_signature_with_key(token_bytes, k.as_str().as_bytes(), body, url, now)),
        None => None,
    };
    if let Some(Ok(())) = r2 {
        return Ok(());
    }
    match (r1, r2) {
        (_, Some(e)) => e,
        (Some(e), None) => e,
        (None, None) => Err(SignatureError::MissingSigningKey),
    }
}

/// Checks a QStash delivery against the current time: the outcome is the verdict of
/// `delivery_verdict` at the instant that the clock gave.
pub fn verify_qstash_signature(
    signature: Option<&str>,
    body: &[u8],
    url: &str,
    current_signing_key: Option<&str>,
    next_signing_key: Option<&str>,
) -> (r: Result<(), SignatureError>)
    ensures
        exists|now: i64|
            r == delivery_verdict(
                opt_str_view(signature),
                body@,
                url@,
                opt_str_view(current_signing_key),
                opt_str_view(next_signing_key),
                now,
            ),
{
    let now = current_unix_timestamp();
    verify_qstash_signature_at(signature, body, url, current_signing_key, next_signing_key, now)
}

/// A delivery is accepted when its token passes with either the current or the
/// next signing key.
pub proof fn lemma_either_key_accepts(
    sig: Option<Seq<char>>,
    body: Seq<u8>,
    url: Seq<char>,
    current: Option<Seq<char>>,
    next: Option<Seq<char>>,
    now: i64,
)
    requires
        header_token(sig) matches Some(t) && (attempt(t, current, body, url, now) == Some(Ok::<(), SignatureError>(()))
            || attempt(t, next, body, url, now) == Some(Ok::<(), SignatureError>(()))),
    ensures
        delivery_verdict(sig, body, url, current, next, now) == Ok::<(), SignatureError>(()),
{
}

/// Swapping the current and the next signing key never changes whether a
/// delivery is accepted.
pub proof fn lemma_key_order_does_not_matter(
    sig: Option<Seq<char>>,
    body: Seq<u8>,
    url: Seq<char>,
    current: Option<Seq<char>>,
    next: Option<Seq<char>>,
    now: i64,
)
    ensures
        (delivery_verdict(sig, body, url, current, next, now) == Ok::<(), SignatureError>(()))
            == (delivery_verdict(sig, body, url, next, current, now) == Ok::<(), SignatureError>(())),
{
    match header_token(sig) {
        None => {},
        Some(t) => {
            let r1 = attempt(t, current, body, url, now);
            let r2 = attempt(t, next, body, url, now);
            if r1 != Some(Ok::<(), SignatureError>(())) && r2 != Some(Ok::<(), SignatureError>(())) {
                assert(r1 is None ==> r2 is None ==> delivery_verdict(sig, body, url, current, next, now) == Err::<(), SignatureError>(SignatureError::MissingSigningKey));
            }
        },
    }
}

/// A delivery without a signature header (or with a blank one) is refused for
/// the missing header, whatever the keys.
pub proof fn lemma_missing_header_refused(
    sig: Option<Seq<char>>,
    body: Seq<u8>,
    url: Seq<char>,
    current: Option<Seq<char>>,
    next: Option<Seq<char>>,
    now: i64,
)
    requires
        match sig {
            Some(s) => trim(s).len() == 0,
            None => true,
        },
    ensures
        delivery_verdict(sig, body, url, current, next, now) == Err::<(), SignatureError>(SignatureError::MissingSignatureHeader),
{
}

/// A signed delivery with no usable signing key is refused for the missing key.
pub proof fn lemma_no_usable_key_refused(
    sig: Option<Seq<char>>,
    body: Seq<u8>,
    url: Seq<char>,
    current: Option<Seq<char>>,
    next: Option<Seq<char>>,
    now: i64,
)
    requires
        header_token(sig) is Some,
        usable_key(current) is None,
        usable_key(next) is None,
    ensures
        delivery_verdict(sig, body, url, current, next, now) == Err::<(), SignatureError>(SignatureError::MissingSigningKey),
{
}

} // verus!
