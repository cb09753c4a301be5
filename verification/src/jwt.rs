//! Signed tokens: what a token's header says, signing, and checking.

use crate::oauth;
use crate::text;
use vstd::prelude::*;

verus! {

/// What a token's header says: whether it is signed with RS256, and the id of the key.
pub uninterp spec fn token_header(token: Seq<char>) -> Option<(bool, Option<Seq<char>>)>;

pub open spec fn header_view(h: Option<(bool, Option<String>)>) -> Option<(bool, Option<Seq<char>>)> {
    match h {
        Some((rs256, Some(kid))) => Some((rs256, Some(kid@))),
        Some((rs256, None)) => Some((rs256, None)),
        None => None,
    }
}

/// `jsonwebtoken`'s `decode_header`: the algorithm and key id of a token's header, where there is
/// one to read.
#[verifier::external_body]
pub(crate) fn decode_header(token: &str) -> (r: Option<(bool, Option<String>)>)
    ensures
        header_view(r) == token_header(token@),
{
    let header = jsonwebtoken::decode_header(token).ok()?;
    Some((header.alg == jsonwebtoken::Algorithm::RS256, header.kid))
}

/// The claims, as JSON text, of a token that passes every check but the clock's: it has a header
/// and a body to read, the header names RS256, the key with modulus `n` and exponent `e` signed
/// it, its body has an expiry, and any issuer and audience it names are among those asked for.
pub uninterp spec fn accepted_claims(
    token: Seq<char>,
    n: Seq<char>,
    e: Seq<char>,
    issuers: Option<Seq<Seq<char>>>,
    audience: Seq<char>,
) -> Option<Seq<char>>;

pub open spec fn issuer_views(issuers: Option<Vec<String>>) -> Option<Seq<Seq<char>>> {
    match issuers {
        Some(v) => Some(text::views(v@)),
        None => None,
    }
}

/// `jsonwebtoken`'s `decode` with RS256: the claims, as JSON text, of a token that the key with
/// modulus `n` and exponent `e` signed, that is meant for `audience`, that has not expired and,
/// where issuers are given, that one of them issued. The claims of an accepted token are a
/// function of the arguments, and its header names RS256. Whether a token that passes the other
/// checks has expired depends on the clock, so acceptance is not stated; nor is the error's text.
#[verifier::external_body]
pub(crate) fn decode_claims(token: &str, n: &str, e: &str, issuers: &Option<Vec<String>>, audience: &str) -> (r: Result<
    String,
    String,
>)
    ensures
        r matches Ok(c) ==> accepted_claims(token@, n@, e@, issuer_views(*issuers), audience@) == Some(c@),
        r is Ok ==> (token_header(token@) matches Some(h) && h.0),
{
    let key = jsonwebtoken::DecodingKey::from_rsa_components(n, e).map_err(|e| e.to_string())?;
    let mut validation = jsonwebtoken::Validation::new(jsonwebtoken::Algorithm::RS256);
    validation.iss = issuers.as_ref().map(|v| v.iter().cloned().collect());
    validation.set_audience(&[audience]);
    let data = jsonwebtoken::decode::<serde_json::Value>(token, &key, &validation).map_err(|e| e.to_string())?;
    Ok(data.claims.to_string())
}

/// The token that a key signs: its header names RS256 and the key, its body holds the text and the
/// number claims. There is none where the text holds no private key that can sign.
pub uninterp spec fn rs256_token(
    pem: Seq<char>,
    kid: Seq<char>,
    texts: Seq<(Seq<char>, Seq<char>)>,
    numbers: Seq<(Seq<char>, i64)>,
) -> Option<Seq<char>>;

pub open spec fn claim_views(v: Seq<(String, String)>) -> Seq<(Seq<char>, Seq<char>)> {
    v.map_values(|c: (String, String)| (c.0@, c.1@))
}

pub open spec fn number_views(v: Seq<(String, i64)>) -> Seq<(Seq<char>, i64)> {
    v.map_values(|c: (String, i64)| (c.0@, c.1))
}

/// The public modulus and exponent, as big-endian bytes, of the private key in a PEM text.
pub uninterp spec fn public_parts(pem: Seq<char>) -> (Seq<u8>, Seq<u8>);

/// The audience that text claims name: the last claim `aud`.
pub open spec fn audience_of(claims: Seq<(Seq<char>, Seq<char>)>) -> Option<Seq<char>>
    decreases claims.len(),
{
    if claims.len() == 0 {
        None
    } else if claims.last().0 == "aud"@ {
        Some(claims.last().1)
    } else {
        audience_of(claims.drop_last())
    }
}

/// The expiry that number claims give where they give nothing else.
pub open spec fn expiry_of(numbers: Seq<(Seq<char>, i64)>) -> Option<i64> {
    if numbers.len() == 1 && numbers[0].0 == "exp"@ {
        Some(numbers[0].1)
    } else {
        None
    }
}

/// `jsonwebtoken`'s `encode` with RS256: the token with the key's id in its header and the named
/// text and number claims in its body, signed with the private key in `pem`. RS256 draws on no
/// chance: the token, and whether there is one, depend on the arguments alone. The token's header
/// reads back as RS256 with that key id, and the public half of the key accepts it for the audience
/// it names where it has an expiry. Which keys can sign is not stated, nor the text of an error.
#[verifier::external_body]
pub(crate) fn sign_rs256(pem: &str, kid: &str, texts: &Vec<(String, String)>, numbers: &Vec<(String, i64)>) -> (r: Result<
    String,
    String,
>)
    ensures
        match r {
            Ok(t) => rs256_token(pem@, kid@, claim_views(texts@), number_views(numbers@)) == Some(t@),
            Err(_) => rs256_token(pem@, kid@, claim_views(texts@), number_views(numbers@)) is None,
        },
        r matches Ok(t) ==> token_header(t@) == Some((true, Some(kid@))),
        r matches Ok(t) ==> (expiry_of(number_views(numbers@)) matches Some(exp) ==> (exp >= 0 ==> (audience_of(
            claim_views(texts@),
        ) matches Some(audience) ==> accepted_claims(
            t@,
            oauth::base64url(public_parts(pem@).0),
            oauth::base64url(public_parts(pem@).1),
            None,
            audience,
        ) is Some))),
{
    let mut header = jsonwebtoken::Header::new(jsonwebtoken::Algorithm::RS256);
    header.kid = Some(kid.to_string());
    let mut body: serde_json::Map<String, serde_json::Value> =
        texts.iter().map(|(k, v)| (k.clone(), v.clone().into())).collect();
    body.extend(numbers.iter().map(|(k, n)| (k.clone(), (*n).into())));
    let key = jsonwebtoken::EncodingKey::from_rsa_pem(pem.as_bytes()).map_err(|e| e.to_string())?;
    jsonwebtoken::encode(&header, &body, &key).map_err(|e| e.to_string())
}

} // verus!
