//! The server as an OIDC issuer: rotating RS256 keys, short-lived tokens, and the published key
//! set and discovery document.

use crate::json::{Json, JsonView};
use crate::jwt;
use crate::oauth;
use crate::text;
use rsa::pkcs8::EncodePrivateKey;
use rsa::traits::PublicKeyParts;
use vstd::prelude::*;

verus! {

/// Why an identity or a token could not be had.
#[derive(Debug)]
pub enum IdentityError {
    AuthFailed,
    Issuance(String),
}

/// The mathematical model of an [`IdentityError`].
pub enum IdentityErrorView {
    AuthFailed,
    Issuance(Seq<char>),
}

impl View for IdentityError {
    type V = IdentityErrorView;

    open spec fn view(&self) -> IdentityErrorView {
        match self {
            IdentityError::AuthFailed => IdentityErrorView::AuthFailed,
            IdentityError::Issuance(m) => IdentityErrorView::Issuance(m@),
        }
    }
}

/// One signing key: its id, the private key, and the public modulus and exponent as URL-safe
/// base64.
#[derive(Debug)]
pub struct SigningKey {
    pub kid: String,
    pub private_pem: String,
    pub n: String,
    pub e: String,
}

impl SigningKey {
    /// The published modulus and exponent are those of the private key.
    pub open spec fn matched(self) -> bool {
        &&& self.n@ == oauth::base64url(jwt::public_parts(self.private_pem@).0)
        &&& self.e@ == oauth::base64url(jwt::public_parts(self.private_pem@).1)
    }
}

/// What is signed of an attempt.
#[derive(Debug)]
pub struct Claims {
    pub issuer: String,
    pub subject: String,
    pub audience: String,
    pub expires_at: i64,
    pub run_id: String,
    pub attempt: String,
    pub event: String,
    pub git_ref: String,
    pub sha: String,
}

/// An issuer with rotating keys, the last of them current.
#[derive(Debug)]
pub struct Rs256Issuer {
    pub issuer_url: String,
    pub keys: Vec<SigningKey>,
}

/// How many bits a key has.
pub const KEY_BITS: usize = 2048;

/// `rsa`'s `RsaPrivateKey::new` with that many bits from the operating system's entropy, the key as
/// PKCS#8 PEM and its public modulus and exponent as big-endian bytes, neither longer than the 256
/// bytes of the key. Which key is left to chance.
#[verifier::external_body]
fn rsa_key(bits: usize) -> (r: Result<(String, Vec<u8>, Vec<u8>), String>)
    requires
        bits == KEY_BITS,
    ensures
        r matches Ok(k) ==> k.1@.len() <= 256 && k.2@.len() <= 256 && jwt::public_parts(k.0@) == (k.1@, k.2@),
{
    let mut rng = rand::rngs::OsRng;
    let private = rsa::RsaPrivateKey::new(&mut rng, bits).map_err(|e| format!("keygen: {e}"))?;
    let pem = private.to_pkcs8_pem(rsa::pkcs8::LineEnding::LF).map_err(|e| format!("pem: {e}"))?;
    let public = rsa::RsaPublicKey::from(&private);
    Ok((pem.to_string(), public.n().to_bytes_be(), public.e().to_bytes_be()))
}

fn generate_key(kid: String) -> (r: Result<SigningKey, IdentityError>)
    ensures
        match r {
            Ok(k) => k.kid == kid && k.matched(),
            Err(e) => e is Issuance,
        },
{
    match rsa_key(KEY_BITS) {
        Err(m) => Err(IdentityError::Issuance(m)),
        Ok((private_pem, n, e)) => Ok(SigningKey { kid, private_pem, n: oauth::b64url(&n), e: oauth::b64url(&e) }),
    }
}

/// The id of the `n`-th key.
pub open spec fn key_id(n: nat) -> Seq<char> {
    "scarab-key-"@ + text::decimal(n)
}

/// A published key.
pub open spec fn jwk(k: SigningKey) -> JsonView {
    JsonView::Object(
        seq![
            ("kty"@, JsonView::Str("RSA"@)),
            ("use"@, JsonView::Str("sig"@)),
            ("alg"@, JsonView::Str("RS256"@)),
            ("kid"@, JsonView::Str(k.kid@)),
            ("n"@, JsonView::Str(k.n@)),
            ("e"@, JsonView::Str(k.e@)),
        ],
    )
}

fn text_member(key: &str, value: &str) -> (r: (String, Json))
    ensures
        r.0@ == key@,
        r.1@ == JsonView::Str(value@),
{
    (key.to_owned(), Json::Str(value.to_owned()))
}

fn published(k: &SigningKey) -> (r: Json)
    ensures
        r@ == jwk(*k),
{
    let mut m: Vec<(String, Json)> = Vec::new();
    m.push(text_member("kty", "RSA"));
    m.push(text_member("use", "sig"));
    m.push(text_member("alg", "RS256"));
    m.push(text_member("kid", k.kid.as_str()));
    m.push(text_member("n", k.n.as_str()));
    m.push(text_member("e", k.e.as_str()));
    let r = Json::Object(m);
    assert(r@->Object_0 =~= jwk(*k)->Object_0);
    r
}

/// The claims of a token, by the names they are signed under.
pub open spec fn signed_claims(c: Claims) -> Seq<(Seq<char>, Seq<char>)> {
    seq![
        ("iss"@, c.issuer@),
        ("sub"@, c.subject@),
        ("aud"@, c.audience@),
        ("run_id"@, c.run_id@),
        ("attempt"@, c.attempt@),
        ("event"@, c.event@),
        ("ref"@, c.git_ref@),
        ("sha"@, c.sha@),
    ]
}

impl Rs256Issuer {
    /// There is a current key, the keys are numbered in the order they were made, and what is
    /// published of each is its public half.
    pub open spec fn wf(self) -> bool {
        self.keys@.len() > 0 && forall|i: int|
            0 <= i < self.keys@.len() ==> (#[trigger] self.keys@[i]).kid@ == key_id((i + 1) as nat) && self.keys@[i].matched()
    }

    /// An issuer with a fresh key.
    pub fn generate(issuer_url: &str) -> (r: Result<Rs256Issuer, IdentityError>)
        ensures
            match r {
                Ok(s) => s.wf() && s.keys@.len() == 1 && s.issuer_url@ == issuer_url@,
                Err(e) => e is Issuance,
            },
    {
        let mut kid: String = "scarab-key-".to_owned();
        kid.append(text::u64_to_string(1).as_str());
        match generate_key(kid) {
            Err(e) => Err(e),
            Ok(k) => {
                let mut keys: Vec<SigningKey> = Vec::new();
                keys.push(k);
                Ok(Rs256Issuer { issuer_url: issuer_url.to_owned(), keys })
            },
        }
    }

    /// Adds a new current key and keeps the earlier ones for tokens they signed.
    pub fn rotate(&mut self) -> (r: Result<(), IdentityError>)
        requires
            old(self).wf(),
            old(self).keys@.len() < usize::MAX,
        ensures
            final(self).wf(),
            final(self).issuer_url == old(self).issuer_url,
            match r {
                Ok(_) => final(self).keys@.drop_last() == old(self).keys@ && final(self).keys@.len() == old(self).keys@.len()
                    + 1,
                Err(e) => e is Issuance && final(self).keys@ == old(self).keys@,
            },
    {
        let mut kid: String = "scarab-key-".to_owned();
        kid.append(text::u64_to_string((self.keys.len() + 1) as u64).as_str());
        match generate_key(kid) {
            Err(e) => Err(e),
            Ok(k) => {
                let ghost before = self.keys@;
                self.keys.push(k);
                assert(self.keys@.drop_last() =~= before);
                Ok(())
            },
        }
    }

    pub fn issuer_url(&self) -> (r: &str)
        ensures
            r@ == self.issuer_url@,
    {
        self.issuer_url.as_str()
    }

    /// The key set: every public key, so that tokens signed before a rotation still verify.
    pub fn jwks(&self) -> (r: Json)
        ensures
            r@ == JsonView::Object(seq![("keys"@, JsonView::Array(self.keys@.map_values(|k: SigningKey| jwk(k))))]),
    {
        let ghost want = self.keys@.map_values(|k: SigningKey| jwk(k));
        let mut items: Vec<Json> = Vec::new();
        let mut i: usize = 0;
        while i < self.keys.len()
            invariant
                i <= self.keys@.len(),
                items@.len() == i,
                forall|j: int| 0 <= j < i ==> (#[trigger] items@[j])@ == jwk(self.keys@[j]),
            decreases self.keys@.len() - i,
        {
            items.push(published(&self.keys[i]));
            i = i + 1;
        }
        let array = Json::Array(items);
        assert(array@->Array_0 =~= want);
        let mut m: Vec<(String, Json)> = Vec::new();
        m.push(("keys".to_owned(), array));
        let r = Json::Object(m);
        assert(r@->Object_0 =~= seq![("keys"@, JsonView::Array(want))]);
        r
    }

    /// The discovery document.
    pub fn discovery(&self) -> (r: Json)
        ensures
            r@ == JsonView::Object(
                seq![
                    ("issuer"@, JsonView::Str(self.issuer_url@)),
                    ("jwks_uri"@, JsonView::Str(self.issuer_url@ + "/.well-known/jwks.json"@)),
                    ("id_token_signing_alg_values_supported"@, JsonView::Array(seq![JsonView::Str("RS256"@)])),
                    ("response_types_supported"@, JsonView::Array(seq![JsonView::Str("id_token"@)])),
                    ("subject_types_supported"@, JsonView::Array(seq![JsonView::Str("public"@)])),
                ],
            ),
    {
        let mut uri: String = self.issuer_url.clone();
        uri.append("/.well-known/jwks.json");
        let mut m: Vec<(String, Json)> = Vec::new();
        m.push(text_member("issuer", self.issuer_url.as_str()));
        m.push(text_member("jwks_uri", uri.as_str()));
        m.push(("id_token_signing_alg_values_supported".to_owned(), one_text("RS256")));
        m.push(("response_types_supported".to_owned(), one_text("id_token")));
        m.push(("subject_types_supported".to_owned(), one_text("public")));
        let r = Json::Object(m);
        assert(r@->Object_0 =~= seq![
            ("issuer"@, JsonView::Str(self.issuer_url@)),
            ("jwks_uri"@, JsonView::Str(self.issuer_url@ + "/.well-known/jwks.json"@)),
            ("id_token_signing_alg_values_supported"@, JsonView::Array(seq![JsonView::Str("RS256"@)])),
            ("response_types_supported"@, JsonView::Array(seq![JsonView::Str("id_token"@)])),
            ("subject_types_supported"@, JsonView::Array(seq![JsonView::Str("public"@)])),
        ]);
        r
    }

    fn current(&self) -> (r: &SigningKey)
        requires
            self.keys@.len() > 0,
        ensures
            *r == self.keys@.last(),
    {
        &self.keys[self.keys.len() - 1]
    }

    /// The token that the current key signs over the claims of an attempt.
    pub open spec fn signed(self, claims: Claims) -> Option<Seq<char>> {
        jwt::rs256_token(
            self.keys@.last().private_pem@,
            self.keys@.last().kid@,
            signed_claims(claims),
            seq![("exp"@, claims.expires_at)],
        )
    }

    /// Signs the claims of an attempt with the current key: it fails where the key cannot sign, and
    /// nowhere else.
    pub fn issue(&self, claims: &Claims) -> (r: Result<String, IdentityError>)
        requires
            self.wf(),
        ensures
            match r {
                Ok(t) => self.signed(*claims) == Some(t@) && jwt::token_header(t@) == Some(
                    (true, Some(key_id(self.keys@.len()))),
                ),
                Err(e) => self.signed(*claims) is None && e is Issuance,
            },
            claims.expires_at >= 0 ==> (r matches Ok(t) ==> verifies(self.keys@, t@, claims.audience@)),
    {
        let key = self.current();
        let body = claims_to_sign(claims);
        proof {
            names_its_audience(*claims);
        }
        let mut numbers: Vec<(String, i64)> = Vec::new();
        numbers.push(("exp".to_owned(), claims.expires_at));
        assert(jwt::number_views(numbers@) =~= seq![("exp"@, claims.expires_at)]);
        match jwt::sign_rs256(key.private_pem.as_str(), key.kid.as_str(), &body, &numbers) {
            Err(m) => Err(IdentityError::Issuance(m)),
            Ok(t) => Ok(t),
        }
    }
}

/// Some published key accepts the token for the audience, but for the clock.
pub open spec fn verifies(keys: Seq<SigningKey>, token: Seq<char>, audience: Seq<char>) -> bool {
    exists|i: int|
        0 <= i < keys.len() && jwt::accepted_claims(token, (#[trigger] keys[i]).n@, keys[i].e@, None, audience) is Some
}

proof fn names_its_audience(c: Claims)
    ensures
        jwt::audience_of(signed_claims(c)) == Some(c.audience@),
{
    reveal_with_fuel(jwt::audience_of, 9);
    reveal_strlit("aud");
    reveal_strlit("run_id");
    reveal_strlit("attempt");
    reveal_strlit("event");
    reveal_strlit("ref");
    reveal_strlit("sha");
    let all = signed_claims(c);
    assert("aud"@[0] == 'a' && "run_id"@[0] == 'r' && "attempt"@[1] == 't' && "event"@[0] == 'e' && "ref"@[0] == 'r'
        && "sha"@[0] == 's' && "aud"@[1] == 'u');
    assert(all.drop_last().drop_last().drop_last().drop_last().drop_last().last() == ("aud"@, c.audience@));
}

/// The text claims of a token, under the names they are signed with.
pub fn claims_to_sign(claims: &Claims) -> (r: Vec<(String, String)>)
    ensures
        jwt::claim_views(r@) == signed_claims(*claims),
{
    let mut body: Vec<(String, String)> = Vec::new();
    body.push(("iss".to_owned(), claims.issuer.clone()));
    body.push(("sub".to_owned(), claims.subject.clone()));
    body.push(("aud".to_owned(), claims.audience.clone()));
    body.push(("run_id".to_owned(), claims.run_id.clone()));
    body.push(("attempt".to_owned(), claims.attempt.clone()));
    body.push(("event".to_owned(), claims.event.clone()));
    body.push(("ref".to_owned(), claims.git_ref.clone()));
    body.push(("sha".to_owned(), claims.sha.clone()));
    assert(jwt::claim_views(body@) =~= signed_claims(*claims));
    body
}

fn one_text(s: &str) -> (r: Json)
    ensures
        r@ == JsonView::Array(seq![JsonView::Str(s@)]),
{
    let mut v: Vec<Json> = Vec::new();
    let item = Json::Str(s.to_owned());
    assert(item@ == JsonView::Str(s@));
    v.push(item);
    let r = Json::Array(v);
    assert(r@->Array_0 =~= seq![JsonView::Str(s@)]);
    r
}

/// Checks a token against a published key and an audience, and returns its claims as JSON text.
/// Which tokens pass is decided by the signature, the audience and the clock.
pub fn verify(token: &str, n: &str, e: &str, audience: &str) -> (r: Result<String, IdentityError>)
    ensures
        match r {
            Ok(claims) => {
                &&& jwt::accepted_claims(token@, n@, e@, None, audience@) == Some(claims@)
                &&& jwt::token_header(token@) matches Some(h) && h.0
            },
            Err(x) => x is Issuance,
        },
{
    match jwt::decode_claims(token, n, e, &None, audience) {
        Ok(claims) => Ok(claims),
        Err(m) => Err(IdentityError::Issuance(m)),
    }
}

/// A rotation withdraws no key: every key published before is published afterwards at the same
/// place.
pub proof fn rotation_keeps_published_keys(before: Seq<SigningKey>, after: Seq<SigningKey>, i: int)
    requires
        after.len() > 0,
        after.drop_last() == before,
        0 <= i < before.len(),
    ensures
        after.map_values(|k: SigningKey| jwk(k))[i] == before.map_values(|k: SigningKey| jwk(k))[i],
{
    assert(after.drop_last()[i] == after[i]);
}

/// A token that verified before a rotation verifies after it.
pub proof fn rotation_keeps_tokens_valid(before: Seq<SigningKey>, after: Seq<SigningKey>, token: Seq<char>, audience: Seq<char>)
    requires
        after.len() > 0,
        after.drop_last() == before,
        verifies(before, token, audience),
    ensures
        verifies(after, token, audience),
{
    let i = choose|i: int|
        0 <= i < before.len() && jwt::accepted_claims(token, (#[trigger] before[i]).n@, before[i].e@, None, audience) is Some;
    assert(after.drop_last()[i] == after[i]);
}

/// A token says of an attempt everything that is signed of it, each under its own name, and
/// nothing else.
pub proof fn tokens_say_what_was_attempted(c: Claims)
    ensures
        signed_claims(c).len() == 8,
        signed_claims(c).contains(("iss"@, c.issuer@)),
        signed_claims(c).contains(("sub"@, c.subject@)),
        signed_claims(c).contains(("aud"@, c.audience@)),
        signed_claims(c).contains(("run_id"@, c.run_id@)),
        signed_claims(c).contains(("attempt"@, c.attempt@)),
        signed_claims(c).contains(("event"@, c.event@)),
        signed_claims(c).contains(("ref"@, c.git_ref@)),
        signed_claims(c).contains(("sha"@, c.sha@)),
        jwt::audience_of(signed_claims(c)) == Some(c.audience@),
{
    let s = signed_claims(c);
    assert(s[0] == ("iss"@, c.issuer@));
    assert(s[1] == ("sub"@, c.subject@));
    assert(s[2] == ("aud"@, c.audience@));
    assert(s[3] == ("run_id"@, c.run_id@));
    assert(s[4] == ("attempt"@, c.attempt@));
    assert(s[5] == ("event"@, c.event@));
    assert(s[6] == ("ref"@, c.git_ref@));
    assert(s[7] == ("sha"@, c.sha@));
    names_its_audience(c);
}

/// No two keys of an issuer share an id.
pub proof fn key_ids_differ(a: nat, b: nat)
    ensures
        key_id(a) == key_id(b) ==> a == b,
{
    if key_id(a) == key_id(b) {
        let p = "scarab-key-"@;
        assert(key_id(a).skip(p.len() as int) =~= text::decimal(a));
        assert(key_id(b).skip(p.len() as int) =~= text::decimal(b));
        text::decimals_stand_for_their_number(a);
        text::decimals_stand_for_their_number(b);
    }
}

/// A published key says that it is an RSA key for RS256 signatures, under its own id, and shows its
/// public half alone.
pub proof fn published_keys_say_what_they_are_for(k: SigningKey)
    ensures
        jwk(k)->Object_0.len() == 6,
        jwk(k)->Object_0.contains(("kty"@, JsonView::Str("RSA"@))),
        jwk(k)->Object_0.contains(("use"@, JsonView::Str("sig"@))),
        jwk(k)->Object_0.contains(("alg"@, JsonView::Str("RS256"@))),
        jwk(k)->Object_0.contains(("kid"@, JsonView::Str(k.kid@))),
        jwk(k)->Object_0.contains(("n"@, JsonView::Str(k.n@))),
        jwk(k)->Object_0.contains(("e"@, JsonView::Str(k.e@))),
{
    let m = jwk(k)->Object_0;
    assert(m[0] == ("kty"@, JsonView::Str("RSA"@)));
    assert(m[1] == ("use"@, JsonView::Str("sig"@)));
    assert(m[2] == ("alg"@, JsonView::Str("RS256"@)));
    assert(m[3] == ("kid"@, JsonView::Str(k.kid@)));
    assert(m[4] == ("n"@, JsonView::Str(k.n@)));
    assert(m[5] == ("e"@, JsonView::Str(k.e@)));
}

} // verus!
