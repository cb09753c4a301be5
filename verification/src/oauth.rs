//! Login at an OAuth or OIDC provider: the secrets of one login, the requests that are sent, and
//! what follows from each answer.

use crate::text;
use base64::Engine;
use rand::RngCore;
use sha2::Digest;
use vstd::prelude::*;
use vstd::string::*;

verus! {

/// A byte that stands for itself in a query.
pub open spec fn unreserved(b: u8) -> bool {
    (0x41 <= b <= 0x5a) || (0x61 <= b <= 0x7a) || (0x30 <= b <= 0x39) || b == 0x2d || b == 0x2e || b == 0x5f || b == 0x7e
}

/// An upper-case hexadecimal digit.
pub open spec fn hex_digit(n: u8) -> char {
    if n < 10 {
        (0x30 + n) as char
    } else {
        (0x37 + n) as char
    }
}

pub open spec fn encoded_byte(b: u8) -> Seq<char> {
    if unreserved(b) {
        seq![b as char]
    } else {
        seq!['%', hex_digit(b / 16), hex_digit(b % 16)]
    }
}

pub open spec fn encoded_bytes(bytes: Seq<u8>) -> Seq<char>
    decreases bytes.len(),
{
    if bytes.len() == 0 {
        Seq::empty()
    } else {
        encoded_bytes(bytes.drop_last()) + encoded_byte(bytes.last())
    }
}

/// A query value: every byte of its UTF-8 encoding that is not unreserved stands as a percent
/// sign and two digits.
pub open spec fn encoded(v: Seq<char>) -> Seq<char> {
    encoded_bytes(vstd::utf8::encode_utf8(v))
}

fn hex_char(n: u8) -> (r: char)
    requires
        n < 16,
    ensures
        r == hex_digit(n),
{
    if n < 10 {
        (0x30 + n) as char
    } else {
        (0x37 + n) as char
    }
}

/// Percent-encodes a query value.
pub fn percent_encode(v: &str) -> (r: String)
    ensures
        r@ == encoded(v@),
{
    let bytes = v.as_bytes_vec();
    let mut out: String = String::new();
    let mut i: usize = 0;
    assert(out@ =~= encoded_bytes(bytes@.take(0)));
    while i < bytes.len()
        invariant
            i <= bytes@.len(),
            out@ == encoded_bytes(bytes@.take(i as int)),
        decreases bytes@.len() - i,
    {
        let ghost before = out@;
        let b: u8 = bytes[i];
        assert(bytes@.take(i + 1).drop_last() =~= bytes@.take(i as int));
        let plain: bool = (0x41 <= b && b <= 0x5a) || (0x61 <= b && b <= 0x7a) || (0x30 <= b && b <= 0x39) || b == 0x2d || b
            == 0x2e || b == 0x5f || b == 0x7e;
        if plain {
            out.push(b as char);
            assert(out@ =~= before + seq![b as char]);
        } else {
            out.push('%');
            out.push(hex_char(b / 16));
            out.push(hex_char(b % 16));
            assert(out@ =~= before + seq!['%', hex_digit(b / 16), hex_digit(b % 16)]);
        }
        i = i + 1;
    }
    assert(bytes@.take(i as int) =~= bytes@);
    out
}

/// A character that an encoded value may hold.
pub open spec fn query_safe(c: char) -> bool {
    c == '%' || unreserved(c as u8) && (c as u32) < 128
}

proof fn query_safe_is_ascii(c: char)
    requires
        query_safe(c),
    ensures
        '\0' <= c <= '\u{7f}',
{
}

/// An encoded value holds unreserved characters and percent signs only, so it ends neither a
/// parameter nor the query.
pub proof fn encoded_values_stay_inside(v: Seq<char>, i: int)
    requires
        0 <= i < encoded(v).len(),
    ensures
        query_safe(encoded(v)[i]),
{
    encoded_bytes_stay_inside(vstd::utf8::encode_utf8(v), i);
}

proof fn encoded_bytes_stay_inside(bytes: Seq<u8>, i: int)
    requires
        0 <= i < encoded_bytes(bytes).len(),
    ensures
        query_safe(encoded_bytes(bytes)[i]),
    decreases bytes.len(),
{
    let head = encoded_bytes(bytes.drop_last());
    if i < head.len() {
        encoded_bytes_stay_inside(bytes.drop_last(), i);
    } else {
        let b = bytes.last();
        let last = encoded_byte(b);
        assert(encoded_bytes(bytes)[i] == last[i - head.len()]);
        if !unreserved(b) {
            assert(b / 16 < 16 && b % 16 < 16);
        }
    }
}

/// The value of an upper-case hexadecimal digit.
pub open spec fn digit_value(c: char) -> Option<int> {
    if '0' <= c <= '9' {
        Some(c as int - 0x30)
    } else if 'A' <= c <= 'F' {
        Some(c as int - 0x37)
    } else {
        None
    }
}

/// What an encoded value stands for: an unreserved character for itself, a percent sign and two
/// upper-case digits for one byte. Nothing else is an encoded value.
pub open spec fn decoded_bytes(s: Seq<char>) -> Option<Seq<u8>>
    decreases s.len(),
{
    if s.len() == 0 {
        Some(Seq::<u8>::empty())
    } else if s[0] == '%' {
        if s.len() < 3 {
            None
        } else {
            match (digit_value(s[1]), digit_value(s[2]), decoded_bytes(s.skip(3))) {
                (Some(high), Some(low), Some(rest)) => Some(seq![(16 * high + low) as u8] + rest),
                _ => None,
            }
        }
    } else if query_safe(s[0]) {
        match decoded_bytes(s.skip(1)) {
            Some(rest) => Some(seq![s[0] as u8] + rest),
            None => None,
        }
    } else {
        None
    }
}

/// Decoding an encoded value gives the value back.
pub proof fn decoding_inverts_encoding(v: Seq<char>)
    ensures
        decoded_bytes(encoded(v)) == Some(vstd::utf8::encode_utf8(v)),
        vstd::utf8::decode_utf8(decoded_bytes(encoded(v))->0) == v,
{
    decoding_inverts_bytes(vstd::utf8::encode_utf8(v));
    vstd::utf8::encode_utf8_decode_utf8(v);
}

/// No two values have one encoding.
pub proof fn encodings_differ(a: Seq<char>, b: Seq<char>)
    requires
        encoded(a) == encoded(b),
    ensures
        a == b,
{
    decoding_inverts_encoding(a);
    decoding_inverts_encoding(b);
}

/// A value that needs no encoding: each of its characters stands for itself.
pub open spec fn plain(v: Seq<char>) -> bool {
    forall|i: int| 0 <= i < v.len() ==> query_safe(#[trigger] v[i]) && v[i] != '%'
}

/// Exactly the values of unreserved characters are their own encoding.
pub proof fn only_plain_values_stay(v: Seq<char>)
    ensures
        encoded(v) == v <==> plain(v),
{
    let bytes = vstd::utf8::encode_utf8(v);
    encoded_length(bytes);
    if encoded(v) == v {
        assert forall|i: int| 0 <= i < v.len() implies query_safe(#[trigger] v[i]) by {
            encoded_values_stay_inside(v, i);
        }
    }
    if encoded(v) == v || plain(v) {
        assert(vstd::utf8::is_ascii_chars(v)) by {
            assert forall|i: int| 0 <= i < v.len() implies '\0' <= #[trigger] v[i] <= '\u{7f}' by {
                query_safe_is_ascii(v[i]);
            }
        }
        vstd::utf8::is_ascii_chars_encode_utf8(v);
    }
    if encoded(v) == v {
        assert forall|i: int| 0 <= i < v.len() implies #[trigger] v[i] != '%' by {
            assert(unreserved(bytes[i]));
            assert(v[i] as u8 == bytes[i]);
        }
    }
    if plain(v) {
        assert forall|i: int| 0 <= i < bytes.len() implies unreserved(#[trigger] bytes[i]) by {
            assert(query_safe(v[i]));
            assert(v[i] as u8 == bytes[i]);
        }
        plain_bytes_stay(bytes);
        assert(encoded(v) =~= v) by {
            assert forall|i: int| 0 <= i < v.len() implies encoded(v)[i] == v[i] by {
                assert(query_safe(v[i]));
                assert(v[i] as u8 == bytes[i]);
            }
        }
    }
}

proof fn encoded_length(bytes: Seq<u8>)
    ensures
        encoded_bytes(bytes).len() >= bytes.len(),
        encoded_bytes(bytes).len() == bytes.len() ==> forall|i: int|
            0 <= i < bytes.len() ==> unreserved(#[trigger] bytes[i]),
    decreases bytes.len(),
{
    if bytes.len() > 0 {
        encoded_length(bytes.drop_last());
        if encoded_bytes(bytes).len() == bytes.len() {
            assert forall|i: int| 0 <= i < bytes.len() implies unreserved(#[trigger] bytes[i]) by {
                if i < bytes.len() - 1 {
                    assert(bytes.drop_last()[i] == bytes[i]);
                }
            }
        }
    }
}

proof fn plain_bytes_stay(bytes: Seq<u8>)
    requires
        forall|i: int| 0 <= i < bytes.len() ==> unreserved(#[trigger] bytes[i]),
    ensures
        encoded_bytes(bytes).len() == bytes.len(),
        forall|i: int| 0 <= i < bytes.len() ==> #[trigger] encoded_bytes(bytes)[i] == bytes[i] as char,
    decreases bytes.len(),
{
    if bytes.len() > 0 {
        let short = bytes.drop_last();
        assert forall|i: int| 0 <= i < short.len() implies unreserved(#[trigger] short[i]) by {
            assert(unreserved(bytes[i]));
        }
        plain_bytes_stay(short);
        assert(unreserved(bytes[bytes.len() - 1]));
        assert forall|i: int| 0 <= i < bytes.len() implies #[trigger] encoded_bytes(bytes)[i] == bytes[i] as char by {
            if i < short.len() {
                assert(encoded_bytes(short)[i] == short[i] as char);
            }
        }
    }
}

/// The encoding of a first byte stands first.
proof fn encoded_from_the_front(bytes: Seq<u8>)
    requires
        bytes.len() > 0,
    ensures
        encoded_bytes(bytes) == encoded_byte(bytes[0]) + encoded_bytes(bytes.skip(1)),
    decreases bytes.len(),
{
    let short = bytes.drop_last();
    let rest = bytes.skip(1);
    if short.len() == 0 {
        assert(rest =~= Seq::<u8>::empty());
        assert(encoded_bytes(short) =~= Seq::<char>::empty());
        assert(encoded_bytes(bytes) =~= encoded_byte(bytes[0]) + encoded_bytes(rest));
    } else {
        encoded_from_the_front(short);
        assert(short.skip(1) =~= rest.drop_last());
        assert(encoded_bytes(bytes) =~= encoded_byte(bytes[0]) + encoded_bytes(rest));
    }
}

proof fn decoding_inverts_bytes(bytes: Seq<u8>)
    ensures
        decoded_bytes(encoded_bytes(bytes)) == Some(bytes),
    decreases bytes.len(),
{
    if bytes.len() == 0 {
        assert(bytes =~= Seq::<u8>::empty());
    } else {
        let b = bytes[0];
        let first = encoded_byte(b);
        let rest = encoded_bytes(bytes.skip(1));
        let s = encoded_bytes(bytes);
        encoded_from_the_front(bytes);
        decoding_inverts_bytes(bytes.skip(1));
        assert(bytes =~= seq![b] + bytes.skip(1));
        assert(s[0] == first[0]);
        if unreserved(b) {
            assert(s.skip(1) =~= rest);
            assert(s[0] == b as char);
            assert(s[0] != '%');
        } else {
            assert(s[1] == first[1]);
            assert(s[2] == first[2]);
            assert(s.skip(3) =~= rest);
            assert(b / 16 < 16 && b % 16 < 16);
            assert(digit_value(hex_digit(b / 16)) == Some((b / 16) as int));
            assert(digit_value(hex_digit(b % 16)) == Some((b % 16) as int));
            assert(16 * (b / 16) + b % 16 == b);
        }
    }
}

/// A character of the URL-safe base64 alphabet.
pub open spec fn base64url_char(c: char) -> bool {
    ('A' <= c <= 'Z') || ('a' <= c <= 'z') || ('0' <= c <= '9') || c == '-' || c == '_'
}

pub open spec fn all_base64url(s: Seq<char>) -> bool {
    forall|i: int| 0 <= i < s.len() ==> base64url_char(#[trigger] s[i])
}

/// The character that stands for six bits.
pub open spec fn base64url_digit(n: int) -> char {
    if n < 26 {
        (0x41 + n) as char
    } else if n < 52 {
        (0x61 + n - 26) as char
    } else if n < 62 {
        (0x30 + n - 52) as char
    } else if n == 62 {
        '-'
    } else {
        '_'
    }
}

/// What URL-safe base64 without padding makes of bytes: four characters for every three bytes, and
/// for one or two bytes left over two or three.
pub open spec fn base64url(bytes: Seq<u8>) -> Seq<char>
    decreases bytes.len(),
{
    if bytes.len() == 0 {
        Seq::empty()
    } else {
        let a = bytes[0] as int;
        let b = if bytes.len() > 1 {
            bytes[1] as int
        } else {
            0
        };
        let c = if bytes.len() > 2 {
            bytes[2] as int
        } else {
            0
        };
        let digits = seq![
            base64url_digit(a / 4),
            base64url_digit(a % 4 * 16 + b / 16),
            base64url_digit(b % 16 * 4 + c / 64),
            base64url_digit(c % 64),
        ];
        if bytes.len() <= 2 {
            digits.take(bytes.len() as int + 1)
        } else {
            digits + base64url(bytes.skip(3))
        }
    }
}

/// Base64 stays within its alphabet, and its length follows from the number of bytes.
pub proof fn base64url_is_url_safe(bytes: Seq<u8>)
    ensures
        all_base64url(base64url(bytes)),
        base64url(bytes).len() == (4 * bytes.len() + 2) / 3,
    decreases bytes.len(),
{
    if bytes.len() > 2 {
        base64url_is_url_safe(bytes.skip(3));
    }
}

/// `base64`'s `URL_SAFE_NO_PAD.encode`: the bytes in URL-safe base64 without padding.
#[verifier::external_body]
pub(crate) fn b64url(bytes: &Vec<u8>) -> (r: String)
    requires
        bytes@.len() < 0x1000_0000,
    ensures
        r@ == base64url(bytes@),
{
    base64::engine::general_purpose::URL_SAFE_NO_PAD.encode(bytes)
}

/// The SHA-256 digest of bytes.
pub uninterp spec fn sha256(bytes: Seq<u8>) -> Seq<u8>;

/// `sha2`'s `Sha256::digest`: thirty-two bytes.
#[verifier::external_body]
fn sha256_digest(bytes: &Vec<u8>) -> (r: Vec<u8>)
    ensures
        r@ == sha256(bytes@),
        r@.len() == 32,
{
    sha2::Sha256::digest(bytes).to_vec()
}

/// `rand`'s `OsRng`, filling thirty-two bytes from the operating system's entropy. Which bytes
/// is left to chance; the call panics where the system has no entropy source.
#[verifier::external_body]
fn os_random_32() -> (r: Vec<u8>)
    ensures
        r@.len() == 32,
{
    let mut raw = [0u8; 32];
    rand::rngs::OsRng.fill_bytes(&mut raw);
    raw.to_vec()
}

/// Thirty-two random bytes as URL-safe base64.
fn random_urlsafe() -> (r: String)
    ensures
        all_base64url(r@),
        r@.len() == 43,
{
    let raw = os_random_32();
    proof {
        base64url_is_url_safe(raw@);
    }
    b64url(&raw)
}

/// The secrets of one login: the state the provider must echo, the verifier whose digest goes
/// out with the redirect, and the nonce the identity token must carry.
#[derive(Debug, Clone, PartialEq, Eq)]
pub struct LoginFlow {
    pub state: String,
    pub verifier: String,
    pub nonce: String,
}

/// The flow that a cookie's components stand for: one to three of them, the first not empty.
pub open spec fn flow_of(pieces: Seq<Seq<char>>) -> Option<(Seq<char>, Seq<char>, Seq<char>)> {
    if pieces.len() == 0 || pieces.len() > 3 || pieces[0].len() == 0 {
        None
    } else {
        Some(
            (
                pieces[0],
                if pieces.len() > 1 {
                    pieces[1]
                } else {
                    Seq::empty()
                },
                if pieces.len() > 2 {
                    pieces[2]
                } else {
                    Seq::empty()
                },
            ),
        )
    }
}

impl LoginFlow {
    pub open spec fn parts(self) -> (Seq<char>, Seq<char>, Seq<char>) {
        (self.state@, self.verifier@, self.nonce@)
    }

    /// Mints the secrets of a login.
    pub fn generate() -> (r: LoginFlow)
        ensures
            all_base64url(r.state@) && r.state@.len() == 43,
            all_base64url(r.verifier@) && r.verifier@.len() == 43,
            all_base64url(r.nonce@) && r.nonce@.len() == 43,
    {
        LoginFlow { state: random_urlsafe(), verifier: random_urlsafe(), nonce: random_urlsafe() }
    }

    /// The challenge that goes out: the verifier's SHA-256 digest as URL-safe base64.
    pub fn challenge(&self) -> (r: String)
        ensures
            r@ == base64url(sha256(vstd::utf8::encode_utf8(self.verifier@))),
    {
        let bytes = self.verifier.as_str().as_bytes_vec();
        b64url(&sha256_digest(&bytes))
    }

    /// The cookie that carries the whole flow.
    pub fn to_cookie(&self) -> (r: String)
        ensures
            r@ == self.state@ + "."@ + self.verifier@ + "."@ + self.nonce@,
    {
        let mut s = self.state.clone();
        s.append(".");
        s.append(self.verifier.as_str());
        s.append(".");
        s.append(self.nonce.as_str());
        s
    }

    /// The flow a cookie carries. A single component is a flow with a state alone.
    pub fn from_cookie(v: &str) -> (r: Option<LoginFlow>)
        ensures
            match r {
                Some(f) => flow_of(text::split(v@, '.')) == Some(f.parts()),
                None => flow_of(text::split(v@, '.')) is None,
            },
    {
        let pieces = text::split_char(v, '.');
        let ghost all = text::views(pieces@);
        if pieces.len() == 0 || pieces.len() > 3 {
            return None;
        }
        assert(all[0] == pieces@[0]@);
        if pieces[0].as_str().unicode_len() == 0 {
            return None;
        }
        let state = pieces[0].clone();
        let verifier = if pieces.len() > 1 {
            pieces[1].clone()
        } else {
            String::new()
        };
        let nonce = if pieces.len() > 2 {
            pieces[2].clone()
        } else {
            String::new()
        };
        proof {
            let (s, v, n) = flow_of(all)->Some_0;
            assert(verifier@ =~= v);
            assert(nonce@ =~= n);
        }
        Some(LoginFlow { state, verifier, nonce })
    }

    /// The verifier to replay, if the flow has one.
    pub fn code_verifier(&self) -> (r: Option<&str>)
        ensures
            match r {
                Some(v) => v@ == self.verifier@ && v@.len() > 0,
                None => self.verifier@.len() == 0,
            },
    {
        if self.verifier.as_str().unicode_len() == 0 {
            None
        } else {
            Some(self.verifier.as_str())
        }
    }

    /// The nonce to check for, if the flow has one.
    pub fn nonce(&self) -> (r: Option<&str>)
        ensures
            match r {
                Some(v) => v@ == self.nonce@ && v@.len() > 0,
                None => self.nonce@.len() == 0,
            },
    {
        if self.nonce.as_str().unicode_len() == 0 {
            None
        } else {
            Some(self.nonce.as_str())
        }
    }
}

/// A text without the separator is split off whole, and what follows a separator is split as if
/// it stood alone.
proof fn split_after_clean(a: Seq<char>, rest: Seq<char>, c: char)
    requires
        forall|i: int| 0 <= i < a.len() ==> #[trigger] a[i] != c,
    ensures
        text::split(a, c) == seq![a],
        text::split(a + seq![c] + rest, c) == seq![a] + text::split(rest, c),
    decreases rest.len(),
{
    clean_split(a, c);
    if rest.len() == 0 {
        let s = a + seq![c] + rest;
        assert(s =~= a.push(c));
        assert(s.drop_last() =~= a);
        assert(text::split(rest, c) =~= seq![Seq::<char>::empty()]);
        assert(text::split(s, c) =~= seq![a] + text::split(rest, c));
    } else {
        let s = a + seq![c] + rest;
        let r = rest.drop_last();
        split_after_clean(a, r, c);
        text::split_nonempty(r, c);
        assert(s.drop_last() =~= a + seq![c] + r);
        assert(s.last() == rest.last());
        let p = text::split(r, c);
        assert((seq![a] + p).last() == p.last());
        assert((seq![a] + p).drop_last() =~= seq![a] + p.drop_last());
        assert(text::split(s, c) =~= seq![a] + text::split(rest, c));
    }
}

proof fn clean_split(a: Seq<char>, c: char)
    requires
        forall|i: int| 0 <= i < a.len() ==> #[trigger] a[i] != c,
    ensures
        text::split(a, c) == seq![a],
    decreases a.len(),
{
    if a.len() > 0 {
        let p = a.drop_last();
        assert forall|i: int| 0 <= i < p.len() implies #[trigger] p[i] != c by {
            assert(a[i] != c);
        }
        clean_split(p, c);
        assert(a.last() == a[a.len() - 1]);
        assert(p.push(a.last()) =~= a);
        assert(seq![p].drop_last() =~= Seq::<Seq<char>>::empty());
        assert(Seq::<Seq<char>>::empty().push(a) =~= seq![a]);
    } else {
        assert(a =~= Seq::<char>::empty());
    }
}

/// The separator does not occur in a component of a flow.
pub open spec fn no_dot(s: Seq<char>) -> bool {
    forall|i: int| 0 <= i < s.len() ==> #[trigger] s[i] != '.'
}

/// A flow comes back from its own cookie wherever the separator does not occur in its components.
pub proof fn cookies_round_trip(state: Seq<char>, verifier: Seq<char>, nonce: Seq<char>)
    requires
        state.len() > 0,
        no_dot(state),
        no_dot(verifier),
        no_dot(nonce),
    ensures
        flow_of(text::split(state + "."@ + verifier + "."@ + nonce, '.')) == Some((state, verifier, nonce)),
{
    reveal_strlit(".");
    assert("."@ =~= seq!['.']);
    let tail = verifier + seq!['.'] + nonce;
    let all = state + "."@ + verifier + "."@ + nonce;
    assert(all =~= state + seq!['.'] + tail);
    split_after_clean(state, tail, '.');
    split_after_clean(verifier, nonce, '.');
    clean_split(nonce, '.');
    assert(text::split(all, '.') =~= seq![state, verifier, nonce]);
}

/// The components of a minted flow are URL-safe base64, in which the separator never occurs.
pub proof fn minted_flows_have_no_dot(s: Seq<char>)
    requires
        all_base64url(s),
    ensures
        no_dot(s),
{
    assert forall|i: int| 0 <= i < s.len() implies #[trigger] s[i] != '.' by {
        assert(base64url_char(s[i]));
    }
}

/// A provider and the client registered with it.
#[derive(Debug)]
pub struct OAuthConfig {
    pub client_id: String,
    pub client_secret: String,
    pub authorize_url: String,
    pub token_url: String,
    pub userinfo_url: String,
    pub oidc_issuer: Option<String>,
    pub scopes: String,
    pub owners: Vec<String>,
}

/// The authorize URL of a login.
pub open spec fn authorize_url(cfg: OAuthConfig, redirect_uri: Seq<char>, state: Seq<char>, challenge: Seq<char>, nonce: Seq<char>) -> Seq<char> {
    let base = cfg.authorize_url@ + "?response_type=code&client_id="@ + encoded(cfg.client_id@) + "&redirect_uri="@ + encoded(
        redirect_uri,
    ) + "&state="@ + encoded(state) + "&code_challenge="@ + encoded(challenge) + "&code_challenge_method=S256"@;
    let scoped = if cfg.scopes@.len() > 0 {
        base + "&scope="@ + encoded(cfg.scopes@)
    } else {
        base
    };
    if cfg.oidc_issuer is Some && nonce.len() > 0 {
        scoped + "&nonce="@ + encoded(nonce)
    } else {
        scoped
    }
}

/// The URL the browser is sent to: with the state, the challenge and, where identity tokens are
/// verified, the nonce.
pub fn authorize_redirect(cfg: &OAuthConfig, redirect_uri: &str, flow: &LoginFlow) -> (r: String)
    ensures
        r@ == authorize_url(
            *cfg,
            redirect_uri@,
            flow.state@,
            base64url(sha256(vstd::utf8::encode_utf8(flow.verifier@))),
            flow.nonce@,
        ),
{
    let challenge = flow.challenge();
    authorize_redirect_with(cfg, redirect_uri, flow, challenge.as_str())
}

/// The URL the browser is sent to with a given challenge.
pub fn authorize_redirect_with(cfg: &OAuthConfig, redirect_uri: &str, flow: &LoginFlow, challenge: &str) -> (r: String)
    ensures
        r@ == authorize_url(*cfg, redirect_uri@, flow.state@, challenge@, flow.nonce@),
{
    let mut url = cfg.authorize_url.clone();
    url.append("?response_type=code&client_id=");
    url.append(percent_encode(cfg.client_id.as_str()).as_str());
    url.append("&redirect_uri=");
    url.append(percent_encode(redirect_uri).as_str());
    url.append("&state=");
    url.append(percent_encode(flow.state.as_str()).as_str());
    url.append("&code_challenge=");
    url.append(percent_encode(challenge).as_str());
    url.append("&code_challenge_method=S256");
    if cfg.scopes.as_str().unicode_len() > 0 {
        url.append("&scope=");
        url.append(percent_encode(cfg.scopes.as_str()).as_str());
    }
    let oidc: bool = match &cfg.oidc_issuer {
        Some(_) => true,
        None => false,
    };
    if oidc && flow.nonce.as_str().unicode_len() > 0 {
        url.append("&nonce=");
        url.append(percent_encode(flow.nonce.as_str()).as_str());
    }
    url
}

/// Where the provider sends the browser back to.
pub fn callback_uri(public_url: &str) -> (r: String)
    ensures
        r@ == text::trim_end(public_url@, '/') + "/v1/auth/callback"@,
{
    let mut s = text::trim_end_char(public_url, '/');
    s.append("/v1/auth/callback");
    s
}

/// The one-shot cookie that binds a login to its browser for ten minutes.
pub fn state_cookie(flow: &LoginFlow) -> (r: String)
    ensures
        r@ == "scarab_oauth_state="@ + (flow.state@ + "."@ + flow.verifier@ + "."@ + flow.nonce@)
            + "; HttpOnly; Secure; Path=/; SameSite=Lax; Max-Age=600"@,
{
    let mut s: String = "scarab_oauth_state=".to_owned();
    s.append(flow.to_cookie().as_str());
    s.append("; HttpOnly; Secure; Path=/; SameSite=Lax; Max-Age=600");
    s
}

/// The cookie that ends a login's binding.
pub fn spent_state_cookie() -> (r: String)
    ensures
        r@ == "scarab_oauth_state=; HttpOnly; Secure; Path=/; SameSite=Lax; Max-Age=0"@,
{
    "scarab_oauth_state=; HttpOnly; Secure; Path=/; SameSite=Lax; Max-Age=0".to_owned()
}

/// The flow of a browser that came back: its cookie must carry the state that the provider
/// echoes.
pub fn returned_flow(cookie: Option<&str>, state: &str) -> (r: Option<LoginFlow>)
    ensures
        match r {
            Some(f) => cookie matches Some(c) && flow_of(text::split(c@, '.')) == Some(f.parts()) && f.state@ == state@,
            None => !(cookie matches Some(c) && (flow_of(text::split(c@, '.')) matches Some(f) && f.0 == state@)),
        },
{
    match cookie {
        None => None,
        Some(c) => match LoginFlow::from_cookie(c) {
            None => None,
            Some(f) => if text::str_eq(f.state.as_str(), state) {
                Some(f)
            } else {
                None
            },
        },
    }
}

/// Where a login is sent: to the provider, with the client, the way back, the state and the
/// challenge, each of them encoded; the scopes follow where there are any, and the nonce where
/// identity tokens are verified and the login has one.
pub proof fn redirects_carry_the_login(
    cfg: OAuthConfig,
    redirect_uri: Seq<char>,
    state: Seq<char>,
    challenge: Seq<char>,
    nonce: Seq<char>,
)
    ensures
        ({
            let plain = cfg.authorize_url@ + "?response_type=code&client_id="@ + encoded(cfg.client_id@) + "&redirect_uri="@
                + encoded(redirect_uri) + "&state="@ + encoded(state) + "&code_challenge="@ + encoded(challenge)
                + "&code_challenge_method=S256"@;
            let without = authorize_url(cfg, redirect_uri, state, challenge, Seq::empty());
            &&& cfg.scopes@.len() == 0 ==> without == plain
            &&& cfg.scopes@.len() > 0 ==> without == plain + "&scope="@ + encoded(cfg.scopes@)
            &&& cfg.oidc_issuer is None ==> authorize_url(cfg, redirect_uri, state, challenge, nonce) == without
            &&& cfg.oidc_issuer is Some && nonce.len() > 0 ==> authorize_url(cfg, redirect_uri, state, challenge, nonce)
                == without + "&nonce="@ + encoded(nonce)
        }),
{
}

/// A cookie of one component is a flow with a state alone, of two with a verifier, of three with a
/// nonce too; one without a state, or with more components, is no flow.
pub proof fn cookies_say_how_much_they_carry(state: Seq<char>, verifier: Seq<char>, nonce: Seq<char>, pieces: Seq<Seq<char>>)
    requires
        state.len() > 0,
    ensures
        flow_of(seq![state]) == Some((state, Seq::<char>::empty(), Seq::<char>::empty())),
        flow_of(seq![state, verifier]) == Some((state, verifier, Seq::<char>::empty())),
        flow_of(seq![state, verifier, nonce]) == Some((state, verifier, nonce)),
        pieces.len() == 0 || pieces.len() > 3 || pieces[0].len() == 0 ==> flow_of(pieces) is None,
{
}

} // verus!
