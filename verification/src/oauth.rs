//! Signing in to Nexus with OAuth 2.0 and PKCE, and choosing how to
//! authenticate API requests.
use vstd::prelude::*;
use base64::engine::general_purpose::URL_SAFE_NO_PAD;
use base64::Engine;
use base64::DecodeError;
use sha2::{Digest, Sha256};
use rand::RngCore;
use vstd::string::StringSliceAdditionalSpecFns;
use crate::model::Config;
use crate::nexus::split_once_spec;
use crate::text::{
    chars_of, extend_str, is_whitespace, split_chars, split_spec, string_from, sub_chars,
    char_is_whitespace, find_chars, lemma_split_nonempty, starts_with_str,
};

verus! {

broadcast use vstd::seq_lib::group_seq_properties;

#[verifier::external_type_specification]
#[verifier::external_body]
pub struct ExDecodeError(DecodeError);

// ---------------------------------------------------------------------------
// Outside computations
// ---------------------------------------------------------------------------

/// The SHA-256 digest of the bytes.
pub uninterp spec fn sha256_spec(data: Seq<u8>) -> Seq<u8>;

/// The character of a six-bit value in the URL-safe base64 alphabet:
/// `A`-`Z`, `a`-`z`, `0`-`9`, `-`, `_`.
pub open spec fn base64_url_char(v: int) -> char {
    if v < 26 {
        (v + 65) as char
    } else if v < 52 {
        (v - 26 + 97) as char
    } else if v < 62 {
        (v - 52 + 48) as char
    } else if v == 62 {
        '-'
    } else {
        '_'
    }
}

/// The URL-safe base64 text of the bytes, without padding: each group of
/// three bytes gives four characters, a last group of one byte two, and one
/// of two bytes three.
pub open spec fn base64_url_spec(data: Seq<u8>) -> Seq<char>
    decreases data.len(),
{
    if data.len() == 0 {
        Seq::empty()
    } else if data.len() == 1 {
        let a = data[0] as int;
        seq![base64_url_char(a / 4), base64_url_char((a % 4) * 16)]
    } else if data.len() == 2 {
        let a = data[0] as int;
        let b = data[1] as int;
        seq![
            base64_url_char(a / 4),
            base64_url_char((a % 4) * 16 + b / 16),
            base64_url_char((b % 16) * 4),
        ]
    } else {
        let a = data[0] as int;
        let b = data[1] as int;
        let c = data[2] as int;
        seq![
            base64_url_char(a / 4),
            base64_url_char((a % 4) * 16 + b / 16),
            base64_url_char((b % 16) * 4 + c / 64),
            base64_url_char(c % 64),
        ] + base64_url_spec(data.skip(3))
    }
}

/// What URL-safe unpadded base64 decoding gives for the text, `None` when
/// it is not valid.
pub uninterp spec fn base64_url_decode_spec(text: Seq<char>) -> Option<Seq<u8>>;

/// `Sha256::digest` from `sha2`: the 32-byte digest of the bytes.
#[verifier::external_body]
fn sha256(data: &[u8]) -> (r: Vec<u8>)
    ensures
        r@ == sha256_spec(data@),
        r@.len() == 32,
{
    Sha256::digest(data).to_vec()
}

/// `URL_SAFE_NO_PAD.encode` from `base64`: the URL-safe base64 text of the
/// bytes, without padding. It panics only when the text's length would not
/// fit in a `usize`, which the bound rules out.
#[verifier::external_body]
fn base64_url_encode(data: &[u8]) -> (r: String)
    requires
        data@.len() <= usize::MAX / 2,
    ensures
        r@ == base64_url_spec(data@),
{
    URL_SAFE_NO_PAD.encode(data)
}

/// `URL_SAFE_NO_PAD.decode` from `base64`.
#[verifier::external_body]
fn base64_url_decode(text: &str) -> (r: Result<Vec<u8>, DecodeError>)
    ensures
        match r {
            Ok(b) => base64_url_decode_spec(text@) == Some(b@),
            Err(_) => base64_url_decode_spec(text@) is None,
        },
{
    URL_SAFE_NO_PAD.decode(text)
}

/// `DecodeError`'s `Display` text. Nothing is stated of the text.
#[verifier::external_body]
fn decode_error_text(e: &DecodeError) -> String {
    e.to_string()
}

/// `rand::thread_rng().fill_bytes` on `n` bytes: `n` random bytes. What
/// they are is not stated: they come from a generator that the operating
/// system seeds. `thread_rng` panics when that seeding fails, the first time
/// a thread uses it; no argument can rule that out.
#[verifier::external_body]
fn random_bytes(n: usize) -> (r: Vec<u8>)
    ensures
        r@.len() == n,
{
    let mut bytes = vec![0u8; n];
    rand::thread_rng().fill_bytes(&mut bytes);
    bytes
}

// ---------------------------------------------------------------------------
// PKCE
// ---------------------------------------------------------------------------

/// A fresh PKCE code verifier: 32 random bytes in URL-safe base64.
pub fn generate_code_verifier() -> (r: String)
    ensures
        exists|b: Seq<u8>| b.len() == 32 && r@ == base64_url_spec(b),
{
    let bytes = random_bytes(32);
    let r = base64_url_encode(bytes.as_slice());
    assert(bytes@.len() == 32 && r@ == base64_url_spec(bytes@));
    r
}

/// The PKCE challenge of a verifier: its SHA-256 digest in URL-safe base64.
pub fn generate_code_challenge(verifier: &str) -> (r: String)
    ensures
        r@ == base64_url_spec(sha256_spec(verifier.spec_bytes())),
{
    let hash = sha256(verifier.as_bytes());
    base64_url_encode(hash.as_slice())
}

/// The lowercase hexadecimal digit of a value below 16.
pub open spec fn hex_digit(d: u8) -> char {
    if d < 10 {
        (d + 48) as char
    } else {
        (d + 87) as char
    }
}

/// Two lowercase hexadecimal digits per byte (`{:02x}`).
pub open spec fn hex_spec(b: Seq<u8>) -> Seq<char>
    decreases b.len(),
{
    if b.len() == 0 {
        Seq::empty()
    } else {
        hex_spec(b.drop_last()) + seq![hex_digit(b.last() / 16), hex_digit(b.last() % 16)]
    }
}

fn hex_digit_exec(d: u8) -> (r: char)
    requires
        d < 16,
    ensures
        r == hex_digit(d),
{
    if d < 10 {
        (d + 48) as char
    } else {
        (d + 87) as char
    }
}

/// The bytes as lowercase hexadecimal.
pub fn hex_encode(b: &[u8]) -> (r: String)
    ensures
        r@ == hex_spec(b@),
{
    let mut v: Vec<char> = Vec::new();
    for i in 0..b.len()
        invariant
            v@ == hex_spec(b@.take(i as int)),
    {
        assert(b@.take(i + 1).drop_last() == b@.take(i as int));
        assert(b@.take(i + 1).last() == b@[i as int]);
        let x = b[i];
        v.push(hex_digit_exec(x / 16));
        v.push(hex_digit_exec(x % 16));
        assert(v@ =~= hex_spec(b@.take(i + 1)));
    }
    assert(b@.take(b.len() as int) == b@);
    string_from(v.as_slice())
}

/// A fresh OAuth state: 16 random bytes as lowercase hexadecimal.
pub fn generate_state() -> (r: String)
    ensures
        exists|b: Seq<u8>| b.len() == 16 && r@ == hex_spec(b),
{
    let bytes = random_bytes(16);
    let r = hex_encode(bytes.as_slice());
    assert(bytes@.len() == 16 && r@ == hex_spec(bytes@));
    r
}

/// The hexadecimal text of `n` bytes has `2n` characters, each a lowercase
/// hexadecimal digit.
pub proof fn law_state_is_hex(b: Seq<u8>)
    ensures
        hex_spec(b).len() == 2 * b.len(),
        forall|i: int|
            0 <= i < hex_spec(b).len() ==> ('0' <= #[trigger] hex_spec(b)[i] <= '9') || ('a'
                <= hex_spec(b)[i] <= 'f'),
    decreases b.len(),
{
    if b.len() > 0 {
        law_state_is_hex(b.drop_last());
        let h = hex_spec(b.drop_last());
        let x = b.last();
        assert(hex_digit(x / 16) as int == (if x / 16 < 10 { x / 16 + 48 } else { x / 16 + 87 }));
        assert(hex_digit(x % 16) as int == (if x % 16 < 10 { x % 16 + 48 } else { x % 16 + 87 }));
        assert forall|i: int| 0 <= i < hex_spec(b).len() implies ('0' <= #[trigger] hex_spec(b)[i]
            <= '9') || ('a' <= hex_spec(b)[i] <= 'f') by {
            if i < h.len() {
                assert(hex_spec(b)[i] == h[i]);
            }
        }
    }
}

// ---------------------------------------------------------------------------
// The authorize address and the callback
// ---------------------------------------------------------------------------

/// The address that the browser opens to sign in.
pub open spec fn auth_url_spec(client_id: Seq<char>, state: Seq<char>, challenge: Seq<char>) -> Seq<
    char,
> {
    "https://users.nexusmods.com/oauth/authorize?client_id="@ + client_id
        + "&response_type=code&scope=&redirect_uri=http%3A%2F%2F127.0.0.1%3A8089%2Fcallback&state="@
        + state + "&code_challenge_method=S256&code_challenge="@ + challenge
}

/// The address that the browser opens to sign in.
pub fn auth_url(client_id: &str, state: &str, challenge: &str) -> (r: String)
    ensures
        r@ == auth_url_spec(client_id@, state@, challenge@),
{
    let mut v = chars_of("https://users.nexusmods.com/oauth/authorize?client_id=");
    extend_str(&mut v, client_id);
    extend_str(
        &mut v,
        "&response_type=code&scope=&redirect_uri=http%3A%2F%2F127.0.0.1%3A8089%2Fcallback&state=",
    );
    extend_str(&mut v, state);
    extend_str(&mut v, "&code_challenge_method=S256&code_challenge=");
    extend_str(&mut v, challenge);
    string_from(v.as_slice())
}

/// The client id used to sign in: the configured one, else `public_test`.
pub fn oauth_client_id(config: &Config) -> (r: String)
    ensures
        r@ == (match config.nexus_client_id {
            Some(c) => c@,
            None => "public_test"@,
        }),
{
    match &config.nexus_client_id {
        Some(c) => c.clone(),
        None => "public_test".to_owned(),
    }
}

/// The pieces of `s` between whitespace characters, empty ones included.
pub open spec fn ws_pieces(s: Seq<char>) -> Seq<Seq<char>>
    decreases s.len(),
{
    if s.len() == 0 {
        seq![Seq::<char>::empty()]
    } else {
        let p = ws_pieces(s.drop_last());
        if is_whitespace(s.last()) {
            p.push(Seq::<char>::empty())
        } else {
            p.update(p.len() - 1, p.last().push(s.last()))
        }
    }
}

/// The words of `s` (`str::split_whitespace`).
pub open spec fn words(s: Seq<char>) -> Seq<Seq<char>> {
    ws_pieces(s).filter(|p: Seq<char>| p.len() > 0)
}

/// The value of the last `name` parameter of a query, if any.
pub open spec fn query_param_opt(params: Seq<Seq<char>>, name: Seq<char>) -> Option<Seq<char>>
    decreases params.len(),
{
    if params.len() == 0 {
        None
    } else if name.is_prefix_of(params.last()) {
        Some(params.last().skip(name.len() as int))
    } else {
        query_param_opt(params.drop_last(), name)
    }
}

/// The query of the request line `GET /callback?... HTTP/1.1`: what follows
/// the first `?` of its second word, or nothing.
pub open spec fn callback_query(line: Seq<char>) -> Seq<char> {
    let w = words(line);
    if w.len() > 1 {
        match split_once_spec(w[1], '?') {
            Some((_, q)) => q,
            None => Seq::empty(),
        }
    } else {
        Seq::empty()
    }
}

/// The code and state that the sign-in page hands back, when both are there.
pub open spec fn callback_spec(line: Seq<char>) -> Option<(Seq<char>, Seq<char>)> {
    let params = split_spec(callback_query(line), '&');
    match (query_param_opt(params, "code="@), query_param_opt(params, "state="@)) {
        (Some(c), Some(s)) => Some((c, s)),
        _ => None,
    }
}

/// The words of `v`.
fn words_of(v: &[char]) -> (r: Vec<Vec<char>>)
    ensures
        r@.map_values(|x: Vec<char>| x@) == words(v@),
{
    let mut pieces: Vec<Vec<char>> = Vec::new();
    let mut cur: Vec<char> = Vec::new();
    for i in 0..v.len()
        invariant
            pieces@.map_values(|x: Vec<char>| x@).push(cur@) == ws_pieces(v@.take(i as int)),
    {
        let ghost p0 = pieces@.map_values(|x: Vec<char>| x@);
        let ghost c0 = cur@;
        assert(v@.take(i + 1).drop_last() == v@.take(i as int));
        assert(v@.take(i + 1).last() == v@[i as int]);
        if char_is_whitespace(v[i]) {
            let piece = cur;
            pieces.push(piece);
            assert(pieces@.map_values(|x: Vec<char>| x@) =~= p0.push(c0));
            cur = Vec::new();
        } else {
            cur.push(v[i]);
            assert(p0.push(c0).update(p0.len() as int, c0.push(v@[i as int])) =~= p0.push(cur@));
        }
    }
    let ghost before = pieces@.map_values(|x: Vec<char>| x@);
    let ghost last = cur@;
    pieces.push(cur);
    assert(v@.take(v.len() as int) == v@);
    let ghost pv = pieces@.map_values(|x: Vec<char>| x@);
    assert(pv =~= before.push(last));
    let mut out: Vec<Vec<char>> = Vec::new();
    for i in 0..pieces.len()
        invariant
            pv == pieces@.map_values(|x: Vec<char>| x@),
            pv == ws_pieces(v@),
            out@.map_values(|x: Vec<char>| x@) == pv.take(i as int).filter(
                |p: Seq<char>| p.len() > 0,
            ),
    {
        proof {
            reveal(Seq::filter);
            assert(pv.take(i + 1).drop_last() == pv.take(i as int));
            assert(pv.take(i + 1).last() == pieces@[i as int]@);
        }
        let ghost o0 = out@.map_values(|x: Vec<char>| x@);
        if pieces[i].len() > 0 {
            out.push(sub_chars(pieces[i].as_slice(), 0, pieces[i].len()));
            assert(out@.map_values(|x: Vec<char>| x@) =~= o0.push(pieces@[i as int]@));
        }
    }
    assert(pv.take(pieces.len() as int) == pv);
    out
}

/// The value of the last `name` parameter, if any.
fn query_param_opt_exec(params: &Vec<Vec<char>>, name: &str) -> (r: Option<Vec<char>>)
    ensures
        match r {
            Some(x) => query_param_opt(params@.map_values(|x: Vec<char>| x@), name@) == Some(x@),
            None => query_param_opt(params@.map_values(|x: Vec<char>| x@), name@) is None,
        },
{
    let ghost pv = params@.map_values(|x: Vec<char>| x@);
    let mut n = params.len();
    while n > 0
        invariant
            n <= params@.len(),
            pv == params@.map_values(|x: Vec<char>| x@),
            query_param_opt(pv, name@) == query_param_opt(pv.take(n as int), name@),
        decreases n,
    {
        let t = &params[n - 1];
        assert(pv.take(n as int).last() == t@);
        assert(pv.take(n as int).drop_last() == pv.take(n - 1));
        if starts_with_str(t.as_slice(), name) {
            let nl = chars_of(name);
            return Some(sub_chars(t.as_slice(), nl.len(), t.len()));
        }
        n = n - 1;
    }
    None
}

/// The message when the sign-in page's answer lacks the code or the state.
pub open spec fn callback_missing_message() -> Seq<char> {
    "OAuth callback missing code or state"@
}

/// Reads the request line that the sign-in page sends to the local callback
/// server: the code and state, or an error when either is missing.
pub fn parse_oauth_callback(request_line: &str) -> (r: Result<(String, String), String>)
    ensures
        match r {
            Ok((code, state)) => callback_spec(request_line@) == Some((code@, state@)),
            Err(e) => callback_spec(request_line@) is None && e@ == callback_missing_message(),
        },
{
    let v = chars_of(request_line);
    let w = words_of(v.as_slice());
    let ghost wv = w@.map_values(|x: Vec<char>| x@);
    let query: Vec<char> = if w.len() > 1 {
        assert(wv[1] == w@[1]@);
        let q = vec!['?'];
        assert(q@ =~= seq!['?']);
        match find_chars(w[1].as_slice(), q.as_slice()) {
            Some(i) => {
                proof {
                    crate::logs::lemma_find_in_range(w@[1]@, q@);
                }
                let l = w[1].len();
                sub_chars(w[1].as_slice(), i + 1, l)
            },
            None => Vec::new(),
        }
    } else {
        Vec::new()
    };
    assert(query@ == callback_query(request_line@));
    let params = split_chars(query.as_slice(), '&');
    let code = query_param_opt_exec(&params, "code=");
    let state = query_param_opt_exec(&params, "state=");
    match (code, state) {
        (Some(c), Some(s)) => Ok((string_from(c.as_slice()), string_from(s.as_slice()))),
        _ => Err("OAuth callback missing code or state".to_owned()),
    }
}

/// The message when the state that comes back is not the one sent.
pub open spec fn state_mismatch_message() -> Seq<char> {
    "Authentication failed (state mismatch)"@
}

/// Checks that the callback's state is the one the sign-in started with.
pub fn check_oauth_state(state: &String, expected: &String) -> (r: Result<(), String>)
    ensures
        r is Ok <==> state@ == expected@,
        r matches Err(e) ==> e@ == state_mismatch_message(),
{
    if *state == *expected {
        Ok(())
    } else {
        Err("Authentication failed (state mismatch)".to_owned())
    }
}

// ---------------------------------------------------------------------------
// Tokens
// ---------------------------------------------------------------------------

/// The payload segment of a JSON web token: its second `.`-separated segment.
pub open spec fn jwt_payload_segment(token: Seq<char>) -> Option<Seq<char>> {
    let segs = split_spec(token, '.');
    if segs.len() > 1 {
        Some(segs[1])
    } else {
        None
    }
}

/// The decoded payload bytes of a JSON web token.
pub open spec fn jwt_payload_spec(token: Seq<char>) -> Option<Seq<u8>> {
    match jwt_payload_segment(token) {
        Some(p) => base64_url_decode_spec(p),
        None => None,
    }
}

/// The decoded (still JSON) payload of a JSON web token; an error for a
/// token with one segment or a payload that is not base64.
pub fn decode_jwt_payload(token: &str) -> (r: Result<Vec<u8>, String>)
    ensures
        match r {
            Ok(b) => jwt_payload_spec(token@) == Some(b@),
            Err(e) => jwt_payload_spec(token@) is None,
        },
        jwt_payload_segment(token@) is None ==> (r matches Err(e) && e@ == "Invalid JWT"@),
{
    let v = chars_of(token);
    let segs = split_chars(v.as_slice(), '.');
    if segs.len() < 2 {
        return Err("Invalid JWT".to_owned());
    }
    assert(segs@[1]@ == split_spec(token@, '.')[1]);
    let part = string_from(segs[1].as_slice());
    match base64_url_decode(part.as_str()) {
        Ok(b) => Ok(b),
        Err(e) => {
            let mut m = chars_of("JWT decode: ");
            let t = decode_error_text(&e);
            extend_str(&mut m, t.as_str());
            Err(string_from(m.as_slice()))
        },
    }
}

/// What a token's payload says of the user.
#[derive(Debug)]
pub struct JwtClaims {
    pub exp: Option<u64>,
    pub username: Option<String>,
    /// The membership roles, each as text where it is text.
    pub membership_roles: Option<Vec<Option<String>>>,
}

/// A premium membership role.
pub open spec fn is_premium_role(r: Option<Seq<char>>) -> bool {
    r == Some("premium"@) || r == Some("lifetimepremium"@)
}

/// Whether the claims hold a premium membership role.
pub open spec fn claims_premium(c: JwtClaims) -> bool {
    match c.membership_roles {
        Some(rs) => exists|i: int|
            0 <= i < rs.len() && is_premium_role(crate::text::opt_view(#[trigger] rs@[i])),
        None => false,
    }
}

/// Whether the claims hold a premium membership role.
pub fn is_premium(claims: &JwtClaims) -> (r: bool)
    ensures
        r == claims_premium(*claims),
{
    match &claims.membership_roles {
        Some(rs) => {
            for i in 0..rs.len()
                invariant
                    claims.membership_roles == Some(*rs),
                    forall|k: int|
                        0 <= k < i ==> !is_premium_role(crate::text::opt_view(#[trigger] rs@[k])),
            {
                match &rs[i] {
                    Some(s) => {
                        let v = chars_of(s.as_str());
                        if crate::text::chars_eq_str(v.as_slice(), "premium")
                            || crate::text::chars_eq_str(v.as_slice(), "lifetimepremium") {
                            assert(is_premium_role(crate::text::opt_view(rs@[i as int])));
                            return true;
                        }
                    },
                    None => {},
                }
            }
            false
        },
        None => false,
    }
}

/// Records a completed sign-in (`handle_oauth_callback`): the tokens, their
/// expiry (0 when the payload has none), the user name (empty when it has
/// none) and whether the membership is premium.
pub fn record_sign_in(config: &mut Config, access_token: String, refresh_token: String, claims: &JwtClaims)
    ensures
        final(config).nexus_token == Some(access_token),
        final(config).nexus_refresh_token == Some(refresh_token),
        final(config).nexus_token_expiry == Some(match claims.exp {
            Some(e) => e,
            None => 0,
        }),
        final(config).nexus_username matches Some(u) && u@ == (match claims.username {
            Some(n) => n@,
            None => Seq::empty(),
        }),
        final(config).nexus_is_premium == Some(claims_premium(*claims)),
        final(config).mods_folder == old(config).mods_folder,
        final(config).nexus_client_id == old(config).nexus_client_id,
        final(config).nexus_api_key == old(config).nexus_api_key,
        final(config).profiles == old(config).profiles,
        final(config).active_profile == old(config).active_profile,
        final(config).download_dir == old(config).download_dir,
        final(config).setup_complete == old(config).setup_complete,
{
    let premium = is_premium(claims);
    config.nexus_token = Some(access_token);
    config.nexus_refresh_token = Some(refresh_token);
    config.nexus_token_expiry = Some(match claims.exp {
        Some(e) => e,
        None => 0,
    });
    config.nexus_username = Some(match &claims.username {
        Some(n) => n.clone(),
        None => String::new(),
    });
    config.nexus_is_premium = Some(premium);
}

/// Records refreshed tokens (`get_nexus_auth`): as a sign-in, except that
/// the user name is whatever the payload holds.
pub fn record_refresh(config: &mut Config, access_token: String, refresh_token: String, claims: &JwtClaims)
    ensures
        final(config).nexus_token == Some(access_token),
        final(config).nexus_refresh_token == Some(refresh_token),
        final(config).nexus_token_expiry == Some(match claims.exp {
            Some(e) => e,
            None => 0,
        }),
        crate::text::opt_view(final(config).nexus_username) == crate::text::opt_view(
            claims.username,
        ),
        final(config).nexus_is_premium == Some(claims_premium(*claims)),
        final(config).mods_folder == old(config).mods_folder,
        final(config).nexus_client_id == old(config).nexus_client_id,
        final(config).nexus_api_key == old(config).nexus_api_key,
        final(config).profiles == old(config).profiles,
        final(config).active_profile == old(config).active_profile,
        final(config).download_dir == old(config).download_dir,
        final(config).setup_complete == old(config).setup_complete,
{
    let premium = is_premium(claims);
    config.nexus_token = Some(access_token);
    config.nexus_refresh_token = Some(refresh_token);
    config.nexus_token_expiry = Some(match claims.exp {
        Some(e) => e,
        None => 0,
    });
    config.nexus_username = crate::nexus::clone_opt(&claims.username);
    config.nexus_is_premium = Some(premium);
}

/// How to authenticate the next API request.
#[derive(Debug)]
pub enum AuthStep {
    /// Send this bearer token.
    Bearer(String),
    /// The token has expired: refresh it with this refresh token and client id.
    Refresh(String, String),
}

/// How to authenticate, given the stored tokens and the time: the stored
/// token while it has more than a minute left, a refresh when it has not;
/// `None` when a token, its expiry, a refresh token or a client id is missing.
pub open spec fn auth_step_spec(c: &Config, now: u64) -> Option<(bool, Seq<char>, Seq<char>)> {
    match (c.nexus_token, c.nexus_token_expiry, c.nexus_refresh_token, c.nexus_client_id) {
        (Some(t), Some(exp), Some(r), Some(id)) => if (now as int) < (if exp >= 60 {
            exp - 60
        } else {
            0
        }) {
            Some((true, t@, Seq::empty()))
        } else {
            Some((false, r@, id@))
        },
        _ => None,
    }
}

/// How to authenticate, given the stored tokens and the time.
pub fn auth_step(config: &Config, now: u64) -> (r: Option<AuthStep>)
    ensures
        match r {
            Some(AuthStep::Bearer(t)) => auth_step_spec(config, now) == Some(
                (true, t@, Seq::<char>::empty()),
            ),
            Some(AuthStep::Refresh(rt, id)) => auth_step_spec(config, now) == Some(
                (false, rt@, id@),
            ),
            None => auth_step_spec(config, now) is None,
        },
{
    match (&config.nexus_token, config.nexus_token_expiry, &config.nexus_refresh_token, &config.nexus_client_id) {
        (Some(t), Some(exp), Some(r), Some(id)) => {
            if now < exp.saturating_sub(60) {
                Some(AuthStep::Bearer(t.clone()))
            } else {
                Some(AuthStep::Refresh(r.clone(), id.clone()))
            }
        },
        _ => None,
    }
}

/// The header for a bearer token.
pub fn bearer_header(token: &str) -> (r: (String, String))
    ensures
        r.0@ == "Authorization"@,
        r.1@ == "Bearer "@ + token@,
{
    let mut v = chars_of("Bearer ");
    extend_str(&mut v, token);
    ("Authorization".to_owned(), string_from(v.as_slice()))
}

/// The message when no way to authenticate is configured.
pub open spec fn no_auth_message() -> Seq<char> {
    "No Nexus authentication. Sign in with Nexus Mods or add an API key in Settings."@
}

/// The API key header, the fallback when no token can be used.
pub fn api_key_header(config: &Config) -> (r: Result<(String, String), String>)
    ensures
        match config.nexus_api_key {
            Some(k) => r matches Ok((h, v)) && h@ == "apikey"@ && v@ == k@,
            None => r matches Err(e) && e@ == no_auth_message(),
        },
{
    match &config.nexus_api_key {
        Some(k) => Ok(("apikey".to_owned(), k.clone())),
        None => Err(
            "No Nexus authentication. Sign in with Nexus Mods or add an API key in Settings.".to_owned(),
        ),
    }
}

/// The form of a token request that exchanges an authorization code.
pub fn code_exchange_form(code: &str, verifier: &str, client_id: &str) -> (r: Vec<(String, String)>)
    ensures
        r@.len() == 5,
        r@[0].0@ == "grant_type"@ && r@[0].1@ == "authorization_code"@,
        r@[1].0@ == "redirect_uri"@ && r@[1].1@ == "http://127.0.0.1:8089/callback"@,
        r@[2].0@ == "client_id"@ && r@[2].1@ == client_id@,
        r@[3].0@ == "code"@ && r@[3].1@ == code@,
        r@[4].0@ == "code_verifier"@ && r@[4].1@ == verifier@,
{
    let mut r: Vec<(String, String)> = Vec::new();
    r.push(("grant_type".to_owned(), "authorization_code".to_owned()));
    r.push(("redirect_uri".to_owned(), "http://127.0.0.1:8089/callback".to_owned()));
    r.push(("client_id".to_owned(), client_id.to_owned()));
    r.push(("code".to_owned(), code.to_owned()));
    r.push(("code_verifier".to_owned(), verifier.to_owned()));
    r
}

/// The form of a token request that refreshes a token.
pub fn refresh_form(refresh: &str, client_id: &str) -> (r: Vec<(String, String)>)
    ensures
        r@.len() == 3,
        r@[0].0@ == "grant_type"@ && r@[0].1@ == "refresh_token"@,
        r@[1].0@ == "client_id"@ && r@[1].1@ == client_id@,
        r@[2].0@ == "refresh_token"@ && r@[2].1@ == refresh@,
{
    let mut r: Vec<(String, String)> = Vec::new();
    r.push(("grant_type".to_owned(), "refresh_token".to_owned()));
    r.push(("client_id".to_owned(), client_id.to_owned()));
    r.push(("refresh_token".to_owned(), refresh.to_owned()));
    r
}


/// The page the local callback server answers the browser with.
pub open spec fn callback_page_spec() -> Seq<char> {
    "HTTP/1.1 200 OK\r\nContent-Type: text/html; charset=utf-8\r\nConnection: close\r\n\r\n<html><head><title>Tidekeeper</title></head><body style='font-family:sans-serif;text-align:center;padding:60px;background:#0d1117;color:#e0e0e0'><h2 style='color:#00d4ff'>\u{2713} Signed in! You can close this tab.</h2><p>Return to Tidekeeper to continue.</p></body></html>"@
}

/// The page the local callback server answers the browser with.
pub fn callback_page() -> (r: String)
    ensures
        r@ == callback_page_spec(),
{
    "HTTP/1.1 200 OK\r\nContent-Type: text/html; charset=utf-8\r\nConnection: close\r\n\r\n<html><head><title>Tidekeeper</title></head><body style='font-family:sans-serif;text-align:center;padding:60px;background:#0d1117;color:#e0e0e0'><h2 style='color:#00d4ff'>\u{2713} Signed in! You can close this tab.</h2><p>Return to Tidekeeper to continue.</p></body></html>".to_owned()
}

/// The error when the token endpoint refuses a code, with its answer.
pub fn token_exchange_failed(body: &str) -> (r: String)
    ensures
        r@ == "Token exchange failed: "@ + body@,
{
    let mut v = chars_of("Token exchange failed: ");
    extend_str(&mut v, body);
    string_from(v.as_slice())
}

/// The error when the token endpoint refuses a refresh.
pub fn token_refresh_failed() -> (r: String)
    ensures
        r@ == "Token refresh failed \u{2014} please sign in again"@,
{
    "Token refresh failed \u{2014} please sign in again".to_owned()
}


/// A membership is premium exactly when one of its roles is the text
/// `premium` or `lifetimepremium`; claims without roles are not premium.
pub proof fn law_premium_roles(c: JwtClaims)
    ensures
        claims_premium(c) <==> (c.membership_roles matches Some(rs) && exists|i: int|
            0 <= i < rs@.len() && ((#[trigger] rs@[i]) matches Some(t) && (t@ == "premium"@
                || t@ == "lifetimepremium"@))),
{
    if let Some(rs) = c.membership_roles {
        if claims_premium(c) {
            let i = choose|i: int|
                0 <= i < rs.len() && is_premium_role(crate::text::opt_view(#[trigger] rs@[i]));
            assert(rs@[i] matches Some(t) && (t@ == "premium"@ || t@ == "lifetimepremium"@));
        }
        if exists|i: int|
            0 <= i < rs@.len() && ((#[trigger] rs@[i]) matches Some(t) && (t@ == "premium"@
                || t@ == "lifetimepremium"@)) {
            let i = choose|i: int|
                0 <= i < rs@.len() && ((#[trigger] rs@[i]) matches Some(t) && (t@ == "premium"@
                    || t@ == "lifetimepremium"@));
            assert(is_premium_role(crate::text::opt_view(rs@[i])));
        }
    }
}

} // verus!
