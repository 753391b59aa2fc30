//! The Spotify side: the PKCE authorization values, the callback that
//! carries the authorization code, the cached access token, and the
//! decisions read off the Web API's answers.

use vstd::prelude::*;
use vstd::string::StringSliceAdditionalSpecFns;
use vstd::utf8::encode_utf8;
use crate::outside::{
    json_quoted, json_string, base64_url_no_pad, encode_base64_url_no_pad, random_bytes, sha256, sha256_digest, url_encode,
    url_encode_bytes,
};
use crate::text::{
    chars_of, find_from, find_in_range, str_eq, substring, word_ranges, words, pieces_of, occurs_at,
    is_whitespace, lemma_words_push_word, lemma_words_push_whitespace, lemma_find_from_none,
    lemma_find_from_first,
};

verus! {

/// The app's Spotify client id.
pub const CLIENT_ID: &'static str = "40c148a5aa614c38b6032a73ba2f030f";

/// Where Spotify sends the browser back after the user authorizes the app.
pub const REDIRECT_URI: &'static str = "http://127.0.0.1:8913/callback";

/// The endpoint that trades codes and refresh tokens for access tokens.
pub const TOKEN_URL: &'static str = "https://accounts.spotify.com/api/token";

/// The player endpoint of the Web API.
pub const PLAYER_URL: &'static str = "https://api.spotify.com/v1/me/player";

/// The permissions the app asks for.
pub const SCOPES: &'static str = "user-read-playback-state user-modify-playback-state";

/// How long before its expiry a cached access token is no longer used.
pub const TOKEN_MARGIN_SECS: u64 = 300;

/// The lifetime of an access token whose response states none.
pub const DEFAULT_TOKEN_LIFETIME_SECS: u64 = 3600;

/// What the Spotify answers lead to, where it is not what was wanted.
pub enum SpotifyError {
    /// The device list has no `devices` array.
    NoDevicesArray,
    /// No device carries the TV's name (which this holds).
    TvNotFound(String),
    /// The TV's device entry has no id.
    DeviceHasNoId,
    /// The token response of the authorization carries no refresh token.
    NoRefreshToken,
}

/// The PKCE code verifier made of `bytes`: their URL-safe Base64 without
/// padding.
pub fn code_verifier_of(bytes: &[u8; 64]) -> (r: String)
    ensures
        r@ == base64_url_no_pad(bytes@),
{
    encode_base64_url_no_pad(bytes.as_slice())
}

/// A PKCE code verifier: 64 random bytes in URL-safe Base64 without padding.
pub fn generate_code_verifier() -> (r: String)
    ensures
        exists|b: Seq<u8>| b.len() == 64 && r@ == base64_url_no_pad(b),
{
    let bytes = random_bytes();
    code_verifier_of(&bytes)
}

/// The PKCE code challenge of a verifier: the URL-safe unpadded Base64 of the
/// SHA-256 digest of its UTF-8 bytes.
pub fn code_challenge(verifier: &str) -> (r: String)
    ensures
        r@ == base64_url_no_pad(sha256(encode_utf8(verifier@))),
        r@.len() == 43,
{
    let hash = sha256_digest(verifier.as_bytes());
    proof {
        crate::outside::lemma_base64_unpadded_len(hash@, true);
    }
    encode_base64_url_no_pad(hash.as_slice())
}

/// The authorization page's address for a code challenge.
pub open spec fn authorize_url_of(challenge: Seq<char>) -> Seq<char> {
    "https://accounts.spotify.com/authorize?client_id="@ + CLIENT_ID@
        + "&response_type=code&redirect_uri="@ + url_encode_bytes(encode_utf8(REDIRECT_URI@))
        + "&scope="@ + url_encode_bytes(encode_utf8(SCOPES@))
        + "&code_challenge_method=S256&code_challenge="@ + challenge
}

/// The address of Spotify's authorization page for `challenge`, with the
/// redirect address and the scopes percent-encoded.
pub fn authorize_url(challenge: &str) -> (r: String)
    ensures
        r@ == authorize_url_of(challenge@),
{
    let mut url = "https://accounts.spotify.com/authorize?client_id=".to_owned();
    url.append(CLIENT_ID);
    url.append("&response_type=code&redirect_uri=");
    let redirect = url_encode(REDIRECT_URI);
    url.append(redirect.as_str());
    url.append("&scope=");
    let scopes = url_encode(SCOPES);
    url.append(scopes.as_str());
    url.append("&code_challenge_method=S256&code_challenge=");
    url.append(challenge);
    url
}

/// The text that introduces the code in the callback's query.
pub open spec fn code_marker() -> Seq<char> {
    seq!['c', 'o', 'd', 'e', '=']
}

/// The part of `s` before the first `c`, all of it where `c` does not occur.
pub open spec fn text_before(s: Seq<char>, c: char) -> Seq<char> {
    match find_from(s, seq![c], 0) {
        Some(k) => s.take(k as int),
        None => s,
    }
}

/// The authorization code of the callback's request line: the line's second
/// word is the requested path; the code is what follows its first `code=`,
/// up to the next `code=` and then up to the first `&`.
pub open spec fn callback_code(line: Seq<char>) -> Option<Seq<char>> {
    let w = words(line);
    if w.len() < 2 {
        None
    } else {
        let path = w[1];
        match find_from(path, code_marker(), 0) {
            None => None,
            Some(i) => {
                let after = path.skip(i + 5int);
                let piece = match find_from(after, code_marker(), 0) {
                    Some(j) => after.take(j as int),
                    None => after,
                };
                Some(text_before(piece, '&'))
            },
        }
    }
}

/// Reads the authorization code out of the first line of the browser's
/// request to the redirect address.
pub fn parse_callback_code(request_line: &str) -> (r: Option<String>)
    ensures
        r matches Some(code) ==> callback_code(request_line@) == Some(code@),
        r is None ==> callback_code(request_line@) is None,
{
    let v = chars_of(request_line);
    let ws = word_ranges(&v, 0, v.len());
    assert(v@.subrange(0, v@.len() as int) == v@);
    if ws.len() < 2 {
        return None;
    }
    let (a, b) = ws[1];
    let ghost path = v@.subrange(a as int, b as int);
    assert(words(request_line@)[1] == path);
    let mut marker: Vec<char> = Vec::new();
    marker.push('c');
    marker.push('o');
    marker.push('d');
    marker.push('e');
    marker.push('=');
    assert(marker@ == code_marker());
    let i = match find_in_range(&v, a, b, &marker, a) {
        Some(i) => i,
        None => {
            return None;
        },
    };
    assert(i + 5 <= b) by {
        assert(find_from(path, code_marker(), 0) == Some((i - a) as nat));
        crate::text::lemma_find_from_occurs(path, code_marker(), 0);
    }
    let ghost after = path.skip(i - a + 5);
    assert(after == v@.subrange(i + 5, b as int));
    let end1 = match find_in_range(&v, i + 5, b, &marker, i + 5) {
        Some(j) => j,
        None => b,
    };
    let ghost piece = v@.subrange(i + 5, end1 as int);
    assert(piece == match find_from(after, code_marker(), 0) {
        Some(j) => after.take(j as int),
        None => after,
    });
    let mut amp: Vec<char> = Vec::new();
    amp.push('&');
    let end2 = match find_in_range(&v, i + 5, end1, &amp, i + 5) {
        Some(k) => k,
        None => end1,
    };
    assert(v@.subrange(i + 5, end2 as int) == text_before(piece, '&'));
    assert(v@ == request_line@);
    Some(substring(request_line, i + 5, end2))
}

/// The first line of the browser's request to the redirect address that
/// carries `code`.
pub open spec fn callback_request_line(code: Seq<char>) -> Seq<char> {
    "GET"@ + seq![' '] + ("/callback?code="@ + code) + seq![' '] + "HTTP/1.1"@
}

/// A code without white space, `&` or `code=` in it is read back out of the
/// request line that carries it.
pub proof fn lemma_callback_code_roundtrip(code: Seq<char>)
    requires
        forall|i: int| 0 <= i < code.len() ==> !is_whitespace(#[trigger] code[i]) && code[i] != '&',
        forall|i: int| !#[trigger] occurs_at(code, code_marker(), i),
    ensures
        callback_code(callback_request_line(code)) == Some(code),
{
    reveal_strlit("GET");
    reveal_strlit("/callback?code=");
    reveal_strlit("HTTP/1.1");
    let get = "GET"@;
    let prefix = "/callback?code="@;
    let path = prefix + code;
    let version = "HTTP/1.1"@;
    let sp = seq![' '];
    let empty = Seq::<char>::empty();
    assert(is_whitespace(' '));
    assert forall|i: int| 0 <= i < get.len() implies !is_whitespace(#[trigger] get[i]) by {}
    assert forall|i: int| 0 <= i < path.len() implies !is_whitespace(#[trigger] path[i]) by {
        if i >= prefix.len() {
            assert(path[i] == code[i - prefix.len()]);
        }
    }
    assert forall|i: int| 0 <= i < version.len() implies !is_whitespace(#[trigger] version[i]) by {}
    lemma_words_push_word(empty, get);
    assert(empty + get == get);
    lemma_words_push_whitespace(get, ' ');
    assert(get.push(' ') == get + sp);
    lemma_words_push_word(get + sp, path);
    lemma_words_push_whitespace(get + sp + path, ' ');
    assert((get + sp + path).push(' ') == get + sp + path + sp);
    lemma_words_push_word(get + sp + path + sp, version);
    assert(callback_request_line(code) == get + sp + path + sp + version);
    assert(words(callback_request_line(code))[1] == path);
    let m = code_marker();
    assert(occurs_at(path, m, 10)) by {
        assert(path.subrange(10, 15) == m);
    }
    assert forall|j: int| 0 <= j < 10 implies !#[trigger] occurs_at(path, m, j) by {
        assert(path.subrange(j, j + 5)[0] == path[j]);
        assert(path.subrange(j, j + 5)[1] == path[j + 1]);
        assert(path[j] == prefix[j] && path[j + 1] == prefix[j + 1]);
    }
    lemma_find_from_first(path, m, 0, 10);
    assert(path.skip(15) == code);
    lemma_find_from_none(code, m, 0);
    assert forall|j: int| 0 <= j implies !#[trigger] occurs_at(code, seq!['&'], j) by {
        if occurs_at(code, seq!['&'], j) {
            assert(code.subrange(j, j + 1)[0] == code[j]);
        }
    }
    lemma_find_from_none(code, seq!['&'], 0);
}

/// A token cached on disk with its expiry time (seconds since the epoch).
pub struct CachedToken {
    pub access_token: String,
    pub expires_at: u64,
}

/// Whether a token expiring at `expires_at` is still used at `now`: until
/// `TOKEN_MARGIN_SECS` before it expires.
pub open spec fn token_fresh(expires_at: int, now: int) -> bool {
    now < expires_at - TOKEN_MARGIN_SECS
}

/// The cached access token, where it is still fresh at `now`; a token that
/// expires within the margin, or before it even starts, is stale.
pub fn cached_access_token(cached: CachedToken, now: u64) -> (r: Option<String>)
    ensures
        r == if token_fresh(cached.expires_at as int, now as int) {
            Some(cached.access_token)
        } else {
            None
        },
{
    if cached.expires_at >= TOKEN_MARGIN_SECS && now < cached.expires_at - TOKEN_MARGIN_SECS {
        Some(cached.access_token)
    } else {
        None
    }
}

/// The cache entry of a token obtained at `now` that lives `expires_in`
/// seconds.
pub fn new_cached_token(access_token: String, now: u64, expires_in: u64) -> (r: CachedToken)
    requires
        now + expires_in <= u64::MAX,
    ensures
        r.access_token == access_token,
        r.expires_at == now + expires_in,
{
    CachedToken { access_token, expires_at: now + expires_in }
}

/// A token saved at `saved_at` with lifetime `lifetime` is served from the
/// cache at `now` exactly while `now + TOKEN_MARGIN_SECS` is before its
/// expiry: for every lifetime, a short one too.
pub proof fn lemma_cache_lifetime(saved_at: u64, lifetime: u64, now: u64)
    requires
        saved_at + lifetime <= u64::MAX,
    ensures
        token_fresh(saved_at + lifetime, now as int) <==> now + TOKEN_MARGIN_SECS < saved_at
            + lifetime,
{
}

/// The answer of the token endpoint.
pub struct TokenResponse {
    pub access_token: String,
    pub refresh_token: Option<String>,
    pub expires_in: Option<u64>,
}

/// The lifetime in seconds of a token whose response states `expires_in`.
pub fn token_lifetime(expires_in: Option<u64>) -> (r: u64)
    ensures
        r == match expires_in {
            Some(e) => e,
            None => DEFAULT_TOKEN_LIFETIME_SECS,
        },
{
    match expires_in {
        Some(e) => e,
        None => DEFAULT_TOKEN_LIFETIME_SECS,
    }
}

/// The refresh token that the authorization's token response must carry.
pub fn auth_refresh_token(resp: TokenResponse) -> (r: Result<String, SpotifyError>)
    ensures
        match resp.refresh_token {
            Some(t) => r == Ok::<String, SpotifyError>(t),
            None => r matches Err(SpotifyError::NoRefreshToken),
        },
{
    match resp.refresh_token {
        Some(t) => Ok(t),
        None => Err(SpotifyError::NoRefreshToken),
    }
}

/// Whether an HTTP status code is a success (200 to 299).
pub fn is_success_status(code: u16) -> (r: bool)
    ensures
        r == (200 <= code <= 299),
{
    200 <= code && code <= 299
}

/// What the player endpoint's status says about playback.
#[derive(Clone, Copy, Debug, PartialEq, Eq, Structural)]
pub enum PlayerCheck {
    /// Nothing plays (204 No Content), or the request failed.
    NotPlaying,
    /// The body describes the playback: read it.
    ReadState,
}

/// What the player endpoint's status `code` says.
pub fn player_check(code: u16) -> (r: PlayerCheck)
    ensures
        r == (if code == 204 || !(200 <= code <= 299) {
            PlayerCheck::NotPlaying
        } else {
            PlayerCheck::ReadState
        }),
{
    if code == 204 {
        return PlayerCheck::NotPlaying;
    }
    if !is_success_status(code) {
        return PlayerCheck::NotPlaying;
    }
    PlayerCheck::ReadState
}

/// Whether the device that plays is the TV.
pub fn is_tv_device(device_name: &str, tv_device_name: &str) -> (r: bool)
    ensures
        r == (device_name@ == tv_device_name@),
{
    str_eq(device_name, tv_device_name)
}

/// One entry of the device list: its name and id where they are strings.
pub struct DeviceEntry {
    pub name: Option<String>,
    pub id: Option<String>,
}

/// The entry carries the name `name`.
pub open spec fn is_named(d: DeviceEntry, name: Seq<char>) -> bool {
    d.name matches Some(n) && n@ == name
}

/// `k` is the first entry of `devices` named `name`.
pub open spec fn first_named(devices: Seq<DeviceEntry>, name: Seq<char>, k: int) -> bool {
    0 <= k < devices.len() && is_named(devices[k], name) && forall|j: int|
        0 <= j < k ==> !is_named(#[trigger] devices[j], name)
}

/// The TV is the first device whose name equals the TV's device name
/// exactly (a longer name that merely starts with it is another device), and
/// that device is unique.
pub proof fn lemma_first_named_is_exact(ds: Seq<DeviceEntry>, name: Seq<char>, k: int, k2: int)
    ensures
        first_named(ds, name, k) <==> (0 <= k < ds.len() && ds[k].name is Some && ds[k].name->Some_0@
            == name && forall|j: int|
            0 <= j < k ==> !(#[trigger] ds[j].name is Some && ds[j].name->Some_0@ == name)),
        first_named(ds, name, k) && first_named(ds, name, k2) ==> k == k2,
{
    if first_named(ds, name, k) && first_named(ds, name, k2) && k != k2 {
        if k < k2 {
            assert(!is_named(ds[k], name));
        } else {
            assert(!is_named(ds[k2], name));
        }
    }
}

/// The index of the first entry of `list` named `name`.
fn first_named_index(list: &Vec<DeviceEntry>, name: &str) -> (r: Option<usize>)
    ensures
        r matches Some(k) ==> list@[k as int].name is Some && list@[k as int].name->Some_0@ == name@,
        r matches Some(k) ==> first_named(list@, name@, k as int),
        r is None ==> forall|k: int| 0 <= k < list@.len() ==> !is_named(#[trigger] list@[k], name@),
{
    let mut i: usize = 0;
    while i < list.len()
        invariant
            i <= list@.len(),
            forall|j: int| 0 <= j < i ==> !is_named(#[trigger] list@[j], name@),
        decreases list.len() - i,
    {
        let named = match &list[i].name {
            Some(n) => str_eq(n.as_str(), name),
            None => false,
        };
        if named {
            return Some(i);
        }
        i = i + 1;
    }
    None
}

/// The id of the first device named `tv_device_name` in the device list.
pub fn tv_device_id(devices: Option<Vec<DeviceEntry>>, tv_device_name: &str) -> (r: Result<
    String,
    SpotifyError,
>)
    ensures
        devices is None ==> r matches Err(SpotifyError::NoDevicesArray),
        devices matches Some(ds) ==> match r {
            Ok(id) => exists|k: int| first_named(ds@, tv_device_name@, k) && ds@[k].id == Some(id),
            Err(SpotifyError::DeviceHasNoId) => exists|k: int|
                first_named(ds@, tv_device_name@, k) && ds@[k].id is None,
            Err(SpotifyError::TvNotFound(n)) => n@ == tv_device_name@ && forall|k: int|
                0 <= k < ds@.len() ==> !is_named(#[trigger] ds@[k], tv_device_name@),
            Err(_) => false,
        },
        devices matches Some(ds) ==> match r {
            Ok(id) => exists|k: int|
                0 <= k < ds@.len() && ds@[k].name is Some && ds@[k].name->Some_0@ == tv_device_name@
                    && ds@[k].id == Some(id) && forall|j: int|
                    0 <= j < k ==> !(#[trigger] ds@[j].name is Some && ds@[j].name->Some_0@
                        == tv_device_name@),
            Err(SpotifyError::DeviceHasNoId) => exists|k: int|
                0 <= k < ds@.len() && ds@[k].name is Some && ds@[k].name->Some_0@ == tv_device_name@
                    && ds@[k].id is None && forall|j: int|
                    0 <= j < k ==> !(#[trigger] ds@[j].name is Some && ds@[j].name->Some_0@
                        == tv_device_name@),
            Err(_) => forall|k: int|
                0 <= k < ds@.len() ==> !(#[trigger] ds@[k].name is Some && ds@[k].name->Some_0@
                    == tv_device_name@),
        },
{
    let list = match devices {
        Some(list) => list,
        None => {
            return Err(SpotifyError::NoDevicesArray);
        },
    };
    match first_named_index(&list, tv_device_name) {
        Some(i) => match &list[i].id {
            Some(id) => {
                let c = id.clone();
                assert(list@[i as int].id == Some(c));
                Ok(c)
            },
            None => Err(SpotifyError::DeviceHasNoId),
        },
        None => Err(SpotifyError::TvNotFound(tv_device_name.to_owned())),
    }
}

/// The body of the request that moves playback to device `device_id` and
/// starts it.
pub fn transfer_body(device_id: &str) -> (r: String)
    ensures
        r@ == "{\"device_ids\":["@ + json_quoted(device_id@) + "],\"play\":true}"@,
{
    let mut b = "{\"device_ids\":[".to_owned();
    let id = json_string(device_id);
    b.append(id.as_str());
    b.append("],\"play\":true}");
    b
}

} // verus!
