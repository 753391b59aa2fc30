use smartycrank::spotify::{
    auth_refresh_token, authorize_url, cached_access_token, code_challenge, generate_code_verifier,
    is_success_status, is_tv_device, new_cached_token, parse_callback_code, player_check,
    token_lifetime, tv_device_id, CachedToken, DeviceEntry, PlayerCheck, SpotifyError, TokenResponse,
};

#[test]
fn challenge_is_base64url_of_sha256() {
    assert_eq!(code_challenge("abc"), "ungWv48Bz-pBQUDeXa4iI7ADYaOWF3qctBD_YfIAFa0");
}

#[test]
fn verifier_is_64_random_bytes_in_base64url() {
    let v = generate_code_verifier();
    assert_eq!(v.len(), 86);
    assert!(v.chars().all(|c| c.is_ascii_alphanumeric() || c == '-' || c == '_'));
    assert_ne!(v, generate_code_verifier());
}

#[test]
fn authorize_url_encodes_redirect_and_scopes() {
    assert_eq!(
        authorize_url("CHAL"),
        "https://accounts.spotify.com/authorize?client_id=40c148a5aa614c38b6032a73ba2f030f\
&response_type=code&redirect_uri=http%3A%2F%2F127.0.0.1%3A8913%2Fcallback\
&scope=user-read-playback-state%20user-modify-playback-state\
&code_challenge_method=S256&code_challenge=CHAL"
    );
}

#[test]
fn callback_code_is_read() {
    assert_eq!(parse_callback_code("GET /callback?code=AQBx-12_z HTTP/1.1").as_deref(), Some("AQBx-12_z"));
    assert_eq!(parse_callback_code("GET /callback?code=abc&state=xyz HTTP/1.1").as_deref(), Some("abc"));
    assert_eq!(parse_callback_code("  GET\t/callback?x=1&code=q7   HTTP/1.1\r").as_deref(), Some("q7"));
    assert_eq!(parse_callback_code("GET /callback?code= HTTP/1.1").as_deref(), Some(""));
    assert_eq!(parse_callback_code("GET /callback?code=ab&code=cd HTTP/1.1").as_deref(), Some("ab"));
    assert_eq!(parse_callback_code("GET /callback?code=abcode=cd HTTP/1.1").as_deref(), Some("ab"));
}

#[test]
fn callback_without_code() {
    assert_eq!(parse_callback_code("GET /callback?error=access_denied HTTP/1.1"), None);
    assert_eq!(parse_callback_code("GET"), None);
    assert_eq!(parse_callback_code(""), None);
    assert_eq!(parse_callback_code("code=abc /x"), None);
}

#[test]
fn cached_token_freshness() {
    let fresh = cached_access_token(CachedToken { access_token: "t".to_string(), expires_at: 1000 }, 699);
    assert_eq!(fresh.as_deref(), Some("t"));
    let stale = cached_access_token(CachedToken { access_token: "t".to_string(), expires_at: 1000 }, 700);
    assert_eq!(stale, None);
    let short = cached_access_token(CachedToken { access_token: "t".to_string(), expires_at: 299 }, 0);
    assert_eq!(short, None);
    let zero = cached_access_token(CachedToken { access_token: "t".to_string(), expires_at: 0 }, 0);
    assert_eq!(zero, None);
}

#[test]
fn challenge_length() {
    assert_eq!(code_challenge("").len(), 43);
    assert_eq!(code_challenge(&generate_code_verifier()).len(), 43);
}

#[test]
fn cache_entry_and_lifetime() {
    let c = new_cached_token("abc".to_string(), 1_700_000_000, token_lifetime(None));
    assert_eq!(c.access_token, "abc");
    assert_eq!(c.expires_at, 1_700_003_600);
    assert_eq!(token_lifetime(Some(60)), 60);
    assert_eq!(cached_access_token(c, 1_700_000_000 + 3299).as_deref(), Some("abc"));
}

#[test]
fn refresh_token_of_authorization() {
    let with = TokenResponse { access_token: "a".to_string(), refresh_token: Some("r".to_string()), expires_in: None };
    assert!(matches!(auth_refresh_token(with), Ok(ref r) if r == "r"));
    let without = TokenResponse { access_token: "a".to_string(), refresh_token: None, expires_in: Some(10) };
    assert!(matches!(auth_refresh_token(without), Err(SpotifyError::NoRefreshToken)));
}

#[test]
fn statuses() {
    assert!(is_success_status(200));
    assert!(is_success_status(299));
    assert!(!is_success_status(199));
    assert!(!is_success_status(300));
    assert_eq!(player_check(204), PlayerCheck::NotPlaying);
    assert_eq!(player_check(401), PlayerCheck::NotPlaying);
    assert_eq!(player_check(200), PlayerCheck::ReadState);
    assert_eq!(player_check(202), PlayerCheck::ReadState);
}

#[test]
fn device_names() {
    assert!(is_tv_device("Samsung TV", "Samsung TV"));
    assert!(!is_tv_device("Samsung TV ", "Samsung TV"));
}

fn dev(name: Option<&str>, id: Option<&str>) -> DeviceEntry {
    DeviceEntry { name: name.map(|s| s.to_string()), id: id.map(|s| s.to_string()) }
}

#[test]
fn tv_device_lookup() {
    let list = vec![dev(Some("Phone"), Some("p1")), dev(None, Some("x")), dev(Some("TV"), Some("t1")), dev(Some("TV"), Some("t2"))];
    assert!(matches!(tv_device_id(Some(list), "TV"), Ok(ref id) if id == "t1"));
    let no_id = vec![dev(Some("TV"), None), dev(Some("TV"), Some("t2"))];
    assert!(matches!(tv_device_id(Some(no_id), "TV"), Err(SpotifyError::DeviceHasNoId)));
    let missing = vec![dev(Some("Phone"), Some("p1"))];
    assert!(matches!(tv_device_id(Some(missing), "TV"), Err(SpotifyError::TvNotFound(ref n)) if n == "TV"));
    assert!(matches!(tv_device_id(None, "TV"), Err(SpotifyError::NoDevicesArray)));
}

#[test]
fn verifier_of_fixed_bytes() {
    let bytes = [0u8; 64];
    let v = smartycrank::spotify::code_verifier_of(&bytes);
    assert_eq!(v, "A".repeat(86));
    let mut ff = [0xffu8; 64];
    ff[0] = 0xfb;
    let w = smartycrank::spotify::code_verifier_of(&ff);
    assert!(w.starts_with("-_"));
    assert!(!w.contains('=') && !w.contains('+') && !w.contains('/'));
}
