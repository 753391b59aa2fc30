use smartycrank::config::{
    load_spotify, load_tv, resolve_tv, resolve_tv_host, ConfigError, DefaultConfig, FileConfig,
    SecretKey, SpotifyFileConfig, TvFileConfig, TvProfiles, WakeMethod,
};

fn tv(host: &str) -> TvFileConfig {
    TvFileConfig { host: host.to_string(), mac: None, bind_addr: None, wake: None, smartthings_device_id: None }
}

fn file(legacy: Option<&str>, profiles: Option<Vec<(&str, &str)>>, default: Option<&str>) -> FileConfig {
    FileConfig {
        tv: legacy.map(tv),
        tvs: profiles.map(|ps| {
            let mut m = TvProfiles::new();
            for (n, h) in ps {
                m.insert(n.to_string(), tv(h));
            }
            m
        }),
        default: default.map(|d| DefaultConfig { tv: Some(d.to_string()) }),
        spotify: None,
    }
}

fn host_of(r: Result<String, ConfigError>) -> String {
    match r {
        Ok(h) => h,
        Err(_) => panic!("expected a host"),
    }
}

#[test]
fn argument_names_a_profile() {
    let f = file(Some("10.0.0.1"), Some(vec![("living", "10.0.0.2"), ("bed", "10.0.0.3")]), None);
    assert_eq!(host_of(resolve_tv_host(&f, Some("bed"))), "10.0.0.3");
}

#[test]
fn argument_that_is_no_profile_is_a_host() {
    let f = file(Some("10.0.0.1"), Some(vec![("living", "10.0.0.2")]), None);
    assert_eq!(host_of(resolve_tv_host(&f, Some("192.168.1.44"))), "192.168.1.44");
    let g = file(None, None, None);
    assert_eq!(host_of(resolve_tv_host(&g, Some("tv.local"))), "tv.local");
}

#[test]
fn default_profile_is_used_without_argument() {
    let f = file(Some("10.0.0.1"), Some(vec![("living", "10.0.0.2"), ("bed", "10.0.0.3")]), Some("living"));
    assert_eq!(host_of(resolve_tv_host(&f, None)), "10.0.0.2");
}

#[test]
fn missing_default_profile_is_an_error() {
    let f = file(Some("10.0.0.1"), Some(vec![("living", "10.0.0.2")]), Some("kitchen"));
    match resolve_tv_host(&f, None) {
        Err(ConfigError::DefaultTvNotFound(n)) => assert_eq!(n, "kitchen"),
        _ => panic!("expected DefaultTvNotFound"),
    }
}

#[test]
fn default_without_profiles_falls_back_to_legacy() {
    let f = file(Some("10.0.0.1"), None, Some("living"));
    assert_eq!(host_of(resolve_tv_host(&f, None)), "10.0.0.1");
}

#[test]
fn legacy_section() {
    let f = file(Some("10.0.0.1"), Some(vec![("living", "10.0.0.2")]), None);
    assert_eq!(host_of(resolve_tv_host(&f, None)), "10.0.0.1");
}

#[test]
fn nothing_configured() {
    let f = file(None, Some(vec![("living", "10.0.0.2")]), None);
    assert!(matches!(resolve_tv_host(&f, None), Err(ConfigError::NoTvConfigured)));
}

#[test]
fn a_profile_name_is_held_once() {
    let f = file(None, Some(vec![("a", "1.1.1.1"), ("b", "3.3.3.3"), ("a", "2.2.2.2")]), None);
    assert_eq!(host_of(resolve_tv_host(&f, Some("a"))), "2.2.2.2");
    let profiles = f.tvs.unwrap().into_profiles();
    assert_eq!(profiles.len(), 2);
    assert!(profiles.iter().any(|p| p.name == "a" && p.tv.host == "2.2.2.2"));
    assert!(profiles.iter().any(|p| p.name == "b" && p.tv.host == "3.3.3.3"));
}

#[test]
fn profiles_lookup() {
    let mut m = TvProfiles::new();
    assert!(m.get("x").is_none());
    m.insert("x".to_string(), tv("9.9.9.9"));
    assert_eq!(m.get("x").map(|t| t.host.as_str()), Some("9.9.9.9"));
    assert!(m.get("y").is_none());
}

#[test]
fn profile_settings_come_along() {
    let mut f = file(None, None, None);
    let mut m = TvProfiles::new();
    m.insert(
        "living".to_string(),
        TvFileConfig {
            host: "10.0.0.2".to_string(),
            mac: Some("AA:BB:CC:DD:EE:FF".to_string()),
            bind_addr: Some("10.0.0.9".to_string()),
            wake: Some(WakeMethod::Wol),
            smartthings_device_id: None,
        },
    );
    f.tvs = Some(m);
    let t = match resolve_tv(&f, Some("living")) {
        Ok(t) => t,
        Err(_) => panic!("expected a TV"),
    };
    assert_eq!(t.mac.as_deref(), Some("AA:BB:CC:DD:EE:FF"));
    assert_eq!(t.bind_addr.as_deref(), Some("10.0.0.9"));
    assert_eq!(t.wake, Some(WakeMethod::Wol));
}

#[test]
fn load_tv_combines_file_and_secrets() {
    let f = file(Some("10.0.0.1"), None, None);
    let c = match load_tv(&f, None, || Ok("tok".to_string()), || Some("st".to_string())) {
        Ok(c) => c,
        Err(_) => panic!("expected a config"),
    };
    assert_eq!(c.host, "10.0.0.1");
    assert_eq!(c.token.as_deref(), Some("tok"));
    assert_eq!(c.smartthings_token.as_deref(), Some("st"));
    assert_eq!(c.mac, None);
}

#[test]
fn load_tv_reports_selection_before_secret() {
    let f = file(None, None, None);
    let read = std::cell::Cell::new(false);
    let r = load_tv(&f, None, || { read.set(true); Err("locked".to_string()) }, || None);
    assert!(matches!(r, Err(ConfigError::NoTvConfigured)));
    assert!(!read.get());
    let g = file(Some("10.0.0.1"), None, None);
    match load_tv(&g, None, || Err("locked".to_string()), || None) {
        Err(ConfigError::SecretLookup(k, m)) => {
            assert_eq!(k, SecretKey::TvToken);
            assert_eq!(m, "locked");
        }
        _ => panic!("expected a secret error"),
    }
}

#[test]
fn load_spotify_defaults_the_app_id() {
    let mut f = file(None, None, None);
    f.spotify = Some(SpotifyFileConfig { tv_device_name: "Samsung TV".to_string(), tv_app_id: None });
    let c = match load_spotify(&f, || Ok("refresh".to_string())) {
        Ok(c) => c,
        Err(_) => panic!("expected a config"),
    };
    assert_eq!(c.tv_app_id, "3201606009684");
    assert_eq!(c.tv_device_name, "Samsung TV");
    assert_eq!(c.refresh_token, "refresh");
    f.spotify = Some(SpotifyFileConfig { tv_device_name: "TV".to_string(), tv_app_id: Some("42".to_string()) });
    match load_spotify(&f, || Ok("r".to_string())) {
        Ok(c) => assert_eq!(c.tv_app_id, "42"),
        Err(_) => panic!("expected a config"),
    }
}

#[test]
fn load_spotify_errors() {
    let f = file(None, None, None);
    let read = std::cell::Cell::new(false);
    let r = load_spotify(&f, || { read.set(true); Err("x".to_string()) });
    assert!(matches!(r, Err(ConfigError::MissingSpotifySection)));
    assert!(!read.get());
    let mut g = file(None, None, None);
    g.spotify = Some(SpotifyFileConfig { tv_device_name: "TV".to_string(), tv_app_id: None });
    match load_spotify(&g, || Err("no entry".to_string())) {
        Err(ConfigError::SecretLookup(k, m)) => {
            assert_eq!(k, SecretKey::SpotifyRefreshToken);
            assert_eq!(m, "no entry");
        }
        _ => panic!("expected a secret error"),
    }
}

#[test]
fn secret_names() {
    assert_eq!(SecretKey::TvToken.name(), "tv-token");
    assert_eq!(SecretKey::SpotifyRefreshToken.name(), "spotify-refresh-token");
    assert_eq!(SecretKey::SmartthingsToken.name(), "smartthings-token");
}
