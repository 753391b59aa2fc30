//! The configuration: what the config file holds, which TV it selects, and
//! the settings handed to the TV and Spotify clients.

use vstd::prelude::*;
use crate::text::str_eq;

verus! {

/// How to switch the TV on.
#[derive(Clone, Copy, Debug, PartialEq, Eq, Structural)]
pub enum WakeMethod {
    /// A Wake-on-LAN packet to the TV's MAC address.
    Wol,
    /// A command through the SmartThings cloud API.
    Smartthings,
}

/// One TV as the config file describes it.
pub struct TvFileConfig {
    pub host: String,
    pub mac: Option<String>,
    pub bind_addr: Option<String>,
    pub wake: Option<WakeMethod>,
    pub smartthings_device_id: Option<String>,
}

/// A named TV profile of the `[tvs]` table.
pub struct TvProfile {
    pub name: String,
    pub tv: TvFileConfig,
}

/// The `[default]` table.
pub struct DefaultConfig {
    pub tv: Option<String>,
}

/// The `[spotify]` table.
pub struct SpotifyFileConfig {
    pub tv_device_name: String,
    pub tv_app_id: Option<String>,
}

/// The whole config file.
pub struct FileConfig {
    /// The single-TV `[tv]` table of older configs.
    pub tv: Option<TvFileConfig>,
    /// The named profiles of `[tvs]`.
    pub tvs: Option<TvProfiles>,
    pub default: Option<DefaultConfig>,
    pub spotify: Option<SpotifyFileConfig>,
}

/// What the TV client is built from.
pub struct TvConfig {
    pub host: String,
    pub token: Option<String>,
    pub mac: Option<String>,
    pub bind_addr: Option<String>,
    pub wake: Option<WakeMethod>,
    pub smartthings_device_id: Option<String>,
    pub smartthings_token: Option<String>,
}

/// What the Spotify client is built from.
pub struct SpotifyConfig {
    pub refresh_token: String,
    pub tv_device_name: String,
    pub tv_app_id: String,
}

/// The keyring entries that the configuration reads.
#[derive(Clone, Copy, Debug, PartialEq, Eq, Structural)]
pub enum SecretKey {
    TvToken,
    SpotifyRefreshToken,
    SmartthingsToken,
}

impl SecretKey {
    /// The entry's name in the keyring.
    pub fn name(&self) -> (r: &'static str)
        ensures
            r@ == secret_name(*self),
    {
        match self {
            SecretKey::TvToken => "tv-token",
            SecretKey::SpotifyRefreshToken => "spotify-refresh-token",
            SecretKey::SmartthingsToken => "smartthings-token",
        }
    }
}

/// The keyring entry name of `key`.
pub open spec fn secret_name(key: SecretKey) -> Seq<char> {
    match key {
        SecretKey::TvToken => "tv-token"@,
        SecretKey::SpotifyRefreshToken => "spotify-refresh-token"@,
        SecretKey::SmartthingsToken => "smartthings-token"@,
    }
}

/// Why no configuration could be made.
pub enum ConfigError {
    /// `[default] tv` names a profile that `[tvs]` lacks.
    DefaultTvNotFound(String),
    /// Neither a `--tv` argument nor a `[tv]` / `[tvs]` section selects a TV.
    NoTvConfigured,
    /// The file has no `[spotify]` section.
    MissingSpotifySection,
    /// The keyring lookup of a secret failed, with the keyring's message.
    SecretLookup(SecretKey, String),
}

/// A TV's settings as plain text values.
pub struct TvSettings {
    pub host: Seq<char>,
    pub mac: Option<Seq<char>>,
    pub bind_addr: Option<Seq<char>>,
    pub wake: Option<WakeMethod>,
    pub smartthings_device_id: Option<Seq<char>>,
}

/// The text of an optional string.
pub open spec fn opt_view(o: Option<String>) -> Option<Seq<char>> {
    match o {
        Some(s) => Some(s@),
        None => None,
    }
}

/// The text of an optional string slice.
pub open spec fn opt_str_view(o: Option<&str>) -> Option<Seq<char>> {
    match o {
        Some(s) => Some(s@),
        None => None,
    }
}

impl View for TvFileConfig {
    type V = TvSettings;

    open spec fn view(&self) -> TvSettings {
        TvSettings {
            host: self.host@,
            mac: opt_view(self.mac),
            bind_addr: opt_view(self.bind_addr),
            wake: self.wake,
            smartthings_device_id: opt_view(self.smartthings_device_id),
        }
    }
}

/// The settings of a TV known only by its host.
pub open spec fn host_only(host: Seq<char>) -> TvSettings {
    TvSettings {
        host: host,
        mac: None,
        bind_addr: None,
        wake: None,
        smartthings_device_id: None,
    }
}

/// The named TV profiles: at most one per name.
pub struct TvProfiles {
    entries: Vec<TvProfile>,
}

/// No two profiles share a name.
pub open spec fn names_distinct(entries: Seq<TvProfile>) -> bool {
    forall|i: int, j: int|
        0 <= i < j < entries.len() ==> #[trigger] entries[i].name@ != #[trigger] entries[j].name@
}

/// The profiles as a map from name to settings.
pub open spec fn profiles_map(entries: Seq<TvProfile>) -> Map<Seq<char>, TvSettings>
    decreases entries.len(),
{
    if entries.len() == 0 {
        Map::empty()
    } else {
        profiles_map(entries.drop_last()).insert(entries.last().name@, entries.last().tv@)
    }
}

/// The profile at `i` is the map's entry for its name.
proof fn lemma_profiles_map_at(e: Seq<TvProfile>, i: int)
    requires
        names_distinct(e),
        0 <= i < e.len(),
    ensures
        profiles_map(e).contains_key(e[i].name@),
        profiles_map(e)[e[i].name@] == e[i].tv@,
    decreases e.len(),
{
    if i < e.len() - 1 {
        let p = e.drop_last();
        assert(names_distinct(p)) by {
            assert forall|a: int, b: int| 0 <= a < b < p.len() implies #[trigger] p[a].name@
                != #[trigger] p[b].name@ by {
                assert(p[a] == e[a] && p[b] == e[b]);
            }
        }
        assert(p[i] == e[i]);
        lemma_profiles_map_at(p, i);
        assert(e[i].name@ != e[e.len() - 1].name@);
    }
}

/// A name that no profile carries is not in the map.
proof fn lemma_profiles_map_absent(e: Seq<TvProfile>, k: Seq<char>)
    requires
        forall|i: int| 0 <= i < e.len() ==> #[trigger] e[i].name@ != k,
    ensures
        !profiles_map(e).contains_key(k),
    decreases e.len(),
{
    if e.len() > 0 {
        let p = e.drop_last();
        assert forall|i: int| 0 <= i < p.len() implies #[trigger] p[i].name@ != k by {
            assert(p[i] == e[i]);
        }
        lemma_profiles_map_absent(p, k);
        assert(e[e.len() - 1].name@ != k);
    }
}

/// Replacing the profile of a name replaces the map's entry.
proof fn lemma_profiles_map_update(e: Seq<TvProfile>, i: int, q: TvProfile)
    requires
        names_distinct(e),
        0 <= i < e.len(),
        e[i].name@ == q.name@,
    ensures
        profiles_map(e.update(i, q)) == profiles_map(e).insert(q.name@, q.tv@),
    decreases e.len(),
{
    let u = e.update(i, q);
    let p = e.drop_last();
    if i == e.len() - 1 {
        assert(u.drop_last() == p);
        assert(profiles_map(u) =~= profiles_map(e).insert(q.name@, q.tv@));
    } else {
        assert(names_distinct(p)) by {
            assert forall|a: int, b: int| 0 <= a < b < p.len() implies #[trigger] p[a].name@
                != #[trigger] p[b].name@ by {
                assert(p[a] == e[a] && p[b] == e[b]);
            }
        }
        assert(u.drop_last() == p.update(i, q));
        lemma_profiles_map_update(p, i, q);
        assert(e[i].name@ != e[e.len() - 1].name@);
        assert(u.last() == e.last());
        assert(profiles_map(u) =~= profiles_map(e).insert(q.name@, q.tv@));
    }
}

impl TvProfiles {
    #[verifier::type_invariant]
    spec fn inv(self) -> bool {
        names_distinct(self.entries@)
    }

    /// No profiles.
    pub fn new() -> (r: TvProfiles)
        ensures
            r@ == Map::<Seq<char>, TvSettings>::empty(),
    {
        TvProfiles { entries: Vec::new() }
    }

    /// The index of the profile named `name`.
    fn index_of(&self, name: &str) -> (r: Option<usize>)
        ensures
            r matches Some(i) ==> i < self.entries@.len() && self.entries@[i as int].name@ == name@,
            r is None ==> forall|i: int|
                0 <= i < self.entries@.len() ==> #[trigger] self.entries@[i].name@ != name@,
    {
        let mut i: usize = 0;
        while i < self.entries.len()
            invariant
                i <= self.entries@.len(),
                forall|j: int| 0 <= j < i ==> #[trigger] self.entries@[j].name@ != name@,
            decreases self.entries.len() - i,
        {
            if str_eq(self.entries[i].name.as_str(), name) {
                return Some(i);
            }
            i = i + 1;
        }
        None
    }

    /// The settings of the profile named `name`.
    pub fn get(&self, name: &str) -> (r: Option<&TvFileConfig>)
        ensures
            match r {
                Some(tv) => self@.contains_key(name@) && self@[name@] == tv@,
                None => !self@.contains_key(name@),
            },
    {
        proof {
            use_type_invariant(self);
        }
        match self.index_of(name) {
            Some(i) => {
                proof {
                    lemma_profiles_map_at(self.entries@, i as int);
                }
                Some(&self.entries[i].tv)
            },
            None => {
                proof {
                    lemma_profiles_map_absent(self.entries@, name@);
                }
                None
            },
        }
    }

    /// Sets the profile named `name`, replacing one of that name.
    pub fn insert(&mut self, name: String, tv: TvFileConfig)
        ensures
            final(self)@ == old(self)@.insert(name@, tv@),
    {
        proof {
            use_type_invariant(&*self);
        }
        let found = self.index_of(name.as_str());
        let mut entries: Vec<TvProfile> = Vec::new();
        std::mem::swap(&mut entries, &mut self.entries);
        let ghost before = entries@;
        let profile = TvProfile { name, tv };
        match found {
            Some(i) => {
                entries.set(i, profile);
                proof {
                    lemma_profiles_map_update(before, i as int, profile);
                }
                assert(names_distinct(entries@)) by {
                    assert forall|a: int, b: int| 0 <= a < b < entries@.len() implies #[trigger] entries@[a].name@
                        != #[trigger] entries@[b].name@ by {
                        if a != i && b != i {
                            assert(entries@[a] == before[a] && entries@[b] == before[b]);
                        } else if a == i {
                            assert(entries@[b] == before[b]);
                        } else {
                            assert(entries@[a] == before[a]);
                        }
                    }
                }
            },
            None => {
                entries.push(profile);
                assert(entries@.drop_last() == before);
                assert(names_distinct(entries@)) by {
                    assert forall|a: int, b: int| 0 <= a < b < entries@.len() implies #[trigger] entries@[a].name@
                        != #[trigger] entries@[b].name@ by {
                        assert(entries@[a] == before[a]);
                        if b < before.len() {
                            assert(entries@[b] == before[b]);
                        }
                    }
                }
            },
        }
        self.entries = entries;
    }

    /// The profiles, each name once.
    pub fn into_profiles(self) -> (r: Vec<TvProfile>)
        ensures
            names_distinct(r@),
            profiles_map(r@) == self@,
    {
        proof {
            use_type_invariant(&self);
        }
        self.entries
    }
}

impl View for TvProfiles {
    type V = Map<Seq<char>, TvSettings>;

    closed spec fn view(&self) -> Map<Seq<char>, TvSettings> {
        profiles_map(self.entries@)
    }
}

/// The outcome of selecting a TV.
pub enum Selection {
    Tv(TvSettings),
    DefaultTvNotFound(Seq<char>),
    NoTvConfigured,
}

/// Which TV the file and the `--tv` argument select. An argument is looked up
/// as a profile name first and otherwise taken as the TV's host; without
/// one, `[default] tv` names the profile (and must exist where `[tvs]` does),
/// and then the `[tv]` section applies.
pub open spec fn select_tv(file: FileConfig, tv_arg: Option<Seq<char>>) -> Selection {
    match tv_arg {
        Some(arg) => match file.tvs {
            Some(tvs) => if tvs@.contains_key(arg) {
                Selection::Tv(tvs@[arg])
            } else {
                Selection::Tv(host_only(arg))
            },
            None => Selection::Tv(host_only(arg)),
        },
        None => {
            let default_name: Option<Seq<char>> = match file.default {
                Some(d) => opt_view(d.tv),
                None => None,
            };
            if default_name is Some && file.tvs is Some {
                if file.tvs->0@.contains_key(default_name->0) {
                    Selection::Tv(file.tvs->0@[default_name->0])
                } else {
                    Selection::DefaultTvNotFound(default_name->0)
                }
            } else {
                match file.tv {
                    Some(tv) => Selection::Tv(tv@),
                    None => Selection::NoTvConfigured,
                }
            }
        },
    }
}

/// A copy of an optional string.
pub fn clone_opt(o: &Option<String>) -> (r: Option<String>)
    ensures
        r == *o,
{
    match o {
        Some(s) => Some(s.clone()),
        None => None,
    }
}

impl TvFileConfig {
    /// A copy of these settings.
    pub fn copy(&self) -> (r: TvFileConfig)
        ensures
            r == *self,
    {
        TvFileConfig {
            host: self.host.clone(),
            mac: clone_opt(&self.mac),
            bind_addr: clone_opt(&self.bind_addr),
            wake: self.wake,
            smartthings_device_id: clone_opt(&self.smartthings_device_id),
        }
    }
}

/// Selects the TV that `tv_arg` or the file names, with all its settings.
pub fn resolve_tv(file: &FileConfig, tv_arg: Option<&str>) -> (r: Result<TvFileConfig, ConfigError>)
    ensures
        tv_arg is Some && file.tvs is Some && file.tvs->0@.contains_key(tv_arg->0@) ==> (r matches Ok(
            tv,
        ) && tv@ == file.tvs->0@[tv_arg->0@]),
        tv_arg is Some && !(file.tvs is Some && file.tvs->0@.contains_key(tv_arg->0@)) ==> (r matches Ok(
            tv,
        ) && tv.host@ == tv_arg->0@ && tv.mac is None && tv.bind_addr is None && tv.wake is None
            && tv.smartthings_device_id is None),
        tv_arg is None && file.default is Some && file.default->0.tv is Some && file.tvs is Some ==> (if file.tvs->0@.contains_key(
            file.default->0.tv->0@,
        ) {
            r matches Ok(tv) && tv@ == file.tvs->0@[file.default->0.tv->0@]
        } else {
            r matches Err(ConfigError::DefaultTvNotFound(m)) && m@ == file.default->0.tv->0@
        }),
        tv_arg is None && !(file.default is Some && file.default->0.tv is Some && file.tvs is Some) ==> (match file.tv {
            Some(legacy) => r matches Ok(tv) && tv@ == legacy@,
            None => r matches Err(ConfigError::NoTvConfigured),
        }),
        match r {
            Ok(tv) => select_tv(*file, opt_str_view(tv_arg)) == Selection::Tv(tv@),
            Err(ConfigError::DefaultTvNotFound(name)) => select_tv(*file, opt_str_view(tv_arg))
                == Selection::DefaultTvNotFound(name@),
            Err(ConfigError::NoTvConfigured) => select_tv(*file, opt_str_view(tv_arg))
                == Selection::NoTvConfigured,
            Err(_) => false,
        },
{
    if let Some(arg) = tv_arg {
        if let Some(tvs) = &file.tvs {
            if let Some(tv) = tvs.get(arg) {
                return Ok(tv.copy());
            }
        }
        return Ok(
            TvFileConfig {
                host: arg.to_owned(),
                mac: None,
                bind_addr: None,
                wake: None,
                smartthings_device_id: None,
            },
        );
    }
    let default_name: Option<&String> = match &file.default {
        Some(d) => match &d.tv {
            Some(n) => Some(n),
            None => None,
        },
        None => None,
    };
    if let Some(name) = default_name {
        if let Some(tvs) = &file.tvs {
            if let Some(tv) = tvs.get(name.as_str()) {
                return Ok(tv.copy());
            }
            return Err(ConfigError::DefaultTvNotFound(name.clone()));
        }
    }
    match &file.tv {
        Some(tv) => Ok(tv.copy()),
        None => Err(ConfigError::NoTvConfigured),
    }
}

/// The host of the TV that `tv_arg` or the file selects.
pub fn resolve_tv_host(file: &FileConfig, tv_arg: Option<&str>) -> (r: Result<String, ConfigError>)
    ensures
        tv_arg is Some && file.tvs is Some && file.tvs->0@.contains_key(tv_arg->0@) ==> (r matches Ok(
            host,
        ) && host@ == file.tvs->0@[tv_arg->0@].host),
        tv_arg is Some && !(file.tvs is Some && file.tvs->0@.contains_key(tv_arg->0@)) ==> (r matches Ok(
            host,
        ) && host@ == tv_arg->0@),
        tv_arg is None && file.default is Some && file.default->0.tv is Some && file.tvs is Some ==> (if file.tvs->0@.contains_key(
            file.default->0.tv->0@,
        ) {
            r matches Ok(host) && host@ == file.tvs->0@[file.default->0.tv->0@].host
        } else {
            r matches Err(ConfigError::DefaultTvNotFound(m)) && m@ == file.default->0.tv->0@
        }),
        tv_arg is None && !(file.default is Some && file.default->0.tv is Some && file.tvs is Some) ==> (match file.tv {
            Some(legacy) => r matches Ok(host) && host@ == legacy.host@,
            None => r matches Err(ConfigError::NoTvConfigured),
        }),
        match r {
            Ok(host) => exists|tv: TvSettings| select_tv(*file, opt_str_view(tv_arg)) == Selection::Tv(tv) && tv.host == host@,
            Err(ConfigError::DefaultTvNotFound(name)) => select_tv(*file, opt_str_view(tv_arg))
                == Selection::DefaultTvNotFound(name@),
            Err(ConfigError::NoTvConfigured) => select_tv(*file, opt_str_view(tv_arg))
                == Selection::NoTvConfigured,
            Err(_) => false,
        },
{
    match resolve_tv(file, tv_arg) {
        Ok(tv) => Ok(tv.host),
        Err(e) => Err(e),
    }
}

/// A `--tv` argument decides alone: the `[default]` table plays no part in
/// what it selects; a profile of that name is selected, else the argument is
/// the host.
pub proof fn lemma_argument_overrides_default(file: FileConfig, a: Seq<char>)
    ensures
        select_tv(file, Some(a)) == select_tv(FileConfig { default: None, ..file }, Some(a)),
        file.tvs is Some && file.tvs->0@.contains_key(a) ==> select_tv(file, Some(a))
            == Selection::Tv(file.tvs->0@[a]),
        !(file.tvs is Some && file.tvs->0@.contains_key(a)) ==> (select_tv(file, Some(a))
            matches Selection::Tv(tv) && tv.host == a && tv.mac is None && tv.bind_addr is None
            && tv.wake is None && tv.smartthings_device_id is None),
{
}

/// Builds the TV client's settings from the file and the `--tv` argument,
/// reading the TV token (the keyring's message where that fails) and then
/// the SmartThings token (where there is one) only once a TV is selected.
pub fn load_tv<F, G>(file: &FileConfig, tv_arg: Option<&str>, read_token: F, read_smartthings_token: G) -> (r:
    Result<TvConfig, ConfigError>) where
    F: FnOnce() -> Result<String, String>,
    G: FnOnce() -> Option<String>,

    requires
        read_token.requires(()),
        read_smartthings_token.requires(()),
    ensures
        select_tv(*file, opt_str_view(tv_arg)) matches Selection::DefaultTvNotFound(name) ==> (r matches Err(
            ConfigError::DefaultTvNotFound(n),
        ) && n@ == name),
        select_tv(*file, opt_str_view(tv_arg)) is NoTvConfigured ==> r matches Err(ConfigError::NoTvConfigured),
        select_tv(*file, opt_str_view(tv_arg)) matches Selection::Tv(tv) ==> exists|token: Result<String, String>|
            read_token.ensures((), token) && (match token {
                Err(msg) => r matches Err(ConfigError::SecretLookup(k, m)) && k == SecretKey::TvToken && m
                    == msg,
                Ok(t) => exists|st: Option<String>|
                    read_smartthings_token.ensures((), st) && (r matches Ok(c) && c.host@ == tv.host && c.token
                        == Some(t) && opt_view(c.mac) == tv.mac && opt_view(c.bind_addr) == tv.bind_addr
                        && c.wake == tv.wake && opt_view(c.smartthings_device_id) == tv.smartthings_device_id
                        && c.smartthings_token == st),
            }),
{
    let tv = match resolve_tv(file, tv_arg) {
        Ok(tv) => tv,
        Err(e) => {
            return Err(e);
        },
    };
    let token_read = read_token();
    let token = match token_read {
        Ok(t) => t,
        Err(msg) => {
            return Err(ConfigError::SecretLookup(SecretKey::TvToken, msg));
        },
    };
    let smartthings_token = read_smartthings_token();
    Ok(
        TvConfig {
            host: tv.host,
            token: Some(token),
            mac: tv.mac,
            bind_addr: tv.bind_addr,
            wake: tv.wake,
            smartthings_device_id: tv.smartthings_device_id,
            smartthings_token: smartthings_token,
        },
    )
}

/// The Spotify app's id on Samsung TVs, used where the file names none.
pub open spec fn default_tv_app_id() -> Seq<char> {
    "3201606009684"@
}

/// Builds the Spotify client's settings from the file, reading the refresh
/// token (the keyring's message where that fails) only where the file has a
/// `[spotify]` section.
pub fn load_spotify<F>(file: &FileConfig, read_refresh_token: F) -> (r: Result<SpotifyConfig, ConfigError>) where
    F: FnOnce() -> Result<String, String>,

    requires
        read_refresh_token.requires(()),
    ensures
        file.spotify is None ==> r matches Err(ConfigError::MissingSpotifySection),
        file.spotify matches Some(sp) ==> exists|token: Result<String, String>|
            read_refresh_token.ensures((), token) && (match token {
                Err(msg) => r matches Err(ConfigError::SecretLookup(k, m)) && k
                    == SecretKey::SpotifyRefreshToken && m == msg,
                Ok(t) => r matches Ok(c) && c.refresh_token == t && c.tv_device_name
                    == sp.tv_device_name && c.tv_app_id@ == match sp.tv_app_id {
                    Some(id) => id@,
                    None => default_tv_app_id(),
                },
            }),
{
    let sp = match &file.spotify {
        Some(sp) => sp,
        None => {
            return Err(ConfigError::MissingSpotifySection);
        },
    };
    let token_read = read_refresh_token();
    let refresh_token = match token_read {
        Ok(t) => t,
        Err(msg) => {
            return Err(ConfigError::SecretLookup(SecretKey::SpotifyRefreshToken, msg));
        },
    };
    let tv_app_id = match &sp.tv_app_id {
        Some(id) => id.clone(),
        None => "3201606009684".to_owned(),
    };
    Ok(
        SpotifyConfig {
            refresh_token: refresh_token,
            tv_device_name: sp.tv_device_name.clone(),
            tv_app_id: tv_app_id,
        },
    )
}

} // verus!
