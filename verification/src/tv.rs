//! The Samsung TV side: the client's settings and the addresses of its
//! WebSocket and REST endpoints, how to wake it, the MAC address found in the
//! ARP table, the Wake-on-LAN packet, and the steps that bring an app to the
//! foreground.

use vstd::prelude::*;
use vstd::utf8::encode_utf8;
use crate::config::{TvConfig, WakeMethod, opt_view, clone_opt};
use crate::numparse::{IntErrorKind, parse_unsigned, parse_unsigned_range};
use crate::outside::{
    base64_standard, encode_base64_standard, hex_upper, to_uppercase, uppercase, json_quoted, json_string,
    json_str_at, json_str_at_path, ascii_upper,
};
use crate::text::{
    chars_of, range_eq, split_on, split_ranges, substring, word_ranges, words, pieces_of,
    lemma_split_on_append, lemma_split_on_push_sep,
};
use crate::numparse::{accumulate, digit_value};

verus! {

/// The name under which the app introduces itself to the TV.
pub const APP_NAME: &'static str = "smartycrank";

/// Why a TV operation cannot go ahead.
#[derive(Clone, Copy, Debug, PartialEq, Eq, Structural)]
pub enum TvError {
    /// No pairing token is known.
    NoToken,
    /// Neither a wake method nor a MAC address is configured.
    NoWakeMethod,
    /// Wake-on-LAN is chosen but no MAC address is configured.
    WolNeedsMac,
    /// SmartThings is chosen but no device id is configured.
    SmartthingsNeedsDeviceId,
    /// SmartThings is chosen but no SmartThings token is known.
    NoSmartthingsToken,
    /// A field of the MAC address is not a hexadecimal byte.
    InvalidMac(IntErrorKind),
    /// The MAC address does not have six fields.
    MacLength,
}

/// A TV client's settings as plain values.
pub struct TvState {
    pub host: Seq<char>,
    pub token: Option<Seq<char>>,
    pub mac: Option<Seq<char>>,
    pub bind_addr: Option<Seq<char>>,
    pub wake: Option<WakeMethod>,
    pub smartthings_device_id: Option<Seq<char>>,
    pub smartthings_token: Option<Seq<char>>,
}

/// The settings that `config` gives a client.
pub open spec fn state_of(config: TvConfig) -> TvState {
    TvState {
        host: config.host@,
        token: opt_view(config.token),
        mac: opt_view(config.mac),
        bind_addr: opt_view(config.bind_addr),
        wake: config.wake,
        smartthings_device_id: opt_view(config.smartthings_device_id),
        smartthings_token: opt_view(config.smartthings_token),
    }
}

/// A client keeps every setting of its config, each in its own place.
pub proof fn lemma_client_keeps_settings(config: TvConfig)
    ensures
        state_of(config).host == config.host@,
        state_of(config).token == opt_view(config.token),
        state_of(config).mac == opt_view(config.mac),
        state_of(config).bind_addr == opt_view(config.bind_addr),
        state_of(config).wake == config.wake,
        state_of(config).smartthings_device_id == opt_view(config.smartthings_device_id),
        state_of(config).smartthings_token == opt_view(config.smartthings_token),
{
}

/// A client of one Samsung TV.
pub struct SamsungTv {
    host: String,
    token: Option<String>,
    mac: Option<String>,
    bind_addr: Option<String>,
    wake: Option<WakeMethod>,
    smartthings_device_id: Option<String>,
    smartthings_token: Option<String>,
}

impl View for SamsungTv {
    type V = TvState;

    closed spec fn view(&self) -> TvState {
        TvState {
            host: self.host@,
            token: opt_view(self.token),
            mac: opt_view(self.mac),
            bind_addr: opt_view(self.bind_addr),
            wake: self.wake,
            smartthings_device_id: opt_view(self.smartthings_device_id),
            smartthings_token: opt_view(self.smartthings_token),
        }
    }
}

/// How to wake the TV, with what the chosen way needs.
pub enum WakeAction {
    /// Send a Wake-on-LAN packet for `mac`, from `bind_addr` where given,
    /// else from the local address that routes to `host`.
    Wol { mac: String, host: String, bind_addr: Option<String> },
    /// Send the `on` command for `device_id` through SmartThings.
    Smartthings { device_id: String, token: String },
}

/// The Base64 form of the app's name that the TV shows when pairing.
pub open spec fn app_name_b64() -> Seq<char> {
    base64_standard(encode_utf8(APP_NAME@))
}

/// The address of the remote-control channel, as it is opened to pair.
pub open spec fn pair_url_of(host: Seq<char>) -> Seq<char> {
    "wss://"@ + host + ":8002/api/v2/channels/samsung.remote.control?name="@ + app_name_b64()
}

/// The address of channel `channel`, opened with a pairing token.
pub open spec fn channel_url_of(host: Seq<char>, channel: Seq<char>, token: Seq<char>) -> Seq<
    char,
> {
    "wss://"@ + host + ":8002/api/v2/channels/"@ + channel + "?name="@ + app_name_b64()
        + "&token="@ + token
}

/// The remote-control channel, where keys are pressed and apps launched.
pub open spec fn remote_control_channel() -> Seq<char> {
    "samsung.remote.control"@
}

/// The base64 form of the app's name.
fn app_name_base64() -> (r: String)
    ensures
        r@ == app_name_b64(),
{
    encode_base64_standard(APP_NAME.as_bytes())
}

impl SamsungTv {
    /// A client with the settings of `config`.
    pub fn new(config: &TvConfig) -> (r: SamsungTv)
        ensures
            r@ == state_of(*config),
            r@.host == config.host@,
            r@.token == opt_view(config.token),
            r@.mac == opt_view(config.mac),
            r@.bind_addr == opt_view(config.bind_addr),
            r@.wake == config.wake,
            r@.smartthings_device_id == opt_view(config.smartthings_device_id),
            r@.smartthings_token == opt_view(config.smartthings_token),
    {
        SamsungTv {
            host: config.host.clone(),
            token: clone_opt(&config.token),
            mac: clone_opt(&config.mac),
            bind_addr: clone_opt(&config.bind_addr),
            wake: config.wake,
            smartthings_device_id: clone_opt(&config.smartthings_device_id),
            smartthings_token: clone_opt(&config.smartthings_token),
        }
    }

    /// The TV's host.
    pub fn host(&self) -> (r: &str)
        ensures
            r@ == self@.host,
    {
        self.host.as_str()
    }

    /// The pairing token, which every channel but pairing needs.
    pub fn require_token(&self) -> (r: Result<&str, TvError>)
        ensures
            match self@.token {
                Some(t) => r matches Ok(s) && s@ == t,
                None => r == Err::<&str, TvError>(TvError::NoToken),
            },
    {
        match &self.token {
            Some(t) => Ok(t.as_str()),
            None => Err(TvError::NoToken),
        }
    }

    /// The address to open to pair with the TV at `host`.
    pub fn pair_url(host: &str) -> (r: String)
        ensures
            r@ == pair_url_of(host@),
            r@ == "wss://"@ + host@ + ":8002/api/v2/channels/samsung.remote.control?name="@
                + base64_standard(encode_utf8(APP_NAME@)),
    {
        let mut url = "wss://".to_owned();
        url.append(host);
        url.append(":8002/api/v2/channels/samsung.remote.control?name=");
        let name = app_name_base64();
        url.append(name.as_str());
        url
    }

    /// The address of channel `channel` with the pairing token; the token is
    /// required first.
    pub fn channel_url(&self, channel: &str) -> (r: Result<String, TvError>)
        ensures
            match self@.token {
                Some(t) => r matches Ok(u) && u@ == channel_url_of(self@.host, channel@, t) && u@
                    == "wss://"@ + self@.host + ":8002/api/v2/channels/"@ + channel@ + "?name="@
                    + base64_standard(encode_utf8(APP_NAME@)) + "&token="@ + t,
                None => r matches Err(TvError::NoToken),
            },
    {
        let token = self.require_token()?;
        let mut url = "wss://".to_owned();
        url.append(self.host.as_str());
        url.append(":8002/api/v2/channels/");
        url.append(channel);
        url.append("?name=");
        let name = app_name_base64();
        url.append(name.as_str());
        url.append("&token=");
        url.append(token);
        Ok(url)
    }

    /// The address of the remote-control channel, where keys are pressed and
    /// apps launched; the token is required first.
    pub fn remote_control_url(&self) -> (r: Result<String, TvError>)
        ensures
            match self@.token {
                Some(t) => r matches Ok(u) && u@ == channel_url_of(
                    self@.host,
                    remote_control_channel(),
                    t,
                ) && u@ == "wss://"@ + self@.host + ":8002/api/v2/channels/"@
                    + "samsung.remote.control"@ + "?name="@ + base64_standard(encode_utf8(APP_NAME@))
                    + "&token="@ + t,
                None => r matches Err(TvError::NoToken),
            },
    {
        self.channel_url("samsung.remote.control")
    }

    /// The address of the REST endpoint that answers while the TV is on.
    pub fn status_url(&self) -> (r: String)
        ensures
            r@ == "http://"@ + self@.host + ":8001/api/v2/"@,
    {
        let mut url = "http://".to_owned();
        url.append(self.host.as_str());
        url.append(":8001/api/v2/");
        url
    }

    /// The address of the REST endpoint of app `app_id`.
    pub fn application_url(&self, app_id: &str) -> (r: String)
        ensures
            r@ == "http://"@ + self@.host + ":8001/api/v2/applications/"@ + app_id@,
    {
        let mut url = "http://".to_owned();
        url.append(self.host.as_str());
        url.append(":8001/api/v2/applications/");
        url.append(app_id);
        url
    }

    /// How to switch the TV on: the configured wake method, else Wake-on-LAN
    /// where a MAC address is configured; then what that method needs.
    pub fn wake_action(&self) -> (r: Result<WakeAction, TvError>)
        ensures
            ({
                let s = self@;
                let method = match s.wake {
                    Some(m) => Some(m),
                    None => if s.mac is Some {
                        Some(WakeMethod::Wol)
                    } else {
                        None
                    },
                };
                match method {
                    None => r == Err::<WakeAction, TvError>(TvError::NoWakeMethod),
                    Some(WakeMethod::Wol) => match s.mac {
                        None => r == Err::<WakeAction, TvError>(TvError::WolNeedsMac),
                        Some(mac) => r matches Ok(WakeAction::Wol { mac: m, host: h, bind_addr: b })
                            && m@ == mac && h@ == s.host && opt_view(b) == s.bind_addr,
                    },
                    Some(WakeMethod::Smartthings) => match (s.smartthings_device_id, s.smartthings_token) {
                        (None, _) => r == Err::<WakeAction, TvError>(TvError::SmartthingsNeedsDeviceId),
                        (Some(_), None) => r == Err::<WakeAction, TvError>(TvError::NoSmartthingsToken),
                        (Some(d), Some(t)) => r matches Ok(WakeAction::Smartthings { device_id: di, token: tk })
                            && di@ == d && tk@ == t,
                    },
                }
            }),
    {
        let method = match self.wake {
            Some(m) => m,
            None => match &self.mac {
                Some(_) => WakeMethod::Wol,
                None => {
                    return Err(TvError::NoWakeMethod);
                },
            },
        };
        match method {
            WakeMethod::Wol => match &self.mac {
                Some(mac) => Ok(
                    WakeAction::Wol {
                        mac: mac.clone(),
                        host: self.host.clone(),
                        bind_addr: clone_opt(&self.bind_addr),
                    },
                ),
                None => Err(TvError::WolNeedsMac),
            },
            WakeMethod::Smartthings => {
                let device_id = match &self.smartthings_device_id {
                    Some(d) => d.clone(),
                    None => {
                        return Err(TvError::SmartthingsNeedsDeviceId);
                    },
                };
                let token = match &self.smartthings_token {
                    Some(t) => t.clone(),
                    None => {
                        return Err(TvError::NoSmartthingsToken);
                    },
                };
                Ok(WakeAction::Smartthings { device_id, token })
            },
        }
    }
}

/// The SmartThings API address for commands to device `device_id`.
pub fn smartthings_command_url(device_id: &str) -> (r: String)
    ensures
        r@ == "https://api.smartthings.com/v1/devices/"@ + device_id@ + "/commands"@,
{
    let mut url = "https://api.smartthings.com/v1/devices/".to_owned();
    url.append(device_id);
    url.append("/commands");
    url
}

/// A key of the remote control.
#[derive(Clone, Copy, Debug, PartialEq, Eq, Structural)]
pub enum RemoteKey {
    VolumeUp,
    VolumeDown,
    Mute,
    Power,
}

/// The code the TV knows `key` by.
pub open spec fn key_code(key: RemoteKey) -> Seq<char> {
    match key {
        RemoteKey::VolumeUp => "KEY_VOLUP"@,
        RemoteKey::VolumeDown => "KEY_VOLDOWN"@,
        RemoteKey::Mute => "KEY_MUTE"@,
        RemoteKey::Power => "KEY_POWER"@,
    }
}

impl RemoteKey {
    /// The code the TV knows this key by.
    pub fn code(&self) -> (r: &'static str)
        ensures
            r@ == key_code(*self),
            *self == RemoteKey::VolumeUp ==> r@ == "KEY_VOLUP"@,
            *self == RemoteKey::VolumeDown ==> r@ == "KEY_VOLDOWN"@,
            *self == RemoteKey::Mute ==> r@ == "KEY_MUTE"@,
            *self == RemoteKey::Power ==> r@ == "KEY_POWER"@,
    {
        match self {
            RemoteKey::VolumeUp => "KEY_VOLUP",
            RemoteKey::VolumeDown => "KEY_VOLDOWN",
            RemoteKey::Mute => "KEY_MUTE",
            RemoteKey::Power => "KEY_POWER",
        }
    }
}

/// The MAC field of an ARP table line, where the line is an entry for
/// `host` with a known (non-zero) hardware address: the IP address is the
/// first field and the hardware address the fourth.
pub open spec fn arp_entry_mac(line: Seq<char>, host: Seq<char>) -> Option<Seq<char>> {
    let f = words(line);
    if f.len() >= 4 && f[0] == host && f[3] != "00:00:00:00:00:00"@ {
        Some(f[3])
    } else {
        None
    }
}

/// The MAC field of the first of `lines` that is an entry for `host`.
pub open spec fn first_arp_mac(lines: Seq<Seq<char>>, host: Seq<char>) -> Option<Seq<char>>
    decreases lines.len(),
{
    if lines.len() == 0 {
        None
    } else {
        match arp_entry_mac(lines[0], host) {
            Some(m) => Some(m),
            None => first_arp_mac(lines.drop_first(), host),
        }
    }
}

/// The MAC field for `host` in the text of `/proc/net/arp`, whose first line
/// is a header. (The lines are cut at each newline; a carriage return before
/// it is white space and so changes no field, and the empty piece after a
/// final newline has no fields.)
pub open spec fn arp_lookup(table: Seq<char>, host: Seq<char>) -> Option<Seq<char>> {
    first_arp_mac(split_on(table, '\n').skip(1), host)
}

/// A word: non-empty, without white space or line breaks.
pub open spec fn is_word(w: Seq<char>) -> bool {
    w.len() > 0 && forall|i: int| 0 <= i < w.len() ==> !crate::text::is_whitespace(#[trigger] w[i])
}

/// A table with a header line and one entry `ip type flags mac` gives that
/// entry's MAC field for `ip` (unless it is all zeros), and nothing for any
/// other host.
pub proof fn lemma_arp_single_entry(
    header: Seq<char>,
    ip: Seq<char>,
    hw_type: Seq<char>,
    flags: Seq<char>,
    mac: Seq<char>,
    other: Seq<char>,
)
    requires
        forall|i: int| 0 <= i < header.len() ==> #[trigger] header[i] != '\n',
        is_word(ip),
        is_word(hw_type),
        is_word(flags),
        is_word(mac),
        mac != "00:00:00:00:00:00"@,
        other != ip,
    ensures
        ({
            let line = ip + seq![' '] + hw_type + seq![' '] + flags + seq![' '] + mac;
            &&& arp_lookup(header.push('\n') + line, ip) == Some(mac)
            &&& arp_lookup(header.push('\n') + line, other) is None
        }),
{
    let e = Seq::<char>::empty();
    let sp = seq![' '];
    assert(crate::text::is_whitespace(' '));
    crate::text::lemma_words_push_word(e, ip);
    assert(e + ip == ip);
    crate::text::lemma_words_push_whitespace(ip, ' ');
    assert(ip.push(' ') == ip + sp);
    crate::text::lemma_words_push_word(ip + sp, hw_type);
    crate::text::lemma_words_push_whitespace(ip + sp + hw_type, ' ');
    assert((ip + sp + hw_type).push(' ') == ip + sp + hw_type + sp);
    crate::text::lemma_words_push_word(ip + sp + hw_type + sp, flags);
    crate::text::lemma_words_push_whitespace(ip + sp + hw_type + sp + flags, ' ');
    assert((ip + sp + hw_type + sp + flags).push(' ') == ip + sp + hw_type + sp + flags + sp);
    crate::text::lemma_words_push_word(ip + sp + hw_type + sp + flags + sp, mac);
    let line = ip + sp + hw_type + sp + flags + sp + mac;
    assert(words(line) =~= seq![ip, hw_type, flags, mac]);
    assert forall|i: int| 0 <= i < line.len() implies #[trigger] line[i] != '\n' by {
        assert(crate::text::is_whitespace('\n'));
        if line[i] == '\n' {
            let k = i;
            if k < ip.len() {
                assert(line[k] == ip[k]);
            } else if k < ip.len() + 1 {
            } else if k < ip.len() + 1 + hw_type.len() {
                assert(line[k] == hw_type[k - ip.len() - 1]);
            } else if k < ip.len() + 2 + hw_type.len() {
            } else if k < ip.len() + 2 + hw_type.len() + flags.len() {
                assert(line[k] == flags[k - ip.len() - 2 - hw_type.len()]);
            } else if k < ip.len() + 3 + hw_type.len() + flags.len() {
            } else {
                assert(line[k] == mac[k - ip.len() - 3 - hw_type.len() - flags.len()]);
            }
        }
    }
    crate::text::lemma_split_on_append(e, line, '\n');
    assert(e + line == line);
    assert(split_on(e, '\n') == seq![e]);
    lemma_split_on_prefix_nl(header, line);
    let lines = split_on(header.push('\n') + line, '\n');
    assert(lines =~= seq![header, line]);
    assert(lines.skip(1) =~= seq![line]);
    assert(seq![line].drop_first() =~= Seq::<Seq<char>>::empty());
    assert(seq![line][0] == line);
    assert(words(line).len() == 4 && words(line)[0] == ip && words(line)[3] == mac);
    assert(arp_entry_mac(line, ip) == Some(mac));
    assert(arp_entry_mac(line, other) is None);
    assert(first_arp_mac(Seq::<Seq<char>>::empty(), other) is None);
    assert(first_arp_mac(seq![line], ip) == Some(mac));
    assert(first_arp_mac(seq![line], other) is None);
}

/// The header line splits off in front of the rest.
proof fn lemma_split_on_prefix_nl(header: Seq<char>, rest: Seq<char>)
    requires
        forall|i: int| 0 <= i < header.len() ==> #[trigger] header[i] != '\n',
    ensures
        split_on(header.push('\n') + rest, '\n') == seq![header] + split_on(rest, '\n'),
{
    crate::text::lemma_split_on_prefix(header, rest, '\n');
}

/// Finds the MAC address of `host` in the text of the ARP table, in
/// uppercase.
pub fn arp_mac(arp_table: &str, host: &str) -> (r: Option<String>)
    ensures
        r matches Some(m) ==> exists|x: Seq<char>|
            arp_lookup(arp_table@, host@) == Some(x) && m@ == uppercase(x) && ((forall|i: int|
                0 <= i < x.len() ==> (#[trigger] x[i] as int) < 128) ==> m@ == x.map_values(
                |c: char| ascii_upper(c),
            )),
        r is None ==> arp_lookup(arp_table@, host@) is None,
{
    let v = chars_of(arp_table);
    let lines = split_ranges(&v, '\n');
    let host_chars = chars_of(host);
    let zeros = chars_of("00:00:00:00:00:00");
    let ghost all = split_on(arp_table@, '\n');
    assert(pieces_of(v@, lines@) == all);
    proof {
        crate::text::lemma_split_on_nonempty(arp_table@, '\n');
    }
    let mut i: usize = 1;
    while i < lines.len()
        invariant
            1 <= i <= lines@.len(),
            v@ == arp_table@,
            host_chars@ == host@,
            zeros@ == "00:00:00:00:00:00"@,
            crate::text::ranges_within(lines@, v@.len()),
            pieces_of(v@, lines@) == all,
            all == split_on(arp_table@, '\n'),
            arp_lookup(arp_table@, host@) == first_arp_mac(all.skip(i as int), host@),
        decreases lines.len() - i,
    {
        let (a, b) = lines[i];
        assert(a <= b <= v@.len()) by {
            assert(lines@[i as int].0 <= lines@[i as int].1 <= v@.len());
        }
        let ghost line = v@.subrange(a as int, b as int);
        assert(all.skip(i as int)[0] == line);
        assert(all.skip(i as int).drop_first() == all.skip(i + 1));
        let ws = word_ranges(&v, a, b);
        assert(pieces_of(v@, ws@) == words(line));
        if ws.len() >= 4 {
            let (h0, h1) = ws[0];
            let (m0, m1) = ws[3];
            assert(h0 <= h1 <= v@.len() && m0 <= m1 <= v@.len()) by {
                assert(ws@[0].0 <= ws@[0].1 <= v@.len());
                assert(ws@[3].0 <= ws@[3].1 <= v@.len());
            }
            assert(words(line)[0] == v@.subrange(h0 as int, h1 as int));
            assert(words(line)[3] == v@.subrange(m0 as int, m1 as int));
            if range_eq(&v, h0, h1, &host_chars) && !range_eq(&v, m0, m1, &zeros) {
                let field = substring(arp_table, m0, m1);
                return Some(to_uppercase(field.as_str()));
            }
        }
        i = i + 1;
    }
    assert(all.skip(i as int).len() == 0);
    None
}

/// A byte of a MAC address: a hexadecimal `u8`.
pub open spec fn mac_byte(s: Seq<char>) -> Result<int, IntErrorKind> {
    parse_unsigned(s, 16, 255)
}

/// The bytes of the `:`-separated fields, or the error of the first field
/// that is not a byte.
pub open spec fn mac_bytes(fields: Seq<Seq<char>>) -> Result<Seq<u8>, IntErrorKind>
    decreases fields.len(),
{
    if fields.len() == 0 {
        Ok(Seq::empty())
    } else {
        match mac_bytes(fields.drop_last()) {
            Err(k) => Err(k),
            Ok(bs) => match mac_byte(fields.last()) {
                Err(k) => Err(k),
                Ok(b) => Ok(bs.push(b as u8)),
            },
        }
    }
}

/// The Wake-on-LAN magic packet for a MAC address: six `0xFF` bytes, then
/// the address sixteen times.
pub open spec fn magic_packet(mac: Seq<u8>) -> Seq<u8> {
    Seq::new(102, |i: int| if i < 6 { 0xffu8 } else { mac[(i - 6) % 6] })
}

/// The magic packet is 102 bytes: six `0xFF`, then the six address bytes
/// sixteen times over, each copy in order.
pub proof fn lemma_magic_packet_layout(mac: Seq<u8>, k: int, j: int)
    requires
        mac.len() == 6,
        0 <= k < 16,
        0 <= j < 6,
    ensures
        magic_packet(mac).len() == 102,
        forall|i: int| 0 <= i < 6 ==> #[trigger] magic_packet(mac)[i] == 0xffu8,
        magic_packet(mac)[6 + 6 * k + j] == mac[j],
{
    assert((6 * k + j) % 6 == j) by (nonlinear_arith)
        requires
            0 <= k,
            0 <= j < 6,
    ;
}

/// The Wake-on-LAN packet for the MAC address `mac_str` (`AA:BB:CC:DD:EE:FF`).
pub fn wol_packet(mac_str: &str) -> (r: Result<Vec<u8>, TvError>)
    ensures
        match mac_bytes(split_on(mac_str@, ':')) {
            Err(k) => r == Err::<Vec<u8>, TvError>(TvError::InvalidMac(k)),
            Ok(bs) => if bs.len() != 6 {
                r == Err::<Vec<u8>, TvError>(TvError::MacLength)
            } else {
                r matches Ok(p) && p@ == magic_packet(bs)
            },
        },
{
    let v = chars_of(mac_str);
    let fields = split_ranges(&v, ':');
    let ghost all = split_on(mac_str@, ':');
    assert(pieces_of(v@, fields@) == all);
    let mut bytes: Vec<u8> = Vec::new();
    let mut i: usize = 0;
    assert(all.take(0) == Seq::<Seq<char>>::empty());
    while i < fields.len()
        invariant
            i <= fields@.len(),
            v@ == mac_str@,
            crate::text::ranges_within(fields@, v@.len()),
            pieces_of(v@, fields@) == all,
            all == split_on(mac_str@, ':'),
            mac_bytes(all.take(i as int)) == Ok::<Seq<u8>, IntErrorKind>(bytes@),
        decreases fields.len() - i,
    {
        let (a, b) = fields[i];
        assert(a <= b <= v@.len()) by {
            assert(fields@[i as int].0 <= fields@[i as int].1 <= v@.len());
        }
        assert(all.take(i + 1).drop_last() == all.take(i as int));
        assert(all.take(i + 1).last() == v@.subrange(a as int, b as int));
        match parse_unsigned_range(&v, a, b, 16, 255) {
            Ok(x) => {
                bytes.push(x as u8);
            },
            Err(k) => {
                assert(mac_bytes(all.take(i + 1)) == Err::<Seq<u8>, IntErrorKind>(k));
                proof {
                    lemma_mac_bytes_error_persists(all, (i + 1) as int, k);
                }
                assert(all.take(all.len() as int) == all);
                return Err(TvError::InvalidMac(k));
            },
        }
        i = i + 1;
    }
    assert(all.take(all.len() as int) == all);
    if bytes.len() != 6 {
        return Err(TvError::MacLength);
    }
    let mut packet: Vec<u8> = Vec::new();
    let mut k: usize = 0;
    while k < 6
        invariant
            k <= 6,
            packet@.len() == k,
            forall|j: int| 0 <= j < k ==> packet@[j] == 0xffu8,
        decreases 6 - k,
    {
        packet.push(0xff);
        k = k + 1;
    }
    let mut round: usize = 0;
    while round < 16
        invariant
            round <= 16,
            bytes@.len() == 6,
            packet@.len() == 6 + 6 * round,
            forall|j: int| 0 <= j < packet@.len() ==> packet@[j] == magic_packet(bytes@)[j],
        decreases 16 - round,
    {
        let mut j: usize = 0;
        while j < 6
            invariant
                round < 16,
                j <= 6,
                bytes@.len() == 6,
                packet@.len() == 6 + 6 * round + j,
                forall|x: int| 0 <= x < packet@.len() ==> packet@[x] == magic_packet(bytes@)[x],
            decreases 6 - j,
        {
            let ghost pos: int = 6 + 6 * round + j;
            assert((pos - 6) % 6 == j) by (nonlinear_arith)
                requires
                    pos == 6 + 6 * round + j,
                    0 <= j < 6,
                    round >= 0,
            ;
            packet.push(bytes[j]);
            j = j + 1;
        }
        round = round + 1;
    }
    assert(packet@ == magic_packet(bytes@));
    Ok(packet)
}

/// Once a field fails, the address fails with the same error.
proof fn lemma_mac_bytes_error_persists(all: Seq<Seq<char>>, n: int, k: IntErrorKind)
    requires
        0 < n <= all.len(),
        mac_bytes(all.take(n)) == Err::<Seq<u8>, IntErrorKind>(k),
    ensures
        mac_bytes(all) == Err::<Seq<u8>, IntErrorKind>(k),
    decreases all.len() - n,
{
    if n < all.len() {
        assert(all.take(n + 1).drop_last() == all.take(n));
        lemma_mac_bytes_error_persists(all, n + 1, k);
    } else {
        assert(all.take(n) == all);
    }
}

/// How many times the app's state is polled after launching it.
pub const MAX_POLLS: u32 = 20;

/// Whether an app's state says it runs in the foreground.
pub fn app_ready(running: Option<bool>, visible: Option<bool>) -> (r: bool)
    ensures
        r == (running == Some(true) && visible == Some(true)),
{
    let running_now = match running {
        Some(b) => b,
        None => false,
    };
    let visible_now = match visible {
        Some(b) => b,
        None => false,
    };
    running_now && visible_now
}

/// Where bringing an app to the foreground stands.
#[derive(Clone, Copy, Debug, PartialEq, Eq, Structural)]
pub enum LaunchState {
    /// The app's state is being read for the first time.
    Checking,
    /// The app is being launched.
    Launching,
    /// The app's state is being read for the given time after the launch.
    Polling(u32),
    /// Nothing more to do.
    Finished,
}

/// What was learned since the last step.
#[derive(Clone, Copy, Debug, PartialEq, Eq, Structural)]
pub enum LaunchEvent {
    /// The app's state was read: whether it runs in the foreground.
    Info(bool),
    /// The launch request was sent.
    Launched,
    /// Reading the app's state after the launch failed.
    PollFailed,
}

/// What to do next.
#[derive(Clone, Copy, Debug, PartialEq, Eq, Structural)]
pub enum LaunchAction {
    /// Read the app's state.
    GetInfo,
    /// Ask the TV to launch the app.
    Launch,
    /// Wait half a second, then read the app's state.
    WaitThenGetInfo,
    /// Wait three seconds for the app to set up its channel, then succeed.
    SettleThenSucceed,
    /// Succeed now.
    Succeed,
    /// Fail: the app did not start within ten seconds.
    GiveUp,
}

/// The events that each state waits for.
pub open spec fn expects(state: LaunchState, event: LaunchEvent) -> bool {
    match state {
        LaunchState::Checking => event is Info,
        LaunchState::Launching => event is Launched,
        LaunchState::Polling(n) => 1 <= n <= MAX_POLLS && (event is Info || event is PollFailed),
        LaunchState::Finished => false,
    }
}

/// The first step: read the app's state.
pub fn launch_begin() -> (r: (LaunchState, LaunchAction))
    ensures
        r == (LaunchState::Checking, LaunchAction::GetInfo),
{
    (LaunchState::Checking, LaunchAction::GetInfo)
}

/// The next state and action after `event`. An app already in the
/// foreground needs nothing; otherwise it is launched and its state read up
/// to `MAX_POLLS` times, half a second apart, failed reads counting as not
/// ready.
pub fn launch_step(state: LaunchState, event: LaunchEvent) -> (r: (LaunchState, LaunchAction))
    requires
        expects(state, event),
    ensures
        state == LaunchState::Checking ==> r == if event == LaunchEvent::Info(true) {
            (LaunchState::Finished, LaunchAction::Succeed)
        } else {
            (LaunchState::Launching, LaunchAction::Launch)
        },
        state == LaunchState::Launching ==> r == (LaunchState::Polling(1), LaunchAction::WaitThenGetInfo),
        state matches LaunchState::Polling(n) ==> r == if event == LaunchEvent::Info(true) {
            (LaunchState::Finished, LaunchAction::SettleThenSucceed)
        } else if n < MAX_POLLS {
            (LaunchState::Polling((n + 1) as u32), LaunchAction::WaitThenGetInfo)
        } else {
            (LaunchState::Finished, LaunchAction::GiveUp)
        },
        r.0 matches LaunchState::Polling(m) ==> 1 <= m <= MAX_POLLS,
        r.1 == LaunchAction::GiveUp ==> state == LaunchState::Polling(MAX_POLLS),
{
    match state {
        LaunchState::Checking => match event {
            LaunchEvent::Info(true) => (LaunchState::Finished, LaunchAction::Succeed),
            _ => (LaunchState::Launching, LaunchAction::Launch),
        },
        LaunchState::Launching => (LaunchState::Polling(1), LaunchAction::WaitThenGetInfo),
        LaunchState::Polling(n) => match event {
            LaunchEvent::Info(true) => (LaunchState::Finished, LaunchAction::SettleThenSucceed),
            _ => if n < MAX_POLLS {
                (LaunchState::Polling(n + 1), LaunchAction::WaitThenGetInfo)
            } else {
                (LaunchState::Finished, LaunchAction::GiveUp)
            },
        },
        LaunchState::Finished => (LaunchState::Finished, LaunchAction::GiveUp),
    }
}

/// A byte as two uppercase hexadecimal digits.
pub open spec fn hex_pair(b: u8) -> Seq<char> {
    seq![hex_upper(b / 16), hex_upper(b % 16)]
}

/// Six bytes written as a MAC address: `AA:BB:CC:DD:EE:FF`.
pub open spec fn mac_text(b: Seq<u8>) -> Seq<char> {
    hex_pair(b[0]) + seq![':'] + hex_pair(b[1]) + seq![':'] + hex_pair(b[2]) + seq![':']
        + hex_pair(b[3]) + seq![':'] + hex_pair(b[4]) + seq![':'] + hex_pair(b[5])
}

/// An uppercase hexadecimal digit is read back as its value.
proof fn lemma_hex_digit(d: u8)
    requires
        d < 16,
    ensures
        digit_value(hex_upper(d), 16) == Some(d as nat),
{
    if d < 10 {
        assert(('0' as int) == 0x30);
        assert((hex_upper(d) as int) == 0x30 + d);
    } else {
        assert(('A' as int) == 0x41);
        assert(('0' as int) == 0x30);
        assert(('a' as int) == 0x61);
        assert(('9' as int) == 0x39);
        assert(('Z' as int) == 0x5a);
        assert((hex_upper(d) as int) == 0x41 - 10 + d);
    }
}

/// Two uppercase hexadecimal digits are read back as their byte.
proof fn lemma_hex_pair(b: u8)
    ensures
        mac_byte(hex_pair(b)) == Ok::<int, IntErrorKind>(b as int),
{
    let hi: u8 = b / 16;
    let lo: u8 = b % 16;
    lemma_hex_digit(hi);
    lemma_hex_digit(lo);
    let p = hex_pair(b);
    assert(p[0] != '+' && p[0] != '-') by {
        assert(digit_value(p[0], 16) is Some);
    }
    assert(hi * 16 + lo == b);
    let last = seq![lo_char(b)];
    assert(p.drop_first() =~= last);
    assert(last.drop_first() =~= Seq::<char>::empty());
    assert(accumulate(b as int, last.drop_first(), 16, 255) == Ok::<int, IntErrorKind>(b as int));
    assert(accumulate(hi as int, last, 16, 255) == Ok::<int, IntErrorKind>(b as int));
    assert(accumulate(0, p, 16, 255) == Ok::<int, IntErrorKind>(b as int));
}

/// The low digit of a byte's pair.
spec fn lo_char(b: u8) -> char {
    hex_upper(b % 16)
}

/// The pieces of a MAC address written with `mac_text` are the six pairs.
proof fn lemma_mac_text_fields(b: Seq<u8>)
    requires
        b.len() == 6,
    ensures
        split_on(mac_text(b), ':') == seq![
            hex_pair(b[0]),
            hex_pair(b[1]),
            hex_pair(b[2]),
            hex_pair(b[3]),
            hex_pair(b[4]),
            hex_pair(b[5]),
        ],
{
    let e = Seq::<char>::empty();
    assert forall|k: int| 0 <= k < 6 implies (forall|i: int|
        0 <= i < hex_pair(#[trigger] b[k]).len() ==> hex_pair(b[k])[i] != ':') by {
        lemma_hex_digit(b[k] / 16);
        lemma_hex_digit(b[k] % 16);
        assert forall|i: int| 0 <= i < hex_pair(b[k]).len() implies hex_pair(b[k])[i] != ':' by {
            assert(digit_value(hex_pair(b[k])[i], 16) is Some);
        }
    }
    let p0 = hex_pair(b[0]);
    let p1 = hex_pair(b[1]);
    let p2 = hex_pair(b[2]);
    let p3 = hex_pair(b[3]);
    let p4 = hex_pair(b[4]);
    let p5 = hex_pair(b[5]);
    let c = seq![':'];
    lemma_split_on_append(e, p0, ':');
    assert(e + p0 == p0);
    let t1 = p0 + c;
    lemma_split_on_push_sep(p0, ':');
    assert(p0.push(':') == t1);
    lemma_split_on_append(t1, p1, ':');
    let t2 = t1 + p1 + c;
    lemma_split_on_push_sep(t1 + p1, ':');
    assert((t1 + p1).push(':') == t2);
    lemma_split_on_append(t2, p2, ':');
    let t3 = t2 + p2 + c;
    lemma_split_on_push_sep(t2 + p2, ':');
    assert((t2 + p2).push(':') == t3);
    lemma_split_on_append(t3, p3, ':');
    let t4 = t3 + p3 + c;
    lemma_split_on_push_sep(t3 + p3, ':');
    assert((t3 + p3).push(':') == t4);
    lemma_split_on_append(t4, p4, ':');
    let t5 = t4 + p4 + c;
    lemma_split_on_push_sep(t4 + p4, ':');
    assert((t4 + p4).push(':') == t5);
    lemma_split_on_append(t5, p5, ':');
    assert(mac_text(b) == t5 + p5);
    assert(split_on(e, ':') == seq![e]);
    assert(e + p1 == p1 && e + p2 == p2 && e + p3 == p3 && e + p4 == p4 && e + p5 == p5);
}

/// A MAC address written as six uppercase hexadecimal pairs separated by
/// `:` (the form in which the ARP table lookup reports it) is read back as
/// its six bytes, so its Wake-on-LAN packet is built from them.
pub proof fn lemma_mac_text_roundtrip(b: Seq<u8>)
    requires
        b.len() == 6,
    ensures
        mac_bytes(split_on(mac_text(b), ':')) == Ok::<Seq<u8>, IntErrorKind>(b),
{
    lemma_mac_text_fields(b);
    lemma_hex_pair(b[0]);
    lemma_hex_pair(b[1]);
    lemma_hex_pair(b[2]);
    lemma_hex_pair(b[3]);
    lemma_hex_pair(b[4]);
    lemma_hex_pair(b[5]);
    let f = split_on(mac_text(b), ':');
    assert(f.take(1).drop_last() == f.take(0));
    assert(f.take(2).drop_last() == f.take(1));
    assert(f.take(3).drop_last() == f.take(2));
    assert(f.take(4).drop_last() == f.take(3));
    assert(f.take(5).drop_last() == f.take(4));
    assert(f.take(6).drop_last() == f.take(5));
    assert(f.take(0) =~= Seq::<Seq<char>>::empty());
    assert(b.take(0) =~= Seq::<u8>::empty());
    assert(mac_bytes(f.take(0)) == Ok::<Seq<u8>, IntErrorKind>(b.take(0)));
    assert(f.take(1).last() == f[0]);
    assert(b.take(0).push(b[0]) =~= b.take(1));
    assert(mac_bytes(f.take(1)) == Ok::<Seq<u8>, IntErrorKind>(b.take(1)));
    assert(f.take(2).last() == f[1]);
    assert(b.take(1).push(b[1]) =~= b.take(2));
    assert(mac_bytes(f.take(2)) == Ok::<Seq<u8>, IntErrorKind>(b.take(2)));
    assert(f.take(3).last() == f[2]);
    assert(b.take(2).push(b[2]) =~= b.take(3));
    assert(mac_bytes(f.take(3)) == Ok::<Seq<u8>, IntErrorKind>(b.take(3)));
    assert(f.take(4).last() == f[3]);
    assert(b.take(3).push(b[3]) =~= b.take(4));
    assert(mac_bytes(f.take(4)) == Ok::<Seq<u8>, IntErrorKind>(b.take(4)));
    assert(f.take(5).last() == f[4]);
    assert(b.take(4).push(b[4]) =~= b.take(5));
    assert(mac_bytes(f.take(5)) == Ok::<Seq<u8>, IntErrorKind>(b.take(5)));
    assert(f.take(6).last() == f[5]);
    assert(b.take(5).push(b[5]) =~= b.take(6));
    assert(mac_bytes(f.take(6)) == Ok::<Seq<u8>, IntErrorKind>(b.take(6)));
    assert(f.take(6) == f);
    assert(b.take(6) == b);
}

/// Why the TV's answer to pairing gives no token.
pub enum PairError {
    /// The answer is not JSON (the parser's message).
    NotJson(String),
    /// The answer has no string at `data.token`.
    NoToken,
}

/// Reads the pairing token out of the TV's first message on the
/// remote-control channel: the string at `data.token` of its JSON.
pub fn pair_token(message: &str) -> (r: Result<String, PairError>)
    ensures
        match json_str_at(message@, "data"@, "token"@) {
            None => r matches Err(PairError::NotJson(_)),
            Some(None) => r matches Err(PairError::NoToken),
            Some(Some(t)) => r matches Ok(s) && s@ == t,
        },
{
    match json_str_at_path(message, "data", "token") {
        Ok(Some(t)) => Ok(t),
        Ok(None) => Err(PairError::NoToken),
        Err(e) => Err(PairError::NotJson(e)),
    }
}

/// The message that presses `key` on the remote-control channel.
pub open spec fn key_message_of(key: RemoteKey) -> Seq<char> {
    "{\"method\":\"ms.remote.control\",\"params\":{\"Cmd\":\"Click\",\"DataOfCmd\":\""@ + key_code(key)
        + "\",\"Option\":\"false\",\"TypeOfRemote\":\"SendRemoteKey\"}}"@
}

/// Each key is pressed under its own code: two different keys never send
/// the same message, and the message of a key carries exactly that key's code
/// between the fixed head and tail.
pub proof fn lemma_key_messages_distinct(a: RemoteKey, b: RemoteKey)
    ensures
        key_message_of(a) == "{\"method\":\"ms.remote.control\",\"params\":{\"Cmd\":\"Click\",\"DataOfCmd\":\""@ + key_code(a) + "\",\"Option\":\"false\",\"TypeOfRemote\":\"SendRemoteKey\"}}"@,
        a != b ==> key_message_of(a) != key_message_of(b),
{
    reveal_strlit("KEY_VOLUP");
    reveal_strlit("KEY_VOLDOWN");
    reveal_strlit("KEY_MUTE");
    reveal_strlit("KEY_POWER");
    let p = "{\"method\":\"ms.remote.control\",\"params\":{\"Cmd\":\"Click\",\"DataOfCmd\":\""@;
    let t = "\",\"Option\":\"false\",\"TypeOfRemote\":\"SendRemoteKey\"}}"@;
    if a != b && key_message_of(a) == key_message_of(b) {
        let ka = key_code(a);
        let kb = key_code(b);
        assert(ka.len() >= 8 && kb.len() >= 8);
        assert(forall|i: int| 0 <= i < 8 ==> (p + ka + t)[p.len() + i] == ka[i]);
        assert(forall|i: int| 0 <= i < 8 ==> (p + kb + t)[p.len() + i] == kb[i]);
        assert(ka[4] != kb[4] || ka[7] != kb[7]);
        assert((p + ka + t)[p.len() + 4int] == (p + kb + t)[p.len() + 4int]);
        assert((p + ka + t)[p.len() + 7int] == (p + kb + t)[p.len() + 7int]);
    }
}

/// The message that presses `key` on the remote-control channel.
pub fn key_message(key: RemoteKey) -> (r: String)
    ensures
        r@ == key_message_of(key),
        key == RemoteKey::VolumeUp ==> r@ == "{\"method\":\"ms.remote.control\",\"params\":{\"Cmd\":\"Click\",\"DataOfCmd\":\""@ + "KEY_VOLUP"@ + "\",\"Option\":\"false\",\"TypeOfRemote\":\"SendRemoteKey\"}}"@,
        key == RemoteKey::VolumeDown ==> r@ == "{\"method\":\"ms.remote.control\",\"params\":{\"Cmd\":\"Click\",\"DataOfCmd\":\""@ + "KEY_VOLDOWN"@ + "\",\"Option\":\"false\",\"TypeOfRemote\":\"SendRemoteKey\"}}"@,
        key == RemoteKey::Mute ==> r@ == "{\"method\":\"ms.remote.control\",\"params\":{\"Cmd\":\"Click\",\"DataOfCmd\":\""@ + "KEY_MUTE"@ + "\",\"Option\":\"false\",\"TypeOfRemote\":\"SendRemoteKey\"}}"@,
        key == RemoteKey::Power ==> r@ == "{\"method\":\"ms.remote.control\",\"params\":{\"Cmd\":\"Click\",\"DataOfCmd\":\""@ + "KEY_POWER"@ + "\",\"Option\":\"false\",\"TypeOfRemote\":\"SendRemoteKey\"}}"@,
{
    let mut m = "{\"method\":\"ms.remote.control\",\"params\":{\"Cmd\":\"Click\",\"DataOfCmd\":\"".to_owned();
    m.append(key.code());
    m.append("\",\"Option\":\"false\",\"TypeOfRemote\":\"SendRemoteKey\"}}");
    m
}

/// The message that emits `event` with the JSON value `data` to the host of
/// a channel.
pub open spec fn emit_message_of(event: Seq<char>, data: Seq<char>) -> Seq<char> {
    "{\"method\":\"ms.channel.emit\",\"params\":{\"data\":"@ + data + ",\"event\":"@ + json_quoted(event)
        + ",\"to\":\"host\"}}"@
}

/// The message that emits `event` with `data` (JSON text) to the host of a
/// channel.
pub fn emit_message(event: &str, data: &str) -> (r: String)
    ensures
        r@ == emit_message_of(event@, data@),
{
    let mut m = "{\"method\":\"ms.channel.emit\",\"params\":{\"data\":".to_owned();
    m.append(data);
    m.append(",\"event\":");
    let e = json_string(event);
    m.append(e.as_str());
    m.append(",\"to\":\"host\"}}");
    m
}

/// The data of a request to open `app_id` at the deep link `deep_link`.
pub open spec fn launch_data_of(app_id: Seq<char>, deep_link: Seq<char>) -> Seq<char> {
    "{\"action_type\":\"DEEP_LINK\",\"appId\":"@ + json_quoted(app_id) + ",\"metaTag\":"@ + json_quoted(
        deep_link,
    ) + "}"@
}

/// The message that opens `app_id` at the deep link `deep_link`.
pub fn launch_message(app_id: &str, deep_link: &str) -> (r: String)
    ensures
        r@ == emit_message_of("ed.apps.launch"@, launch_data_of(app_id@, deep_link@)),
{
    let mut data = "{\"action_type\":\"DEEP_LINK\",\"appId\":".to_owned();
    let a = json_string(app_id);
    data.append(a.as_str());
    data.append(",\"metaTag\":");
    let d = json_string(deep_link);
    data.append(d.as_str());
    data.append("}");
    emit_message("ed.apps.launch", data.as_str())
}

/// The body of a SmartThings request that sends `command` to the switch.
pub fn smartthings_command_body(command: &str) -> (r: String)
    ensures
        r@ == "{\"commands\":[{\"capability\":\"switch\",\"command\":"@ + json_quoted(command@)
            + ",\"component\":\"main\"}]}"@,
{
    let mut b = "{\"commands\":[{\"capability\":\"switch\",\"command\":".to_owned();
    let c = json_string(command);
    b.append(c.as_str());
    b.append(",\"component\":\"main\"}]}");
    b
}

} // verus!
