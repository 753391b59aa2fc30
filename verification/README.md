# smartycrank

Control a Samsung TV's volume from the command line over its local WebSocket
API, sending the keys only while Spotify plays on the TV (unless `--force`).

## Layout

- `src/` is the verified library (Verus):
  - `config.rs`: the config file's content, which TV it selects (`--tv`
    argument, `[default] tv`, `[tvs]` profiles, legacy `[tv]`), and the
    settings of the TV and Spotify clients.
  - `control.rs`: which key a volume command presses, and when.
  - `timestamp.rs`, `numparse.rs`, `text.rs`: playback positions for
    `viska seek`, integer parsing as std does it, and text splitting.
  - `spotify.rs`: PKCE values, the authorization callback, the token cache,
    and the decisions taken on the Web API's answers.
  - `tv.rs`: the TV's endpoint addresses and messages, the pairing token,
    how it is woken, the ARP lookup of its MAC address, the Wake-on-LAN
    packet, and the steps that bring an app to the foreground.
  - `viska.rs`: the event data of the TV4 Play app's channel.
  - `outside.rs`: the calls into `base64`, `sha2`, `rand`, `urlencoding`,
    `serde_json` and `str::to_uppercase`, with their trusted contracts.
- `app/` is the program: command line, config file and keyring access,
  HTTP, WebSocket and UDP traffic.
- `tests/` runs the library on concrete values.

A TV profile (`[tv]` or an entry of `[tvs]`) may also give `mac`,
`bind_addr`, `wake` (`"wol"` or `"smartthings"`) and
`smartthings_device_id`; the SmartThings token is read from the keyring
entry `smartthings-token`.
