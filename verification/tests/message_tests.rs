use smartycrank::spotify::transfer_body;
use smartycrank::timestamp::SeekTarget;
use smartycrank::tv::{
    emit_message, key_message, launch_message, pair_token, smartthings_command_body, PairError,
    RemoteKey,
};
use smartycrank::viska::{logout_data, play_data, seek_data, VISKA_APP_ID};

#[test]
fn pairing_token() {
    let msg = r#"{"data":{"clients":[],"id":"x","token":"12345678"},"event":"ms.channel.connect"}"#;
    assert!(matches!(pair_token(msg), Ok(ref t) if t == "12345678"));
    assert!(matches!(pair_token(r#"{"data":{"id":"x"}}"#), Err(PairError::NoToken)));
    assert!(matches!(pair_token(r#"{"data":{"token":5}}"#), Err(PairError::NoToken)));
    assert!(matches!(pair_token(r#"[1,2]"#), Err(PairError::NoToken)));
    assert!(matches!(pair_token("not json"), Err(PairError::NotJson(_))));
}

#[test]
fn remote_key_messages() {
    assert_eq!(
        key_message(RemoteKey::VolumeUp),
        r#"{"method":"ms.remote.control","params":{"Cmd":"Click","DataOfCmd":"KEY_VOLUP","Option":"false","TypeOfRemote":"SendRemoteKey"}}"#
    );
}

fn canonical(text: &str) -> String {
    serde_json::from_str::<serde_json::Value>(text).unwrap().to_string()
}

#[test]
fn messages_match_serde_json_output() {
    let expected = canonical(
        r#"{"params": {"TypeOfRemote": "SendRemoteKey", "Option": "false", "DataOfCmd": "KEY_MUTE", "Cmd": "Click"}, "method": "ms.remote.control"}"#,
    );
    assert_eq!(key_message(RemoteKey::Mute), expected);
    let launch = canonical(
        r#"{"method": "ms.channel.emit", "params": {"to": "host", "event": "ed.apps.launch", "data": {"metaTag": "spotify:track:\"q\"\n", "appId": "3201606009684", "action_type": "DEEP_LINK"}}}"#,
    );
    assert_eq!(launch_message("3201606009684", "spotify:track:\"q\"\n"), launch);
    let st = canonical(r#"{"commands": [{"component": "main", "capability": "switch", "command": "on"}]}"#);
    assert_eq!(smartthings_command_body("on"), st);
    let tb = canonical("{\"play\": true, \"device_ids\": [\"d\\u0001\u{e9}\"]}");
    assert_eq!(transfer_body("d\u{1}\u{e9}"), tb);
}

#[test]
fn channel_events() {
    assert_eq!(
        emit_message("seek", &seek_data(SeekTarget::Relative(-30))),
        r#"{"method":"ms.channel.emit","params":{"data":{"relative":-30},"event":"seek","to":"host"}}"#
    );
    assert_eq!(seek_data(SeekTarget::Position(5_400_000)), r#"{"position":5400000}"#);
    assert_eq!(seek_data(SeekTarget::Position(0)), r#"{"position":0}"#);
    assert_eq!(seek_data(SeekTarget::Relative(i64::MIN)), r#"{"relative":-9223372036854775808}"#);
    assert_eq!(seek_data(SeekTarget::Position(u64::MAX)), r#"{"position":18446744073709551615}"#);
    assert_eq!(play_data("a\\b"), r#"{"assetId":"a\\b"}"#);
    assert_eq!(logout_data(), "{}");
    assert_eq!(VISKA_APP_ID, "tv4tizenap.App");
}
