use smartycrank::config::{TvConfig, WakeMethod};
use smartycrank::control::{key_after_check, volume_key, volume_plan, VolumeCommand, VolumePlan};
use smartycrank::numparse::IntErrorKind;
use smartycrank::tv::{
    app_ready, arp_mac, launch_begin, launch_step, smartthings_command_url, wol_packet, LaunchAction,
    LaunchEvent, LaunchState, RemoteKey, SamsungTv, TvError, WakeAction, MAX_POLLS,
};

fn config(token: Option<&str>) -> TvConfig {
    TvConfig {
        host: "192.168.1.44".to_string(),
        token: token.map(|s| s.to_string()),
        mac: None,
        bind_addr: None,
        wake: None,
        smartthings_device_id: None,
        smartthings_token: None,
    }
}

#[test]
fn urls() {
    let tv = SamsungTv::new(&config(Some("12345")));
    assert_eq!(tv.host(), "192.168.1.44");
    assert_eq!(
        SamsungTv::pair_url("192.168.1.44"),
        "wss://192.168.1.44:8002/api/v2/channels/samsung.remote.control?name=c21hcnR5Y3Jhbms="
    );
    assert_eq!(
        tv.remote_control_url(),
        Ok("wss://192.168.1.44:8002/api/v2/channels/samsung.remote.control?name=c21hcnR5Y3Jhbms=&token=12345".to_string())
    );
    assert_eq!(
        tv.channel_url("tv4tizenap.App"),
        Ok("wss://192.168.1.44:8002/api/v2/channels/tv4tizenap.App?name=c21hcnR5Y3Jhbms=&token=12345".to_string())
    );
    assert_eq!(tv.status_url(), "http://192.168.1.44:8001/api/v2/");
    assert_eq!(tv.application_url("tv4tizenap.App"), "http://192.168.1.44:8001/api/v2/applications/tv4tizenap.App");
    assert_eq!(smartthings_command_url("dev-1"), "https://api.smartthings.com/v1/devices/dev-1/commands");
}

#[test]
fn token_is_required_for_channels() {
    let tv = SamsungTv::new(&config(None));
    assert_eq!(tv.require_token(), Err(TvError::NoToken));
    assert_eq!(tv.remote_control_url(), Err(TvError::NoToken));
    assert_eq!(tv.channel_url("x"), Err(TvError::NoToken));
    let tv2 = SamsungTv::new(&config(Some("abc")));
    assert_eq!(tv2.require_token(), Ok("abc"));
}

#[test]
fn wake_by_mac_without_method() {
    let mut c = config(None);
    c.mac = Some("AA:BB:CC:DD:EE:FF".to_string());
    match SamsungTv::new(&c).wake_action() {
        Ok(WakeAction::Wol { mac, host, bind_addr }) => {
            assert_eq!(mac, "AA:BB:CC:DD:EE:FF");
            assert_eq!(host, "192.168.1.44");
            assert_eq!(bind_addr, None);
        }
        _ => panic!("expected Wake-on-LAN"),
    }
}

#[test]
fn wake_errors() {
    assert!(matches!(SamsungTv::new(&config(None)).wake_action(), Err(TvError::NoWakeMethod)));
    let mut c = config(None);
    c.wake = Some(WakeMethod::Wol);
    assert!(matches!(SamsungTv::new(&c).wake_action(), Err(TvError::WolNeedsMac)));
    c.wake = Some(WakeMethod::Smartthings);
    c.mac = Some("AA:BB:CC:DD:EE:FF".to_string());
    assert!(matches!(SamsungTv::new(&c).wake_action(), Err(TvError::SmartthingsNeedsDeviceId)));
    c.smartthings_device_id = Some("dev".to_string());
    assert!(matches!(SamsungTv::new(&c).wake_action(), Err(TvError::NoSmartthingsToken)));
    c.smartthings_token = Some("pat".to_string());
    match SamsungTv::new(&c).wake_action() {
        Ok(WakeAction::Smartthings { device_id, token }) => {
            assert_eq!(device_id, "dev");
            assert_eq!(token, "pat");
        }
        _ => panic!("expected SmartThings"),
    }
}

#[test]
fn magic_packet() {
    let p = match wol_packet("AA:bb:0C:1:EE:+ff") {
        Ok(p) => p,
        Err(e) => panic!("unexpected {:?}", e),
    };
    assert_eq!(p.len(), 102);
    assert_eq!(&p[..6], &[0xff; 6]);
    for k in 0..16 {
        assert_eq!(&p[6 + 6 * k..12 + 6 * k], &[0xaa, 0xbb, 0x0c, 0x01, 0xee, 0xff]);
    }
}

#[test]
fn bad_mac_addresses() {
    assert_eq!(wol_packet("AA:BB:CC:DD:EE"), Err(TvError::MacLength));
    assert_eq!(wol_packet("AA:BB:CC:DD:EE:FF:00"), Err(TvError::MacLength));
    assert_eq!(wol_packet(""), Err(TvError::InvalidMac(IntErrorKind::Empty)));
    assert_eq!(wol_packet("AA:GG:CC:DD:EE:FF"), Err(TvError::InvalidMac(IntErrorKind::InvalidDigit)));
    assert_eq!(wol_packet("AA:100:CC:DD:EE:FF"), Err(TvError::InvalidMac(IntErrorKind::PosOverflow)));
    assert_eq!(wol_packet("AA:FFG:CC"), Err(TvError::InvalidMac(IntErrorKind::InvalidDigit)));
    assert_eq!(wol_packet("AA::CC:DD:EE:FF"), Err(TvError::InvalidMac(IntErrorKind::Empty)));
    assert_eq!(wol_packet("AA-BB-CC-DD-EE-FF"), Err(TvError::InvalidMac(IntErrorKind::InvalidDigit)));
}

const ARP: &str = "IP address       HW type     Flags       HW address            Mask     Device\n\
192.168.1.1      0x1         0x2         00:11:22:33:44:55     *        wlan0\n\
192.168.1.44     0x1         0x0         00:00:00:00:00:00     *        wlan0\n\
192.168.1.44     0x1         0x2         a4:30:7a:0b:cc:de     *        eth0\r\n";

#[test]
fn arp_table_lookup() {
    assert_eq!(arp_mac(ARP, "192.168.1.44").as_deref(), Some("A4:30:7A:0B:CC:DE"));
    assert_eq!(arp_mac(ARP, "192.168.1.1").as_deref(), Some("00:11:22:33:44:55"));
    assert_eq!(arp_mac(ARP, "192.168.1.4"), None);
    assert_eq!(arp_mac(ARP, "IP"), None);
    assert_eq!(arp_mac("", "192.168.1.1"), None);
}

#[test]
fn key_codes() {
    assert_eq!(RemoteKey::VolumeUp.code(), "KEY_VOLUP");
    assert_eq!(RemoteKey::VolumeDown.code(), "KEY_VOLDOWN");
    assert_eq!(RemoteKey::Mute.code(), "KEY_MUTE");
    assert_eq!(RemoteKey::Power.code(), "KEY_POWER");
}

#[test]
fn volume_keys_only_while_playing_unless_forced() {
    assert_eq!(volume_plan(VolumeCommand::Up, true), VolumePlan::SendKey(RemoteKey::VolumeUp));
    assert_eq!(volume_plan(VolumeCommand::Down, false), VolumePlan::CheckSpotify);
    assert_eq!(key_after_check(VolumeCommand::Mute, true), Some(RemoteKey::Mute));
    assert_eq!(key_after_check(VolumeCommand::Mute, false), None);
    assert_eq!(volume_key(VolumeCommand::Down), RemoteKey::VolumeDown);
}

#[test]
fn ready_needs_running_and_visible() {
    assert!(app_ready(Some(true), Some(true)));
    assert!(!app_ready(Some(true), Some(false)));
    assert!(!app_ready(None, Some(true)));
}

#[test]
fn app_already_in_front() {
    let (s, a) = launch_begin();
    assert_eq!(a, LaunchAction::GetInfo);
    assert_eq!(launch_step(s, LaunchEvent::Info(true)), (LaunchState::Finished, LaunchAction::Succeed));
}

#[test]
fn app_launched_and_polled() {
    let (s, _) = launch_begin();
    let (s, a) = launch_step(s, LaunchEvent::Info(false));
    assert_eq!(a, LaunchAction::Launch);
    let (s, a) = launch_step(s, LaunchEvent::Launched);
    assert_eq!((s, a), (LaunchState::Polling(1), LaunchAction::WaitThenGetInfo));
    let (s, a) = launch_step(s, LaunchEvent::PollFailed);
    assert_eq!((s, a), (LaunchState::Polling(2), LaunchAction::WaitThenGetInfo));
    let (s, a) = launch_step(s, LaunchEvent::Info(true));
    assert_eq!((s, a), (LaunchState::Finished, LaunchAction::SettleThenSucceed));
}

#[test]
fn app_gives_up_after_twenty_polls() {
    let (s, _) = launch_begin();
    let (s, _) = launch_step(s, LaunchEvent::Info(false));
    let (mut s, mut a) = launch_step(s, LaunchEvent::Launched);
    let mut polls = 0;
    while a == LaunchAction::WaitThenGetInfo {
        polls += 1;
        let next = launch_step(s, LaunchEvent::Info(false));
        s = next.0;
        a = next.1;
    }
    assert_eq!(polls, MAX_POLLS);
    assert_eq!((s, a), (LaunchState::Finished, LaunchAction::GiveUp));
}
