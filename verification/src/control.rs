//! Which remote key a volume command sends, and when: only while Spotify
//! plays on the TV, unless forced.

use vstd::prelude::*;
use crate::tv::RemoteKey;

verus! {

/// A volume command of the command line.
#[derive(Clone, Copy, Debug, PartialEq, Eq, Structural)]
pub enum VolumeCommand {
    Up,
    Down,
    Mute,
}

/// The key that carries out `cmd`.
pub open spec fn command_key(cmd: VolumeCommand) -> RemoteKey {
    match cmd {
        VolumeCommand::Up => RemoteKey::VolumeUp,
        VolumeCommand::Down => RemoteKey::VolumeDown,
        VolumeCommand::Mute => RemoteKey::Mute,
    }
}

/// The key that carries out `cmd`.
pub fn volume_key(cmd: VolumeCommand) -> (r: RemoteKey)
    ensures
        r == command_key(cmd),
        cmd == VolumeCommand::Up ==> r == RemoteKey::VolumeUp,
        cmd == VolumeCommand::Down ==> r == RemoteKey::VolumeDown,
        cmd == VolumeCommand::Mute ==> r == RemoteKey::Mute,
{
    match cmd {
        VolumeCommand::Up => RemoteKey::VolumeUp,
        VolumeCommand::Down => RemoteKey::VolumeDown,
        VolumeCommand::Mute => RemoteKey::Mute,
    }
}

/// What to do first about a volume command.
#[derive(Clone, Copy, Debug, PartialEq, Eq, Structural)]
pub enum VolumePlan {
    /// Press the key now.
    SendKey(RemoteKey),
    /// Ask Spotify whether it plays on the TV first.
    CheckSpotify,
}

/// The first step for `cmd`: with `force` the key is pressed at once.
pub open spec fn plan_of(cmd: VolumeCommand, force: bool) -> VolumePlan {
    if force {
        VolumePlan::SendKey(command_key(cmd))
    } else {
        VolumePlan::CheckSpotify
    }
}

/// The key pressed once Spotify has answered: only where it plays on the TV.
pub open spec fn checked_key(cmd: VolumeCommand, playing_on_tv: bool) -> Option<RemoteKey> {
    if playing_on_tv {
        Some(command_key(cmd))
    } else {
        None
    }
}

/// The first step for a volume command.
pub fn volume_plan(cmd: VolumeCommand, force: bool) -> (r: VolumePlan)
    ensures
        r == plan_of(cmd, force),
{
    if force {
        VolumePlan::SendKey(volume_key(cmd))
    } else {
        VolumePlan::CheckSpotify
    }
}

/// The key to press once Spotify has said whether it plays on the TV.
pub fn key_after_check(cmd: VolumeCommand, playing_on_tv: bool) -> (r: Option<RemoteKey>)
    ensures
        r == checked_key(cmd, playing_on_tv),
{
    if playing_on_tv {
        Some(volume_key(cmd))
    } else {
        None
    }
}

/// The key a volume command ends up pressing, `None` for none.
pub open spec fn routed_key(cmd: VolumeCommand, force: bool, playing_on_tv: bool) -> Option<
    RemoteKey,
> {
    match plan_of(cmd, force) {
        VolumePlan::SendKey(k) => Some(k),
        VolumePlan::CheckSpotify => checked_key(cmd, playing_on_tv),
    }
}

/// Each volume command presses its own key: up raises, down lowers, mute
/// mutes, and no two commands share a key.
pub proof fn lemma_command_keys(a: VolumeCommand, b: VolumeCommand)
    ensures
        command_key(VolumeCommand::Up) == RemoteKey::VolumeUp,
        command_key(VolumeCommand::Down) == RemoteKey::VolumeDown,
        command_key(VolumeCommand::Mute) == RemoteKey::Mute,
        a != b ==> command_key(a) != command_key(b),
{
}

/// A volume command reaches the TV exactly when it is forced or Spotify
/// plays on the TV, and then as the command's own key.
pub proof fn lemma_volume_routing(cmd: VolumeCommand, force: bool, playing_on_tv: bool)
    ensures
        routed_key(cmd, force, playing_on_tv) == if force || playing_on_tv {
            Some(command_key(cmd))
        } else {
            None
        },
{
}

} // verus!
