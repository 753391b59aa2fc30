//! The commands of the `viska` app (TV4 Play) on its TV channel: the event
//! data of playing an asset, seeking and logging out.

use vstd::prelude::*;
use crate::outside::{json_quoted, json_string};
use crate::text::{decimal_i64, decimal_u64, decimal, signed_decimal};
use crate::timestamp::SeekTarget;

verus! {

/// The app's id on the TV, which is also the name of its channel.
pub const VISKA_APP_ID: &'static str = "tv4tizenap.App";

/// The data of the `play` event for asset `asset_id`.
pub fn play_data(asset_id: &str) -> (r: String)
    ensures
        r@ == "{\"assetId\":"@ + json_quoted(asset_id@) + "}"@,
{
    let mut d = "{\"assetId\":".to_owned();
    let a = json_string(asset_id);
    d.append(a.as_str());
    d.append("}");
    d
}

/// The data of the `seek` event: an offset in seconds, or a position in
/// milliseconds.
pub fn seek_data(target: SeekTarget) -> (r: String)
    ensures
        r@ == match target {
            SeekTarget::Relative(secs) => "{\"relative\":"@ + signed_decimal(secs as int) + "}"@,
            SeekTarget::Position(ms) => "{\"position\":"@ + decimal(ms as nat) + "}"@,
        },
{
    match target {
        SeekTarget::Relative(secs) => {
            let mut d = "{\"relative\":".to_owned();
            let n = decimal_i64(secs);
            d.append(n.as_str());
            d.append("}");
            d
        },
        SeekTarget::Position(ms) => {
            let mut d = "{\"position\":".to_owned();
            let n = decimal_u64(ms);
            d.append(n.as_str());
            d.append("}");
            d
        },
    }
}

/// The data of the `logout` event: an empty object.
pub fn logout_data() -> (r: String)
    ensures
        r@ == "{}"@,
{
    "{}".to_owned()
}

} // verus!
