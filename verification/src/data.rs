use vstd::prelude::*;

verus! {

/// The request Picarto's player page makes for a VOD's playlist.
pub struct ScriptRequest {
    pub vod: String,
    pub ima: String,
    pub product: i64,
    pub channel: String,
    /// Sent as `vodThumb`.
    pub vod_thumb: String,
}

} // verus!
