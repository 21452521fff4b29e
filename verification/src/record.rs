//! The canonical Wi-Fi scan record and its mathematical model.

use vstd::prelude::*;
use crate::bssid;

verus! {

/// One discovered access point: network name, hardware address and signal
/// strength.  The signal is kept as an opaque string because its unit and
/// scale vary between scanning tools.
pub struct WifiRecord {
    pub ssid: String,
    pub bssid: String,
    pub signal: String,
}

/// The model of a record: its three fields as character sequences.
pub ghost struct RecordModel {
    pub ssid: Seq<char>,
    pub bssid: Seq<char>,
    pub signal: Seq<char>,
}

impl View for WifiRecord {
    type V = RecordModel;

    open spec fn view(&self) -> RecordModel {
        RecordModel { ssid: self.ssid@, bssid: self.bssid@, signal: self.signal@ }
    }
}

impl DeepView for WifiRecord {
    type V = RecordModel;

    open spec fn deep_view(&self) -> RecordModel {
        self.view()
    }
}

impl Clone for WifiRecord {
    fn clone(&self) -> (r: Self)
        ensures
            r@ == self@,
    {
        WifiRecord {
            ssid: self.ssid.clone(),
            bssid: self.bssid.clone(),
            signal: self.signal.clone(),
        }
    }
}

/// A candidate produced by a format parser: its hardware address is
/// syntactically valid but not yet case-normalized.
pub open spec fn valid_candidate(m: RecordModel) -> bool {
    bssid::valid_bssid_seq(m.bssid)
}

/// A record fit for the aggregate: its hardware address is valid and in
/// canonical (uppercase) form.
pub open spec fn canonical_record(m: RecordModel) -> bool {
    &&& bssid::valid_bssid_seq(m.bssid)
    &&& bssid::canonical_seq(m.bssid) == m.bssid
}

/// The sentinel network name emitted when a source format cannot associate
/// a name with an address, so that a missing name can be told apart from an
/// empty one that was actually broadcast.
pub open spec fn unknown_ssid() -> Seq<char> {
    "unknown network name"@
}

/// The sentinel network name as a string.
pub fn unknown_ssid_string() -> (r: String)
    ensures
        r@ == unknown_ssid(),
{
    String::from_str("unknown network name")
}

} // verus!
