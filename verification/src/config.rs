use vstd::prelude::*;

verus! {

/// Configuration of the BLE GATT service a totem device advertises.
/// Constructed once by the caller and handed, owned, to the service; the
/// device derives the id, name and credentials from its hardware address
/// (see `util`).
pub struct TotemBleConfig {
    /// BLE advertised device name.
    pub device_name: String,
    /// Totem ID characteristic value (max 64 chars).
    pub totem_id: String,
    /// Totem name characteristic value (max 64 chars).
    pub totem_name: String,
    /// WiFi SSID characteristic value (max 64 chars).
    pub wifi_ssid: String,
    /// WiFi password characteristic value (max 64 chars).
    pub wifi_pass: String,
}

/// Configuration of the WiFi access point a totem device opens.
/// Constructed once by the caller and handed, owned, to the access point.
pub struct WifiConfig {
    /// SSID for the access point.
    pub ssid: String,
    /// Password for the access point (WPA2).
    pub password: String,
}

} // verus!
