use vstd::prelude::*;

verus! {

/// The kind of link a network interface uses.
#[derive(Clone, Copy, Debug, PartialEq, Eq, Structural)]
pub enum NetworkType {
    Ethernet,
    Wifi,
    Bluetooth,
}

/// Settings for bringing up a network interface.
pub struct NetworkConfig {
    pub net_type: NetworkType,
    /// Network name, for Wi-Fi.
    pub ssid: Option<&'static str>,
    /// Passphrase, for Wi-Fi.
    pub password: Option<&'static str>,
    pub mac_address: [u8; 6],
}

/// Something that can apply a network configuration.
pub trait NetworkManager {
    fn configure(&self, config: &NetworkConfig) -> Result<(), &'static str>;
}

/// A network manager with no network behind it.
pub struct DummyNetwork;

/// The network manager of the running system.
pub struct RealNetwork;

/// Whether `config` names all that its link type needs: Wi-Fi needs a
/// network name and a passphrase.
pub open spec fn config_complete(config: NetworkConfig) -> bool {
    config.net_type == NetworkType::Wifi ==> config.ssid is Some && config.password is Some
}

impl NetworkManager for RealNetwork {
    fn configure(&self, config: &NetworkConfig) -> (r: Result<(), &'static str>)
        ensures
            r is Ok <==> config_complete(*config),
            r matches Err(m) ==> m@ == "WiFi configuration requires SSID and password"@,
    {
        match config.net_type {
            NetworkType::Ethernet => Ok(()),
            NetworkType::Wifi => {
                if config.ssid.is_some() && config.password.is_some() {
                    Ok(())
                } else {
                    Err("WiFi configuration requires SSID and password")
                }
            },
            NetworkType::Bluetooth => Ok(()),
        }
    }
}

} // verus!
