use crate::bluetooth::{BluetoothDriver, BluetoothError};
use crate::wifi::{names, WifiDriver, WifiError};
use vstd::prelude::*;

verus! {

/// What a PCI Bluetooth controller reports in range.
pub open spec fn pci_bluetooth_peers() -> Seq<[u8; 6]> {
    seq![[0x00u8, 0x11, 0x22, 0x33, 0x44, 0x55], [0x66u8, 0x77, 0x88, 0x99, 0xAA, 0xBB]]
}

/// What a PCI Wi-Fi controller reports in range.
pub open spec fn pci_wifi_networks() -> Seq<Seq<char>> {
    seq!["TestNetwork1"@, "TestNetwork2"@]
}

/// A Bluetooth controller on PCI.
pub struct PciBluetooth {
    mac: [u8; 6],
}

impl PciBluetooth {
    pub closed spec fn mac_spec(&self) -> [u8; 6] {
        self.mac
    }

    /// Looks for a controller on PCI; none is supported yet.
    pub fn detect() -> (r: Result<Self, BluetoothError>)
        ensures
            r matches Err(e) && e == BluetoothError::DeviceNotFound,
    {
        Err(BluetoothError::DeviceNotFound)
    }
}

impl BluetoothDriver for PciBluetooth {
    fn get_mac(&self) -> (r: [u8; 6])
        ensures
            r == self.mac_spec(),
    {
        self.mac
    }

    fn scan(&self) -> (r: Result<Vec<[u8; 6]>, BluetoothError>)
        ensures
            r matches Ok(v) && v@ == pci_bluetooth_peers(),
    {
        let v = vec![[0x00, 0x11, 0x22, 0x33, 0x44, 0x55], [0x66, 0x77, 0x88, 0x99, 0xAA, 0xBB]];
        assert(v@ =~= pci_bluetooth_peers());
        Ok(v)
    }

    fn pair(&self, device_addr: [u8; 6]) -> (r: Result<(), BluetoothError>)
        ensures
            r is Ok,
    {
        Ok(())
    }

    fn disconnect(&self, device_addr: [u8; 6]) -> (r: Result<(), BluetoothError>)
        ensures
            r is Ok,
    {
        Ok(())
    }
}

/// A Wi-Fi controller on PCI.
pub struct PciWifi {
    mac: [u8; 6],
}

impl PciWifi {
    pub closed spec fn mac_spec(&self) -> [u8; 6] {
        self.mac
    }

    /// Looks for a controller on PCI; none is supported yet.
    pub fn detect() -> (r: Result<Self, WifiError>)
        ensures
            r matches Err(e) && e == WifiError::DeviceNotFound,
    {
        Err(WifiError::DeviceNotFound)
    }
}

impl WifiDriver for PciWifi {
    fn get_mac(&self) -> (r: [u8; 6])
        ensures
            r == self.mac_spec(),
    {
        self.mac
    }

    fn scan(&self) -> (r: Result<Vec<String>, WifiError>)
        ensures
            r matches Ok(v) && names(v@) == pci_wifi_networks(),
    {
        let v = vec!["TestNetwork1".to_string(), "TestNetwork2".to_string()];
        assert(names(v@) =~= pci_wifi_networks());
        Ok(v)
    }

    fn connect(&mut self, ssid: &str, password: &str) -> (r: Result<(), WifiError>)
        ensures
            r is Ok,
    {
        Ok(())
    }

    fn disconnect(&mut self) -> (r: Result<(), WifiError>)
        ensures
            r is Ok,
    {
        Ok(())
    }
}

} // verus!
