use crate::bluetooth::{BluetoothDriver, BluetoothError};
use crate::ethernet::{EthernetDriver, EthernetError};
use crate::wifi::{names, WifiDriver, WifiError};
use vstd::prelude::*;

verus! {

/// What a USB Bluetooth controller reports in range.
pub open spec fn usb_bluetooth_peers() -> Seq<[u8; 6]> {
    seq![[0x10u8, 0x20, 0x30, 0x40, 0x50, 0x60], [0x70u8, 0x80, 0x90, 0xA0, 0xB0, 0xC0]]
}

/// What a USB Wi-Fi controller reports in range.
pub open spec fn usb_wifi_networks() -> Seq<Seq<char>> {
    seq!["UsbNet1"@, "UsbNet2"@]
}

/// A Bluetooth controller on USB.
pub struct UsbBluetooth {
    mac: [u8; 6],
}

impl UsbBluetooth {
    pub closed spec fn mac_spec(&self) -> [u8; 6] {
        self.mac
    }

    /// Looks for a controller on USB; none is supported yet.
    pub fn detect() -> (r: Result<Self, BluetoothError>)
        ensures
            r matches Err(e) && e == BluetoothError::DeviceNotFound,
    {
        Err(BluetoothError::DeviceNotFound)
    }
}

impl BluetoothDriver for UsbBluetooth {
    fn get_mac(&self) -> (r: [u8; 6])
        ensures
            r == self.mac_spec(),
    {
        self.mac
    }

    fn scan(&self) -> (r: Result<Vec<[u8; 6]>, BluetoothError>)
        ensures
            r matches Ok(v) && v@ == usb_bluetooth_peers(),
    {
        let v = vec![[0x10, 0x20, 0x30, 0x40, 0x50, 0x60], [0x70, 0x80, 0x90, 0xA0, 0xB0, 0xC0]];
        assert(v@ =~= usb_bluetooth_peers());
        Ok(v)
    }

    fn pair(&self, device_addr: [u8; 6]) -> (r: Result<(), BluetoothError>)
        ensures
            r is Ok,
    {
        Ok(())
    }

    fn disconnect(&self, device_addr: [u8; 6]) -> (r: Result<(), BluetoothError>)
        ensures
            r is Ok,
    {
        Ok(())
    }
}

/// An Ethernet controller on USB.
pub struct UsbEthernet {
    mac: [u8; 6],
}

impl UsbEthernet {
    pub closed spec fn mac_spec(&self) -> [u8; 6] {
        self.mac
    }

    /// Looks for a controller on USB; none is supported yet.
    pub fn detect() -> (r: Result<Self, EthernetError>)
        ensures
            r matches Err(e) && e == EthernetError::DeviceNotFound,
    {
        Err(EthernetError::DeviceNotFound)
    }
}

impl EthernetDriver for UsbEthernet {
    fn get_mac(&self) -> (r: [u8; 6])
        ensures
            r == self.mac_spec(),
    {
        self.mac
    }

    fn send(&self, data: &[u8]) -> (r: Result<(), EthernetError>)
        ensures
            r is Ok,
    {
        Ok(())
    }

    fn receive(&self, buffer: &mut [u8]) -> (r: Result<usize, EthernetError>)
        ensures
            r matches Ok(n) && n == 0,
            final(buffer)@ == old(buffer)@,
    {
        Ok(0)
    }

    fn link_status(&self) -> (r: Result<bool, EthernetError>)
        ensures
            r matches Ok(up) && up,
    {
        Ok(true)
    }

    fn scan(&self) -> (r: Result<Vec<[u8; 6]>, EthernetError>)
        ensures
            r matches Ok(v) && v@ == seq![self.mac_spec(), [0xCAu8, 0xFE, 0xBA, 0xBE, 0x00, 0x02]],
    {
        let v = vec![self.mac, [0xCA, 0xFE, 0xBA, 0xBE, 0x00, 0x02]];
        assert(v@ =~= seq![self.mac_spec(), [0xCAu8, 0xFE, 0xBA, 0xBE, 0x00, 0x02]]);
        Ok(v)
    }

    fn connect(&self) -> (r: Result<(), EthernetError>)
        ensures
            r is Ok,
    {
        Ok(())
    }

    fn disconnect(&self) -> (r: Result<(), EthernetError>)
        ensures
            r is Ok,
    {
        Ok(())
    }
}

/// A Wi-Fi controller on USB.
pub struct UsbWifi {
    mac: [u8; 6],
}

impl UsbWifi {
    pub closed spec fn mac_spec(&self) -> [u8; 6] {
        self.mac
    }

    /// Looks for a controller on USB; none is supported yet.
    pub fn detect() -> (r: Result<Self, WifiError>)
        ensures
            r matches Err(e) && e == WifiError::DeviceNotFound,
    {
        Err(WifiError::DeviceNotFound)
    }
}

impl WifiDriver for UsbWifi {
    fn get_mac(&self) -> (r: [u8; 6])
        ensures
            r == self.mac_spec(),
    {
        self.mac
    }

    fn scan(&self) -> (r: Result<Vec<String>, WifiError>)
        ensures
            r matches Ok(v) && names(v@) == usb_wifi_networks(),
    {
        let v = vec!["UsbNet1".to_string(), "UsbNet2".to_string()];
        assert(names(v@) =~= usb_wifi_networks());
        Ok(v)
    }

    fn connect(&mut self, ssid: &str, password: &str) -> (r: Result<(), WifiError>)
        ensures
            r is Ok,
    {
        Ok(())
    }

    fn disconnect(&mut self) -> (r: Result<(), WifiError>)
        ensures
            r is Ok,
    {
        Ok(())
    }
}

} // verus!
