use crate::pci::PciWifi;
use crate::usb::UsbWifi;
use vstd::prelude::*;

verus! {

/// Why a Wi-Fi operation failed.
#[derive(Clone, Copy, Debug, PartialEq, Eq, Structural)]
pub enum WifiError {
    NotImplemented,
    DeviceNotFound,
    CommunicationError,
    ConnectionFailed,
}

/// A Wi-Fi controller.
pub trait WifiDriver {
    /// The controller's address.
    fn get_mac(&self) -> [u8; 6];

    /// Names of the networks in range.
    fn scan(&self) -> Result<Vec<String>, WifiError>;

    /// Joins network `ssid` with `password`.
    fn connect(&mut self, ssid: &str, password: &str) -> Result<(), WifiError>;

    /// Leaves the current network.
    fn disconnect(&mut self) -> Result<(), WifiError>;
}

/// The bus a Wi-Fi controller sits on.
pub enum WifiBackend {
    Pci(PciWifi),
    Usb(UsbWifi),
}

impl WifiBackend {
    /// What a scan through this backend reports.
    pub open spec fn scan_result(&self) -> Seq<Seq<char>> {
        match self {
            WifiBackend::Pci(_) => crate::pci::pci_wifi_networks(),
            WifiBackend::Usb(_) => crate::usb::usb_wifi_networks(),
        }
    }
}

/// Names of `v`'s strings.
pub open spec fn names(v: Seq<String>) -> Seq<Seq<char>> {
    v.map_values(|s: String| s@)
}

/// A detected Wi-Fi controller.
pub struct WifiDevice {
    pub mac: [u8; 6],
    backend: WifiBackend,
}

impl WifiDevice {
    /// The bus the controller sits on.
    pub closed spec fn backend(&self) -> WifiBackend {
        self.backend
    }

    /// Looks for a controller on PCI, then USB.
    pub fn detect() -> (r: Result<Self, WifiError>)
        ensures
            r matches Err(e) && e == WifiError::DeviceNotFound,
    {
        if let Ok(pci) = PciWifi::detect() {
            let mac = pci.get_mac();
            return Ok(WifiDevice { mac, backend: WifiBackend::Pci(pci) });
        }
        if let Ok(usb) = UsbWifi::detect() {
            let mac = usb.get_mac();
            return Ok(WifiDevice { mac, backend: WifiBackend::Usb(usb) });
        }
        Err(WifiError::DeviceNotFound)
    }

    /// Joins network `ssid` with `password`.
    pub fn connect(&mut self, ssid: &str, password: &str) -> (r: Result<(), WifiError>)
        ensures
            r is Ok,
    {
        match &mut self.backend {
            WifiBackend::Pci(pci) => pci.connect(ssid, password),
            WifiBackend::Usb(usb) => usb.connect(ssid, password),
        }
    }

    /// Leaves the current network.
    pub fn disconnect(&mut self) -> (r: Result<(), WifiError>)
        ensures
            r is Ok,
    {
        match &mut self.backend {
            WifiBackend::Pci(pci) => pci.disconnect(),
            WifiBackend::Usb(usb) => usb.disconnect(),
        }
    }

    /// Names of the networks in range.
    pub fn scan(&self) -> (r: Result<Vec<String>, WifiError>)
        ensures
            r matches Ok(v) && names(v@) == self.backend().scan_result(),
    {
        match &self.backend {
            WifiBackend::Pci(pci) => pci.scan(),
            WifiBackend::Usb(usb) => usb.scan(),
        }
    }
}

} // verus!
