use crate::pci::PciBluetooth;
use crate::uart::UartBluetooth;
use crate::usb::UsbBluetooth;
use vstd::prelude::*;

verus! {

/// Why a Bluetooth operation failed.
#[derive(Clone, Copy, Debug, PartialEq, Eq, Structural)]
pub enum BluetoothError {
    NotImplemented,
    DeviceNotFound,
    CommunicationError,
    PairingFailed,
}

/// A Bluetooth controller.
pub trait BluetoothDriver {
    /// The controller's address.
    fn get_mac(&self) -> [u8; 6];

    /// Addresses of the devices in range.
    fn scan(&self) -> Result<Vec<[u8; 6]>, BluetoothError>;

    /// Pairs with the device at `device_addr`.
    fn pair(&self, device_addr: [u8; 6]) -> Result<(), BluetoothError>;

    /// Drops the connection to the device at `device_addr`.
    fn disconnect(&self, device_addr: [u8; 6]) -> Result<(), BluetoothError>;
}

/// The bus a Bluetooth controller sits on.
pub enum BluetoothBackend {
    Usb(UsbBluetooth),
    Pci(PciBluetooth),
    Uart(UartBluetooth),
}

impl BluetoothBackend {
    /// What a scan through this backend reports.
    pub open spec fn scan_result(&self) -> Seq<[u8; 6]> {
        match self {
            BluetoothBackend::Usb(_) => crate::usb::usb_bluetooth_peers(),
            BluetoothBackend::Pci(_) => crate::pci::pci_bluetooth_peers(),
            BluetoothBackend::Uart(_) => crate::uart::uart_bluetooth_peers(),
        }
    }
}

/// A detected Bluetooth controller.
pub struct BluetoothDevice {
    pub mac: [u8; 6],
    backend: BluetoothBackend,
}

impl BluetoothDevice {
    /// The bus the controller sits on.
    pub closed spec fn backend(&self) -> BluetoothBackend {
        self.backend
    }

    /// Looks for a controller on USB, then PCI, then UART.
    pub fn detect() -> (r: Result<Self, BluetoothError>)
        ensures
            r matches Err(e) && e == BluetoothError::DeviceNotFound,
    {
        if let Ok(usb) = UsbBluetooth::detect() {
            let mac = usb.get_mac();
            return Ok(BluetoothDevice { mac, backend: BluetoothBackend::Usb(usb) });
        }
        if let Ok(pci) = PciBluetooth::detect() {
            let mac = pci.get_mac();
            return Ok(BluetoothDevice { mac, backend: BluetoothBackend::Pci(pci) });
        }
        if let Ok(uart) = UartBluetooth::detect() {
            let mac = uart.get_mac();
            return Ok(BluetoothDevice { mac, backend: BluetoothBackend::Uart(uart) });
        }
        Err(BluetoothError::DeviceNotFound)
    }

    /// Addresses of the devices in range.
    pub fn scan(&self) -> (r: Result<Vec<[u8; 6]>, BluetoothError>)
        ensures
            r matches Ok(v) && v@ == self.backend().scan_result(),
    {
        match &self.backend {
            BluetoothBackend::Usb(usb) => usb.scan(),
            BluetoothBackend::Pci(pci) => pci.scan(),
            BluetoothBackend::Uart(uart) => uart.scan(),
        }
    }

    /// Drops the connection to the device at `device_addr`.
    pub fn disconnect(&self, device_addr: [u8; 6]) -> (r: Result<(), BluetoothError>)
        ensures
            r is Ok,
    {
        match &self.backend {
            BluetoothBackend::Usb(usb) => usb.disconnect(device_addr),
            BluetoothBackend::Pci(pci) => pci.disconnect(device_addr),
            BluetoothBackend::Uart(uart) => uart.disconnect(device_addr),
        }
    }

    /// Pairs with the device at `device_addr`.
    pub fn pair(&self, device_addr: [u8; 6]) -> (r: Result<(), BluetoothError>)
        ensures
            r is Ok,
    {
        match &self.backend {
            BluetoothBackend::Usb(usb) => usb.pair(device_addr),
            BluetoothBackend::Pci(pci) => pci.pair(device_addr),
            BluetoothBackend::Uart(uart) => uart.pair(device_addr),
        }
    }
}

} // verus!
