use crate::bluetooth::{BluetoothDriver, BluetoothError};
use vstd::prelude::*;

verus! {

/// What a UART Bluetooth controller reports in range.
pub open spec fn uart_bluetooth_peers() -> Seq<[u8; 6]> {
    seq![[0xAAu8, 0xBB, 0xCC, 0xDD, 0xEE, 0xFF]]
}

/// A Bluetooth controller on a serial line.
pub struct UartBluetooth {
    mac: [u8; 6],
}

impl UartBluetooth {
    pub closed spec fn mac_spec(&self) -> [u8; 6] {
        self.mac
    }

    /// Looks for a controller on the serial ports; none is supported yet.
    pub fn detect() -> (r: Result<Self, BluetoothError>)
        ensures
            r matches Err(e) && e == BluetoothError::DeviceNotFound,
    {
        Err(BluetoothError::DeviceNotFound)
    }
}

impl BluetoothDriver for UartBluetooth {
    fn get_mac(&self) -> (r: [u8; 6])
        ensures
            r == self.mac_spec(),
    {
        self.mac
    }

    fn scan(&self) -> (r: Result<Vec<[u8; 6]>, BluetoothError>)
        ensures
            r matches Ok(v) && v@ == uart_bluetooth_peers(),
    {
        let v = vec![[0xAA, 0xBB, 0xCC, 0xDD, 0xEE, 0xFF]];
        assert(v@ =~= uart_bluetooth_peers());
        Ok(v)
    }

    fn pair(&self, device_addr: [u8; 6]) -> (r: Result<(), BluetoothError>)
        ensures
            r is Ok,
    {
        Ok(())
    }

    fn disconnect(&self, device_addr: [u8; 6]) -> (r: Result<(), BluetoothError>)
        ensures
            r is Ok,
    {
        Ok(())
    }
}

} // verus!
