use crate::usb::UsbEthernet;
use vstd::prelude::*;

verus! {

/// Why an Ethernet operation failed.
#[derive(Clone, Copy, Debug, PartialEq, Eq, Structural)]
pub enum EthernetError {
    NotImplemented,
    DeviceNotFound,
    CommunicationError,
    LinkDown,
}

/// An Ethernet controller.
pub trait EthernetDriver {
    /// The controller's address.
    fn get_mac(&self) -> [u8; 6];

    /// Whether the link is up.
    fn link_status(&self) -> Result<bool, EthernetError>;

    /// Addresses of the stations on the segment.
    fn scan(&self) -> Result<Vec<[u8; 6]>, EthernetError>;

    fn connect(&self) -> Result<(), EthernetError>;

    fn disconnect(&self) -> Result<(), EthernetError>;

    /// Sends one frame.
    fn send(&self, data: &[u8]) -> Result<(), EthernetError>;

    /// Receives one frame into `buffer`, returning its length.
    fn receive(&self, buffer: &mut [u8]) -> Result<usize, EthernetError>;
}

/// The bus an Ethernet controller sits on; `P` is the PCI controller's
/// driver.
pub enum EthernetBackend<P> {
    Pci(P),
    Usb(UsbEthernet),
}

/// A detected Ethernet controller.
pub struct EthernetDevice<P> {
    pub mac: [u8; 6],
    backend: EthernetBackend<P>,
}

impl<P: EthernetDriver> EthernetDevice<P> {
    /// The bus the controller sits on.
    pub closed spec fn backend(&self) -> EthernetBackend<P> {
        self.backend
    }

    /// Picks a controller: the one that probing PCI found, if any, else one
    /// on USB.
    pub fn detect(pci: Result<P, EthernetError>) -> (r: Result<Self, EthernetError>)
        ensures
            pci is Ok ==> (r matches Ok(d) && d.backend() is Pci),
            pci is Err ==> (r matches Err(e) && e == EthernetError::DeviceNotFound),
    {
        if let Ok(pci) = pci {
            let mac = pci.get_mac();
            return Ok(EthernetDevice { mac, backend: EthernetBackend::Pci(pci) });
        }
        if let Ok(usb) = UsbEthernet::detect() {
            let mac = usb.get_mac();
            return Ok(EthernetDevice { mac, backend: EthernetBackend::Usb(usb) });
        }
        Err(EthernetError::DeviceNotFound)
    }

    /// Sends one frame.
    pub fn send(&self, data: &[u8]) -> (r: Result<(), EthernetError>)
        ensures
            self.backend() is Usb ==> r is Ok,
    {
        match &self.backend {
            EthernetBackend::Pci(pci) => pci.send(data),
            EthernetBackend::Usb(usb) => usb.send(data),
        }
    }

    /// Receives one frame into `buffer`, returning its length.
    pub fn receive(&self, buffer: &mut [u8]) -> (r: Result<usize, EthernetError>)
        ensures
            self.backend() is Usb ==> (r matches Ok(n) && n == 0 && final(buffer)@ == old(buffer)@),
    {
        match &self.backend {
            EthernetBackend::Pci(pci) => pci.receive(buffer),
            EthernetBackend::Usb(usb) => usb.receive(buffer),
        }
    }

    /// Whether the link is up.
    pub fn link_status(&self) -> (r: Result<bool, EthernetError>)
        ensures
            self.backend() is Usb ==> (r matches Ok(up) && up),
    {
        match &self.backend {
            EthernetBackend::Pci(pci) => pci.link_status(),
            EthernetBackend::Usb(usb) => usb.link_status(),
        }
    }

    /// Addresses of the stations on the segment.
    pub fn scan(&self) -> (r: Result<Vec<[u8; 6]>, EthernetError>)
        ensures
            self.backend() matches EthernetBackend::Usb(u) ==> (r matches Ok(v) && v@ == seq![
                u.mac_spec(),
                [0xCAu8, 0xFE, 0xBA, 0xBE, 0x00, 0x02],
            ]),
    {
        match &self.backend {
            EthernetBackend::Pci(pci) => pci.scan(),
            EthernetBackend::Usb(usb) => usb.scan(),
        }
    }

    pub fn connect(&self) -> (r: Result<(), EthernetError>)
        ensures
            self.backend() is Usb ==> r is Ok,
    {
        match &self.backend {
            EthernetBackend::Pci(pci) => pci.connect(),
            EthernetBackend::Usb(usb) => usb.connect(),
        }
    }

    pub fn disconnect(&self) -> (r: Result<(), EthernetError>)
        ensures
            self.backend() is Usb ==> r is Ok,
    {
        match &self.backend {
            EthernetBackend::Pci(pci) => pci.disconnect(),
            EthernetBackend::Usb(usb) => usb.disconnect(),
        }
    }
}

/// The byte of `w` that starts at bit `shift`.
pub open spec fn byte_of(w: u32, shift: u32) -> u8 {
    ((w >> shift) & 0xFFu32) as u8
}

fn byte_at(w: u32, shift: u32) -> (r: u8)
    requires
        shift < 32,
    ensures
        r == byte_of(w, shift),
{
    let b = (w >> shift) & 0xFFu32;
    assert(b <= 0xFF) by (bit_vector)
        requires
            b == (w >> shift) & 0xFFu32,
    ;
    b as u8
}

/// The station address held in the receive-address registers: the four
/// bytes of the low register, then the two low bytes of the high one,
/// least significant first.
pub fn mac_from_registers(ral: u32, rah: u32) -> (r: [u8; 6])
    ensures
        r@ == seq![
            byte_of(ral, 0),
            byte_of(ral, 8),
            byte_of(ral, 16),
            byte_of(ral, 24),
            byte_of(rah, 0),
            byte_of(rah, 8),
        ],
{
    let r = [
        byte_at(ral, 0),
        byte_at(ral, 8),
        byte_at(ral, 16),
        byte_at(ral, 24),
        byte_at(rah, 0),
        byte_at(rah, 8),
    ];
    assert(r@ =~= seq![
        byte_of(ral, 0),
        byte_of(ral, 8),
        byte_of(ral, 16),
        byte_of(ral, 24),
        byte_of(rah, 0),
        byte_of(rah, 8),
    ]);
    r
}

/// Whether the device status register reports the link up (bit 1).
pub fn link_up(status: u32) -> (r: bool)
    ensures
        r == (status & 2u32 != 0),
{
    status & 2u32 != 0
}

} // verus!
