use rustcore::devices::{config_word, pci_config_address, scan_pci_devices, PciConfigSpace, PciDevice, PciScan};
use rustcore::ethernet::{EthernetDevice, EthernetError};
use rustcore::usb::UsbEthernet;
use rustcore::graphics::{glyph_color, glyph_row, pixel_offset};

struct TwoDevices;

impl PciConfigSpace for TwoDevices {
    fn read_word(&self, bus: u8, slot: u8, function: u8, offset: u8) -> u16 {
        match (bus, slot, function, offset) {
            (0, 3, 0, 0) => 0x8086,
            (0, 3, 0, 2) => 0x100e,
            (2, 31, 7, 0) => 0x10ec,
            (2, 31, 7, 2) => 0x8139,
            _ => 0xFFFF,
        }
    }
}

#[test]
fn scan_lists_present_functions_in_order() {
    let found = scan_pci_devices(&TwoDevices);
    assert_eq!(
        found,
        vec![
            PciDevice { bus: 0, slot: 3, function: 0, vendor_id: 0x8086, device_id: 0x100e },
            PciDevice { bus: 2, slot: 31, function: 7, vendor_id: 0x10ec, device_id: 0x8139 },
        ]
    );
}

#[test]
fn config_address_and_word() {
    assert_eq!(pci_config_address(0, 0, 0, 0), 0x8000_0000);
    assert_eq!(pci_config_address(1, 2, 3, 0x12), 0x8001_1310);
    assert_eq!(config_word(0xAAAA_BBBB, 0x00), 0xBBBB);
    assert_eq!(config_word(0xAAAA_BBBB, 0x02), 0xAAAA);
}

#[test]
fn glyphs_and_pixels() {
    assert_eq!(glyph_row(1, 0), 0x3C);
    assert_eq!(glyph_row(1, 7), 0x00);
    assert_eq!(glyph_row(65, 3), 0);
    assert_eq!(glyph_color(0x3C, 2, 1, 2), 1);
    assert_eq!(glyph_color(0x3C, 0, 1, 2), 2);
    assert_eq!(pixel_offset(3, 2, 640, 480, 2560, 4), Some(2 * 2560 + 12));
    assert_eq!(pixel_offset(640, 2, 640, 480, 2560, 4), None);
    assert_eq!(pixel_offset(1, 1, 10, 10, usize::MAX, 4), None);
}

#[test]
fn scan_steps_read_vendor_then_device() {
    let mut scan = PciScan::new();
    assert_eq!(scan.next_read(), Some((0, 0, 0, 0)));
    scan.feed(0xFFFF);
    assert_eq!(scan.next_read(), Some((0, 0, 1, 0)));
    scan.feed(0x8086);
    assert_eq!(scan.next_read(), Some((0, 0, 1, 2)));
    scan.feed(0x1234);
    assert_eq!(scan.next_read(), Some((0, 0, 2, 0)));
    assert_eq!(
        scan.into_devices(),
        vec![PciDevice { bus: 0, slot: 0, function: 1, vendor_id: 0x8086, device_id: 0x1234 }]
    );
}

#[test]
fn ethernet_detection_prefers_pci_probe() {
    let found: Result<EthernetDevice<UsbEthernet>, EthernetError> =
        EthernetDevice::detect(Err(EthernetError::DeviceNotFound));
    assert!(matches!(found, Err(EthernetError::DeviceNotFound)));
}
