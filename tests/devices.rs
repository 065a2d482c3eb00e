use rustcore::bluetooth::{BluetoothDevice, BluetoothDriver, BluetoothError};
use rustcore::ethernet::{EthernetDriver, EthernetError};
use rustcore::network::{NetworkConfig, NetworkManager, NetworkType, RealNetwork};
use rustcore::pci::{PciBluetooth, PciWifi};
use rustcore::uart::UartBluetooth;
use rustcore::usb::{UsbBluetooth, UsbEthernet, UsbWifi};
use rustcore::wifi::{WifiDevice, WifiError};

#[test]
fn no_controller_is_detected() {
    assert!(matches!(BluetoothDevice::detect(), Err(BluetoothError::DeviceNotFound)));
    assert!(matches!(WifiDevice::detect(), Err(WifiError::DeviceNotFound)));
    assert!(matches!(UsbBluetooth::detect(), Err(BluetoothError::DeviceNotFound)));
    assert!(matches!(PciBluetooth::detect(), Err(BluetoothError::DeviceNotFound)));
    assert!(matches!(UartBluetooth::detect(), Err(BluetoothError::DeviceNotFound)));
    assert!(matches!(UsbEthernet::detect(), Err(EthernetError::DeviceNotFound)));
    assert!(matches!(UsbWifi::detect(), Err(WifiError::DeviceNotFound)));
    assert!(matches!(PciWifi::detect(), Err(WifiError::DeviceNotFound)));
}

#[test]
fn wifi_configuration_needs_name_and_passphrase() {
    let net = RealNetwork;
    let mut config = NetworkConfig {
        net_type: NetworkType::Wifi,
        ssid: Some("home"),
        password: None,
        mac_address: [0; 6],
    };
    assert_eq!(net.configure(&config), Err("WiFi configuration requires SSID and password"));
    config.password = Some("secret");
    assert_eq!(net.configure(&config), Ok(()));
    config.net_type = NetworkType::Ethernet;
    config.ssid = None;
    assert_eq!(net.configure(&config), Ok(()));
    config.net_type = NetworkType::Bluetooth;
    assert_eq!(net.configure(&config), Ok(()));
}

#[test]
fn driver_traits_are_usable_generically() {
    fn peers<D: BluetoothDriver>(d: &D) -> usize {
        d.scan().map(|v| v.len()).unwrap_or(0)
    }
    fn link<D: EthernetDriver>(d: &D) -> bool {
        d.link_status().unwrap_or(false)
    }
    let _ = peers::<UsbBluetooth>;
    let _ = link::<UsbEthernet>;
}
