use mobinogi_timer::device::{find_default_device_name, list_devices, InterfaceAddress, IpAddress, NetDevice};

fn v4(a: u8, b: u8, c: u8, d: u8) -> IpAddress {
    IpAddress::V4(a, b, c, d)
}

fn dev(name: &str, addrs: Vec<InterfaceAddress>) -> NetDevice {
    NetDevice { name: name.to_string(), desc: None, addresses: addrs }
}

#[test]
fn default_device_skips_loopback_link_local_and_odd_masks() {
    let devices = vec![
        dev("lo", vec![InterfaceAddress { addr: v4(127, 0, 0, 1), netmask: Some(v4(255, 0, 0, 0)) }]),
        dev("ll", vec![InterfaceAddress { addr: v4(169, 254, 3, 4), netmask: Some(v4(255, 255, 0, 0)) }]),
        dev("zero", vec![InterfaceAddress { addr: v4(0, 1, 2, 3), netmask: Some(v4(255, 0, 0, 0)) }]),
        dev("host", vec![InterfaceAddress { addr: v4(10, 0, 0, 2), netmask: Some(v4(255, 255, 255, 255)) }]),
        dev("nomask", vec![InterfaceAddress { addr: v4(10, 0, 0, 3), netmask: Some(v4(0, 0, 0, 0)) }]),
        dev("v6", vec![InterfaceAddress { addr: IpAddress::V6, netmask: Some(IpAddress::V6) }]),
        dev("none", vec![InterfaceAddress { addr: v4(10, 0, 0, 4), netmask: None }]),
        dev("eth0", vec![
            InterfaceAddress { addr: IpAddress::V6, netmask: None },
            InterfaceAddress { addr: v4(192, 168, 0, 5), netmask: Some(v4(255, 255, 255, 0)) },
        ]),
        dev("eth1", vec![InterfaceAddress { addr: v4(192, 168, 1, 5), netmask: Some(v4(255, 255, 255, 0)) }]),
    ];
    assert_eq!(find_default_device_name(&devices), Some("eth0".to_string()));
    assert_eq!(find_default_device_name(&devices[..7].to_vec_devices()), None);
}

trait ToVecDevices {
    fn to_vec_devices(&self) -> Vec<NetDevice>;
}

impl ToVecDevices for [NetDevice] {
    fn to_vec_devices(&self) -> Vec<NetDevice> {
        self.iter()
            .map(|d| NetDevice { name: d.name.clone(), desc: d.desc.clone(), addresses: d.addresses.clone() })
            .collect()
    }
}

#[test]
fn link_local_needs_both_octets() {
    let devices = vec![dev("a", vec![InterfaceAddress { addr: v4(169, 1, 0, 1), netmask: Some(v4(255, 255, 0, 0)) }])];
    assert_eq!(find_default_device_name(&devices), Some("a".to_string()));
    assert_eq!(find_default_device_name(&Vec::new()), None);
}

#[test]
fn list_devices_fills_missing_descriptions() {
    let devices = vec![
        NetDevice { name: "a".to_string(), desc: Some("Adapter A".to_string()), addresses: vec![] },
        NetDevice { name: "b".to_string(), desc: None, addresses: vec![] },
    ];
    assert_eq!(
        list_devices(&devices),
        vec![("a".to_string(), "Adapter A".to_string()), ("b".to_string(), String::new())]
    );
}
