use vstd::prelude::*;
use crate::update::string_opt_view;

verus! {

/// An IP address of a network interface: IPv4 with its four octets, or IPv6.
#[derive(Clone, Copy, Debug, PartialEq, Eq, Structural)]
pub enum IpAddress {
    V4(u8, u8, u8, u8),
    V6,
}

/// One address of a network interface, with its netmask if it has one.
#[derive(Clone, Copy, Debug, PartialEq, Eq, Structural)]
pub struct InterfaceAddress {
    pub addr: IpAddress,
    pub netmask: Option<IpAddress>,
}

/// A network interface that packets can be captured on.
pub struct NetDevice {
    pub name: String,
    pub desc: Option<String>,
    pub addresses: Vec<InterfaceAddress>,
}

/// A network interface by value: name, description, addresses.
pub type DeviceView = (Seq<char>, Option<Seq<char>>, Seq<InterfaceAddress>);

impl NetDevice {
    pub open spec fn view(&self) -> DeviceView {
        (self.name@, string_opt_view(self.desc), self.addresses@)
    }
}

pub open spec fn device_views(ds: Seq<NetDevice>) -> Seq<DeviceView> {
    ds.map_values(|d: NetDevice| d.view())
}

/// An IPv4 address with a netmask that points at a real network: the address is not
/// loopback (127.x), link-local (169.254.x) or 0.x, and the netmask, as a big-endian
/// 32-bit number, is neither zero nor all ones.
pub open spec fn is_gateway_address(a: InterfaceAddress) -> bool {
    match (a.addr, a.netmask) {
        (IpAddress::V4(i0, i1, _, _), Some(IpAddress::V4(m0, m1, m2, m3))) => {
            let mask = m0 * 0x100_0000 + m1 * 0x1_0000 + m2 * 0x100 + m3;
            &&& !(i0 == 127 || (i0 == 169 && i1 == 254) || i0 == 0)
            &&& mask != 0
            &&& mask != 0xFFFF_FFFF
        },
        _ => false,
    }
}

/// The device has an address that `is_gateway_address` accepts.
pub open spec fn has_gateway_address(d: DeviceView) -> bool {
    exists|k: int| 0 <= k < d.2.len() && is_gateway_address(#[trigger] d.2[k])
}

/// The name of the first device with a gateway address, if any.
pub open spec fn default_device(ds: Seq<DeviceView>) -> Option<Seq<char>>
    decreases ds.len(),
{
    if ds.len() == 0 {
        None
    } else if has_gateway_address(ds[0]) {
        Some(ds[0].0)
    } else {
        default_device(ds.drop_first())
    }
}

fn gateway_address(a: &InterfaceAddress) -> (ok: bool)
    ensures
        ok == is_gateway_address(*a),
{
    match (a.addr, a.netmask) {
        (IpAddress::V4(i0, i1, _, _), Some(IpAddress::V4(m0, m1, m2, m3))) => {
            if i0 == 127 || (i0 == 169 && i1 == 254) || i0 == 0 {
                return false;
            }
            let mask: u32 = (m0 as u32) * 0x100_0000 + (m1 as u32) * 0x1_0000 + (m2 as u32) * 0x100
                + (m3 as u32);
            mask != 0 && mask != 0xFFFF_FFFF
        },
        _ => false,
    }
}

/// The best default interface: the first one with an IPv4 address on a real network
/// (see `is_gateway_address`).
pub fn find_default_device_name(devices: &Vec<NetDevice>) -> (name: Option<String>)
    ensures
        string_opt_view(name) == default_device(device_views(devices@)),
{
    let ghost ds = device_views(devices@);
    let mut i: usize = 0;
    assert(ds.skip(0) =~= ds);
    while i < devices.len()
        invariant
            i <= devices@.len(),
            ds == device_views(devices@),
            default_device(ds) == default_device(ds.skip(i as int)),
        decreases devices@.len() - i,
    {
        let d = &devices[i];
        assert(ds.skip(i as int)[0] == d.view());
        assert(ds.skip(i as int).drop_first() =~= ds.skip(i + 1));
        let mut k: usize = 0;
        while k < d.addresses.len()
            invariant
                k <= d.addresses@.len(),
                forall|j: int| 0 <= j < k ==> !is_gateway_address(#[trigger] d.addresses@[j]),
                i < devices@.len(),
                *d == devices@[i as int],
                ds == device_views(devices@),
                default_device(ds) == default_device(ds.skip(i as int)),
                ds.skip(i as int)[0] == d.view(),
                ds.skip(i as int).drop_first() == ds.skip(i + 1),
            decreases d.addresses@.len() - k,
        {
            if gateway_address(&d.addresses[k]) {
                assert(is_gateway_address(d.view().2[k as int]));
                assert(has_gateway_address(d.view()));
                return Some(d.name.clone());
            }
            k = k + 1;
        }
        assert(!has_gateway_address(d.view()));
        i = i + 1;
    }
    None
}

/// Each device's name and description (empty when it has none), in order.
pub fn list_devices(devices: &Vec<NetDevice>) -> (named: Vec<(String, String)>)
    ensures
        named@.len() == devices@.len(),
        forall|i: int| 0 <= i < devices@.len() ==> {
            &&& (#[trigger] named@[i]).0@ == devices@[i].name@
            &&& named@[i].1@ == string_opt_view(devices@[i].desc).unwrap_or(Seq::empty())
        },
{
    let mut named: Vec<(String, String)> = Vec::new();
    let mut i: usize = 0;
    while i < devices.len()
        invariant
            i <= devices@.len(),
            named@.len() == i,
            forall|j: int| 0 <= j < i ==> {
                &&& (#[trigger] named@[j]).0@ == devices@[j].name@
                &&& named@[j].1@ == string_opt_view(devices@[j].desc).unwrap_or(Seq::empty())
            },
        decreases devices@.len() - i,
    {
        let d = &devices[i];
        let desc = match &d.desc {
            Some(s) => s.clone(),
            None => String::new(),
        };
        named.push((d.name.clone(), desc));
        i = i + 1;
    }
    named
}

/// An address makes its device a default candidate exactly when it is an IPv4 address
/// whose first octet is neither 127 nor 0 and which is not 169.254.x.x, with an IPv4
/// netmask that is neither 0.0.0.0 nor 255.255.255.255.
pub open spec fn qualifies_by_octets(a: InterfaceAddress) -> bool {
    match (a.addr, a.netmask) {
        (IpAddress::V4(i0, i1, _, _), Some(IpAddress::V4(m0, m1, m2, m3))) => {
            &&& i0 != 127
            &&& i0 != 0
            &&& !(i0 == 169 && i1 == 254)
            &&& !(m0 == 0 && m1 == 0 && m2 == 0 && m3 == 0)
            &&& !(m0 == 255 && m1 == 255 && m2 == 255 && m3 == 255)
        },
        _ => false,
    }
}

proof fn lemma_gateway_by_octets(a: InterfaceAddress)
    ensures
        is_gateway_address(a) == qualifies_by_octets(a),
{
}

/// The default device is the first one that has an address passing the octet conditions
/// of `qualifies_by_octets`, and there is none when no device has such an address.
pub proof fn lemma_default_device_by_octets(ds: Seq<DeviceView>)
    ensures
        forall|i: int| 0 <= i < ds.len()
            && (exists|k: int| 0 <= k < ds[i].2.len() && qualifies_by_octets(#[trigger] ds[i].2[k]))
            && (forall|j: int, k: int| 0 <= j < i && 0 <= k < ds[j].2.len() ==> !qualifies_by_octets(#[trigger] ds[j].2[k]))
            ==> #[trigger] default_device(ds) == Some(ds[i].0),
        (forall|j: int, k: int| 0 <= j < ds.len() && 0 <= k < ds[j].2.len() ==> !qualifies_by_octets(#[trigger] ds[j].2[k]))
            ==> default_device(ds) is None,
    decreases ds.len(),
{
    if ds.len() > 0 {
        let rest = ds.drop_first();
        lemma_default_device_by_octets(rest);
        assert forall|k: int| 0 <= k < ds[0].2.len() implies is_gateway_address(#[trigger] ds[0].2[k])
            == qualifies_by_octets(ds[0].2[k]) by {
            lemma_gateway_by_octets(ds[0].2[k]);
        }
        assert forall|i: int| 0 <= i < ds.len()
            && (exists|k: int| 0 <= k < ds[i].2.len() && qualifies_by_octets(#[trigger] ds[i].2[k]))
            && (forall|j: int, k: int| 0 <= j < i && 0 <= k < ds[j].2.len() ==> !qualifies_by_octets(#[trigger] ds[j].2[k]))
            implies #[trigger] default_device(ds) == Some(ds[i].0) by {
            if i == 0 {
                let k = choose|k: int| 0 <= k < ds[0].2.len() && qualifies_by_octets(#[trigger] ds[0].2[k]);
                assert(is_gateway_address(ds[0].2[k]));
            } else {
                assert(!has_gateway_address(ds[0])) by {
                    if has_gateway_address(ds[0]) {
                        let k = choose|k: int| 0 <= k < ds[0].2.len() && is_gateway_address(#[trigger] ds[0].2[k]);
                        assert(!qualifies_by_octets(ds[0].2[k]));
                    }
                }
                assert(rest[i - 1] == ds[i]);
                let k = choose|k: int| 0 <= k < ds[i].2.len() && qualifies_by_octets(#[trigger] ds[i].2[k]);
                assert(qualifies_by_octets(rest[i - 1].2[k]));
                assert forall|j: int, k2: int| 0 <= j < i - 1 && 0 <= k2 < rest[j].2.len()
                    implies !qualifies_by_octets(#[trigger] rest[j].2[k2]) by {
                    assert(rest[j] == ds[j + 1]);
                }
            }
        }
        if forall|j: int, k: int| 0 <= j < ds.len() && 0 <= k < ds[j].2.len() ==> !qualifies_by_octets(#[trigger] ds[j].2[k]) {
            assert(!has_gateway_address(ds[0])) by {
                if has_gateway_address(ds[0]) {
                    let k = choose|k: int| 0 <= k < ds[0].2.len() && is_gateway_address(#[trigger] ds[0].2[k]);
                    assert(!qualifies_by_octets(ds[0].2[k]));
                }
            }
            assert forall|j: int, k: int| 0 <= j < rest.len() && 0 <= k < rest[j].2.len()
                implies !qualifies_by_octets(#[trigger] rest[j].2[k]) by {
                assert(rest[j] == ds[j + 1]);
            }
        }
    }
}

} // verus!
