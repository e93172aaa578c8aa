use ipset::data::{
    IfaceDataType, IpDataType, MacDataType, MarkDataType, NetDataType, PortDataType, SetDataType,
};
use ipset::element::{parse_field, DataValue, Element};
use ipset::error::Error;
use ipset::sets::{
    BitmapIp, BitmapIpMac, BitmapPort, HashIp, HashIpMac, HashIpMark, HashIpPort, HashIpPortIp,
    HashIpPortNet, HashMac, HashNet, HashNetIface, HashNetNet, HashNetPort, HashNetPortNet,
    ListSet,
};
use ipset::settype::{
    BitmapMethod, DataKind, HashMethod, ListMethod, Method, SetKind, SetType, TypeName,
};

#[test]
fn test_ip() {
    let mut data = IpDataType::IPv4([127, 0, 0, 1]);
    assert_eq!("127.0.0.1", data.to_string());
    data.parse("192.168.3.1").unwrap();
    assert_eq!("192.168.3.1", data.to_string());
}

#[test]
fn test_net() {
    let mut net = NetDataType::new(IpDataType::IPv4([127, 0, 0, 1]), 8);
    assert_eq!("127.0.0.1/8", net.to_string());
    net.parse("192.168.3.1/24").unwrap();
    assert_eq!("192.168.3.1/24", net.to_string());
}

#[test]
fn test_mac() {
    let mut mac: MacDataType = [124u8, 24u8, 32u8, 129u8, 84u8, 223u8].into();
    assert_eq!("7c:18:20:81:54:df", mac.to_string());
    mac.parse("00:15:5d:37:d9:2f").unwrap();
    assert_eq!("00:15:5d:37:d9:2f", mac.to_string());
}

#[test]
fn test_mark() {
    let mut mark: MarkDataType = 32u32.into();
    assert_eq!("32", mark.to_string());
    mark.parse("123").unwrap();
    assert_eq!("123", format!("{}", 123));
    assert_eq!("123", mark.to_string());
}

#[test]
fn test_port() {
    let mut port: PortDataType = 1235u16.into();
    assert_eq!("1235", port.to_string());
    port.parse("1234").unwrap();
    assert_eq!("1234", port.to_string());
}

#[test]
fn test_iface() {
    let mut iface = IfaceDataType::new("abc").unwrap();
    assert_eq!("abc", iface.to_string());
    iface.parse("test").unwrap();
    assert_eq!("test", iface.to_string());
}

#[test]
fn test_set() {
    let mut set = SetDataType::new("abc").unwrap();
    assert_eq!("abc", set.to_string());
    set.parse("test").unwrap();
    assert_eq!("test", set.to_string());
}

#[test]
fn test_ip_port_ip() {
    let kinds = vec![DataKind::Ip, DataKind::Port, DataKind::Ip];
    let data = Element::parse(&kinds, "192.168.3.1,8080,192.168.3.2").unwrap();
    assert_eq!("192.168.3.1", data.values[0].to_string());
    assert_eq!("8080", data.values[1].to_string());
    assert_eq!("192.168.3.2", data.values[2].to_string());
}

#[test]
fn test_type_name() {
    assert_eq!(HashIp::to_cstring(), "hash:ip");
    assert_eq!(HashNetIface::to_cstring(), "hash:net,iface");
    assert_eq!(HashNetNet::to_cstring(), "hash:net,net");
    assert_eq!(HashNetPort::to_cstring(), "hash:net,port");
    assert_eq!(HashNet::to_cstring(), "hash:net");
    assert_eq!(HashIpPort::to_cstring(), "hash:ip,port");
    assert_eq!(HashIpMark::to_cstring(), "hash:ip,mark");
    assert_eq!(HashIpPortNet::to_cstring(), "hash:ip,port,net");
    assert_eq!(HashIpMac::to_cstring(), "hash:ip,mac");
    assert_eq!(HashIpPortIp::to_cstring(), "hash:ip,port,ip");
    assert_eq!(HashNetPortNet::to_cstring(), "hash:net,port,net");
    assert_eq!(HashMac::to_cstring(), "hash:mac");
    assert_eq!(ListSet::to_cstring(), "list:set");
    assert_eq!(BitmapPort::to_cstring(), "bitmap:port");
    assert_eq!(BitmapIp::to_cstring(), "bitmap:ip");
    assert_eq!(BitmapIpMac::to_cstring(), "bitmap:ip,mac");
}

#[test]
fn method_names() {
    assert_eq!(ListMethod::name(), "list");
    assert_eq!(BitmapMethod::name(), "bitmap");
    assert_eq!(HashMethod::name(), "hash");
    assert_eq!(SetKind::HashNetPortNet.method(), Method::Hash);
    assert_eq!(
        SetKind::HashNetPortNet.data_kinds(),
        vec![DataKind::Net, DataKind::Port, DataKind::Net]
    );
}

#[test]
fn ipv4_round_trip_values() {
    for text in ["0.0.0.0", "255.255.255.255", "10.0.200.7", "1.2.3.4"] {
        let mut ip = IpDataType::IPv4([9, 9, 9, 9]);
        ip.parse(text).unwrap();
        assert_eq!(text, ip.to_string());
    }
}

#[test]
fn ipv4_rejects_malformed_text() {
    for text in ["1.2.3", "1.2.3.4.5", "256.1.1.1", "01.2.3.4", "a.b.c.d", ""] {
        let mut ip = IpDataType::IPv4([9, 9, 9, 9]);
        assert!(matches!(ip.parse(text), Err(Error::AddrParse)), "{}", text);
        assert_eq!("9.9.9.9", ip.to_string());
    }
}

#[test]
fn ip_parse_ignores_what_follows_a_space() {
    let mut ip = IpDataType::IPv4([0, 0, 0, 0]);
    ip.parse("192.168.3.1 timeout 10").unwrap();
    assert_eq!("192.168.3.1", ip.to_string());
}

#[test]
fn ipv6_text_forms() {
    let mut ip = IpDataType::IPv4([0, 0, 0, 0]);
    ip.parse("2001:db8::1").unwrap();
    assert!(matches!(ip, IpDataType::IPv6(_)));
    assert_eq!("2001:db8::1", ip.to_string());
    ip.parse("::").unwrap();
    assert_eq!("::", ip.to_string());
    ip.parse("::1").unwrap();
    assert_eq!("::1", ip.to_string());
    ip.parse("fe80:0:0:0:1:0:0:0").unwrap();
    assert_eq!("fe80::1:0:0:0", ip.to_string());
    ip.parse("1:0:1:0:1:0:1:0").unwrap();
    assert_eq!("1:0:1:0:1:0:1:0", ip.to_string());
    ip.parse("ABCD:EF01:2345:6789:abcd:ef01:2345:6789").unwrap();
    assert_eq!("abcd:ef01:2345:6789:abcd:ef01:2345:6789", ip.to_string());
    let bytes = [0x20, 0x01, 0x0d, 0xb8, 0, 0, 0, 0, 0, 0, 0, 0, 0, 0, 0, 1];
    assert_eq!("2001:db8::1", IpDataType::IPv6(bytes).to_string());
}

#[test]
fn ipv6_rejects_malformed_text() {
    for text in ["1::2::3", ":1:2:3:4:5:6:7", "1:2:3:4:5:6:7", "1:2:3:4:5:6:7:8:9", "12345::", "g::"] {
        let mut ip = IpDataType::IPv4([1, 1, 1, 1]);
        assert!(matches!(ip.parse(text), Err(Error::AddrParse)), "{}", text);
    }
}

#[test]
fn net_without_prefix_takes_32() {
    let mut net = NetDataType::new(IpDataType::IPv4([0, 0, 0, 0]), 0);
    net.parse("10.1.2.3").unwrap();
    assert_eq!(32, net.cidr());
    assert_eq!("10.1.2.3/32", net.to_string());
    assert!(matches!(net.parse("10.1.2.3/300"), Err(Error::ParseInt)));
    assert!(matches!(net.parse("10.1.2/8"), Err(Error::AddrParse)));
    assert_eq!("10.1.2.3/32", net.to_string());
}

#[test]
fn mac_parse_needs_six_octets() {
    let mut mac: MacDataType = [0u8; 6].into();
    assert!(matches!(mac.parse("00:11:22:33:44"), Err(Error::DataParse(_))));
    assert!(matches!(mac.parse("00:11:22:33:44:55:66"), Err(Error::DataParse(_))));
    assert!(matches!(mac.parse("7c:zz:18:20:81:54:df"), Err(Error::DataParse(_))));
    assert!(matches!(mac.parse("7c::18:20:81:54"), Err(Error::DataParse(_))));
    assert_eq!("00:00:00:00:00:00", mac.to_string());
    mac.parse("AA:BB:CC:DD:EE:FF").unwrap();
    assert_eq!("aa:bb:cc:dd:ee:ff", mac.to_string());
    assert_eq!([0xaa, 0xbb, 0xcc, 0xdd, 0xee, 0xff], mac.octets());
}

#[test]
fn numbers_reject_overflow_and_junk() {
    let mut port: PortDataType = 1u16.into();
    assert!(matches!(port.parse("65536"), Err(Error::ParseInt)));
    assert!(matches!(port.parse(""), Err(Error::ParseInt)));
    assert!(matches!(port.parse("12a"), Err(Error::ParseInt)));
    port.parse("+80").unwrap();
    assert_eq!("80", port.to_string());
    assert!(matches!(port.parse("+"), Err(Error::ParseInt)));
    port.parse("65535").unwrap();
    assert_eq!("65535", port.to_string());
    let mut mark: MarkDataType = 1u32.into();
    assert!(matches!(mark.parse("4294967296"), Err(Error::ParseInt)));
    mark.parse("4294967295").unwrap();
    assert_eq!("4294967295", mark.to_string());
}

#[test]
fn names_refuse_nul_and_empty() {
    assert!(matches!(IfaceDataType::new("a\0b"), Err(Error::Nul)));
    assert!(matches!(IfaceDataType::new(""), Err(Error::DataParse(_))));
    assert!(matches!(SetDataType::new("x\0"), Err(Error::Nul)));
    let mut iface = IfaceDataType::new("eth0").unwrap();
    assert!(matches!(iface.parse(""), Err(Error::DataParse(_))));
    assert_eq!("eth0", iface.to_string());
}

#[test]
fn element_needs_every_field() {
    let kinds = vec![DataKind::Net, DataKind::Iface];
    assert!(matches!(Element::parse(&kinds, "10.0.0.0/8"), Err(Error::InvalidOutput(_))));
    let e = Element::parse(&kinds, "10.0.0.0/8,eth0,extra").unwrap();
    assert_eq!("10.0.0.0/8,eth0", e.to_string());
    let single = vec![DataKind::Mark];
    let m = Element::parse(&single, "77").unwrap();
    assert_eq!("77", m.to_string());
    assert!(matches!(parse_field(DataKind::Port, "x"), Err(Error::ParseInt)));
    assert!(matches!(parse_field(DataKind::SetName, "s"), Ok(DataValue::SetName(_))));
}

#[test]
fn ipv6_with_ipv4_tail() {
    let mut ip = IpDataType::IPv4([0, 0, 0, 0]);
    ip.parse("::ffff:192.0.2.1").unwrap();
    assert!(matches!(ip, IpDataType::IPv6(_)));
    assert_eq!("::ffff:192.0.2.1", ip.to_string());
    ip.parse("::1.2.3.4").unwrap();
    assert_eq!("::102:304", ip.to_string());
    ip.parse("1:2:3:4:5:6:1.2.3.4").unwrap();
    assert_eq!("1:2:3:4:5:6:102:304", ip.to_string());
    for text in ["1.2.3.4::", "::1.2.3", "1:2:3:4:5:6:7:1.2.3.4", "::ffff:1.2.3.4:5"] {
        assert!(matches!(ip.parse(text), Err(Error::AddrParse)), "{}", text);
    }
}
