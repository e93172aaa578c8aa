//! The supported set types, one type each, for sessions bound to a set type.
use vstd::prelude::*;

use crate::settype::{join_names, kind_typename, SetKind, SetType};

verus! {

/// The bitmap:ip set type stores IPv4 host or network addresses in a memory range, up to 65536 entries.
pub struct BitmapIp;

impl SetType for BitmapIp {
    open spec fn spec_kind() -> SetKind {
        SetKind::BitmapIp
    }

    fn kind() -> (r: SetKind) {
        SetKind::BitmapIp
    }
}

/// The bitmap:ip,mac set type stores IPv4 and MAC address pairs in a memory range, up to 65536 entries.
pub struct BitmapIpMac;

impl SetType for BitmapIpMac {
    open spec fn spec_kind() -> SetKind {
        SetKind::BitmapIpMac
    }

    fn kind() -> (r: SetKind) {
        SetKind::BitmapIpMac
    }
}

/// The bitmap:port set type stores port numbers in a memory range, up to 65536 ports.
pub struct BitmapPort;

impl SetType for BitmapPort {
    open spec fn spec_kind() -> SetKind {
        SetKind::BitmapPort
    }

    fn kind() -> (r: SetKind) {
        SetKind::BitmapPort
    }
}

/// The hash:ip set type stores IP host addresses (or network addresses) in a hash; a zero address cannot be stored.
pub struct HashIp;

impl SetType for HashIp {
    open spec fn spec_kind() -> SetKind {
        SetKind::HashIp
    }

    fn kind() -> (r: SetKind) {
        SetKind::HashIp
    }
}

/// The hash:mac set type stores MAC addresses in a hash; a zero MAC address cannot be stored.
pub struct HashMac;

impl SetType for HashMac {
    open spec fn spec_kind() -> SetKind {
        SetKind::HashMac
    }

    fn kind() -> (r: SetKind) {
        SetKind::HashMac
    }
}

/// The hash:ip,mac set type stores IP and MAC address pairs in a hash.
pub struct HashIpMac;

impl SetType for HashIpMac {
    open spec fn spec_kind() -> SetKind {
        SetKind::HashIpMac
    }

    fn kind() -> (r: SetKind) {
        SetKind::HashIpMac
    }
}

/// The hash:net set type stores IP networks of different sizes in a hash; a zero prefix cannot be stored.
pub struct HashNet;

impl SetType for HashNet {
    open spec fn spec_kind() -> SetKind {
        SetKind::HashNet
    }

    fn kind() -> (r: SetKind) {
        SetKind::HashNet
    }
}

/// The hash:net,net set type stores pairs of IP networks in a hash; the first has precedence over the second.
pub struct HashNetNet;

impl SetType for HashNetNet {
    open spec fn spec_kind() -> SetKind {
        SetKind::HashNetNet
    }

    fn kind() -> (r: SetKind) {
        SetKind::HashNetNet
    }
}

/// The hash:ip,port set type stores IP address and port pairs in a hash; the port goes with a protocol (TCP by default).
pub struct HashIpPort;

impl SetType for HashIpPort {
    open spec fn spec_kind() -> SetKind {
        SetKind::HashIpPort
    }

    fn kind() -> (r: SetKind) {
        SetKind::HashIpPort
    }
}

/// The hash:net,port set type stores IP network and port pairs in a hash.
pub struct HashNetPort;

impl SetType for HashNetPort {
    open spec fn spec_kind() -> SetKind {
        SetKind::HashNetPort
    }

    fn kind() -> (r: SetKind) {
        SetKind::HashNetPort
    }
}

/// The hash:ip,port,ip set type stores IP address, port and second IP address triples in a hash.
pub struct HashIpPortIp;

impl SetType for HashIpPortIp {
    open spec fn spec_kind() -> SetKind {
        SetKind::HashIpPortIp
    }

    fn kind() -> (r: SetKind) {
        SetKind::HashIpPortIp
    }
}

/// The hash:ip,port,net set type stores IP address, port and IP network triples in a hash.
pub struct HashIpPortNet;

impl SetType for HashIpPortNet {
    open spec fn spec_kind() -> SetKind {
        SetKind::HashIpPortNet
    }

    fn kind() -> (r: SetKind) {
        SetKind::HashIpPortNet
    }
}

/// The hash:ip,mark set type stores IP address and packet mark pairs in a hash.
pub struct HashIpMark;

impl SetType for HashIpMark {
    open spec fn spec_kind() -> SetKind {
        SetKind::HashIpMark
    }

    fn kind() -> (r: SetKind) {
        SetKind::HashIpMark
    }
}

/// The hash:net,port,net set type is hash:ip,port,net with a prefix on both the first and the last field.
pub struct HashNetPortNet;

impl SetType for HashNetPortNet {
    open spec fn spec_kind() -> SetKind {
        SetKind::HashNetPortNet
    }

    fn kind() -> (r: SetKind) {
        SetKind::HashNetPortNet
    }
}

/// The hash:net,iface set type stores IP network and interface name pairs in a hash.
pub struct HashNetIface;

impl SetType for HashNetIface {
    open spec fn spec_kind() -> SetKind {
        SetKind::HashNetIface
    }

    fn kind() -> (r: SetKind) {
        SetKind::HashNetIface
    }
}

/// The list:set set type stores set names in a simple list.
pub struct ListSet;

impl SetType for ListSet {
    open spec fn spec_kind() -> SetKind {
        SetKind::ListSet
    }

    fn kind() -> (r: SetKind) {
        SetKind::ListSet
    }
}

/// The identifier that the native library documents for each set type.
pub open spec fn documented_identifier(k: SetKind) -> Seq<char> {
    match k {
        SetKind::BitmapIp => "bitmap:ip"@,
        SetKind::BitmapIpMac => "bitmap:ip,mac"@,
        SetKind::BitmapPort => "bitmap:port"@,
        SetKind::HashIp => "hash:ip"@,
        SetKind::HashMac => "hash:mac"@,
        SetKind::HashIpMac => "hash:ip,mac"@,
        SetKind::HashNet => "hash:net"@,
        SetKind::HashNetNet => "hash:net,net"@,
        SetKind::HashIpPort => "hash:ip,port"@,
        SetKind::HashNetPort => "hash:net,port"@,
        SetKind::HashIpPortIp => "hash:ip,port,ip"@,
        SetKind::HashIpPortNet => "hash:ip,port,net"@,
        SetKind::HashIpMark => "hash:ip,mark"@,
        SetKind::HashNetPortNet => "hash:net,port,net"@,
        SetKind::HashNetIface => "hash:net,iface"@,
        SetKind::ListSet => "list:set"@,
    }
}

/// The identifier built from a set type's method and data kinds is the one
/// that the native library documents for it, for every supported set type.
pub proof fn lemma_identifier_is_documented(k: SetKind)
    ensures
        kind_typename(k) == documented_identifier(k),
{
    reveal_with_fuel(join_names, 4);
    match k {
        SetKind::BitmapIp => {
            reveal_strlit("bitmap:ip");
            assert(kind_typename(k) =~= documented_identifier(k));
        },
        SetKind::BitmapIpMac => {
            reveal_strlit("bitmap:ip,mac");
            assert(kind_typename(k) =~= documented_identifier(k));
        },
        SetKind::BitmapPort => {
            reveal_strlit("bitmap:port");
            assert(kind_typename(k) =~= documented_identifier(k));
        },
        SetKind::HashIp => {
            reveal_strlit("hash:ip");
            assert(kind_typename(k) =~= documented_identifier(k));
        },
        SetKind::HashMac => {
            reveal_strlit("hash:mac");
            assert(kind_typename(k) =~= documented_identifier(k));
        },
        SetKind::HashIpMac => {
            reveal_strlit("hash:ip,mac");
            assert(kind_typename(k) =~= documented_identifier(k));
        },
        SetKind::HashNet => {
            reveal_strlit("hash:net");
            assert(kind_typename(k) =~= documented_identifier(k));
        },
        SetKind::HashNetNet => {
            reveal_strlit("hash:net,net");
            assert(kind_typename(k) =~= documented_identifier(k));
        },
        SetKind::HashIpPort => {
            reveal_strlit("hash:ip,port");
            assert(kind_typename(k) =~= documented_identifier(k));
        },
        SetKind::HashNetPort => {
            reveal_strlit("hash:net,port");
            assert(kind_typename(k) =~= documented_identifier(k));
        },
        SetKind::HashIpPortIp => {
            reveal_strlit("hash:ip,port,ip");
            assert(kind_typename(k) =~= documented_identifier(k));
        },
        SetKind::HashIpPortNet => {
            reveal_strlit("hash:ip,port,net");
            assert(kind_typename(k) =~= documented_identifier(k));
        },
        SetKind::HashIpMark => {
            reveal_strlit("hash:ip,mark");
            assert(kind_typename(k) =~= documented_identifier(k));
        },
        SetKind::HashNetPortNet => {
            reveal_strlit("hash:net,port,net");
            assert(kind_typename(k) =~= documented_identifier(k));
        },
        SetKind::HashNetIface => {
            reveal_strlit("hash:net,iface");
            assert(kind_typename(k) =~= documented_identifier(k));
        },
        SetKind::ListSet => {
            reveal_strlit("list:set");
            assert(kind_typename(k) =~= documented_identifier(k));
        },
    }
}

} // verus!
