//! The values that a set stores: addresses, networks, MAC addresses, ports,
//! interface names, marks and set names, with their text forms.
use vstd::prelude::*;

use crate::error::Error;
use crate::ipv6::{ipv6_parse, ipv6_text, lemma_ipv6_round_trip, parse_ipv6, render_ipv6};
use crate::text::{
    lemma_dec_round_trip, lemma_uint_round_trip, lemma_dec_text_digits, lemma_dec_text_of_value, lemma_digit_char,
    lemma_hex2_round_trip, lemma_hex_char, lemma_join_split, lemma_split_append,
    lemma_split_nosep, join_spec, is_hex_digit, all_digits, digit_char, chars_of, dec_chars, dec_text, dec_value, extend_chars, hex2_chars,
    hex2_text, hex_parse, parse_dec, parse_uhex, parse_uint, uhex_parse, uint_parse, split_chars, split_spec, string_of,
};

verus! {

/// Whether `p` is a decimal octet as an IPv4 address writes it: one to three
/// digits, at most 255, no leading zero.
pub open spec fn octet_ok(p: Seq<char>) -> bool {
    &&& 1 <= p.len() <= 3
    &&& all_digits(p)
    &&& dec_value(p) <= 255
    &&& (p.len() == 1 || p[0] != '0')
}

/// The dotted-quad text of an IPv4 address.
pub open spec fn ipv4_text(a: Seq<u8>) -> Seq<char> {
    dec_text(a[0] as nat) + seq!['.'] + dec_text(a[1] as nat) + seq!['.'] + dec_text(
        a[2] as nat,
    ) + seq!['.'] + dec_text(a[3] as nat)
}

/// What reading `s` as an IPv4 address gives.
pub open spec fn ipv4_parse(s: Seq<char>) -> Option<Seq<u8>> {
    let p = split_spec(s, '.');
    if p.len() == 4 && octet_ok(p[0]) && octet_ok(p[1]) && octet_ok(p[2]) && octet_ok(p[3]) {
        Some(
            seq![
                dec_value(p[0]) as u8,
                dec_value(p[1]) as u8,
                dec_value(p[2]) as u8,
                dec_value(p[3]) as u8,
            ],
        )
    } else {
        None
    }
}

/// An IPv4 or IPv6 address, as its bytes in network order.
#[derive(Clone, Copy, Debug)]
pub enum IpDataType {
    IPv4([u8; 4]),
    IPv6([u8; 16]),
}

/// The text of an address: dotted quad for IPv4, the shortest form for IPv6.
pub open spec fn ip_text(ip: IpDataType) -> Seq<char> {
    match ip {
        IpDataType::IPv4(a) => ipv4_text(a@),
        IpDataType::IPv6(b) => ipv6_text(b@),
    }
}

/// Whether `s` is the text of some address.
pub open spec fn ip_text_ok(s: Seq<char>) -> bool {
    ipv4_parse(s) is Some || ipv6_parse(s) is Some
}

/// Whether reading `s` as an address gives `ip`: IPv4 is tried first.
pub open spec fn ip_parses_to(s: Seq<char>, ip: IpDataType) -> bool {
    match ip {
        IpDataType::IPv4(a) => ipv4_parse(s) == Some(a@),
        IpDataType::IPv6(b) => ipv4_parse(s) is None && ipv6_parse(s) == Some(b@),
    }
}

/// The part of `s` before its first space.
pub open spec fn first_field(s: Seq<char>) -> Seq<char> {
    split_spec(s, ' ')[0]
}

/// Reads one decimal octet of an IPv4 address.
fn parse_octet(p: &Vec<char>) -> (r: Option<u8>)
    ensures
        r matches Some(v) ==> octet_ok(p@) && v as nat == dec_value(p@),
        r is None ==> !octet_ok(p@),
{
    if p.len() == 0 || p.len() > 3 {
        return None;
    }
    if p.len() > 1 && p[0] == '0' {
        return None;
    }
    match parse_dec(p, 255) {
        Some(v) => Some(v as u8),
        None => None,
    }
}

/// Reads an IPv4 address.
pub fn parse_ipv4(s: &Vec<char>) -> (r: Option<[u8; 4]>)
    ensures
        r matches Some(a) ==> ipv4_parse(s@) == Some(a@),
        r is None ==> ipv4_parse(s@) is None,
{
    let p = split_chars(s, '.');
    if p.len() != 4 {
        return None;
    }
    let o0 = parse_octet(&p[0]);
    let o1 = parse_octet(&p[1]);
    let o2 = parse_octet(&p[2]);
    let o3 = parse_octet(&p[3]);
    assert(p@[0]@ == split_spec(s@, '.')[0]);
    assert(p@[1]@ == split_spec(s@, '.')[1]);
    assert(p@[2]@ == split_spec(s@, '.')[2]);
    assert(p@[3]@ == split_spec(s@, '.')[3]);
    match (o0, o1, o2, o3) {
        (Some(a), Some(b), Some(c), Some(d)) => {
            let r = [a, b, c, d];
            assert(r@ =~= ipv4_parse(s@)->Some_0);
            Some(r)
        },
        _ => None,
    }
}

/// The dotted-quad text of an IPv4 address.
pub fn render_ipv4(a: &[u8; 4]) -> (r: Vec<char>)
    ensures
        r@ == ipv4_text(a@),
{
    let mut r = dec_chars(a[0] as u64);
    r.push('.');
    let t1 = dec_chars(a[1] as u64);
    extend_chars(&mut r, &t1);
    r.push('.');
    let t2 = dec_chars(a[2] as u64);
    extend_chars(&mut r, &t2);
    r.push('.');
    let t3 = dec_chars(a[3] as u64);
    extend_chars(&mut r, &t3);
    r
}

/// Reads an address: IPv4 first, then IPv6.
pub fn parse_ip(s: &Vec<char>) -> (r: Result<IpDataType, Error>)
    ensures
        r matches Ok(ip) ==> ip_parses_to(s@, ip),
        r is Err ==> !ip_text_ok(s@) && r matches Err(Error::AddrParse),
{
    match parse_ipv4(s) {
        Some(a) => Ok(IpDataType::IPv4(a)),
        None => match parse_ipv6(s) {
            Some(b) => Ok(IpDataType::IPv6(b)),
            None => Err(Error::AddrParse),
        },
    }
}

impl IpDataType {
    /// The text of the address.
    pub fn to_string(&self) -> (r: String)
        ensures
            r@ == ip_text(*self),
    {
        let v = match self {
            IpDataType::IPv4(a) => render_ipv4(a),
            IpDataType::IPv6(b) => render_ipv6(b),
        };
        string_of(&v)
    }

    /// Reads the address that starts `s`; what follows a space is ignored.
    pub fn parse(&mut self, s: &str) -> (r: Result<(), Error>)
        ensures
            r is Ok ==> ip_parses_to(first_field(s@), *final(self)),
            r is Err ==> !ip_text_ok(first_field(s@)) && *final(self) == *old(self)
                && r matches Err(Error::AddrParse),
    {
        let cs = chars_of(s);
        let fields = split_chars(&cs, ' ');
        assert(fields@[0]@ == first_field(s@));
        let ip = parse_ip(&fields[0])?;
        *self = ip;
        Ok(())
    }
}

/// A network: an address and a prefix length.
#[derive(Clone, Copy, Debug)]
pub struct NetDataType {
    pub ip: IpDataType,
    pub cidr: u8,
}

/// The `addr/prefix` text of a network.
pub open spec fn net_text(n: NetDataType) -> Seq<char> {
    ip_text(n.ip) + seq!['/'] + dec_text(n.cidr as nat)
}

/// Whether reading `s` as a network succeeds: an address, then optionally
/// `/` and a prefix length that fits a byte.
pub open spec fn net_text_ok(s: Seq<char>) -> bool {
    let p = split_spec(s, '/');
    ip_text_ok(p[0]) && (p.len() > 1 ==> uint_parse(p[1], 255) is Some)
}

/// Whether reading `s` as a network gives `n`; without a prefix length, 32
/// is taken. Pieces after a second `/` are ignored.
pub open spec fn net_parses_to(s: Seq<char>, n: NetDataType) -> bool {
    let p = split_spec(s, '/');
    &&& ip_parses_to(p[0], n.ip)
    &&& n.cidr as nat == (if p.len() > 1 {
        uint_parse(p[1], 255)->Some_0
    } else {
        32
    })
    &&& net_text_ok(s)
}

impl NetDataType {
    /// A network of the given address and prefix length.
    pub fn new(ip: IpDataType, cidr: u8) -> (r: Self)
        ensures
            r.ip == ip,
            r.cidr == cidr,
    {
        NetDataType { ip, cidr }
    }

    /// The address of the network.
    pub fn ip(&self) -> (r: IpDataType)
        ensures
            r == self.ip,
    {
        self.ip
    }

    /// The prefix length of the network.
    pub fn cidr(&self) -> (r: u8)
        ensures
            r == self.cidr,
    {
        self.cidr
    }

    pub open spec fn spec_ip(&self) -> IpDataType {
        self.ip
    }

    pub open spec fn spec_cidr(&self) -> u8 {
        self.cidr
    }

    /// The `addr/prefix` text of the network.
    pub fn to_string(&self) -> (r: String)
        ensures
            r@ == net_text(*self),
    {
        let mut v = match &self.ip {
            IpDataType::IPv4(a) => render_ipv4(a),
            IpDataType::IPv6(b) => render_ipv6(b),
        };
        v.push('/');
        let c = dec_chars(self.cidr as u64);
        extend_chars(&mut v, &c);
        string_of(&v)
    }

    /// Reads a network from `s`.
    pub fn parse(&mut self, s: &str) -> (r: Result<(), Error>)
        ensures
            r is Ok ==> net_parses_to(s@, *final(self)),
            r is Err ==> !net_text_ok(s@) && *final(self) == *old(self),
            r matches Err(e) ==> (if ip_text_ok(split_spec(s@, '/')[0]) {
                e is ParseInt
            } else {
                e is AddrParse
            }),
    {
        let cs = chars_of(s);
        let p = split_chars(&cs, '/');
        assert(p@[0]@ == split_spec(s@, '/')[0]);
        let ip = parse_ip(&p[0])?;
        let cidr: u8;
        if p.len() > 1 {
            assert(p@[1]@ == split_spec(s@, '/')[1]);
            match parse_uint(&p[1], 255) {
                Some(c) => {
                    cidr = c as u8;
                },
                None => {
                    return Err(Error::ParseInt);
                },
            }
        } else {
            cidr = 32;
        }
        *self = NetDataType { ip, cidr };
        Ok(())
    }
}

/// A MAC address.
#[derive(Clone, Copy, Debug)]
pub struct MacDataType {
    pub mac: [u8; 6],
}

/// The six colon-separated lowercase hexadecimal octets of a MAC address.
pub open spec fn mac_text(m: Seq<u8>) -> Seq<char> {
    hex2_text(m[0] as nat) + seq![':'] + hex2_text(m[1] as nat) + seq![':'] + hex2_text(
        m[2] as nat,
    ) + seq![':'] + hex2_text(m[3] as nat) + seq![':'] + hex2_text(m[4] as nat) + seq![':']
        + hex2_text(m[5] as nat)
}

/// What reading `s` as a MAC address gives: present only when `s` is
/// exactly six `:`-separated pieces, each a hexadecimal byte.
pub open spec fn mac_parse(s: Seq<char>) -> Option<Seq<u8>> {
    let p = split_spec(s, ':');
    if p.len() == 6 && forall|k: int| 0 <= k < 6 ==> (#[trigger] uhex_parse(p[k], 255)) is Some {
        Some(Seq::new(6, |k: int| uhex_parse(p[k], 255)->Some_0 as u8))
    } else {
        None
    }
}

impl MacDataType {
    pub open spec fn spec_mac(&self) -> Seq<u8> {
        self.mac@
    }

    /// The bytes of the address.
    pub fn octets(&self) -> (r: [u8; 6])
        ensures
            r@ == self.mac@,
    {
        self.mac
    }

    /// The text of the address.
    pub fn to_string(&self) -> (r: String)
        ensures
            r@ == mac_text(self.mac@),
    {
        let mut v = hex2_chars(self.mac[0]);
        let mut i: usize = 1;
        while i < 6
            invariant
                1 <= i <= 6,
                v@ == mac_prefix_text(self.mac@, i as nat),
            decreases 6 - i,
        {
            v.push(':');
            let h = hex2_chars(self.mac[i]);
            extend_chars(&mut v, &h);
            i = i + 1;
        }
        assert(mac_prefix_text(self.mac@, 6) == mac_text(self.mac@)) by {
            reveal_with_fuel(mac_prefix_text, 7);
        }
        string_of(&v)
    }

    /// Reads a MAC address from `s`.
    pub fn parse(&mut self, s: &str) -> (r: Result<(), Error>)
        ensures
            r is Ok ==> mac_parse(s@) == Some(final(self).mac@),
            r is Err ==> mac_parse(s@) is None && *final(self) == *old(self)
                && r matches Err(Error::DataParse(_)),
    {
        let cs = chars_of(s);
        let p = split_chars(&cs, ':');
        let ghost ps = split_spec(s@, ':');
        if p.len() != 6 {
            return Err(Error::DataParse(string_of(&cs)));
        }
        let mut o: Vec<u8> = Vec::new();
        let mut i: usize = 0;
        while i < 6
            invariant
                i <= 6,
                ps == split_spec(s@, ':'),
                p@.len() == ps.len() == 6,
                forall|k: int| 0 <= k < p@.len() ==> #[trigger] p@[k]@ == ps[k],
                o@.len() == i,
                forall|k: int|
                    0 <= k < i ==> (#[trigger] uhex_parse(ps[k], 255)) is Some && o@[k] as nat
                        == uhex_parse(ps[k], 255)->Some_0,
            decreases 6 - i,
        {
            assert(p@[i as int]@ == ps[i as int]);
            match parse_uhex(&p[i], 255) {
                Some(v) => {
                    o.push(v as u8);
                },
                None => {
                    return Err(Error::DataParse(string_of(&cs)));
                },
            }
            i = i + 1;
        }
        let m = [o[0], o[1], o[2], o[3], o[4], o[5]];
        assert(m@ =~= mac_parse(s@)->Some_0);
        self.mac = m;
        Ok(())
    }
}

/// The text of the first `n` octets of a MAC address.
pub open spec fn mac_prefix_text(m: Seq<u8>, n: nat) -> Seq<char>
    decreases n,
{
    if n <= 1 {
        hex2_text(m[0] as nat)
    } else {
        mac_prefix_text(m, (n - 1) as nat) + seq![':'] + hex2_text(m[n - 1] as nat)
    }
}

impl From<[u8; 6]> for MacDataType {
    fn from(mac: [u8; 6]) -> (r: Self) {
        MacDataType { mac }
    }
}

impl vstd::std_specs::convert::FromSpecImpl<[u8; 6]> for MacDataType {
    open spec fn obeys_from_spec() -> bool {
        true
    }

    open spec fn from_spec(mac: [u8; 6]) -> Self {
        MacDataType { mac }
    }
}

/// A port number.
#[derive(Clone, Copy, Debug, PartialEq, Eq, Structural)]
pub struct PortDataType {
    pub port: u16,
}

impl PortDataType {
    /// The decimal text of the port.
    pub fn to_string(&self) -> (r: String)
        ensures
            r@ == dec_text(self.port as nat),
    {
        string_of(&dec_chars(self.port as u64))
    }

    /// Reads a port from decimal text.
    pub fn parse(&mut self, s: &str) -> (r: Result<(), Error>)
        ensures
            r is Ok ==> uint_parse(s@, 65535) == Some(final(self).port as nat),
            r is Err ==> uint_parse(s@, 65535) is None && *final(self) == *old(self)
                && r matches Err(Error::ParseInt),
    {
        let cs = chars_of(s);
        match parse_uint(&cs, 65535) {
            Some(v) => {
                self.port = v as u16;
                Ok(())
            },
            None => Err(Error::ParseInt),
        }
    }
}

impl From<u16> for PortDataType {
    fn from(port: u16) -> (r: Self) {
        PortDataType { port }
    }
}

impl vstd::std_specs::convert::FromSpecImpl<u16> for PortDataType {
    open spec fn obeys_from_spec() -> bool {
        true
    }

    open spec fn from_spec(port: u16) -> Self {
        PortDataType { port }
    }
}

/// A firewall mark.
#[derive(Clone, Copy, Debug, PartialEq, Eq, Structural)]
pub struct MarkDataType {
    pub mark: u32,
}

impl MarkDataType {
    /// The decimal text of the mark.
    pub fn to_string(&self) -> (r: String)
        ensures
            r@ == dec_text(self.mark as nat),
    {
        string_of(&dec_chars(self.mark as u64))
    }

    /// Reads a mark from decimal text.
    pub fn parse(&mut self, s: &str) -> (r: Result<(), Error>)
        ensures
            r is Ok ==> uint_parse(s@, 0xffff_ffff) == Some(final(self).mark as nat),
            r is Err ==> uint_parse(s@, 0xffff_ffff) is None && *final(self) == *old(self)
                && r matches Err(Error::ParseInt),
    {
        let cs = chars_of(s);
        match parse_uint(&cs, 0xffff_ffff) {
            Some(v) => {
                self.mark = v as u32;
                Ok(())
            },
            None => Err(Error::ParseInt),
        }
    }
}

impl From<u32> for MarkDataType {
    fn from(mark: u32) -> (r: Self) {
        MarkDataType { mark }
    }
}

impl vstd::std_specs::convert::FromSpecImpl<u32> for MarkDataType {
    open spec fn obeys_from_spec() -> bool {
        true
    }

    open spec fn from_spec(mark: u32) -> Self {
        MarkDataType { mark }
    }
}

/// Whether `s` can stand as a native name: not empty, no NUL.
pub open spec fn name_ok(s: Seq<char>) -> bool {
    s.len() > 0 && !s.contains('\0')
}

/// Checks that text holds no NUL, as a C string must: `Nul` when it does.
pub fn check_nul(s: &Vec<char>) -> (r: Result<(), Error>)
    ensures
        r is Ok == !s@.contains('\0'),
        r matches Err(e) ==> e is Nul,
{
    let mut i: usize = 0;
    while i < s.len()
        invariant
            i <= s.len(),
            forall|j: int| 0 <= j < i ==> s@[j] != '\0',
        decreases s.len() - i,
    {
        if s[i] == '\0' {
            return Err(Error::Nul);
        }
        i = i + 1;
    }
    Ok(())
}

/// Checks a name for the native library: `Nul` when it holds a NUL,
/// `DataParse` when it is empty.
pub fn check_name(s: &Vec<char>) -> (r: Result<(), Error>)
    ensures
        r is Ok == name_ok(s@),
        r matches Err(e) ==> (s@.contains('\0') ==> e is Nul) && (!s@.contains('\0') ==> e is DataParse),
{
    check_nul(s)?;
    if s.len() == 0 {
        return Err(Error::DataParse(String::new()));
    }
    Ok(())
}

/// An interface name.
#[derive(Clone, Debug)]
pub struct IfaceDataType {
    name: String,
}

impl IfaceDataType {
    pub closed spec fn spec_name(&self) -> Seq<char> {
        self.name@
    }

    /// An interface of the given name.
    pub fn new(name: &str) -> (r: Result<Self, Error>)
        ensures
            r is Ok == name_ok(name@),
            r matches Ok(v) ==> v.spec_name() == name@,
            r matches Err(e) ==> (if name@.contains('\0') {
                e is Nul
            } else {
                e is DataParse
            }),
    {
        let cs = chars_of(name);
        check_name(&cs)?;
        Ok(IfaceDataType { name: string_of(&cs) })
    }

    /// The name.
    pub fn to_string(&self) -> (r: String)
        ensures
            r@ == self.spec_name(),
    {
        self.name.clone()
    }

    /// Takes `s` as the name.
    pub fn parse(&mut self, s: &str) -> (r: Result<(), Error>)
        ensures
            r is Ok == name_ok(s@),
            r is Ok ==> final(self).spec_name() == s@,
            r matches Err(e) ==> (if s@.contains('\0') {
                e is Nul
            } else {
                e is DataParse
            }),
            r is Err ==> final(self).spec_name() == old(self).spec_name(),
    {
        let v = IfaceDataType::new(s)?;
        *self = v;
        Ok(())
    }
}

/// The name of a set, as a list-of-sets set stores it.
#[derive(Clone, Debug)]
pub struct SetDataType {
    name: String,
}

impl SetDataType {
    pub closed spec fn spec_name(&self) -> Seq<char> {
        self.name@
    }

    /// A set name.
    pub fn new(name: &str) -> (r: Result<Self, Error>)
        ensures
            r is Ok == name_ok(name@),
            r matches Ok(v) ==> v.spec_name() == name@,
            r matches Err(e) ==> (if name@.contains('\0') {
                e is Nul
            } else {
                e is DataParse
            }),
    {
        let cs = chars_of(name);
        check_name(&cs)?;
        Ok(SetDataType { name: string_of(&cs) })
    }

    /// The name.
    pub fn to_string(&self) -> (r: String)
        ensures
            r@ == self.spec_name(),
    {
        self.name.clone()
    }

    /// Takes `s` as the name.
    pub fn parse(&mut self, s: &str) -> (r: Result<(), Error>)
        ensures
            r is Ok == name_ok(s@),
            r is Ok ==> final(self).spec_name() == s@,
            r matches Err(e) ==> (if s@.contains('\0') {
                e is Nul
            } else {
                e is DataParse
            }),
            r is Err ==> final(self).spec_name() == old(self).spec_name(),
    {
        let v = SetDataType::new(s)?;
        *self = v;
        Ok(())
    }
}

/// Neither of two texts holds `c`, so their concatenation does not.
pub proof fn lemma_concat_lacks(x: Seq<char>, y: Seq<char>, c: char)
    requires
        !x.contains(c),
        !y.contains(c),
    ensures
        !(x + y).contains(c),
{
    if (x + y).contains(c) {
        let i = choose|i: int| 0 <= i < (x + y).len() && (x + y)[i] == c;
        if i < x.len() {
            assert(x[i] == c);
        } else {
            assert(y[i - x.len()] == c);
        }
    }
}

/// The decimal text of a byte is a well-formed octet that reads back as the
/// byte.
proof fn lemma_octet_text(n: nat)
    requires
        n <= 255,
    ensures
        octet_ok(dec_text(n)),
        dec_value(dec_text(n)) == n,
        !dec_text(n).contains('.'),
        !dec_text(n).contains('/'),
        !dec_text(n).contains(' '),
        !dec_text(n).contains(':'),
{
    lemma_dec_round_trip(n);
    lemma_dec_text_digits(n, '.');
    lemma_dec_text_digits(n, '/');
    lemma_dec_text_digits(n, ' ');
    lemma_dec_text_digits(n, ':');
    if n >= 10 && n < 100 {
        lemma_digit_char(n / 10);
        assert(dec_text(n / 10) == seq![digit_char(n / 10)]);
        assert(dec_text(n)[0] == digit_char(n / 10));
    } else if n >= 100 {
        lemma_digit_char(n / 10 / 10);
        assert(dec_text(n / 10 / 10) == seq![digit_char(n / 10 / 10)]);
        assert(dec_text(n / 10)[0] == digit_char(n / 10 / 10));
        assert(dec_text(n)[0] == digit_char(n / 10 / 10));
    }
}

/// An IPv4 address reads back from its text.
pub proof fn lemma_ipv4_round_trip(a: Seq<u8>)
    requires
        a.len() == 4,
    ensures
        ipv4_parse(ipv4_text(a)) == Some(a),
        !ipv4_text(a).contains(' '),
        !ipv4_text(a).contains('/'),
        !ipv4_text(a).contains(':'),
{
    let d0 = dec_text(a[0] as nat);
    let d1 = dec_text(a[1] as nat);
    let d2 = dec_text(a[2] as nat);
    let d3 = dec_text(a[3] as nat);
    lemma_octet_text(a[0] as nat);
    lemma_octet_text(a[1] as nat);
    lemma_octet_text(a[2] as nat);
    lemma_octet_text(a[3] as nat);
    lemma_split_nosep(d0, '.');
    lemma_split_append(d0, d1, '.');
    lemma_split_append(d0 + seq!['.'] + d1, d2, '.');
    lemma_split_append(d0 + seq!['.'] + d1 + seq!['.'] + d2, d3, '.');
    let p = split_spec(ipv4_text(a), '.');
    assert(p =~= seq![d0, d1, d2, d3]);
    assert(ipv4_parse(ipv4_text(a))->Some_0 =~= a);
    assert(!seq!['.'].contains(' ')) by {
        assert(seq!['.'][0] == '.');
    }
    assert(!seq!['.'].contains('/')) by {
        assert(seq!['.'][0] == '.');
    }
    lemma_concat_lacks(d0, seq!['.'], ' ');
    lemma_concat_lacks(d0 + seq!['.'], d1, ' ');
    lemma_concat_lacks(d0 + seq!['.'] + d1, seq!['.'], ' ');
    lemma_concat_lacks(d0 + seq!['.'] + d1 + seq!['.'], d2, ' ');
    lemma_concat_lacks(d0 + seq!['.'] + d1 + seq!['.'] + d2, seq!['.'], ' ');
    lemma_concat_lacks(d0 + seq!['.'] + d1 + seq!['.'] + d2 + seq!['.'], d3, ' ');
    lemma_concat_lacks(d0, seq!['.'], '/');
    lemma_concat_lacks(d0 + seq!['.'], d1, '/');
    lemma_concat_lacks(d0 + seq!['.'] + d1, seq!['.'], '/');
    lemma_concat_lacks(d0 + seq!['.'] + d1 + seq!['.'], d2, '/');
    lemma_concat_lacks(d0 + seq!['.'] + d1 + seq!['.'] + d2, seq!['.'], '/');
    lemma_concat_lacks(d0 + seq!['.'] + d1 + seq!['.'] + d2 + seq!['.'], d3, '/');
    assert(!seq!['.'].contains(':')) by {
        assert(seq!['.'][0] == '.');
    }
    lemma_concat_lacks(d0, seq!['.'], ':');
    lemma_concat_lacks(d0 + seq!['.'], d1, ':');
    lemma_concat_lacks(d0 + seq!['.'] + d1, seq!['.'], ':');
    lemma_concat_lacks(d0 + seq!['.'] + d1 + seq!['.'], d2, ':');
    lemma_concat_lacks(d0 + seq!['.'] + d1 + seq!['.'] + d2, seq!['.'], ':');
    lemma_concat_lacks(d0 + seq!['.'] + d1 + seq!['.'] + d2 + seq!['.'], d3, ':');
}

/// Valid IPv4 text is the text of the address it reads as: the parser
/// accepts only the canonical dotted quad.
pub proof fn lemma_ipv4_text_of_parse(s: Seq<char>)
    requires
        ipv4_parse(s) is Some,
    ensures
        ipv4_text(ipv4_parse(s)->Some_0) == s,
{
    let p = split_spec(s, '.');
    let a = ipv4_parse(s)->Some_0;
    lemma_join_split(s, '.');
    lemma_dec_text_of_value(p[0]);
    lemma_dec_text_of_value(p[1]);
    lemma_dec_text_of_value(p[2]);
    lemma_dec_text_of_value(p[3]);
    assert(dec_text(a[0] as nat) == p[0]);
    assert(dec_text(a[1] as nat) == p[1]);
    assert(dec_text(a[2] as nat) == p[2]);
    assert(dec_text(a[3] as nat) == p[3]);
    assert(p.drop_last().drop_last().drop_last() =~= seq![p[0]]);
    assert(p.drop_last().drop_last() =~= seq![p[0], p[1]]);
    assert(p.drop_last() =~= seq![p[0], p[1], p[2]]);
    let q1 = seq![p[0]];
    let q2 = seq![p[0], p[1]];
    let q3 = seq![p[0], p[1], p[2]];
    assert(join_spec(q1, '.') == p[0]);
    assert(q2.drop_last() =~= q1);
    assert(join_spec(q2, '.') == p[0] + seq!['.'] + p[1]);
    assert(q3.drop_last() =~= q2);
    assert(join_spec(q3, '.') == p[0] + seq!['.'] + p[1] + seq!['.'] + p[2]);
    assert(p.drop_last() == q3);
    assert(join_spec(p, '.') == join_spec(q3, '.') + seq!['.'] + p[3]);
}

/// Reading the text of an address gives the address back, also when the
/// reader takes only the text before the first space.
pub proof fn lemma_ip_round_trip(ip: IpDataType)
    ensures
        ip_parses_to(ip_text(ip), ip),
        ip_parses_to(first_field(ip_text(ip)), ip),
        !ip_text(ip).contains('/'),
{
    match ip {
        IpDataType::IPv4(a) => {
            lemma_ipv4_round_trip(a@);
        },
        IpDataType::IPv6(b) => {
            lemma_ipv6_round_trip(b@);
        },
    }
    lemma_ip_text_lacks_space(ip);
    lemma_split_nosep(ip_text(ip), ' ');
}

proof fn lemma_ip_text_lacks_space(ip: IpDataType)
    ensures
        !ip_text(ip).contains(' '),
{
    match ip {
        IpDataType::IPv4(a) => {
            lemma_ipv4_round_trip(a@);
        },
        IpDataType::IPv6(b) => {
            lemma_ipv6_round_trip(b@);
        },
    }
}

/// Reading the text of a network gives the network back.
pub proof fn lemma_net_round_trip(n: NetDataType)
    ensures
        net_parses_to(net_text(n), n),
{
    lemma_ip_round_trip(n.ip);
    let c = dec_text(n.cidr as nat);
    lemma_octet_text(n.cidr as nat);
    lemma_uint_round_trip(n.cidr as nat, 255);
    lemma_split_nosep(ip_text(n.ip), '/');
    lemma_split_append(ip_text(n.ip), c, '/');
    let p = split_spec(net_text(n), '/');
    assert(p =~= seq![ip_text(n.ip), c]);
}

/// The text of a port reads back as the port.
pub proof fn lemma_port_round_trip(p: PortDataType)
    ensures
        uint_parse(dec_text(p.port as nat), 65535) == Some(p.port as nat),
{
    lemma_uint_round_trip(p.port as nat, 65535);
}

/// The text of a mark reads back as the mark.
pub proof fn lemma_mark_round_trip(m: MarkDataType)
    ensures
        uint_parse(dec_text(m.mark as nat), 0xffff_ffff) == Some(m.mark as nat),
{
    lemma_uint_round_trip(m.mark as nat, 0xffff_ffff);
}

proof fn lemma_hex2_facts(b: nat)
    requires
        b < 256,
    ensures
        hex_parse(hex2_text(b), 255) == Some(b),
        uhex_parse(hex2_text(b), 255) == Some(b),
        !hex2_text(b).contains(':'),
{
    lemma_hex2_round_trip(b);
    lemma_hex_char(b / 16);
    lemma_hex_char(b % 16);
    assert(is_hex_digit(hex2_text(b)[0]));
    if hex2_text(b).contains(':') {
        let i = choose|i: int| 0 <= i < hex2_text(b).len() && hex2_text(b)[i] == ':';
        assert(is_hex_digit(hex2_text(b)[i]));
    }
}

/// A MAC address reads back from its text.
pub proof fn lemma_mac_round_trip(m: MacDataType)
    ensures
        mac_parse(mac_text(m.mac@)) == Some(m.mac@),
{
    let b = m.mac@;
    let h0 = hex2_text(b[0] as nat);
    let h1 = hex2_text(b[1] as nat);
    let h2 = hex2_text(b[2] as nat);
    let h3 = hex2_text(b[3] as nat);
    let h4 = hex2_text(b[4] as nat);
    let h5 = hex2_text(b[5] as nat);
    lemma_hex2_facts(b[0] as nat);
    lemma_hex2_facts(b[1] as nat);
    lemma_hex2_facts(b[2] as nat);
    lemma_hex2_facts(b[3] as nat);
    lemma_hex2_facts(b[4] as nat);
    lemma_hex2_facts(b[5] as nat);
    lemma_split_nosep(h0, ':');
    lemma_split_append(h0, h1, ':');
    lemma_split_append(h0 + seq![':'] + h1, h2, ':');
    lemma_split_append(h0 + seq![':'] + h1 + seq![':'] + h2, h3, ':');
    lemma_split_append(h0 + seq![':'] + h1 + seq![':'] + h2 + seq![':'] + h3, h4, ':');
    lemma_split_append(
        h0 + seq![':'] + h1 + seq![':'] + h2 + seq![':'] + h3 + seq![':'] + h4,
        h5,
        ':',
    );
    let p = split_spec(mac_text(b), ':');
    assert(p =~= seq![h0, h1, h2, h3, h4, h5]);
    assert forall|k: int| 0 <= k < 6 implies (#[trigger] uhex_parse(p[k], 255)) == Some(
        b[k] as nat,
    ) by {
        assert(p[k] == hex2_text(b[k] as nat));
        lemma_hex2_facts(b[k] as nat);
    }
    assert(mac_parse(mac_text(b))->Some_0 =~= b);
}

/// Rendering what valid text reads as gives the canonical text of the same
/// value, which reads back as that value: for addresses, networks and MAC
/// addresses alike. IPv4 text is already canonical, so it comes back
/// unchanged.
pub proof fn lemma_text_of_parse(s: Seq<char>, ip: IpDataType, n: NetDataType)
    ensures
        ip_parses_to(s, ip) ==> ip_parses_to(ip_text(ip), ip),
        ip_parses_to(s, ip) && ip is IPv4 ==> ip_text(ip) == s,
        net_parses_to(s, n) ==> net_parses_to(net_text(n), n),
        mac_parse(s) is Some ==> mac_parse(mac_text(mac_parse(s)->Some_0)) == mac_parse(s),
{
    lemma_ip_round_trip(ip);
    lemma_net_round_trip(n);
    if ip_parses_to(s, ip) && ip is IPv4 {
        lemma_ipv4_text_of_parse(s);
    }
    if mac_parse(s) is Some {
        let m = mac_parse(s)->Some_0;
        let a = [m[0], m[1], m[2], m[3], m[4], m[5]];
        assert(a@ =~= m);
        lemma_mac_round_trip(MacDataType { mac: a });
    }
}

} // verus!
