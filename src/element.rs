//! A member of a set: one value per data kind of the set type, written as
//! the values' texts joined by `,`.
use vstd::prelude::*;

use crate::data::{
    first_field, ip_parses_to, ip_text, ip_text_ok, mac_parse, mac_text, name_ok,
    net_parses_to, net_text, net_text_ok, IfaceDataType, IpDataType, MacDataType, MarkDataType,
    NetDataType, PortDataType, SetDataType,
};
use crate::error::Error;
use crate::settype::DataKind;
use crate::text::{
    chars_of, dec_text, uint_parse, extend_chars, split_chars, split_spec, string_of,
};

verus! {

/// One field of a member.
#[derive(Clone, Debug)]
pub enum DataValue {
    Ip(IpDataType),
    Net(NetDataType),
    Mac(MacDataType),
    Port(PortDataType),
    Iface(IfaceDataType),
    Mark(MarkDataType),
    SetName(SetDataType),
}

/// The kind of a field.
pub open spec fn value_kind(v: DataValue) -> DataKind {
    match v {
        DataValue::Ip(_) => DataKind::Ip,
        DataValue::Net(_) => DataKind::Net,
        DataValue::Mac(_) => DataKind::Mac,
        DataValue::Port(_) => DataKind::Port,
        DataValue::Iface(_) => DataKind::Iface,
        DataValue::Mark(_) => DataKind::Mark,
        DataValue::SetName(_) => DataKind::SetName,
    }
}

/// The text of a field.
pub open spec fn value_text(v: DataValue) -> Seq<char> {
    match v {
        DataValue::Ip(ip) => ip_text(ip),
        DataValue::Net(n) => net_text(n),
        DataValue::Mac(m) => mac_text(m.mac@),
        DataValue::Port(p) => dec_text(p.port as nat),
        DataValue::Iface(i) => i.spec_name(),
        DataValue::Mark(m) => dec_text(m.mark as nat),
        DataValue::SetName(s) => s.spec_name(),
    }
}

/// Whether text `s` reads as a field of kind `k`.
pub open spec fn field_ok(k: DataKind, s: Seq<char>) -> bool {
    match k {
        DataKind::Ip => ip_text_ok(first_field(s)),
        DataKind::Net => net_text_ok(s),
        DataKind::Mac => mac_parse(s) is Some,
        DataKind::Port => uint_parse(s, 65535) is Some,
        DataKind::Iface => name_ok(s),
        DataKind::Mark => uint_parse(s, 0xffff_ffff) is Some,
        DataKind::SetName => name_ok(s),
    }
}

/// Whether reading text `s` as a field of kind `k` gives `v`.
pub open spec fn field_parses_to(k: DataKind, s: Seq<char>, v: DataValue) -> bool {
    &&& value_kind(v) == k
    &&& match v {
        DataValue::Ip(ip) => ip_parses_to(first_field(s), ip),
        DataValue::Net(n) => net_parses_to(s, n),
        DataValue::Mac(m) => mac_parse(s) == Some(m.mac@),
        DataValue::Port(p) => uint_parse(s, 65535) == Some(p.port as nat),
        DataValue::Iface(i) => name_ok(s) && i.spec_name() == s,
        DataValue::Mark(m) => uint_parse(s, 0xffff_ffff) == Some(m.mark as nat),
        DataValue::SetName(n) => name_ok(s) && n.spec_name() == s,
    }
}

/// Whether text `s` reads as a member of the data kinds `ks`: a single kind
/// takes the whole text; several take the `,`-separated pieces in order,
/// pieces beyond the last kind being ignored.
pub open spec fn element_ok(ks: Seq<DataKind>, s: Seq<char>) -> bool {
    if ks.len() == 1 {
        field_ok(ks[0], s)
    } else {
        let p = split_spec(s, ',');
        p.len() >= ks.len() && forall|i: int| 0 <= i < ks.len() ==> field_ok(ks[i], #[trigger] p[i])
    }
}

/// Whether reading text `s` as a member of the data kinds `ks` gives `vs`.
pub open spec fn element_parses_to(ks: Seq<DataKind>, s: Seq<char>, vs: Seq<DataValue>) -> bool {
    &&& vs.len() == ks.len()
    &&& if ks.len() == 1 {
        field_parses_to(ks[0], s, vs[0])
    } else {
        let p = split_spec(s, ',');
        p.len() >= ks.len() && forall|i: int|
            0 <= i < ks.len() ==> field_parses_to(ks[i], #[trigger] p[i], vs[i])
    }
}

/// The text of a member: its fields' texts joined by `,`.
pub open spec fn element_text(vs: Seq<DataValue>) -> Seq<char>
    decreases vs.len(),
{
    if vs.len() == 0 {
        Seq::empty()
    } else if vs.len() == 1 {
        value_text(vs[0])
    } else {
        element_text(vs.drop_last()) + seq![','] + value_text(vs.last())
    }
}

/// Reads one field of kind `k`.
pub fn parse_field(k: DataKind, s: &str) -> (r: Result<DataValue, Error>)
    ensures
        r is Ok == field_ok(k, s@),
        r matches Ok(v) ==> field_parses_to(k, s@, v),
{
    match k {
        DataKind::Ip => {
            let mut v = IpDataType::IPv4([0, 0, 0, 0]);
            v.parse(s)?;
            Ok(DataValue::Ip(v))
        },
        DataKind::Net => {
            let mut v = NetDataType::new(IpDataType::IPv4([0, 0, 0, 0]), 32);
            v.parse(s)?;
            Ok(DataValue::Net(v))
        },
        DataKind::Mac => {
            let mut v = MacDataType { mac: [0, 0, 0, 0, 0, 0] };
            v.parse(s)?;
            Ok(DataValue::Mac(v))
        },
        DataKind::Port => {
            let mut v = PortDataType { port: 0 };
            v.parse(s)?;
            Ok(DataValue::Port(v))
        },
        DataKind::Iface => {
            let v = IfaceDataType::new(s)?;
            Ok(DataValue::Iface(v))
        },
        DataKind::Mark => {
            let mut v = MarkDataType { mark: 0 };
            v.parse(s)?;
            Ok(DataValue::Mark(v))
        },
        DataKind::SetName => {
            let v = SetDataType::new(s)?;
            Ok(DataValue::SetName(v))
        },
    }
}

impl DataValue {
    /// The kind of the field.
    pub fn kind(&self) -> (r: DataKind)
        ensures
            r == value_kind(*self),
    {
        match self {
            DataValue::Ip(_) => DataKind::Ip,
            DataValue::Net(_) => DataKind::Net,
            DataValue::Mac(_) => DataKind::Mac,
            DataValue::Port(_) => DataKind::Port,
            DataValue::Iface(_) => DataKind::Iface,
            DataValue::Mark(_) => DataKind::Mark,
            DataValue::SetName(_) => DataKind::SetName,
        }
    }

    /// The text of the field.
    pub fn to_string(&self) -> (r: String)
        ensures
            r@ == value_text(*self),
    {
        match self {
            DataValue::Ip(ip) => ip.to_string(),
            DataValue::Net(n) => n.to_string(),
            DataValue::Mac(m) => m.to_string(),
            DataValue::Port(p) => p.to_string(),
            DataValue::Iface(i) => i.to_string(),
            DataValue::Mark(m) => m.to_string(),
            DataValue::SetName(s) => s.to_string(),
        }
    }
}

/// A member of a set: one value per data kind of its set type.
#[derive(Clone, Debug)]
pub struct Element {
    pub values: Vec<DataValue>,
}

impl Element {
    /// Reads a member of the data kinds `kinds` from `s`; `InvalidOutput`
    /// when fewer pieces than kinds are present, else the field's own error.
    pub fn parse(kinds: &Vec<DataKind>, s: &str) -> (r: Result<Element, Error>)
        requires
            kinds@.len() >= 1,
        ensures
            r is Ok == element_ok(kinds@, s@),
            r matches Ok(e) ==> element_parses_to(kinds@, s@, e.values@),
    {
        if kinds.len() == 1 {
            let v = parse_field(kinds[0], s)?;
            let values = vec![v];
            return Ok(Element { values });
        }
        let cs = chars_of(s);
        let p = split_chars(&cs, ',');
        let ghost ps = split_spec(s@, ',');
        if p.len() < kinds.len() {
            return Err(Error::InvalidOutput(string_of(&cs)));
        }
        let mut values: Vec<DataValue> = Vec::new();
        let mut i: usize = 0;
        while i < kinds.len()
            invariant
                i <= kinds.len() <= p.len(),
                kinds@.len() >= 2,
                ps == split_spec(s@, ','),
                p@.len() == ps.len(),
                forall|k: int| 0 <= k < p@.len() ==> #[trigger] p@[k]@ == ps[k],
                values@.len() == i,
                forall|k: int| 0 <= k < i ==> field_ok(kinds@[k], #[trigger] ps[k]),
                forall|k: int|
                    0 <= k < i ==> field_parses_to(kinds@[k], #[trigger] ps[k], values@[k]),
            decreases kinds.len() - i,
        {
            assert(p@[i as int]@ == ps[i as int]);
            let piece = string_of(&p[i]);
            let r = parse_field(kinds[i], piece.as_str());
            match r {
                Ok(v) => {
                    values.push(v);
                },
                Err(e) => {
                    assert(!field_ok(kinds@[i as int], ps[i as int]));
                    return Err(e);
                },
            }
            i = i + 1;
        }
        Ok(Element { values })
    }

    /// The text of the member.
    pub fn to_string(&self) -> (r: String)
        ensures
            r@ == element_text(self.values@),
    {
        let mut v: Vec<char> = Vec::new();
        let mut i: usize = 0;
        while i < self.values.len()
            invariant
                i <= self.values.len(),
                v@ == element_text(self.values@.subrange(0, i as int)),
            decreases self.values.len() - i,
        {
            if i > 0 {
                v.push(',');
            }
            let t = self.values[i].to_string();
            let tc = chars_of(t.as_str());
            extend_chars(&mut v, &tc);
            i = i + 1;
            assert(self.values@.subrange(0, i as int).drop_last() =~= self.values@.subrange(
                0,
                i - 1,
            ));
            if i == 1 {
                assert(v@ =~= element_text(self.values@.subrange(0, i as int)));
            }
        }
        assert(self.values@.subrange(0, self.values.len() as int) =~= self.values@);
        string_of(&v)
    }
}

} // verus!
