//! The set-type registry: each supported set type is a storage method over
//! one to three data types, named `method:type[,type...]`.
use vstd::prelude::*;

use crate::text::{extend_chars, string_of};

verus! {

/// How a set stores its members.
#[derive(Clone, Copy, Debug, PartialEq, Eq, Structural)]
pub enum Method {
    Bitmap,
    Hash,
    List,
}

/// What a member holds, field by field.
#[derive(Clone, Copy, Debug, PartialEq, Eq, Structural)]
pub enum DataKind {
    Ip,
    Net,
    Mac,
    Port,
    Iface,
    Mark,
    SetName,
}

pub open spec fn method_name(m: Method) -> Seq<char> {
    match m {
        Method::Bitmap => seq!['b', 'i', 't', 'm', 'a', 'p'],
        Method::Hash => seq!['h', 'a', 's', 'h'],
        Method::List => seq!['l', 'i', 's', 't'],
    }
}

pub open spec fn kind_name(k: DataKind) -> Seq<char> {
    match k {
        DataKind::Ip => seq!['i', 'p'],
        DataKind::Net => seq!['n', 'e', 't'],
        DataKind::Mac => seq!['m', 'a', 'c'],
        DataKind::Port => seq!['p', 'o', 'r', 't'],
        DataKind::Iface => seq!['i', 'f', 'a', 'c', 'e'],
        DataKind::Mark => seq!['m', 'a', 'r', 'k'],
        DataKind::SetName => seq!['s', 'e', 't'],
    }
}

/// The names of the data kinds, joined by `,`.
pub open spec fn join_names(ks: Seq<DataKind>) -> Seq<char>
    decreases ks.len(),
{
    if ks.len() == 0 {
        Seq::empty()
    } else if ks.len() == 1 {
        kind_name(ks[0])
    } else {
        join_names(ks.drop_last()) + seq![','] + kind_name(ks.last())
    }
}

/// The identifier of a method over data kinds: `method:type[,type...]`.
pub open spec fn typename_spec(m: Method, ks: Seq<DataKind>) -> Seq<char> {
    method_name(m) + seq![':'] + join_names(ks)
}

fn method_chars(m: Method) -> (r: Vec<char>)
    ensures
        r@ == method_name(m),
{
    let r = match m {
        Method::Bitmap => vec!['b', 'i', 't', 'm', 'a', 'p'],
        Method::Hash => vec!['h', 'a', 's', 'h'],
        Method::List => vec!['l', 'i', 's', 't'],
    };
    assert(r@ =~= method_name(m));
    r
}

fn kind_chars(k: DataKind) -> (r: Vec<char>)
    ensures
        r@ == kind_name(k),
{
    let r = match k {
        DataKind::Ip => vec!['i', 'p'],
        DataKind::Net => vec!['n', 'e', 't'],
        DataKind::Mac => vec!['m', 'a', 'c'],
        DataKind::Port => vec!['p', 'o', 'r', 't'],
        DataKind::Iface => vec!['i', 'f', 'a', 'c', 'e'],
        DataKind::Mark => vec!['m', 'a', 'r', 'k'],
        DataKind::SetName => vec!['s', 'e', 't'],
    };
    assert(r@ =~= kind_name(k));
    r
}

/// The name of a storage method.
pub fn method_label(m: Method) -> (r: String)
    ensures
        r@ == method_name(m),
{
    string_of(&method_chars(m))
}

/// The name of a data kind.
pub fn kind_label(k: DataKind) -> (r: String)
    ensures
        r@ == kind_name(k),
{
    string_of(&kind_chars(k))
}

/// The names of data kinds joined by `,`.
pub fn data_label(ks: &Vec<DataKind>) -> (r: String)
    ensures
        r@ == join_names(ks@),
{
    string_of(&join_chars(ks))
}

fn join_chars(ks: &Vec<DataKind>) -> (r: Vec<char>)
    ensures
        r@ == join_names(ks@),
{
    let mut r: Vec<char> = Vec::new();
    let mut i: usize = 0;
    while i < ks.len()
        invariant
            i <= ks.len(),
            r@ == join_names(ks@.subrange(0, i as int)),
        decreases ks.len() - i,
    {
        if i > 0 {
            r.push(',');
        }
        let n = kind_chars(ks[i]);
        extend_chars(&mut r, &n);
        i = i + 1;
        assert(ks@.subrange(0, i as int).drop_last() =~= ks@.subrange(0, i - 1));
        assert(join_names(ks@.subrange(0, i - 1)).len() == 0 ==> i == 1);
        if i == 1 {
            assert(r@ =~= join_names(ks@.subrange(0, i as int)));
        }
    }
    assert(ks@.subrange(0, ks.len() as int) =~= ks@);
    r
}

/// The identifier of a method over data kinds.
pub fn identifier_of(m: Method, ks: &Vec<DataKind>) -> (r: String)
    ensures
        r@ == typename_spec(m, ks@),
{
    let mut v = method_chars(m);
    v.push(':');
    let j = join_chars(ks);
    extend_chars(&mut v, &j);
    string_of(&v)
}

/// The supported set types.
#[derive(Clone, Copy, Debug, PartialEq, Eq, Structural)]
pub enum SetKind {
    BitmapIp,
    BitmapIpMac,
    BitmapPort,
    HashIp,
    HashMac,
    HashIpMac,
    HashNet,
    HashNetNet,
    HashIpPort,
    HashNetPort,
    HashIpPortIp,
    HashIpPortNet,
    HashIpMark,
    HashNetPortNet,
    HashNetIface,
    ListSet,
}

/// The storage method of a set type.
pub open spec fn kind_method(k: SetKind) -> Method {
    match k {
        SetKind::BitmapIp | SetKind::BitmapIpMac | SetKind::BitmapPort => Method::Bitmap,
        SetKind::ListSet => Method::List,
        _ => Method::Hash,
    }
}

/// The data kinds of a set type, in order.
pub open spec fn kind_data(k: SetKind) -> Seq<DataKind> {
    match k {
        SetKind::BitmapIp => seq![DataKind::Ip],
        SetKind::BitmapIpMac => seq![DataKind::Ip, DataKind::Mac],
        SetKind::BitmapPort => seq![DataKind::Port],
        SetKind::HashIp => seq![DataKind::Ip],
        SetKind::HashMac => seq![DataKind::Mac],
        SetKind::HashIpMac => seq![DataKind::Ip, DataKind::Mac],
        SetKind::HashNet => seq![DataKind::Net],
        SetKind::HashNetNet => seq![DataKind::Net, DataKind::Net],
        SetKind::HashIpPort => seq![DataKind::Ip, DataKind::Port],
        SetKind::HashNetPort => seq![DataKind::Net, DataKind::Port],
        SetKind::HashIpPortIp => seq![DataKind::Ip, DataKind::Port, DataKind::Ip],
        SetKind::HashIpPortNet => seq![DataKind::Ip, DataKind::Port, DataKind::Net],
        SetKind::HashIpMark => seq![DataKind::Ip, DataKind::Mark],
        SetKind::HashNetPortNet => seq![DataKind::Net, DataKind::Port, DataKind::Net],
        SetKind::HashNetIface => seq![DataKind::Net, DataKind::Iface],
        SetKind::ListSet => seq![DataKind::SetName],
    }
}

/// The identifier that the create command takes for a set type.
pub open spec fn kind_typename(k: SetKind) -> Seq<char> {
    typename_spec(kind_method(k), kind_data(k))
}

impl SetKind {
    /// The storage method.
    pub fn method(&self) -> (r: Method)
        ensures
            r == kind_method(*self),
    {
        match self {
            SetKind::BitmapIp | SetKind::BitmapIpMac | SetKind::BitmapPort => Method::Bitmap,
            SetKind::ListSet => Method::List,
            _ => Method::Hash,
        }
    }

    /// The data kinds, in order.
    pub fn data_kinds(&self) -> (r: Vec<DataKind>)
        ensures
            r@ == kind_data(*self),
    {
        let r = match self {
            SetKind::BitmapIp => vec![DataKind::Ip],
            SetKind::BitmapIpMac => vec![DataKind::Ip, DataKind::Mac],
            SetKind::BitmapPort => vec![DataKind::Port],
            SetKind::HashIp => vec![DataKind::Ip],
            SetKind::HashMac => vec![DataKind::Mac],
            SetKind::HashIpMac => vec![DataKind::Ip, DataKind::Mac],
            SetKind::HashNet => vec![DataKind::Net],
            SetKind::HashNetNet => vec![DataKind::Net, DataKind::Net],
            SetKind::HashIpPort => vec![DataKind::Ip, DataKind::Port],
            SetKind::HashNetPort => vec![DataKind::Net, DataKind::Port],
            SetKind::HashIpPortIp => vec![DataKind::Ip, DataKind::Port, DataKind::Ip],
            SetKind::HashIpPortNet => vec![DataKind::Ip, DataKind::Port, DataKind::Net],
            SetKind::HashIpMark => vec![DataKind::Ip, DataKind::Mark],
            SetKind::HashNetPortNet => vec![DataKind::Net, DataKind::Port, DataKind::Net],
            SetKind::HashNetIface => vec![DataKind::Net, DataKind::Iface],
            SetKind::ListSet => vec![DataKind::SetName],
        };
        assert(r@ =~= kind_data(*self));
        r
    }

    /// The `method:type[,type...]` identifier of the set type.
    pub fn identifier(&self) -> (r: String)
        ensures
            r@ == kind_typename(*self),
    {
        let ks = self.data_kinds();
        identifier_of(self.method(), &ks)
    }
}

/// A set type known when the program is written.
pub trait SetType {
    spec fn spec_kind() -> SetKind;

    /// Which set type this is.
    fn kind() -> (r: SetKind)
        ensures
            r == Self::spec_kind(),
    ;

    /// The `method:type[,type...]` identifier that the create command takes.
    fn to_cstring() -> (r: String)
        ensures
            r@ == kind_typename(Self::spec_kind()),
    {
        Self::kind().identifier()
    }
}

/// A storage method known when the program is written.
pub trait TypeName {
    spec fn spec_name() -> Seq<char>;

    /// The name used in set-type identifiers.
    fn name() -> (r: String)
        ensures
            r@ == Self::spec_name(),
    ;
}

/// The list method.
pub struct ListMethod;

/// The bitmap method.
pub struct BitmapMethod;

/// The hash method.
pub struct HashMethod;

impl TypeName for ListMethod {
    open spec fn spec_name() -> Seq<char> {
        method_name(Method::List)
    }

    fn name() -> (r: String) {
        method_label(Method::List)
    }
}

impl TypeName for BitmapMethod {
    open spec fn spec_name() -> Seq<char> {
        method_name(Method::Bitmap)
    }

    fn name() -> (r: String) {
        method_label(Method::Bitmap)
    }
}

impl TypeName for HashMethod {
    open spec fn spec_name() -> Seq<char> {
        method_name(Method::Hash)
    }

    fn name() -> (r: String) {
        method_label(Method::Hash)
    }
}

/// Methods whose sets of plain addresses take a netmask when created.
pub trait WithNetmask {

}

impl WithNetmask for BitmapMethod {

}

impl WithNetmask for HashMethod {

}

} // verus!
