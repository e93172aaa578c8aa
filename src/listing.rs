//! Reading the text that the native library prints for LIST: either set
//! names one per line, or a header block, a `Members:` line and one line per
//! member with its options.
use vstd::prelude::*;

use crate::element::{element_ok, element_parses_to, DataValue, Element};
use crate::error::Error;
use crate::settype::DataKind;
use crate::text::{
    chars_eq_str, chars_of, parse_uhex, parse_uint, slice_chars, split_chars, split_spec, string_of,
    trim, trim_chars, uhex_parse, uint_parse, words, words_of,
};

verus! {

/// Per-member options: extension data given when adding, and printed back
/// when listing.
#[derive(Clone, Debug)]
pub enum AddOption {
    /// Timeout in seconds; zero makes the entry permanent.
    Timeout(u32),
    /// Byte counter of the entry.
    Bytes(u64),
    /// Packet counter of the entry.
    Packets(u64),
    /// Firewall mark and mask.
    SkbMark(u32, u32),
    /// Traffic-control class, major and minor.
    SkbPrio(u16, u16),
    /// Hardware queue.
    SkbQueue(u16),
    /// Free-text comment; it must hold no quotation mark.
    Comment(String),
    /// The entry is an exception: matching it counts as no match.
    Nomatch,
}

/// The value of an `AddOption`, with the comment as characters.
pub enum OptionModel {
    Timeout(u32),
    Bytes(u64),
    Packets(u64),
    SkbMark(u32, u32),
    SkbPrio(u16, u16),
    SkbQueue(u16),
    Comment(Seq<char>),
    Nomatch,
}

impl View for AddOption {
    type V = OptionModel;

    open spec fn view(&self) -> OptionModel {
        match *self {
            AddOption::Timeout(t) => OptionModel::Timeout(t),
            AddOption::Bytes(b) => OptionModel::Bytes(b),
            AddOption::Packets(p) => OptionModel::Packets(p),
            AddOption::SkbMark(m, k) => OptionModel::SkbMark(m, k),
            AddOption::SkbPrio(a, b) => OptionModel::SkbPrio(a, b),
            AddOption::SkbQueue(q) => OptionModel::SkbQueue(q),
            AddOption::Comment(c) => OptionModel::Comment(c@),
            AddOption::Nomatch => OptionModel::Nomatch,
        }
    }
}

/// The settings printed on a set's `Header:` line.
#[derive(Clone, Copy, Debug)]
pub struct ListHeader {
    pub ipv6: bool,
    pub hash_size: u32,
    pub bucket_size: Option<u32>,
    pub max_elem: u32,
    pub counters: bool,
    pub comment: bool,
    pub skbinfo: bool,
    pub initval: Option<u32>,
}

pub open spec fn empty_header() -> ListHeader {
    ListHeader {
        ipv6: false,
        hash_size: 0,
        bucket_size: None,
        max_elem: 0,
        counters: false,
        comment: false,
        skbinfo: false,
        initval: None,
    }
}

impl Default for ListHeader {
    fn default() -> (r: Self)
        ensures
            r == empty_header(),
    {
        ListHeader {
            ipv6: false,
            hash_size: 0,
            bucket_size: None,
            max_elem: 0,
            counters: false,
            comment: false,
            skbinfo: false,
            initval: None,
        }
    }
}

/// `s` without a leading `0x`, if it has one.
pub open spec fn strip_0x(s: Seq<char>) -> Option<Seq<char>> {
    if s.len() >= 2 && s[0] == '0' && s[1] == 'x' {
        Some(s.subrange(2, s.len() as int))
    } else {
        None
    }
}

/// Reads header tokens from position `i` on into `h`: `key value` pairs,
/// except the flags `counters`, `comment` and `skbinfo`. An `initval`
/// without `0x` leaves the value unset.
pub open spec fn header_from(t: Seq<Seq<char>>, i: int, h: ListHeader) -> Option<ListHeader>
    decreases t.len() - i,
{
    if i < 0 || i >= t.len() {
        Some(h)
    } else if t[i] == "counters"@ {
        header_from(t, i + 1, ListHeader { counters: true, ..h })
    } else if t[i] == "comment"@ {
        header_from(t, i + 1, ListHeader { comment: true, ..h })
    } else if t[i] == "skbinfo"@ {
        header_from(t, i + 1, ListHeader { skbinfo: true, ..h })
    } else if i + 1 >= t.len() {
        None
    } else if t[i] == "family"@ {
        header_from(t, i + 2, ListHeader { ipv6: t[i + 1] == "inet6"@, ..h })
    } else if t[i] == "hashsize"@ {
        match uint_parse(t[i + 1], 0xffff_ffff) {
            Some(v) => header_from(t, i + 2, ListHeader { hash_size: v as u32, ..h }),
            None => None,
        }
    } else if t[i] == "bucketsize"@ {
        match uint_parse(t[i + 1], 0xffff_ffff) {
            Some(v) => header_from(t, i + 2, ListHeader { bucket_size: Some(v as u32), ..h }),
            None => None,
        }
    } else if t[i] == "maxelem"@ {
        match uint_parse(t[i + 1], 0xffff_ffff) {
            Some(v) => header_from(t, i + 2, ListHeader { max_elem: v as u32, ..h }),
            None => None,
        }
    } else if t[i] == "initval"@ {
        match strip_0x(t[i + 1]) {
            Some(x) => match uhex_parse(x, 0xffff_ffff) {
                Some(v) => header_from(t, i + 2, ListHeader { initval: Some(v as u32), ..h }),
                None => None,
            },
            None => header_from(t, i + 2, h),
        }
    } else {
        None
    }
}

/// What the value of a `Header:` line reads as.
pub open spec fn header_parse(s: Seq<char>) -> Option<ListHeader> {
    header_from(words(s), 0, empty_header())
}

/// Reads a `0x`-prefixed hexadecimal number; the error is `true` when the
/// prefix is there and the number does not read.
fn parse_0x(s: &Vec<char>, max: u64) -> (r: Result<u64, bool>)
    ensures
        r matches Ok(v) ==> strip_0x(s@) is Some && uhex_parse(strip_0x(s@)->Some_0, max as nat)
            == Some(v as nat),
        r == Err::<u64, bool>(false) ==> strip_0x(s@) is None,
        r == Err::<u64, bool>(true) ==> strip_0x(s@) is Some && uhex_parse(
            strip_0x(s@)->Some_0,
            max as nat,
        ) is None,
{
    if s.len() >= 2 && s[0] == '0' && s[1] == 'x' {
        let rest = slice_chars(s, 2, s.len());
        match parse_uhex(&rest, max) {
            Some(v) => Ok(v),
            None => Err(true),
        }
    } else {
        Err(false)
    }
}

impl ListHeader {
    /// Reads the value of a `Header:` line; `InvalidOutput` with the value
    /// for a token it does not know, a missing value or a number that does
    /// not read.
    pub fn from_str(s: &str) -> (r: Result<ListHeader, Error>)
        ensures
            r is Ok == header_parse(s@) is Some,
            r matches Ok(h) ==> header_parse(s@) == Some(h),
            r matches Err(e) ==> e is InvalidOutput && e->InvalidOutput_0@ == s@,
    {
        let cs = chars_of(s);
        let t = words_of(&cs);
        let ghost ts = words(s@);
        let mut h = ListHeader::default();
        let mut i: usize = 0;
        while i < t.len()
            invariant
                cs@ == s@,
                ts == words(s@),
                t@.len() == ts.len(),
                forall|k: int| 0 <= k < t@.len() ==> #[trigger] t@[k]@ == ts[k],
                i <= t.len() + 1,
                header_parse(s@) == header_from(ts, i as int, h),
            decreases t.len() + 1 - i,
        {
            assert(t@[i as int]@ == ts[i as int]);
            let key = &t[i];
            if chars_eq_str(key, "counters") {
                h.counters = true;
                i = i + 1;
            } else if chars_eq_str(key, "comment") {
                h.comment = true;
                i = i + 1;
            } else if chars_eq_str(key, "skbinfo") {
                h.skbinfo = true;
                i = i + 1;
            } else if i + 1 >= t.len() {
                return Err(Error::InvalidOutput(string_of(&cs)));
            } else {
                assert(t@[i + 1]@ == ts[i + 1]);
                let value = &t[i + 1];
                if chars_eq_str(key, "family") {
                    h.ipv6 = chars_eq_str(value, "inet6");
                } else if chars_eq_str(key, "hashsize") {
                    match parse_uint(value, 0xffff_ffff) {
                        Some(v) => {
                            h.hash_size = v as u32;
                        },
                        None => {
                            return Err(Error::InvalidOutput(string_of(&cs)));
                        },
                    }
                } else if chars_eq_str(key, "bucketsize") {
                    match parse_uint(value, 0xffff_ffff) {
                        Some(v) => {
                            h.bucket_size = Some(v as u32);
                        },
                        None => {
                            return Err(Error::InvalidOutput(string_of(&cs)));
                        },
                    }
                } else if chars_eq_str(key, "maxelem") {
                    match parse_uint(value, 0xffff_ffff) {
                        Some(v) => {
                            h.max_elem = v as u32;
                        },
                        None => {
                            return Err(Error::InvalidOutput(string_of(&cs)));
                        },
                    }
                } else if chars_eq_str(key, "initval") {
                    match parse_0x(value, 0xffff_ffff) {
                        Ok(v) => {
                            h.initval = Some(v as u32);
                        },
                        Err(true) => {
                            return Err(Error::InvalidOutput(string_of(&cs)));
                        },
                        Err(false) => {},
                    }
                } else {
                    return Err(Error::InvalidOutput(string_of(&cs)));
                }
                i = i + 2;
            }
        }
        Ok(h)
    }
}

/// `s` without its NUL characters.
pub open spec fn drop_nul(s: Seq<char>) -> Seq<char>
    decreases s.len(),
{
    if s.len() == 0 {
        s
    } else if s.last() == '\0' {
        drop_nul(s.drop_last())
    } else {
        drop_nul(s.drop_last()).push(s.last())
    }
}

/// What reading a piece of list output gives: a value, a number that does
/// not read, or text of the wrong shape.
pub enum Reading<T> {
    Got(T),
    BadNumber,
    Malformed,
}

/// A number field: its value, or `BadNumber`.
pub open spec fn number(n: Option<nat>) -> Reading<nat> {
    match n {
        Some(v) => Reading::Got(v),
        None => Reading::BadNumber,
    }
}

/// What the value `v` of the member option `key` reads as. A value that
/// should be a number and does not read is `BadNumber`; an unknown key, or
/// a mark or class without its separator or `0x`, is `Malformed`.
pub open spec fn option_value(key: Seq<char>, v: Seq<char>) -> Reading<OptionModel> {
    if key == "timeout"@ {
        match number(uint_parse(v, 0xffff_ffff)) {
            Reading::Got(n) => Reading::Got(OptionModel::Timeout(n as u32)),
            _ => Reading::BadNumber,
        }
    } else if key == "packets"@ {
        match number(uint_parse(v, 0xffff_ffff_ffff_ffff)) {
            Reading::Got(n) => Reading::Got(OptionModel::Packets(n as u64)),
            _ => Reading::BadNumber,
        }
    } else if key == "bytes"@ {
        match number(uint_parse(drop_nul(v), 0xffff_ffff_ffff_ffff)) {
            Reading::Got(n) => Reading::Got(OptionModel::Bytes(n as u64)),
            _ => Reading::BadNumber,
        }
    } else if key == "comment"@ {
        Reading::Got(OptionModel::Comment(v))
    } else if key == "skbmark"@ {
        let p = split_spec(v, '/');
        match strip_0x(p[0]) {
            None => Reading::Malformed,
            Some(x) => match uhex_parse(x, 0xffff_ffff) {
                None => Reading::BadNumber,
                Some(m) => if p.len() > 1 {
                    match strip_0x(p[1]) {
                        None => Reading::Malformed,
                        Some(y) => match uhex_parse(y, 0xffff_ffff) {
                            None => Reading::BadNumber,
                            Some(k) => Reading::Got(OptionModel::SkbMark(m as u32, k as u32)),
                        },
                    }
                } else {
                    Reading::Got(OptionModel::SkbMark(m as u32, 0xffff_ffff))
                },
            },
        }
    } else if key == "skbprio"@ {
        let p = split_spec(v, ':');
        match uhex_parse(p[0], 0xffff) {
            None => Reading::BadNumber,
            Some(a) => if p.len() < 2 {
                Reading::Malformed
            } else {
                match uhex_parse(p[1], 0xffff) {
                    None => Reading::BadNumber,
                    Some(b) => Reading::Got(OptionModel::SkbPrio(a as u16, b as u16)),
                }
            },
        }
    } else if key == "skbqueue"@ {
        match number(uint_parse(v, 0xffff)) {
            Reading::Got(n) => Reading::Got(OptionModel::SkbQueue(n as u16)),
            _ => Reading::BadNumber,
        }
    } else {
        Reading::Malformed
    }
}

/// Reads member option tokens from position `i` on: `key value` pairs,
/// except `nomatch`, which stands alone. The first option that does not
/// read decides the failure; a key without its value is `Malformed`.
pub open spec fn member_opts(t: Seq<Seq<char>>, i: int) -> Reading<Seq<OptionModel>>
    decreases t.len() - i,
{
    if i < 0 || i >= t.len() {
        Reading::Got(Seq::empty())
    } else if t[i] == "nomatch"@ {
        prepend_opts(seq![OptionModel::Nomatch], member_opts(t, i + 1))
    } else if i + 1 < t.len() {
        match option_value(t[i], t[i + 1]) {
            Reading::Got(o) => prepend_opts(seq![o], member_opts(t, i + 2)),
            Reading::BadNumber => Reading::BadNumber,
            Reading::Malformed => Reading::Malformed,
        }
    } else {
        Reading::Malformed
    }
}

pub open spec fn prepend_opts(p: Seq<OptionModel>, r: Reading<Seq<OptionModel>>) -> Reading<
    Seq<OptionModel>,
> {
    match r {
        Reading::Got(x) => Reading::Got(p + x),
        Reading::BadNumber => Reading::BadNumber,
        Reading::Malformed => Reading::Malformed,
    }
}

/// What a failed exec reading reports: `true` for a number that does not
/// read.
pub open spec fn reading_of<T, U>(r: Result<T, bool>, v: spec_fn(T) -> U) -> Reading<U> {
    match r {
        Ok(x) => Reading::Got(v(x)),
        Err(true) => Reading::BadNumber,
        Err(false) => Reading::Malformed,
    }
}

/// Removes NUL characters.
fn drop_nul_chars(s: &Vec<char>) -> (r: Vec<char>)
    ensures
        r@ == drop_nul(s@),
{
    let mut r: Vec<char> = Vec::new();
    let mut i: usize = 0;
    while i < s.len()
        invariant
            i <= s.len(),
            r@ == drop_nul(s@.subrange(0, i as int)),
        decreases s.len() - i,
    {
        assert(s@.subrange(0, i + 1).drop_last() =~= s@.subrange(0, i as int));
        if s[i] != '\0' {
            r.push(s[i]);
        }
        i = i + 1;
    }
    assert(s@.subrange(0, s.len() as int) =~= s@);
    r
}

/// Reads the value of one member option; the error is `true` for a number
/// that does not read.
fn parse_option(key: &Vec<char>, v: &Vec<char>) -> (r: Result<AddOption, bool>)
    ensures
        option_value(key@, v@) == reading_of(r, |o: AddOption| o@),
{
    if chars_eq_str(key, "timeout") {
        match parse_uint(v, 0xffff_ffff) {
            Some(n) => Ok(AddOption::Timeout(n as u32)),
            None => Err(true),
        }
    } else if chars_eq_str(key, "packets") {
        match parse_uint(v, 0xffff_ffff_ffff_ffff) {
            Some(n) => Ok(AddOption::Packets(n)),
            None => Err(true),
        }
    } else if chars_eq_str(key, "bytes") {
        let w = drop_nul_chars(v);
        match parse_uint(&w, 0xffff_ffff_ffff_ffff) {
            Some(n) => Ok(AddOption::Bytes(n)),
            None => Err(true),
        }
    } else if chars_eq_str(key, "comment") {
        Ok(AddOption::Comment(string_of(v)))
    } else if chars_eq_str(key, "skbmark") {
        let p = split_chars(v, '/');
        assert(p@[0]@ == split_spec(v@, '/')[0]);
        let m = match parse_0x(&p[0], 0xffff_ffff) {
            Ok(m) => m,
            Err(b) => {
                return Err(b);
            },
        };
        if p.len() > 1 {
            assert(p@[1]@ == split_spec(v@, '/')[1]);
            match parse_0x(&p[1], 0xffff_ffff) {
                Ok(k) => Ok(AddOption::SkbMark(m as u32, k as u32)),
                Err(b) => Err(b),
            }
        } else {
            Ok(AddOption::SkbMark(m as u32, 0xffff_ffff))
        }
    } else if chars_eq_str(key, "skbprio") {
        let p = split_chars(v, ':');
        assert(p@[0]@ == split_spec(v@, ':')[0]);
        let a = match parse_uhex(&p[0], 0xffff) {
            Some(a) => a,
            None => {
                return Err(true);
            },
        };
        if p.len() < 2 {
            return Err(false);
        }
        assert(p@[1]@ == split_spec(v@, ':')[1]);
        match parse_uhex(&p[1], 0xffff) {
            Some(b) => Ok(AddOption::SkbPrio(a as u16, b as u16)),
            None => Err(true),
        }
    } else if chars_eq_str(key, "skbqueue") {
        match parse_uint(v, 0xffff) {
            Some(n) => Ok(AddOption::SkbQueue(n as u16)),
            None => Err(true),
        }
    } else {
        Err(false)
    }
}

pub open spec fn opts_view(v: Seq<AddOption>) -> Seq<OptionModel> {
    v.map_values(|o: AddOption| o@)
}

/// Reads the options of a member line, from token 1 on; the error is
/// `true` when the first option that does not read has a bad number.
fn parse_member_opts(t: &Vec<Vec<char>>, Ghost(ts): Ghost<Seq<Seq<char>>>) -> (r: Result<
    Vec<AddOption>,
    bool,
>)
    requires
        t@.len() == ts.len(),
        forall|k: int| 0 <= k < t@.len() ==> #[trigger] t@[k]@ == ts[k],
    ensures
        member_opts(ts, 1) == reading_of(r, |o: Vec<AddOption>| opts_view(o@)),
{
    let mut opts: Vec<AddOption> = Vec::new();
    let mut i: usize = 1;
    while i < t.len()
        invariant
            t@.len() == ts.len(),
            forall|k: int| 0 <= k < t@.len() ==> #[trigger] t@[k]@ == ts[k],
            1 <= i <= t.len() + 1,
            member_opts(ts, 1) == prepend_opts(opts_view(opts@), member_opts(ts, i as int)),
        decreases t.len() + 1 - i,
    {
        assert(t@[i as int]@ == ts[i as int]);
        let ghost before = opts_view(opts@);
        if chars_eq_str(&t[i], "nomatch") {
            opts.push(AddOption::Nomatch);
            assert(opts_view(opts@) =~= before + seq![OptionModel::Nomatch]);
            assert(forall|x: Seq<OptionModel>| (before + seq![OptionModel::Nomatch]) + x =~= before + (seq![OptionModel::Nomatch] + x));
            i = i + 1;
        } else if i + 1 < t.len() {
            assert(t@[i + 1]@ == ts[i + 1]);
            match parse_option(&t[i], &t[i + 1]) {
                Ok(o) => {
                    let ghost om = o@;
                    opts.push(o);
                    assert(opts_view(opts@) =~= before + seq![om]);
                    assert(forall|x: Seq<OptionModel>| (before + seq![om]) + x =~= before + (seq![om] + x));
                },
                Err(b) => {
                    return Err(b);
                },
            }
            i = i + 2;
        } else {
            return Err(false);
        }
    }
    assert(opts_view(opts@) + Seq::<OptionModel>::empty() =~= opts_view(opts@));
    Ok(opts)
}

/// A member as listed: its fields and, when the line carries any, its
/// options.
pub type Entry = (Element, Option<Vec<AddOption>>);

/// The value of a listed member.
pub open spec fn entry_view(e: Entry) -> (Seq<DataValue>, Option<Seq<OptionModel>>) {
    (
        e.0.values@,
        match e.1 {
            Some(o) => Some(opts_view(o@)),
            None => None,
        },
    )
}

/// The value of a full listing.
pub struct ListModel {
    pub name: Seq<char>,
    pub typ: Seq<char>,
    pub revision: u32,
    pub header: ListHeader,
    pub size_in_memory: u32,
    pub references: u32,
    pub entry_size: u32,
    pub items: Option<Seq<(Seq<DataValue>, Option<Seq<OptionModel>>)>>,
}

/// A full listing of one set.
#[derive(Debug)]
pub struct NormalListResult {
    pub name: String,
    pub typ: String,
    pub revision: u32,
    pub header: ListHeader,
    pub size_in_memory: u32,
    pub references: u32,
    pub entry_size: u32,
    pub items: Option<Vec<Entry>>,
}

impl View for NormalListResult {
    type V = ListModel;

    open spec fn view(&self) -> ListModel {
        ListModel {
            name: self.name@,
            typ: self.typ@,
            revision: self.revision,
            header: self.header,
            size_in_memory: self.size_in_memory,
            references: self.references,
            entry_size: self.entry_size,
            items: match self.items {
                Some(v) => Some(v@.map_values(|e: Entry| entry_view(e))),
                None => None,
            },
        }
    }
}

/// The listing before any line is read.
pub open spec fn empty_model() -> ListModel {
    ListModel {
        name: Seq::empty(),
        typ: Seq::empty(),
        revision: 0,
        header: empty_header(),
        size_in_memory: 0,
        references: 0,
        entry_size: 0,
        items: None,
    }
}

/// The key of a header line: what stands before its first `:`.
pub open spec fn line_key(line: Seq<char>) -> Seq<char> {
    split_spec(line, ':')[0]
}

/// The value of a header line: what follows its first `:`, trimmed.
pub open spec fn line_value(line: Seq<char>) -> Seq<char> {
    trim(line.subrange(line_key(line).len() as int + 1, line.len() as int))
}

/// What a header line makes of the listing read so far.
pub open spec fn header_line(m: ListModel, line: Seq<char>) -> Option<ListModel> {
    let key = line_key(line);
    let value = line_value(line);
    if key == "Members"@ {
        Some(ListModel { items: Some(Seq::empty()), ..m })
    } else if key.len() >= line.len() {
        None
    } else if key == "Name"@ {
        Some(ListModel { name: value, ..m })
    } else if key == "Type"@ {
        Some(ListModel { typ: value, ..m })
    } else if key == "Header"@ {
        match header_parse(value) {
            Some(h) => Some(ListModel { header: h, ..m }),
            None => None,
        }
    } else if key == "Revision"@ {
        match uint_parse(value, 0xffff_ffff) {
            Some(v) => Some(ListModel { revision: v as u32, ..m }),
            None => None,
        }
    } else if key == "Size in memory"@ {
        match uint_parse(value, 0xffff_ffff) {
            Some(v) => Some(ListModel { size_in_memory: v as u32, ..m }),
            None => None,
        }
    } else if key == "References"@ {
        match uint_parse(value, 0xffff_ffff) {
            Some(v) => Some(ListModel { references: v as u32, ..m }),
            None => None,
        }
    } else if key == "Number of entries"@ {
        match uint_parse(value, 0xffff_ffff) {
            Some(v) => Some(ListModel { entry_size: v as u32, ..m }),
            None => None,
        }
    } else {
        None
    }
}

/// Whether a member line reads: a member of the data kinds first, then its
/// options.
pub open spec fn member_line_ok(ks: Seq<DataKind>, line: Seq<char>) -> bool {
    let t = words(line);
    t.len() > 0 && element_ok(ks, t[0]) && (t.len() > 1 ==> member_opts(t, 1) is Got)
}

/// Whether `b` is `a` with the member of `line` appended.
pub open spec fn member_pushed(a: ListModel, b: ListModel, ks: Seq<DataKind>, line: Seq<char>) -> bool {
    let t = words(line);
    &&& a.items is Some
    &&& b.items is Some
    &&& b.items->Some_0.len() == a.items->Some_0.len() + 1
    &&& b == ListModel { items: Some(a.items->Some_0.push(b.items->Some_0.last())), ..a }
    &&& element_parses_to(ks, t[0], b.items->Some_0.last().0)
    &&& b.items->Some_0.last().1 == (if t.len() > 1 {
        Some(member_opts(t, 1)->Got_0)
    } else {
        None
    })
}

/// Whether a line reads at a point where the listing so far is `m`.
pub open spec fn line_ok(m: ListModel, ks: Seq<DataKind>, line: Seq<char>) -> bool {
    if m.items is None {
        header_line(m, line) is Some
    } else {
        member_line_ok(ks, line)
    }
}

/// Why a line does not read: a number that does not read, or text of the
/// wrong shape with the text that the error reports.
pub enum Fault {
    BadNumber,
    Malformed(Seq<char>),
}

/// Whether `e` is the error that reports `f`.
pub open spec fn reports(e: Error, f: Fault) -> bool {
    match f {
        Fault::BadNumber => e is ParseInt,
        Fault::Malformed(m) => e is InvalidOutput && e->InvalidOutput_0@ == m,
    }
}

/// Why a header line does not read: a `Header:` value that does not read
/// reports that value; a number field that does not read is `BadNumber`;
/// anything else reports the line.
pub open spec fn header_fault(line: Seq<char>) -> Fault {
    let key = line_key(line);
    if key.len() < line.len() && key == "Header"@ {
        Fault::Malformed(line_value(line))
    } else if key.len() < line.len() && (key == "Revision"@ || key == "Size in memory"@ || key
        == "References"@ || key == "Number of entries"@) {
        Fault::BadNumber
    } else {
        Fault::Malformed(line)
    }
}

/// Why a member line does not read: a bad number among its options is
/// `BadNumber`; anything else reports the line.
pub open spec fn member_fault(line: Seq<char>) -> Fault {
    let t = words(line);
    if t.len() > 1 && member_opts(t, 1) is BadNumber {
        Fault::BadNumber
    } else {
        Fault::Malformed(line)
    }
}

/// Why a line does not read where the listing so far is `m`.
pub open spec fn line_fault(m: ListModel, ks: Seq<DataKind>, line: Seq<char>) -> Fault {
    if m.items is None {
        header_fault(line)
    } else {
        member_fault_for(ks, line)
    }
}

/// `member_fault`, where the member itself reads; a member that does not
/// read reports the line.
pub open spec fn member_fault_for(ks: Seq<DataKind>, line: Seq<char>) -> Fault {
    let t = words(line);
    if t.len() > 0 && element_ok(ks, t[0]) {
        member_fault(line)
    } else {
        Fault::Malformed(line)
    }
}

/// Whether reading `line` takes the listing from `a` to `b`.
pub open spec fn line_step(a: ListModel, b: ListModel, ks: Seq<DataKind>, line: Seq<char>) -> bool {
    if a.items is None {
        header_line(a, line) == Some(b)
    } else {
        member_pushed(a, b, ks, line)
    }
}

/// The position of the first `:` of `s`, or its length.
fn colon_pos(s: &Vec<char>) -> (r: usize)
    ensures
        r == line_key(s@).len(),
        r <= s@.len(),
{
    let p = split_chars(s, ':');
    proof {
        lemma_split_first(s@, ':');
    }
    assert(p@[0]@ == split_spec(s@, ':')[0]);
    p[0].len()
}

/// The first piece of a split is a prefix of the text, ended by the
/// separator or by the end of the text.
pub proof fn lemma_split_first(s: Seq<char>, sep: char)
    ensures
        split_spec(s, sep).len() >= 1,
        split_spec(s, sep)[0].len() <= s.len(),
        split_spec(s, sep)[0] == s.subrange(0, split_spec(s, sep)[0].len() as int),
        split_spec(s, sep)[0].len() < s.len() ==> s[split_spec(s, sep)[0].len() as int] == sep,
        split_spec(s, sep).len() == 1 ==> split_spec(s, sep)[0] == s,
        split_spec(s, sep).len() > 1 ==> split_spec(s, sep)[0].len() < s.len(),
    decreases s.len(),
{
    if s.len() == 0 {
        assert(split_spec(s, sep)[0] =~= s);
    } else {
        let t = s.drop_last();
        lemma_split_first(t, sep);
        let p = split_spec(t, sep);
        let q = split_spec(s, sep);
        if s.last() == sep {
            if p.len() == 1 {
                assert(p[0] == t);
            }
            assert(q == p.push(Seq::<char>::empty()));
            assert(q[0] == p[0]);
            assert(t.subrange(0, p[0].len() as int) =~= s.subrange(0, p[0].len() as int));
            if p[0].len() < t.len() {
                assert(s[p[0].len() as int] == t[p[0].len() as int]);
            }
        } else if p.len() == 1 {
            assert(q[0] == p[0].push(s.last()));
            assert(q[0] =~= s);
            assert(s.subrange(0, s.len() as int) =~= s);
        } else {
            assert(q[0] == p[0]);
            assert(t.subrange(0, p[0].len() as int) =~= s.subrange(0, p[0].len() as int));
            assert(p[0].len() < t.len());
            assert(s[p[0].len() as int] == t[p[0].len() as int]);
        }
    }
}

impl NormalListResult {
    /// An empty listing.
    pub fn new() -> (r: Self)
        ensures
            r@ == empty_model(),
    {
        let r = NormalListResult {
            name: String::new(),
            typ: String::new(),
            revision: 0,
            header: ListHeader::default(),
            size_in_memory: 0,
            references: 0,
            entry_size: 0,
            items: None,
        };
        assert(r@.name =~= Seq::<char>::empty());
        r
    }

    /// Reads one line of a full listing of a set whose members have the data
    /// kinds `kinds`: a header line until `Members:` was read, a member line
    /// after it. A number that does not read gives `ParseInt`; any other line
    /// that does not read gives `InvalidOutput` with the line (with the value,
    /// for a `Header:` line). Either way the listing is left as it was.
    pub fn update_from_str(&mut self, kinds: &Vec<DataKind>, line: &str) -> (r: Result<(), Error>)
        requires
            kinds@.len() >= 1,
        ensures
            r is Ok == line_ok(old(self)@, kinds@, line@),
            r is Ok ==> line_step(old(self)@, final(self)@, kinds@, line@),
            r is Err ==> final(self)@ == old(self)@,
            r matches Err(e) ==> reports(e, line_fault(old(self)@, kinds@, line@)),
    {
        let cs = chars_of(line);
        if self.items.is_none() {
            let k = colon_pos(&cs);
            let key = slice_chars(&cs, 0, k);
            proof {
                lemma_split_first(line@, ':');
            }
            assert(key@ == line_key(line@));
            if chars_eq_str(&key, "Members") {
                self.items = Some(Vec::new());
                assert(self@.items->Some_0 =~= Seq::<(Seq<DataValue>, Option<Seq<OptionModel>>)>::empty());
                assert(self@ == header_line(old(self)@, line@)->Some_0);
                return Ok(());
            }
            if k >= cs.len() {
                return Err(Error::InvalidOutput(string_of(&cs)));
            }
            let raw = slice_chars(&cs, k + 1, cs.len());
            let value = trim_chars(&raw);
            assert(value@ == line_value(line@));
            if chars_eq_str(&key, "Name") {
                self.name = string_of(&value);
            } else if chars_eq_str(&key, "Type") {
                self.typ = string_of(&value);
            } else if chars_eq_str(&key, "Header") {
                let v = string_of(&value);
                match ListHeader::from_str(v.as_str()) {
                    Ok(h) => {
                        self.header = h;
                    },
                    Err(e) => {
                        return Err(e);
                    },
                }
            } else if chars_eq_str(&key, "Revision") {
                match parse_uint(&value, 0xffff_ffff) {
                    Some(v) => {
                        self.revision = v as u32;
                    },
                    None => {
                        return Err(Error::ParseInt);
                    },
                }
            } else if chars_eq_str(&key, "Size in memory") {
                match parse_uint(&value, 0xffff_ffff) {
                    Some(v) => {
                        self.size_in_memory = v as u32;
                    },
                    None => {
                        return Err(Error::ParseInt);
                    },
                }
            } else if chars_eq_str(&key, "References") {
                match parse_uint(&value, 0xffff_ffff) {
                    Some(v) => {
                        self.references = v as u32;
                    },
                    None => {
                        return Err(Error::ParseInt);
                    },
                }
            } else if chars_eq_str(&key, "Number of entries") {
                match parse_uint(&value, 0xffff_ffff) {
                    Some(v) => {
                        self.entry_size = v as u32;
                    },
                    None => {
                        return Err(Error::ParseInt);
                    },
                }
            } else {
                return Err(Error::InvalidOutput(string_of(&cs)));
            }
            assert(self@ =~= header_line(old(self)@, line@)->Some_0);
            Ok(())
        } else {
            let t = words_of(&cs);
            let ghost ts = words(line@);
            if t.len() == 0 {
                return Err(Error::InvalidOutput(string_of(&cs)));
            }
            assert(t@[0]@ == ts[0]);
            let first = string_of(&t[0]);
            let data = match Element::parse(kinds, first.as_str()) {
                Ok(e) => e,
                Err(_) => {
                    return Err(Error::InvalidOutput(string_of(&cs)));
                },
            };
            let mut add_options: Option<Vec<AddOption>> = None;
            if t.len() > 1 {
                match parse_member_opts(&t, Ghost(ts)) {
                    Ok(o) => {
                        add_options = Some(o);
                    },
                    Err(true) => {
                        return Err(Error::ParseInt);
                    },
                    Err(false) => {
                        return Err(Error::InvalidOutput(string_of(&cs)));
                    },
                }
            }
            let entry: Entry = (data, add_options);
            let ghost ev = entry_view(entry);
            let ghost before = old(self)@.items->Some_0;
            match &mut self.items {
                Some(items) => {
                    items.push(entry);
                },
                None => {},
            }
            assert(self@.items->Some_0 =~= before.push(ev));
            Ok(())
        }
    }
}

/// The result of a LIST command.
#[derive(Debug)]
pub enum ListResult {
    /// A full listing of the set.
    Normal(NormalListResult),
    /// Set names only.
    Terse(Vec<String>),
}

/// The non-empty pieces among `p`, in order.
pub open spec fn non_empty(p: Seq<Seq<char>>) -> Seq<Seq<char>>
    decreases p.len(),
{
    if p.len() == 0 {
        p
    } else if p.last().len() == 0 {
        non_empty(p.drop_last())
    } else {
        non_empty(p.drop_last()).push(p.last())
    }
}

/// The non-empty lines of the text chunks that the native library printed.
pub open spec fn output_lines(chunks: Seq<Seq<char>>) -> Seq<Seq<char>>
    decreases chunks.len(),
{
    if chunks.len() == 0 {
        Seq::empty()
    } else {
        output_lines(chunks.drop_last()) + non_empty(split_spec(chunks.last(), '\n'))
    }
}

pub open spec fn chunks_view(c: Seq<String>) -> Seq<Seq<char>> {
    c.map_values(|s: String| s@)
}

/// Whether `ms` is the run of listings that reading `lines` in order goes
/// through, from the empty listing on.
pub open spec fn listing_run(ks: Seq<DataKind>, lines: Seq<Seq<char>>, ms: Seq<ListModel>) -> bool {
    &&& ms.len() == lines.len() + 1
    &&& ms[0] == empty_model()
    &&& forall|i: int| 0 <= i < lines.len() ==> #[trigger] line_step(ms[i], ms[i + 1], ks, lines[i])
}

/// Splits the printed chunks into their non-empty lines.
pub fn lines_of_output(output: &Vec<String>) -> (r: Vec<Vec<char>>)
    ensures
        r@.len() == output_lines(chunks_view(output@)).len(),
        forall|k: int| 0 <= k < r@.len() ==> #[trigger] r@[k]@ == output_lines(chunks_view(output@))[k],
{
    let mut r: Vec<Vec<char>> = Vec::new();
    let mut c: usize = 0;
    while c < output.len()
        invariant
            c <= output.len(),
            r@.len() == output_lines(chunks_view(output@.subrange(0, c as int))).len(),
            forall|k: int|
                0 <= k < r@.len() ==> #[trigger] r@[k]@ == output_lines(
                    chunks_view(output@.subrange(0, c as int)),
                )[k],
        decreases output.len() - c,
    {
        let ghost before = output_lines(chunks_view(output@.subrange(0, c as int)));
        assert(chunks_view(output@.subrange(0, c + 1)).drop_last() =~= chunks_view(
            output@.subrange(0, c as int),
        ));
        let cs = chars_of(output[c].as_str());
        let pieces = split_chars(&cs, '\n');
        let ghost ps = split_spec(cs@, '\n');
        let mut j: usize = 0;
        while j < pieces.len()
            invariant
                j <= pieces.len(),
                ps == split_spec(cs@, '\n'),
                pieces@.len() == ps.len(),
                forall|k: int| 0 <= k < pieces@.len() ==> #[trigger] pieces@[k]@ == ps[k],
                r@.len() == before.len() + non_empty(ps.subrange(0, j as int)).len(),
                forall|k: int|
                    0 <= k < r@.len() ==> #[trigger] r@[k]@ == (before + non_empty(
                        ps.subrange(0, j as int),
                    ))[k],
            decreases pieces.len() - j,
        {
            assert(ps.subrange(0, j + 1).drop_last() =~= ps.subrange(0, j as int));
            assert(pieces@[j as int]@ == ps[j as int]);
            if pieces[j].len() > 0 {
                let piece = slice_chars(&pieces[j], 0, pieces[j].len());
                r.push(piece);
            }
            j = j + 1;
        }
        assert(ps.subrange(0, pieces.len() as int) =~= ps);
        c = c + 1;
    }
    assert(output@.subrange(0, output.len() as int) =~= output@);
    r
}

/// Reads what a LIST command printed: in terse mode the non-empty lines are
/// set names; otherwise each non-empty line is read in turn into a full
/// listing, and the first line that does not read gives the error that
/// reports its fault.
pub fn parse_list_output(output: &Vec<String>, terse: bool, kinds: &Vec<DataKind>) -> (r: Result<
    ListResult,
    Error,
>)
    requires
        kinds@.len() >= 1,
    ensures
        terse ==> (r matches Ok(ListResult::Terse(names)) && chunks_view(names@) == output_lines(
            chunks_view(output@),
        )),
        !terse ==> (r is Ok ==> exists|ms: Seq<ListModel>|
            listing_run(kinds@, output_lines(chunks_view(output@)), ms) && (r matches Ok(
                ListResult::Normal(n),
            ) && n@ == ms.last())),
        !terse ==> (r matches Err(e) ==> exists|ms: Seq<ListModel>, j: int|
            0 <= j < output_lines(chunks_view(output@)).len() && listing_run(
                kinds@,
                output_lines(chunks_view(output@)).subrange(0, j),
                ms,
            ) && !line_ok(ms.last(), kinds@, output_lines(chunks_view(output@))[j]) && reports(
                e,
                line_fault(ms.last(), kinds@, output_lines(chunks_view(output@))[j]),
            )),
{
    let lines = lines_of_output(output);
    let ghost ls = output_lines(chunks_view(output@));
    if terse {
        let mut names: Vec<String> = Vec::new();
        let mut i: usize = 0;
        while i < lines.len()
            invariant
                i <= lines.len(),
                ls == output_lines(chunks_view(output@)),
                lines@.len() == ls.len(),
                forall|k: int| 0 <= k < lines@.len() ==> #[trigger] lines@[k]@ == ls[k],
                names@.len() == i,
                chunks_view(names@) == ls.subrange(0, i as int),
            decreases lines.len() - i,
        {
            assert(lines@[i as int]@ == ls[i as int]);
            let ghost before = names@;
            let name = string_of(&lines[i]);
            names.push(name);
            assert forall|k: int| 0 <= k < i + 1 implies #[trigger] chunks_view(names@)[k] == ls[k] by {
                if k < i {
                    assert(names@[k] == before[k]);
                    assert(chunks_view(before)[k] == ls.subrange(0, i as int)[k]);
                }
            }
            i = i + 1;
            assert(chunks_view(names@) =~= ls.subrange(0, i as int));
        }
        assert(ls.subrange(0, lines.len() as int) =~= ls);
        return Ok(ListResult::Terse(names));
    }
    let mut result = NormalListResult::new();
    let ghost mut ms: Seq<ListModel> = seq![empty_model()];
    let mut i: usize = 0;
    while i < lines.len()
        invariant
            kinds@.len() >= 1,
            !terse,
            i <= lines.len(),
            ls == output_lines(chunks_view(output@)),
            lines@.len() == ls.len(),
            forall|k: int| 0 <= k < lines@.len() ==> #[trigger] lines@[k]@ == ls[k],
            listing_run(kinds@, ls.subrange(0, i as int), ms),
            ms.last() == result@,
        decreases lines.len() - i,
    {
        assert(lines@[i as int]@ == ls[i as int]);
        let line = string_of(&lines[i]);
        match result.update_from_str(kinds, line.as_str()) {
            Ok(()) => {},
            Err(e) => {
                assert(!line_ok(ms.last(), kinds@, ls[i as int]));
                assert(0 <= i < ls.len() && listing_run(kinds@, ls.subrange(0, i as int), ms)
                    && !line_ok(ms.last(), kinds@, ls[i as int]) && reports(
                    e,
                    line_fault(ms.last(), kinds@, ls[i as int]),
                ));
                return Err(e);
            },
        }
        proof {
            let ms2 = ms.push(result@);
            assert forall|q: int| 0 <= q < i + 1 implies #[trigger] line_step(
                ms2[q],
                ms2[q + 1],
                kinds@,
                ls.subrange(0, i + 1)[q],
            ) by {
                if q < i {
                    assert(ls.subrange(0, i + 1)[q] == ls.subrange(0, i as int)[q]);
                    assert(line_step(ms[q], ms[q + 1], kinds@, ls.subrange(0, i as int)[q]));
                }
            }
            ms = ms2;
        }
        i = i + 1;
    }
    assert(ls.subrange(0, lines.len() as int) =~= ls);
    Ok(ListResult::Normal(result))
}

} // verus!
