//! IPv6 text: eight hexadecimal groups separated by `:`, with at most one
//! `::` standing for a run of zero groups.
use vstd::prelude::*;

use crate::data::{
    ipv4_parse, ipv4_text, lemma_concat_lacks, lemma_ipv4_round_trip, octet_ok, parse_ipv4,
    render_ipv4,
};
use crate::listing::lemma_split_first;
use crate::text::{
    all_hex, extend_chars, hex_char, hex_digit_value, hex_value, is_hex_digit, lemma_hex_char,
    lemma_split_append, lemma_split_nosep, parse_hex, slice_chars, split_chars, split_spec,
};

verus! {

/// The shortest lowercase hexadecimal text of `n`.
pub open spec fn hex_text(n: nat) -> Seq<char>
    decreases n,
{
    if n < 16 {
        seq![hex_char(n)]
    } else {
        hex_text(n / 16).push(hex_char(n % 16))
    }
}

/// The `i`-th 16-bit group of an address given as 16 bytes.
pub open spec fn seg(b: Seq<u8>, i: int) -> nat {
    b[2 * i] as nat * 256 + b[2 * i + 1] as nat
}

/// How many zero groups start at group `i`.
pub open spec fn zeros_from(b: Seq<u8>, i: int) -> nat
    decreases 8 - i,
{
    if 0 <= i < 8 && seg(b, i) == 0 {
        1 + zeros_from(b, i + 1)
    } else {
        0
    }
}

/// The first longest run of zero groups that starts before group `i`, as
/// its start and length.
pub open spec fn best_run(b: Seq<u8>, i: int) -> (int, nat)
    decreases i,
{
    if i <= 0 {
        (0, 0)
    } else {
        let prev = best_run(b, i - 1);
        if zeros_from(b, i - 1) > prev.1 {
            (i - 1, zeros_from(b, i - 1))
        } else {
            prev
        }
    }
}

/// Groups `from` up to `to` in hexadecimal, separated by `:`.
pub open spec fn groups_text(b: Seq<u8>, from: int, to: int) -> Seq<char>
    decreases to - from,
{
    if to <= from {
        Seq::empty()
    } else if to == from + 1 {
        hex_text(seg(b, from))
    } else {
        groups_text(b, from, to - 1) + seq![':'] + hex_text(seg(b, to - 1))
    }
}

/// The groups of an IPv6 address in text: the first longest run of two or
/// more zero groups is written `::`.
pub open spec fn ipv6_plain_text(b: Seq<u8>) -> Seq<char> {
    let (z, l) = best_run(b, 8);
    if l >= 2 {
        groups_text(b, 0, z) + seq![':', ':'] + groups_text(b, z + l, 8)
    } else {
        groups_text(b, 0, 8)
    }
}

/// Whether the address is an IPv4 address mapped into IPv6:
/// `::ffff:a.b.c.d`.
pub open spec fn is_v4_mapped(b: Seq<u8>) -> bool {
    &&& forall|i: int| 0 <= i < 10 ==> b[i] == 0
    &&& b[10] == 0xff
    &&& b[11] == 0xff
}

/// The text of an IPv6 address: an IPv4-mapped address is written
/// `::ffff:` and the IPv4 text; any other as its groups.
pub open spec fn ipv6_text(b: Seq<u8>) -> Seq<char> {
    if is_v4_mapped(b) {
        seq![':', ':', 'f', 'f', 'f', 'f', ':'] + ipv4_text(b.subrange(12, 16))
    } else {
        ipv6_plain_text(b)
    }
}

/// One group as written: one to four hexadecimal digits.
pub open spec fn group_ok(p: Seq<char>) -> bool {
    1 <= p.len() <= 4 && all_hex(p)
}

pub open spec fn groups_ok(p: Seq<Seq<char>>) -> bool {
    forall|k: int| 0 <= k < p.len() ==> group_ok(#[trigger] p[k])
}

pub open spec fn group_values(p: Seq<Seq<char>>) -> Seq<nat> {
    p.map_values(|g: Seq<char>| hex_value(g))
}

/// The groups on one side of a `::`: none where that side is empty.
pub open spec fn half_groups(s: Seq<char>) -> Seq<Seq<char>> {
    if s.len() == 0 {
        Seq::empty()
    } else {
        split_spec(s, ':')
    }
}

/// The first position from `i` on where `::` starts, or -1.
pub open spec fn find_dc(s: Seq<char>, i: int) -> int
    decreases s.len() - i,
{
    if i < 0 || i + 1 >= s.len() {
        -1
    } else if s[i] == ':' && s[i + 1] == ':' {
        i
    } else {
        find_dc(s, i + 1)
    }
}

/// The two group values of an IPv4 address written at the end of IPv6 text.
pub open spec fn v4_groups(a: Seq<u8>) -> Seq<nat> {
    seq![a[0] as nat * 256 + a[1] as nat, a[2] as nat * 256 + a[3] as nat]
}

/// The group values of a colon-separated run of groups; its last piece may
/// be IPv4 text, which stands for two groups.
pub open spec fn run_values(s: Seq<char>) -> Option<Seq<nat>> {
    let p = split_spec(s, ':');
    if ipv4_parse(p.last()) is Some {
        if groups_ok(p.drop_last()) {
            Some(group_values(p.drop_last()) + v4_groups(ipv4_parse(p.last())->Some_0))
        } else {
            None
        }
    } else if groups_ok(p) {
        Some(group_values(p))
    } else {
        None
    }
}

/// The group values after a `::`: none where nothing follows it.
pub open spec fn tail_values(s: Seq<char>) -> Option<Seq<nat>> {
    if s.len() == 0 {
        Some(Seq::empty())
    } else {
        run_values(s)
    }
}

/// The eight group values that `s` denotes, if it is IPv6 text.
pub open spec fn ipv6_groups(s: Seq<char>) -> Option<Seq<nat>> {
    let d = find_dc(s, 0);
    if d < 0 {
        match run_values(s) {
            Some(g) => if g.len() == 8 {
                Some(g)
            } else {
                None
            },
            None => None,
        }
    } else {
        let h = half_groups(s.subrange(0, d));
        let t = tail_values(s.subrange(d + 2, s.len() as int));
        if groups_ok(h) && t is Some && h.len() + t->Some_0.len() <= 7 {
            Some(
                group_values(h) + Seq::new(
                    (8 - h.len() - t->Some_0.len()) as nat,
                    |i: int| 0nat,
                ) + t->Some_0,
            )
        } else {
            None
        }
    }
}

/// The bytes, in network order, of eight group values.
pub open spec fn groups_bytes(g: Seq<nat>) -> Seq<u8> {
    Seq::new(
        16,
        |i: int|
            if i % 2 == 0 {
                (g[i / 2] / 256) as u8
            } else {
                (g[i / 2] % 256) as u8
            },
    )
}

/// What reading `s` as an IPv6 address gives.
pub open spec fn ipv6_parse(s: Seq<char>) -> Option<Seq<u8>> {
    match ipv6_groups(s) {
        Some(g) => Some(groups_bytes(g)),
        None => None,
    }
}

/// The shortest lowercase hexadecimal text of `n`.
fn hex_chars(n: u16) -> (r: Vec<char>)
    ensures
        r@ == hex_text(n as nat),
    decreases n,
{
    let d = (n % 16) as u8;
    let c = if d < 10 { (d + 48) as char } else { (d + 87) as char };
    if n < 16 {
        vec![c]
    } else {
        let mut r = hex_chars(n / 16);
        r.push(c);
        r
    }
}

pub open spec fn u16s_view(v: Seq<u16>) -> Seq<nat> {
    v.map_values(|x: u16| x as nat)
}

/// Reads the first `n` pieces as groups.
fn parse_groups_n(p: &Vec<Vec<char>>, n: usize, Ghost(ps): Ghost<Seq<Seq<char>>>) -> (r: Option<
    Vec<u16>,
>)
    requires
        n <= p@.len() == ps.len(),
        forall|k: int| 0 <= k < p@.len() ==> #[trigger] p@[k]@ == ps[k],
    ensures
        r matches Some(v) ==> groups_ok(ps.subrange(0, n as int)) && u16s_view(v@) == group_values(
            ps.subrange(0, n as int),
        ),
        r is None ==> !groups_ok(ps.subrange(0, n as int)),
{
    let ghost qs = ps.subrange(0, n as int);
    let mut v: Vec<u16> = Vec::new();
    let mut i: usize = 0;
    while i < n
        invariant
            i <= n <= p@.len() == ps.len(),
            qs == ps.subrange(0, n as int),
            forall|k: int| 0 <= k < p@.len() ==> #[trigger] p@[k]@ == ps[k],
            v@.len() == i,
            forall|k: int| 0 <= k < i ==> group_ok(#[trigger] qs[k]),
            forall|k: int| 0 <= k < i ==> v@[k] as nat == hex_value(#[trigger] qs[k]),
        decreases n - i,
    {
        assert(p@[i as int]@ == ps[i as int]);
        assert(qs[i as int] == ps[i as int]);
        if p[i].len() == 0 || p[i].len() > 4 {
            assert(!group_ok(qs[i as int]));
            assert(!groups_ok(qs));
            return None;
        }
        match parse_hex(&p[i], 0xffff) {
            Some(x) => {
                v.push(x as u16);
            },
            None => {
                proof {
                    if all_hex(qs[i as int]) {
                        lemma_hex_value_bound(qs[i as int]);
                    }
                }
                assert(!group_ok(qs[i as int]));
                assert(!groups_ok(qs));
                return None;
            },
        }
        i = i + 1;
    }
    assert(u16s_view(v@) =~= group_values(qs));
    Some(v)
}

/// Reads the groups of one colon-separated run without IPv4 text.
fn parse_groups(s: &Vec<char>) -> (r: Option<Vec<u16>>)
    ensures
        r matches Some(v) ==> groups_ok(split_spec(s@, ':')) && u16s_view(v@) == group_values(
            split_spec(s@, ':'),
        ),
        r is None ==> !groups_ok(split_spec(s@, ':')),
{
    let p = split_chars(s, ':');
    let ghost ps = split_spec(s@, ':');
    assert(ps.subrange(0, p.len() as int) =~= ps);
    parse_groups_n(&p, p.len(), Ghost(ps))
}

/// Reads a colon-separated run of groups that may end in IPv4 text.
fn parse_run(s: &Vec<char>) -> (r: Option<Vec<u16>>)
    ensures
        r matches Some(v) ==> run_values(s@) == Some(u16s_view(v@)),
        r is None ==> run_values(s@) is None,
{
    let p = split_chars(s, ':');
    let ghost ps = split_spec(s@, ':');
    let n = p.len() - 1;
    assert(p@[n as int]@ == ps.last());
    match parse_ipv4(&p[n]) {
        Some(a) => {
            assert(ps.drop_last() =~= ps.subrange(0, n as int));
            let mut v = match parse_groups_n(&p, n, Ghost(ps)) {
                Some(v) => v,
                None => {
                    return None;
                },
            };
            let ghost before = u16s_view(v@);
            v.push(a[0] as u16 * 256 + a[1] as u16);
            v.push(a[2] as u16 * 256 + a[3] as u16);
            assert(u16s_view(v@) =~= before + v4_groups(a@));
            Some(v)
        },
        None => {
            assert(ps.subrange(0, p.len() as int) =~= ps);
            parse_groups_n(&p, p.len(), Ghost(ps))
        },
    }
}

/// Four hexadecimal digits never exceed 0xffff.
proof fn lemma_hex_value_bound(s: Seq<char>)
    requires
        s.len() <= 4,
        all_hex(s),
    ensures
        hex_value(s) < pow16(s.len()),
        hex_value(s) <= 0xffff,
    decreases s.len(),
{
    if s.len() > 0 {
        let t = s.drop_last();
        assert(all_hex(t)) by {
            assert forall|i: int| 0 <= i < t.len() implies is_hex_digit(#[trigger] t[i]) by {
                assert(t[i] == s[i]);
            }
        }
        lemma_hex_value_bound(t);
        assert(is_hex_digit(s[s.len() - 1]));
        assert(hex_digit_value(s.last()) < 16);
        assert(hex_value(s) < pow16(s.len())) by (nonlinear_arith)
            requires
                hex_value(s) == hex_value(t) * 16 + hex_digit_value(s.last()),
                hex_value(t) < pow16(t.len()),
                hex_digit_value(s.last()) < 16,
                pow16(s.len()) == pow16(t.len()) * 16,
        ;
    }
    assert(pow16(4) == 0x10000) by {
        reveal_with_fuel(pow16, 5);
    }
    lemma_pow16_mono(s.len(), 4);
}

pub open spec fn pow16(n: nat) -> nat
    decreases n,
{
    if n == 0 {
        1
    } else {
        pow16((n - 1) as nat) * 16
    }
}

proof fn lemma_pow16_mono(a: nat, b: nat)
    requires
        a <= b,
    ensures
        pow16(a) <= pow16(b),
    decreases b - a,
{
    if a < b {
        lemma_pow16_mono(a, (b - 1) as nat);
    }
}

/// Reads an IPv6 address.
pub fn parse_ipv6(s: &Vec<char>) -> (r: Option<[u8; 16]>)
    ensures
        r matches Some(b) ==> ipv6_parse(s@) == Some(b@),
        r is None ==> ipv6_parse(s@) is None,
{
    // find the first `::`
    let mut d: usize = 0;
    let mut found = false;
    while !found && s.len() > 1 && d < s.len() - 1
        invariant
            d <= s.len(),
            find_dc(s@, 0) == (if found {
                d as int
            } else {
                find_dc(s@, d as int)
            }),
            found ==> d + 1 < s.len(),
        decreases s.len() - d + (if found {
            0int
        } else {
            1int
        }),
    {
        if s[d] == ':' && s[d + 1] == ':' {
            found = true;
        } else {
            d = d + 1;
        }
    }
    let mut g: Vec<u16> = Vec::new();
    let ghost want: Seq<nat>;
    if !found {
        assert(find_dc(s@, 0) == -1);
        let v = match parse_run(s) {
            Some(v) => v,
            None => {
                return None;
            },
        };
        if v.len() != 8 {
            return None;
        }
        g = v;
        proof {
            want = u16s_view(g@);
        }
        assert forall|k: int| 0 <= k < g@.len() implies g@[k] as nat == #[trigger] want[k] by {}
    } else {
        assert(find_dc(s@, 0) == d);
        let head = slice_chars(s, 0, d);
        let tail = slice_chars(s, d + 2, s.len());
        let h = if head.len() == 0 {
            Vec::new()
        } else {
            match parse_groups(&head) {
                Some(v) => v,
                None => {
                    return None;
                },
            }
        };
        let t = if tail.len() == 0 {
            Vec::new()
        } else {
            match parse_run(&tail) {
                Some(v) => v,
                None => {
                    return None;
                },
            }
        };
        let ghost hg = half_groups(head@);
        let ghost hv = group_values(hg);
        let ghost tv = tail_values(tail@)->Some_0;
        assert(head.len() == 0 ==> hg =~= Seq::<Seq<char>>::empty());
        assert(h@.len() == hv.len()) by {
            if head.len() == 0 {
                assert(h@.len() == 0);
            } else {
                assert(u16s_view(h@).len() == h@.len());
            }
        }
        assert(t@.len() == tv.len()) by {
            if tail.len() != 0 {
                assert(u16s_view(t@).len() == t@.len());
            }
        }
        if h.len() > 7 || t.len() > 7 - h.len() {
            return None;
        }
        let ghost zeros = Seq::new((8 - hv.len() - tv.len()) as nat, |i: int| 0nat);
        proof {
            want = hv + zeros + tv;
        }
        assert forall|k: int| 0 <= k < h@.len() implies h@[k] as nat == hv[k] by {
            assert(u16s_view(h@)[k] == h@[k] as nat);
        }
        assert forall|k: int| 0 <= k < t@.len() implies t@[k] as nat == tv[k] by {
            assert(u16s_view(t@)[k] == t@[k] as nat);
        }
        let mut i: usize = 0;
        while i < h.len()
            invariant
                i <= h.len(),
                g@.len() == i,
                forall|k: int| 0 <= k < i ==> g@[k] as nat == #[trigger] want[k],
                h@.len() == hv.len(),
                forall|k: int| 0 <= k < h@.len() ==> h@[k] as nat == hv[k],
                want == hv + zeros + tv,
            decreases h.len() - i,
        {
            g.push(h[i]);
            i = i + 1;
        }
        let n0 = 8 - h.len() - t.len();
        let mut j: usize = 0;
        while j < n0
            invariant
                j <= n0,
                n0 == 8 - h.len() - t.len(),
                g@.len() == h.len() + j,
                forall|k: int| 0 <= k < g@.len() ==> g@[k] as nat == #[trigger] want[k],
                h@.len() == hv.len(),
                t@.len() == tv.len(),
                zeros.len() == n0,
                forall|q: int| 0 <= q < zeros.len() ==> #[trigger] zeros[q] == 0nat,
                want == hv + zeros + tv,
            decreases n0 - j,
        {
            assert(want[(h.len() + j) as int] == zeros[j as int]);
            assert(zeros[j as int] == 0nat);
            g.push(0);
            j = j + 1;
        }
        let mut k2: usize = 0;
        while k2 < t.len()
            invariant
                k2 <= t.len(),
                g@.len() == 8 - t.len() + k2,
                forall|k: int| 0 <= k < g@.len() ==> g@[k] as nat == #[trigger] want[k],
                h@.len() == hv.len(),
                t@.len() == tv.len(),
                zeros.len() == 8 - h.len() - t.len(),
                forall|k: int| 0 <= k < t@.len() ==> t@[k] as nat == tv[k],
                want == hv + zeros + tv,
            decreases t.len() - k2,
        {
            g.push(t[k2]);
            k2 = k2 + 1;
        }
    }
    assert(g@.len() == 8);
    assert(ipv6_groups(s@) == Some(want));
    let b = [
        (g[0] / 256) as u8,
        (g[0] % 256) as u8,
        (g[1] / 256) as u8,
        (g[1] % 256) as u8,
        (g[2] / 256) as u8,
        (g[2] % 256) as u8,
        (g[3] / 256) as u8,
        (g[3] % 256) as u8,
        (g[4] / 256) as u8,
        (g[4] % 256) as u8,
        (g[5] / 256) as u8,
        (g[5] % 256) as u8,
        (g[6] / 256) as u8,
        (g[6] % 256) as u8,
        (g[7] / 256) as u8,
        (g[7] % 256) as u8,
    ];
    assert(b@ =~= groups_bytes(want));
    Some(b)
}

/// The text of an IPv6 address.
pub fn render_ipv6(b: &[u8; 16]) -> (r: Vec<char>)
    ensures
        r@ == ipv6_text(b@),
{
    let mut mapped = b[10] == 0xff && b[11] == 0xff;
    let mut i: usize = 0;
    while i < 10
        invariant
            i <= 10,
            mapped == (b@[10] == 0xff && b@[11] == 0xff && forall|j: int| 0 <= j < i ==> b@[j] == 0),
        decreases 10 - i,
    {
        if b[i] != 0 {
            mapped = false;
        }
        i = i + 1;
    }
    if mapped {
        let mut r = vec![':', ':', 'f', 'f', 'f', 'f', ':'];
        let a = [b[12], b[13], b[14], b[15]];
        assert(a@ =~= b@.subrange(12, 16));
        let t = render_ipv4(&a);
        extend_chars(&mut r, &t);
        assert(r@ =~= ipv6_text(b@));
        r
    } else {
        render_plain(b)
    }
}

/// The groups of an IPv6 address in text.
fn render_plain(b: &[u8; 16]) -> (r: Vec<char>)
    ensures
        r@ == ipv6_plain_text(b@),
{
    let ghost bs = b@;
    let mut segs: Vec<u16> = Vec::new();
    let mut i: usize = 0;
    while i < 8
        invariant
            i <= 8,
            bs == b@,
            segs@.len() == i,
            forall|k: int| 0 <= k < i ==> segs@[k] as nat == #[trigger] seg(bs, k),
        decreases 8 - i,
    {
        segs.push(b[2 * i] as u16 * 256 + b[2 * i + 1] as u16);
        i = i + 1;
    }
    // zero-run lengths, from the last group back
    let mut runs: Vec<usize> = vec![0, 0, 0, 0, 0, 0, 0, 0];
    let mut j: usize = 8;
    while j > 0
        invariant
            j <= 8,
            runs@.len() == 8,
            segs@.len() == 8,
            forall|k: int| 0 <= k < 8 ==> segs@[k] as nat == #[trigger] seg(bs, k),
            forall|k: int| j <= k < 8 ==> runs@[k] as nat == #[trigger] zeros_from(bs, k),
            forall|k: int| j <= k < 8 ==> runs@[k] <= 8 - k,
        decreases j,
    {
        j = j - 1;
        assert(zeros_from(bs, 8) == 0);
        assert(zeros_from(bs, j as int) == if seg(bs, j as int) == 0 {
            1 + zeros_from(bs, j + 1)
        } else {
            0
        });
        if segs[j] == 0 {
            let next: usize = if j + 1 < 8 { runs[j + 1] } else { 0 };
            runs.set(j, next + 1);
        } else {
            runs.set(j, 0);
        }
    }
    let mut z: usize = 0;
    let mut l: usize = 0;
    let mut k: usize = 0;
    while k < 8
        invariant
            k <= 8,
            runs@.len() == 8,
            forall|q: int| 0 <= q < 8 ==> runs@[q] as nat == #[trigger] zeros_from(bs, q),
            best_run(bs, k as int) == (z as int, l as nat),
            z < 8,
        decreases 8 - k,
    {
        if runs[k] > l {
            z = k;
            l = runs[k];
        }
        k = k + 1;
    }
    if l >= 2 {
        proof {
            lemma_best_run(bs, 8);
            lemma_zeros_bound(bs, z as int);
        }
        let mut r = groups_chars(&segs, 0, z, Ghost(bs));
        r.push(':');
        r.push(':');
        let t = groups_chars(&segs, z + l, 8, Ghost(bs));
        extend_chars(&mut r, &t);
        r
    } else {
        groups_chars(&segs, 0, 8, Ghost(bs))
    }
}

proof fn lemma_best_run(b: Seq<u8>, i: int)
    requires
        0 <= i <= 8,
    ensures
        0 <= best_run(b, i).0 < 8,
        best_run(b, i).1 == 0 || best_run(b, i).1 == zeros_from(b, best_run(b, i).0),
    decreases i,
{
    if i > 0 {
        lemma_best_run(b, i - 1);
    }
}

proof fn lemma_zeros_bound(b: Seq<u8>, i: int)
    requires
        0 <= i <= 8,
    ensures
        i + zeros_from(b, i) <= 8,
    decreases 8 - i,
{
    if i < 8 {
        lemma_zeros_bound(b, i + 1);
    }
}

fn groups_chars(segs: &Vec<u16>, from: usize, to: usize, Ghost(bs): Ghost<Seq<u8>>) -> (r: Vec<char>)
    requires
        from <= to <= 8,
        segs@.len() == 8,
        forall|k: int| 0 <= k < 8 ==> segs@[k] as nat == #[trigger] seg(bs, k),
    ensures
        r@ == groups_text(bs, from as int, to as int),
{
    let mut r: Vec<char> = Vec::new();
    if from == to {
        return r;
    }
    r = hex_chars(segs[from]);
    let mut i: usize = from + 1;
    while i < to
        invariant
            from < i <= to <= 8,
            segs@.len() == 8,
            forall|k: int| 0 <= k < 8 ==> segs@[k] as nat == #[trigger] seg(bs, k),
            r@ == groups_text(bs, from as int, i as int),
        decreases to - i,
    {
        r.push(':');
        let h = hex_chars(segs[i]);
        extend_chars(&mut r, &h);
        i = i + 1;
    }
    r
}

/// The hexadecimal text of a 16-bit value is one group that reads back as
/// the value.
proof fn lemma_hex_text(v: nat)
    requires
        v < 0x10000,
    ensures
        group_ok(hex_text(v)),
        hex_value(hex_text(v)) == v,
        !hex_text(v).contains(':'),
        !hex_text(v).contains('.'),
{
    assert(pow16(4) == 0x10000) by {
        reveal_with_fuel(pow16, 5);
    }
    lemma_hex_text_gen(v, 4);
}

proof fn lemma_hex_text_gen(v: nat, k: nat)
    requires
        k >= 1,
        v < pow16(k),
    ensures
        1 <= hex_text(v).len() <= k,
        all_hex(hex_text(v)),
        hex_value(hex_text(v)) == v,
        !hex_text(v).contains(':'),
        !hex_text(v).contains('.'),
    decreases v,
{
    let t = hex_text(v);
    lemma_hex_char(v % 16);
    if v < 16 {
        assert(t.drop_last() =~= Seq::<char>::empty());
        assert(hex_value(t.drop_last()) == 0);
        assert(t[0] == hex_char(v % 16));
    } else {
        assert(k >= 2) by {
            if k == 1 {
                assert(pow16(1) == 16) by {
                    reveal_with_fuel(pow16, 2);
                }
            }
        }
        let k1 = (k - 1) as nat;
        assert(pow16(k) == pow16(k1) * 16);
        assert(v / 16 < pow16(k1)) by (nonlinear_arith)
            requires
                v < pow16(k1) * 16,
        ;
        lemma_hex_text_gen(v / 16, k1);
        assert(t.drop_last() == hex_text(v / 16));
        assert(t.last() == hex_char(v % 16));
        assert(hex_value(t) == (v / 16) * 16 + v % 16);
        assert forall|i: int| 0 <= i < t.len() implies is_hex_digit(#[trigger] t[i]) by {
            if i < t.len() - 1 {
                assert(t[i] == hex_text(v / 16)[i]);
            }
        }
    }
    if t.contains(':') {
        let i = choose|i: int| 0 <= i < t.len() && t[i] == ':';
        assert(is_hex_digit(t[i]));
    }
    if t.contains('.') {
        let i = choose|i: int| 0 <= i < t.len() && t[i] == '.';
        assert(is_hex_digit(t[i]));
    }
}

/// No `::` starts at any position from `i` on.
pub open spec fn no_dc_from(s: Seq<char>, i: int) -> bool {
    forall|j: int| i <= j && j + 1 < s.len() ==> !(s[j] == ':' && #[trigger] s[j + 1] == ':')
}

proof fn lemma_find_dc_none(s: Seq<char>, i: int)
    requires
        0 <= i,
        no_dc_from(s, i),
    ensures
        find_dc(s, i) == -1,
    decreases s.len() - i,
{
    if i + 1 < s.len() {
        lemma_find_dc_none(s, i + 1);
    }
}

proof fn lemma_find_dc_at(s: Seq<char>, i: int, d: int)
    requires
        0 <= i <= d,
        d + 1 < s.len(),
        s[d] == ':' && s[d + 1] == ':',
        forall|j: int| i <= j < d ==> !(s[j] == ':' && #[trigger] s[j + 1] == ':'),
    ensures
        find_dc(s, i) == d,
    decreases d - i,
{
    if i < d {
        lemma_find_dc_at(s, i + 1, d);
    }
}

/// The pieces of the text of groups `from` up to `to`.
pub open spec fn group_texts(b: Seq<u8>, from: int, to: int) -> Seq<Seq<char>> {
    Seq::new((to - from) as nat, |i: int| hex_text(seg(b, from + i)))
}

proof fn lemma_seg_bound(b: Seq<u8>, i: int)
    requires
        b.len() == 16,
        0 <= i < 8,
    ensures
        seg(b, i) < 0x10000,
{
}

/// The text of groups splits at `:` into the groups' texts, starts and ends
/// with a digit, and holds no `::`.
proof fn lemma_groups_text(b: Seq<u8>, from: int, to: int)
    requires
        b.len() == 16,
        0 <= from < to <= 8,
    ensures
        split_spec(groups_text(b, from, to), ':') == group_texts(b, from, to),
        groups_text(b, from, to).len() >= 1,
        groups_text(b, from, to)[0] != ':',
        groups_text(b, from, to).last() != ':',
        no_dc_from(groups_text(b, from, to), 0),
    decreases to - from,
{
    let g = groups_text(b, from, to);
    lemma_seg_bound(b, to - 1);
    let h = hex_text(seg(b, to - 1));
    lemma_hex_text(seg(b, to - 1));
    assert(h[h.len() - 1] == h.last());
    if to == from + 1 {
        lemma_split_nosep(h, ':');
        assert(group_texts(b, from, to) =~= seq![h]);
        assert(h[0] != ':');
        assert(h.last() != ':');
    } else {
        lemma_groups_text(b, from, to - 1);
        let p = groups_text(b, from, to - 1);
        lemma_split_append(p, h, ':');
        assert(group_texts(b, from, to) =~= group_texts(b, from, to - 1).push(h));
        assert(g == p + seq![':'] + h);
        assert(g[0] == p[0]);
        assert(g.last() == h.last());
        assert forall|j: int| 0 <= j && j + 1 < g.len() implies !(g[j] == ':' && #[trigger] g[j
            + 1] == ':') by {
            if j + 1 < p.len() {
                assert(g[j] == p[j] && g[j + 1] == p[j + 1]);
            } else if j + 1 == p.len() {
                assert(g[j] == p.last());
            } else if j == p.len() {
                assert(g[j + 1] == h[0]);
            } else {
                assert(g[j] == h[j - p.len() - 1]);
                assert(!h.contains(':'));
            }
        }
    }
}

proof fn lemma_zero_run(b: Seq<u8>, z: int, k: int)
    requires
        0 <= z,
        0 <= k < zeros_from(b, z),
    ensures
        seg(b, z + k) == 0,
    decreases k,
{
    if k > 0 {
        lemma_zero_run(b, z + 1, k - 1);
    }
}

proof fn lemma_group_values(b: Seq<u8>, from: int, to: int)
    requires
        b.len() == 16,
        0 <= from <= to <= 8,
    ensures
        groups_ok(group_texts(b, from, to)),
        group_values(group_texts(b, from, to)) =~= Seq::new(
            (to - from) as nat,
            |i: int| seg(b, from + i),
        ),
{
    assert forall|i: int| 0 <= i < to - from implies group_ok(#[trigger] group_texts(b, from, to)[i])
        && hex_value(group_texts(b, from, to)[i]) == seg(b, from + i) by {
        lemma_seg_bound(b, from + i);
        lemma_hex_text(seg(b, from + i));
    }
}

proof fn lemma_bytes_of_segs(b: Seq<u8>, g: Seq<nat>)
    requires
        b.len() == 16,
        g.len() == 8,
        forall|i: int| 0 <= i < 8 ==> #[trigger] g[i] == seg(b, i),
    ensures
        groups_bytes(g) == b,
{
    assert forall|i: int| 0 <= i < 16 implies #[trigger] groups_bytes(g)[i] == b[i] by {
        let q = i / 2;
        assert(g[q] == seg(b, q));
        if i % 2 == 0 {
            assert(i == 2 * q);
            assert((b[2 * q] as nat * 256 + b[2 * q + 1] as nat) / 256 == b[2 * q] as nat);
        } else {
            assert(i == 2 * q + 1);
            assert((b[2 * q] as nat * 256 + b[2 * q + 1] as nat) % 256 == b[2 * q + 1] as nat);
        }
    }
    assert(groups_bytes(g) =~= b);
}

/// An IPv6 address reads back from its text, which no IPv4 reader takes.
pub proof fn lemma_ipv6_round_trip(b: Seq<u8>)
    requires
        b.len() == 16,
    ensures
        ipv6_parse(ipv6_text(b)) == Some(b),
        ipv4_parse(ipv6_text(b)) is None,
        !ipv6_text(b).contains(' '),
        !ipv6_text(b).contains('/'),
{
    if is_v4_mapped(b) {
        lemma_mapped_round_trip(b);
    } else {
        lemma_plain_round_trip(b);
        lemma_split_nosep(ipv6_plain_text(b), '.');
    }
}

/// A mapped IPv4 address reads back from its text.
proof fn lemma_mapped_round_trip(b: Seq<u8>)
    requires
        b.len() == 16,
        is_v4_mapped(b),
    ensures
        ipv6_parse(ipv6_text(b)) == Some(b),
        ipv4_parse(ipv6_text(b)) is None,
        !ipv6_text(b).contains(' '),
        !ipv6_text(b).contains('/'),
{
    let a = b.subrange(12, 16);
    let v4 = ipv4_text(a);
    let pre = seq![':', ':', 'f', 'f', 'f', 'f', ':'];
    let s = pre + v4;
    assert(s == ipv6_text(b));
    lemma_ipv4_round_trip(a);
    lemma_find_dc_at(s, 0, 0);
    assert(s.subrange(0, 0) =~= Seq::<char>::empty());
    let f = seq!['f', 'f', 'f', 'f'];
    let tail = s.subrange(2, s.len() as int);
    assert(tail =~= f + seq![':'] + v4);
    assert(!f.contains(':')) by {
        if f.contains(':') {
            let i = choose|i: int| 0 <= i < f.len() && f[i] == ':';
            assert(f[i] == 'f');
        }
    }
    lemma_split_nosep(f, ':');
    lemma_split_append(f, v4, ':');
    let p = split_spec(tail, ':');
    assert(p =~= seq![f, v4]);
    assert(p.drop_last() =~= seq![f]);
    assert(group_ok(f));
    assert(hex_value(f) == 0xffff) by {
        reveal_with_fuel(hex_value, 5);
        assert(f.drop_last() =~= seq!['f', 'f', 'f']);
        assert(f.drop_last().drop_last() =~= seq!['f', 'f']);
        assert(f.drop_last().drop_last().drop_last() =~= seq!['f']);
        assert(f.drop_last().drop_last().drop_last().drop_last() =~= Seq::<char>::empty());
    }
    assert(groups_ok(p.drop_last()));
    let tv = group_values(p.drop_last()) + v4_groups(a);
    assert(tail_values(tail) == Some(tv));
    assert(half_groups(s.subrange(0, 0)) =~= Seq::<Seq<char>>::empty());
    let g = ipv6_groups(s)->Some_0;
    assert(ipv6_groups(s) is Some);
    assert forall|i: int| 0 <= i < 8 implies #[trigger] g[i] == seg(b, i) by {
        assert(b[2 * i] == b[2 * i] && b[2 * i + 1] == b[2 * i + 1]);
        if i >= 6 {
            assert(a[2 * i - 12] == b[2 * i]);
            assert(a[2 * i - 11] == b[2 * i + 1]);
        }
    }
    lemma_bytes_of_segs(b, g);
    // the IPv4 reader stops at the first `.`, and that piece starts with `:`
    lemma_split_first(s, '.');
    let q = split_spec(s, '.');
    assert(s[0] == ':');
    assert(q[0].len() > 0);
    assert(q[0][0] == ':');
    assert(!octet_ok(q[0]));
    assert(!pre.contains(' ') && !pre.contains('/')) by {
        if pre.contains(' ') {
            let i = choose|i: int| 0 <= i < pre.len() && pre[i] == ' ';
        }
        if pre.contains('/') {
            let i = choose|i: int| 0 <= i < pre.len() && pre[i] == '/';
        }
    }
    lemma_concat_lacks(pre, v4, ' ');
    lemma_concat_lacks(pre, v4, '/');
}

/// The groups of an IPv6 address read back from their text.
proof fn lemma_plain_round_trip(b: Seq<u8>)
    requires
        b.len() == 16,
        !is_v4_mapped(b),
    ensures
        ipv6_parse(ipv6_plain_text(b)) == Some(b),
        !ipv6_plain_text(b).contains('.'),
        !ipv6_text(b).contains(' '),
        !ipv6_text(b).contains('/'),
{
    let (z, l) = best_run(b, 8);
    lemma_best_run(b, 8);
    lemma_zeros_bound(b, z);
    let s = ipv6_plain_text(b);
    if l >= 2 {
        let g1 = groups_text(b, 0, z);
        let g2 = groups_text(b, z + l, 8);
        assert(s == g1 + seq![':', ':'] + g2);
        let d = g1.len() as int;
        if z > 0 {
            lemma_groups_text(b, 0, z);
        }
        if z + l < 8 {
            lemma_groups_text(b, z + l, 8);
        }
        assert(s[d] == ':' && s[d + 1] == ':');
        assert forall|j: int| 0 <= j < d implies !(s[j] == ':' && #[trigger] s[j + 1] == ':') by {
            if j + 1 < d {
                assert(s[j] == g1[j] && s[j + 1] == g1[j + 1]);
            } else {
                assert(s[j] == g1.last());
            }
        }
        lemma_find_dc_at(s, 0, d);
        assert(s.subrange(0, d) =~= g1);
        assert(s.subrange(d + 2, s.len() as int) =~= g2);
        let h = half_groups(g1);
        let t = half_groups(g2);
        lemma_group_values(b, 0, z);
        lemma_group_values(b, z + l, 8);
        if z == 0 {
            assert(g1.len() == 0);
            assert(h =~= group_texts(b, 0, z));
        } else {
            assert(h == group_texts(b, 0, z));
        }
        if z + l == 8 {
            assert(g2.len() == 0);
            assert(t =~= group_texts(b, z + l, 8));
            assert(tail_values(g2) == Some(group_values(t)));
        } else {
            assert(t == group_texts(b, z + l, 8));
            lemma_run_of_groups(b, z + l, 8);
            assert(tail_values(g2) == Some(group_values(t)));
        }
        let g = group_values(h) + Seq::new((8 - h.len() - t.len()) as nat, |i: int| 0nat)
            + group_values(t);
        assert(ipv6_groups(s) == Some(g));
        assert forall|i: int| 0 <= i < 8 implies #[trigger] g[i] == seg(b, i) by {
            if z <= i < z + l {
                lemma_zero_run(b, z, i - z);
            }
        }
        lemma_bytes_of_segs(b, g);
    } else {
        lemma_groups_text(b, 0, 8);
        lemma_find_dc_none(s, 0);
        lemma_group_values(b, 0, 8);
        lemma_run_of_groups(b, 0, 8);
        let g = group_values(group_texts(b, 0, 8));
        assert(ipv6_groups(s) == Some(g));
        lemma_bytes_of_segs(b, g);
    }
    lemma_plain_text_chars(b);
}

/// A run of groups without IPv4 text reads as the groups' values.
proof fn lemma_run_of_groups(b: Seq<u8>, from: int, to: int)
    requires
        b.len() == 16,
        0 <= from < to <= 8,
    ensures
        run_values(groups_text(b, from, to)) == Some(group_values(group_texts(b, from, to))),
{
    lemma_groups_text(b, from, to);
    lemma_group_values(b, from, to);
    let p = group_texts(b, from, to);
    lemma_seg_bound(b, to - 1);
    let h = hex_text(seg(b, to - 1));
    lemma_hex_text(seg(b, to - 1));
    assert(p.last() == h);
    lemma_split_nosep(h, '.');
    assert(ipv4_parse(h) is None);
}

proof fn lemma_plain_text_chars(b: Seq<u8>)
    requires
        b.len() == 16,
    ensures
        !ipv6_plain_text(b).contains('.'),
        !ipv6_plain_text(b).contains(' '),
        !ipv6_plain_text(b).contains('/'),
{
    let s = ipv6_plain_text(b);
    assert forall|i: int| 0 <= i < s.len() implies #[trigger] text_char(s[i]) by {
        lemma_text_chars(b, 0, 8);
        let (z, l) = best_run(b, 8);
        lemma_best_run(b, 8);
        lemma_zeros_bound(b, z);
        if l >= 2 {
            lemma_text_chars(b, 0, z);
            lemma_text_chars(b, z + l, 8);
            let g1 = groups_text(b, 0, z);
            let g2 = groups_text(b, z + l, 8);
            if i < g1.len() {
                assert(s[i] == g1[i]);
            } else if i >= g1.len() + 2 {
                assert(s[i] == g2[i - g1.len() - 2]);
            }
        }
    }
    assert forall|c: char| !text_char(c) implies !s.contains(c) by {
        if s.contains(c) {
            let i = choose|i: int| 0 <= i < s.len() && s[i] == c;
            assert(text_char(s[i]));
        }
    }
    assert(!text_char('.') && !text_char(' ') && !text_char('/'));
}

/// A character that IPv6 text may hold.
pub open spec fn text_char(c: char) -> bool {
    c == ':' || is_hex_digit(c)
}

proof fn lemma_text_chars(b: Seq<u8>, from: int, to: int)
    requires
        b.len() == 16,
        0 <= from <= to <= 8,
    ensures
        forall|i: int|
            0 <= i < groups_text(b, from, to).len() ==> text_char(
                #[trigger] groups_text(b, from, to)[i],
            ),
    decreases to - from,
{
    if to > from {
        lemma_seg_bound(b, to - 1);
        let h = hex_text(seg(b, to - 1));
        lemma_hex_text(seg(b, to - 1));
        assert forall|i: int| 0 <= i < h.len() implies text_char(#[trigger] h[i]) by {
            assert(is_hex_digit(h[i]));
        }
        if to > from + 1 {
            lemma_text_chars(b, from, to - 1);
            let p = groups_text(b, from, to - 1);
            let g = groups_text(b, from, to);
            assert(g == p + seq![':'] + h);
            assert forall|i: int| 0 <= i < g.len() implies text_char(#[trigger] g[i]) by {
                if i < p.len() {
                    assert(g[i] == p[i]);
                } else if i > p.len() {
                    assert(g[i] == h[i - p.len() - 1]);
                }
            }
        }
    }
}

} // verus!
