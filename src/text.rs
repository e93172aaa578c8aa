//! Character-level helpers shared by the parsers and renderers.
//!
//! Text is handled as `Vec<char>` inside the library; each helper is
//! specified over `Seq<char>`.
use vstd::prelude::*;

verus! {

pub open spec fn is_digit(c: char) -> bool {
    '0' <= c && c <= '9'
}

/// The value of an ASCII decimal digit.
pub open spec fn digit_value(c: char) -> nat {
    ((c as int) - ('0' as int)) as nat
}

pub open spec fn all_digits(s: Seq<char>) -> bool {
    forall|i: int| 0 <= i < s.len() ==> is_digit(#[trigger] s[i])
}

/// The number that a string of decimal digits denotes.
pub open spec fn dec_value(s: Seq<char>) -> nat
    decreases s.len(),
{
    if s.len() == 0 {
        0
    } else {
        dec_value(s.drop_last()) * 10 + digit_value(s.last())
    }
}

/// What parsing `s` as an unsigned decimal number no larger than `max` gives.
pub open spec fn dec_parse(s: Seq<char>, max: nat) -> Option<nat> {
    if s.len() > 0 && all_digits(s) && dec_value(s) <= max {
        Some(dec_value(s))
    } else {
        None
    }
}

pub open spec fn digit_char(d: nat) -> char
    recommends
        d < 10,
{
    ((48 + d) as u8) as char
}

/// The shortest decimal text of `n`.
pub open spec fn dec_text(n: nat) -> Seq<char>
    decreases n,
{
    if n < 10 {
        seq![digit_char(n)]
    } else {
        dec_text(n / 10).push(digit_char(n % 10))
    }
}

pub open spec fn is_hex_digit(c: char) -> bool {
    ('0' <= c && c <= '9') || ('a' <= c && c <= 'f') || ('A' <= c && c <= 'F')
}

pub open spec fn hex_digit_value(c: char) -> nat {
    if '0' <= c && c <= '9' {
        ((c as int) - ('0' as int)) as nat
    } else if 'a' <= c && c <= 'f' {
        ((c as int) - ('a' as int) + 10) as nat
    } else {
        ((c as int) - ('A' as int) + 10) as nat
    }
}

pub open spec fn all_hex(s: Seq<char>) -> bool {
    forall|i: int| 0 <= i < s.len() ==> is_hex_digit(#[trigger] s[i])
}

/// The number that a string of hexadecimal digits denotes.
pub open spec fn hex_value(s: Seq<char>) -> nat
    decreases s.len(),
{
    if s.len() == 0 {
        0
    } else {
        hex_value(s.drop_last()) * 16 + hex_digit_value(s.last())
    }
}

/// What parsing `s` as an unsigned hexadecimal number no larger than `max` gives.
pub open spec fn hex_parse(s: Seq<char>, max: nat) -> Option<nat> {
    if s.len() > 0 && all_hex(s) && hex_value(s) <= max {
        Some(hex_value(s))
    } else {
        None
    }
}

pub open spec fn hex_char(d: nat) -> char
    recommends
        d < 16,
{
    if d < 10 {
        ((48 + d) as u8) as char
    } else {
        ((87 + d) as u8) as char
    }
}

/// Two lowercase hexadecimal digits of a byte.
pub open spec fn hex2_text(b: nat) -> Seq<char> {
    seq![hex_char(b / 16), hex_char(b % 16)]
}

/// The pieces of `s` between occurrences of `sep`, empty pieces included.
pub open spec fn split_spec(s: Seq<char>, sep: char) -> Seq<Seq<char>>
    decreases s.len(),
{
    if s.len() == 0 {
        seq![Seq::<char>::empty()]
    } else {
        let p = split_spec(s.drop_last(), sep);
        if s.last() == sep {
            p.push(Seq::<char>::empty())
        } else {
            p.update(p.len() - 1, p.last().push(s.last()))
        }
    }
}

pub open spec fn is_space(c: char) -> bool {
    c == ' ' || c == '\t' || c == '\n' || c == '\r' || c == '\x0c'
}

/// The maximal runs of non-space characters of `s`, in order.
pub open spec fn words(s: Seq<char>) -> Seq<Seq<char>>
    decreases s.len(),
{
    if s.len() == 0 {
        Seq::empty()
    } else {
        let w = words(s.drop_last());
        let c = s.last();
        if is_space(c) {
            w
        } else if s.len() > 1 && !is_space(s[s.len() - 2]) {
            w.update(w.len() - 1, w.last().push(c))
        } else {
            w.push(seq![c])
        }
    }
}

/// `s` without its leading and trailing spaces.
pub open spec fn trim_start(s: Seq<char>) -> Seq<char>
    decreases s.len(),
{
    if s.len() > 0 && is_space(s[0]) {
        trim_start(s.drop_first())
    } else {
        s
    }
}

pub open spec fn trim_end(s: Seq<char>) -> Seq<char>
    decreases s.len(),
{
    if s.len() > 0 && is_space(s.last()) {
        trim_end(s.drop_last())
    } else {
        s
    }
}

pub open spec fn trim(s: Seq<char>) -> Seq<char> {
    trim_end(trim_start(s))
}

/// `m` occurs in `s` as a contiguous piece.
pub open spec fn contains_seq(s: Seq<char>, m: Seq<char>) -> bool {
    exists|i: int| 0 <= i && i + m.len() <= s.len() && #[trigger] s.subrange(i, i + m.len()) == m
}

/// Relies on `String::push`: the character is appended at the end.
#[verifier::external_body]
pub(crate) fn push_char(s: &mut String, c: char)
    ensures
        final(s)@ == old(s)@.push(c),
{
    s.push(c)
}

/// The characters of `s`, in order.
pub fn chars_of(s: &str) -> (r: Vec<char>)
    ensures
        r@ == s@,
{
    let n = s.unicode_len();
    let mut r: Vec<char> = Vec::new();
    let mut i: usize = 0;
    while i < n
        invariant
            n == s@.len(),
            i <= n,
            r@ == s@.subrange(0, i as int),
        decreases n - i,
    {
        let c = s.get_char(i);
        r.push(c);
        i = i + 1;
        assert(r@ =~= s@.subrange(0, i as int));
    }
    assert(r@ =~= s@);
    r
}

/// A `String` holding the given characters.
pub fn string_of(v: &Vec<char>) -> (r: String)
    ensures
        r@ == v@,
{
    let mut r = String::new();
    let mut i: usize = 0;
    while i < v.len()
        invariant
            i <= v.len(),
            r@ == v@.subrange(0, i as int),
        decreases v.len() - i,
    {
        push_char(&mut r, v[i]);
        i = i + 1;
        assert(r@ =~= v@.subrange(0, i as int));
    }
    assert(r@ =~= v@);
    r
}

/// Appends the characters of `b` to `a`.
pub fn extend_chars(a: &mut Vec<char>, b: &Vec<char>)
    ensures
        final(a)@ == old(a)@ + b@,
{
    let mut i: usize = 0;
    while i < b.len()
        invariant
            i <= b.len(),
            a@ == old(a)@ + b@.subrange(0, i as int),
        decreases b.len() - i,
    {
        a.push(b[i]);
        i = i + 1;
        assert(a@ =~= old(a)@ + b@.subrange(0, i as int));
    }
    assert(b@.subrange(0, b.len() as int) =~= b@);
}

/// The characters of `v` from `from` up to `to`.
pub fn slice_chars(v: &Vec<char>, from: usize, to: usize) -> (r: Vec<char>)
    requires
        from <= to <= v.len(),
    ensures
        r@ == v@.subrange(from as int, to as int),
{
    let mut r: Vec<char> = Vec::new();
    let mut i: usize = from;
    while i < to
        invariant
            from <= i <= to <= v.len(),
            r@ == v@.subrange(from as int, i as int),
        decreases to - i,
    {
        r.push(v[i]);
        i = i + 1;
        assert(r@ =~= v@.subrange(from as int, i as int));
    }
    r
}

/// Whether two character sequences are equal.
pub fn chars_eq(a: &Vec<char>, b: &Vec<char>) -> (r: bool)
    ensures
        r == (a@ == b@),
{
    if a.len() != b.len() {
        return false;
    }
    let mut i: usize = 0;
    while i < a.len()
        invariant
            a.len() == b.len(),
            i <= a.len(),
            forall|j: int| 0 <= j < i ==> a@[j] == b@[j],
        decreases a.len() - i,
    {
        if a[i] != b[i] {
            return false;
        }
        i = i + 1;
    }
    assert(a@ =~= b@);
    true
}

/// Whether `v` equals the characters of `s`.
pub fn chars_eq_str(v: &Vec<char>, s: &str) -> (r: bool)
    ensures
        r == (v@ == s@),
{
    let t = chars_of(s);
    chars_eq(v, &t)
}

pub fn is_space_char(c: char) -> (r: bool)
    ensures
        r == is_space(c),
{
    c == ' ' || c == '\t' || c == '\n' || c == '\r' || c == '\x0c'
}

/// Splits `s` at every `sep`.
pub fn split_chars(s: &Vec<char>, sep: char) -> (r: Vec<Vec<char>>)
    ensures
        r@.len() == split_spec(s@, sep).len(),
        r@.len() >= 1,
        forall|k: int| 0 <= k < r@.len() ==> #[trigger] r@[k]@ == split_spec(s@, sep)[k],
{
    let mut pieces: Vec<Vec<char>> = Vec::new();
    let mut cur: Vec<char> = Vec::new();
    let mut i: usize = 0;
    while i < s.len()
        invariant
            i <= s.len(),
            pieces@.len() + 1 == split_spec(s@.subrange(0, i as int), sep).len(),
            forall|k: int|
                0 <= k < pieces@.len() ==> #[trigger] pieces@[k]@ == split_spec(
                    s@.subrange(0, i as int),
                    sep,
                )[k],
            cur@ == split_spec(s@.subrange(0, i as int), sep).last(),
        decreases s.len() - i,
    {
        let ghost pre = s@.subrange(0, i as int);
        let c = s[i];
        assert(s@.subrange(0, i + 1).drop_last() =~= pre);
        if c == sep {
            pieces.push(cur);
            cur = Vec::new();
            assert(cur@ =~= Seq::<char>::empty());
        } else {
            cur.push(c);
        }
        i = i + 1;
    }
    assert(s@.subrange(0, s.len() as int) =~= s@);
    pieces.push(cur);
    pieces
}

/// Splits `s` into its maximal runs of non-space characters.
pub fn words_of(s: &Vec<char>) -> (r: Vec<Vec<char>>)
    ensures
        r@.len() == words(s@).len(),
        forall|k: int| 0 <= k < r@.len() ==> #[trigger] r@[k]@ == words(s@)[k],
{
    let mut out: Vec<Vec<char>> = Vec::new();
    let mut cur: Vec<char> = Vec::new();
    let mut i: usize = 0;
    while i < s.len()
        invariant
            i <= s.len(),
            ({
                let w = words(s@.subrange(0, i as int));
                &&& cur@.len() == 0 ==> out@.len() == w.len()
                &&& cur@.len() > 0 ==> out@.len() + 1 == w.len() && cur@ == w.last()
                &&& forall|k: int| 0 <= k < out@.len() ==> #[trigger] out@[k]@ == w[k]
                &&& (cur@.len() > 0) == (i > 0 && !is_space(s@[i - 1]))
            }),
        decreases s.len() - i,
    {
        let ghost pre = s@.subrange(0, i as int);
        assert(s@.subrange(0, i + 1).drop_last() =~= pre);
        let c = s[i];
        if is_space_char(c) {
            if cur.len() > 0 {
                out.push(cur);
                cur = Vec::new();
            }
        } else {
            cur.push(c);
            assert(cur@.len() > 1 ==> s@.subrange(0, i + 1)[i - 1] == s@[i - 1]);
        }
        i = i + 1;
    }
    assert(s@.subrange(0, s.len() as int) =~= s@);
    if cur.len() > 0 {
        out.push(cur);
    }
    out
}

/// `s` without leading and trailing spaces.
pub fn trim_chars(s: &Vec<char>) -> (r: Vec<char>)
    ensures
        r@ == trim(s@),
{
    let mut a: usize = 0;
    assert(s@.subrange(0, s.len() as int) =~= s@);
    while a < s.len() && is_space_char(s[a])
        invariant
            a <= s.len(),
            trim_start(s@) == trim_start(s@.subrange(a as int, s.len() as int)),
        decreases s.len() - a,
    {
        assert(s@.subrange(a as int, s.len() as int).drop_first() =~= s@.subrange(
            a + 1,
            s.len() as int,
        ));
        a = a + 1;
    }
    let ghost t = s@.subrange(a as int, s.len() as int);
    assert(trim_start(t) == t);
    let mut b: usize = s.len();
    while b > a && is_space_char(s[b - 1])
        invariant
            a <= b <= s.len(),
            trim_end(t) == trim_end(s@.subrange(a as int, b as int)),
        decreases b,
    {
        assert(s@.subrange(a as int, b as int).drop_last() =~= s@.subrange(a as int, b - 1));
        b = b - 1;
    }
    slice_chars(s, a, b)
}

/// Whether `m` occurs in `s`.
pub fn contains_chars(s: &Vec<char>, m: &Vec<char>) -> (r: bool)
    ensures
        r == contains_seq(s@, m@),
{
    if m.len() > s.len() {
        return false;
    }
    let mut i: usize = 0;
    while i <= s.len() - m.len()
        invariant
            m.len() <= s.len(),
            i <= s.len() - m.len() + 1,
            forall|j: int| 0 <= j < i ==> #[trigger] s@.subrange(j, j + m.len()) != m@,
        decreases s.len() - i,
    {
        let mut k: usize = 0;
        let mut same = true;
        while k < m.len()
            invariant
                i + m.len() <= s.len(),
                k <= m.len(),
                same == (forall|j: int| 0 <= j < k ==> s@[i + j] == m@[j]),
            decreases m.len() - k,
        {
            if s[i + k] != m[k] {
                same = false;
            }
            k = k + 1;
        }
        if same {
            assert(s@.subrange(i as int, i + m.len()) =~= m@);
            return true;
        }
        assert(s@.subrange(i as int, i + m.len())[0] == s@[i as int] || m.len() == 0);
        assert(!(s@.subrange(i as int, i + m.len()) =~= m@));
        i = i + 1;
    }
    false
}

/// Parses an unsigned decimal number no larger than `max`.
pub fn parse_dec(s: &Vec<char>, max: u64) -> (r: Option<u64>)
    ensures
        r matches Some(v) ==> dec_parse(s@, max as nat) == Some(v as nat),
        r is None ==> dec_parse(s@, max as nat) is None,
{
    if s.len() == 0 {
        return None;
    }
    let mut v: u64 = 0;
    let mut i: usize = 0;
    while i < s.len()
        invariant
            0 < s.len(),
            i <= s.len(),
            all_digits(s@.subrange(0, i as int)),
            v as nat == dec_value(s@.subrange(0, i as int)),
            v <= max,
        decreases s.len() - i,
    {
        let c = s[i];
        assert(s@.subrange(0, i + 1).drop_last() =~= s@.subrange(0, i as int));
        if !('0' <= c && c <= '9') {
            assert(!all_digits(s@)) by {
                assert(!is_digit(s@[i as int]));
            }
            return None;
        }
        let d: u64 = (c as u32 - '0' as u32) as u64;
        if d > max || v > (max - d) / 10 {
            let ghost w = dec_value(s@.subrange(0, i + 1));
            assert(w == v * 10 + d);
            assert(w > max) by (nonlinear_arith)
                requires
                    w == v * 10 + d,
                    d > max || v > (max - d) / 10,
            ;
            proof {
                lemma_dec_value_prefix_le(s@, i as int + 1);
            }
            return None;
        }
        v = v * 10 + d;
        i = i + 1;
        assert(all_digits(s@.subrange(0, i as int))) by {
            assert forall|j: int| 0 <= j < i implies is_digit(
                #[trigger] s@.subrange(0, i as int)[j],
            ) by {
                if j < i - 1 {
                    assert(s@.subrange(0, i as int)[j] == s@.subrange(0, i - 1)[j]);
                }
            }
        }
    }
    assert(s@.subrange(0, s.len() as int) =~= s@);
    Some(v)
}

/// A prefix of a digit string never denotes more than the whole string.
pub proof fn lemma_dec_value_prefix_le(s: Seq<char>, n: int)
    requires
        0 <= n <= s.len(),
    ensures
        dec_value(s.subrange(0, n)) <= dec_value(s),
    decreases s.len() - n,
{
    if n < s.len() {
        lemma_dec_value_prefix_le(s, n + 1);
        assert(s.subrange(0, n + 1).drop_last() =~= s.subrange(0, n));
    } else {
        assert(s.subrange(0, n) =~= s);
    }
}

/// Parses an unsigned hexadecimal number no larger than `max`.
pub fn parse_hex(s: &Vec<char>, max: u64) -> (r: Option<u64>)
    ensures
        r matches Some(v) ==> hex_parse(s@, max as nat) == Some(v as nat),
        r is None ==> hex_parse(s@, max as nat) is None,
{
    if s.len() == 0 {
        return None;
    }
    let mut v: u64 = 0;
    let mut i: usize = 0;
    while i < s.len()
        invariant
            0 < s.len(),
            i <= s.len(),
            all_hex(s@.subrange(0, i as int)),
            v as nat == hex_value(s@.subrange(0, i as int)),
            v <= max,
        decreases s.len() - i,
    {
        let c = s[i];
        assert(s@.subrange(0, i + 1).drop_last() =~= s@.subrange(0, i as int));
        let d: u64;
        if '0' <= c && c <= '9' {
            d = (c as u32 - '0' as u32) as u64;
        } else if 'a' <= c && c <= 'f' {
            d = (c as u32 - 'a' as u32 + 10) as u64;
        } else if 'A' <= c && c <= 'F' {
            d = (c as u32 - 'A' as u32 + 10) as u64;
        } else {
            assert(!all_hex(s@)) by {
                assert(!is_hex_digit(s@[i as int]));
            }
            return None;
        }
        if d > max || v > (max - d) / 16 {
            let ghost w = hex_value(s@.subrange(0, i + 1));
            assert(w == v * 16 + d);
            assert(w > max) by (nonlinear_arith)
                requires
                    w == v * 16 + d,
                    d > max || v > (max - d) / 16,
            ;
            proof {
                lemma_hex_value_prefix_le(s@, i as int + 1);
            }
            return None;
        }
        v = v * 16 + d;
        i = i + 1;
        assert(all_hex(s@.subrange(0, i as int))) by {
            assert forall|j: int| 0 <= j < i implies is_hex_digit(
                #[trigger] s@.subrange(0, i as int)[j],
            ) by {
                if j < i - 1 {
                    assert(s@.subrange(0, i as int)[j] == s@.subrange(0, i - 1)[j]);
                }
            }
        }
    }
    assert(s@.subrange(0, s.len() as int) =~= s@);
    Some(v)
}

/// A prefix of a hexadecimal string never denotes more than the whole string.
pub proof fn lemma_hex_value_prefix_le(s: Seq<char>, n: int)
    requires
        0 <= n <= s.len(),
    ensures
        hex_value(s.subrange(0, n)) <= hex_value(s),
    decreases s.len() - n,
{
    if n < s.len() {
        lemma_hex_value_prefix_le(s, n + 1);
        assert(s.subrange(0, n + 1).drop_last() =~= s.subrange(0, n));
    } else {
        assert(s.subrange(0, n) =~= s);
    }
}

/// The decimal text of `n`.
pub fn dec_chars(n: u64) -> (r: Vec<char>)
    ensures
        r@ == dec_text(n as nat),
    decreases n,
{
    if n < 10 {
        let c = (n as u8 + 48u8) as char;
        vec![c]
    } else {
        let mut r = dec_chars(n / 10);
        let c = ((n % 10) as u8 + 48u8) as char;
        r.push(c);
        r
    }
}

/// Two lowercase hexadecimal digits of `b`.
pub fn hex2_chars(b: u8) -> (r: Vec<char>)
    ensures
        r@ == hex2_text(b as nat),
{
    let hi = b / 16;
    let lo = b % 16;
    let c1 = if hi < 10 { (hi + 48) as char } else { (hi + 87) as char };
    let c2 = if lo < 10 { (lo + 48) as char } else { (lo + 87) as char };
    let r = vec![c1, c2];
    assert(r@ =~= hex2_text(b as nat));
    r
}

pub proof fn lemma_digit_char(d: nat)
    requires
        d < 10,
    ensures
        is_digit(digit_char(d)),
        digit_value(digit_char(d)) == d,
{
    assert((((48 + d) as u8) as char) as int == 48 + d);
}

pub proof fn lemma_hex_char(d: nat)
    requires
        d < 16,
    ensures
        is_hex_digit(hex_char(d)),
        hex_digit_value(hex_char(d)) == d,
{
    if d < 10 {
        assert((((48 + d) as u8) as char) as int == 48 + d);
    } else {
        assert((((87 + d) as u8) as char) as int == 87 + d);
    }
}

/// Decimal text reads back as the number it was made from.
pub proof fn lemma_dec_round_trip(n: nat)
    ensures
        all_digits(dec_text(n)),
        dec_value(dec_text(n)) == n,
        dec_text(n).len() > 0,
    decreases n,
{
    if n < 10 {
        let t = dec_text(n);
        lemma_digit_char(n);
        assert(t.drop_last() =~= Seq::<char>::empty());
        assert(dec_value(t.drop_last()) == 0);
        assert(t.last() == digit_char(n));
    } else {
        lemma_dec_round_trip(n / 10);
        lemma_digit_char(n % 10);
        let t = dec_text(n);
        assert(t.drop_last() =~= dec_text(n / 10));
        assert(t.last() == digit_char(n % 10));
        assert(dec_value(t) == dec_value(t.drop_last()) * 10 + digit_value(t.last()));
        assert(dec_value(t) == (n / 10) * 10 + n % 10);
        assert forall|i: int| 0 <= i < t.len() implies is_digit(#[trigger] t[i]) by {
            if i < t.len() - 1 {
                assert(t[i] == dec_text(n / 10)[i]);
            }
        }
    }
}

/// Decimal text holds no character other than digits.
pub proof fn lemma_dec_text_digits(n: nat, c: char)
    requires
        !is_digit(c),
    ensures
        !dec_text(n).contains(c),
{
    lemma_dec_round_trip(n);
    if dec_text(n).contains(c) {
        let i = choose|i: int| 0 <= i < dec_text(n).len() && dec_text(n)[i] == c;
        assert(is_digit(dec_text(n)[i]));
    }
}

/// Hexadecimal pairs read back as the byte they were made from.
pub proof fn lemma_hex2_round_trip(b: nat)
    requires
        b < 256,
    ensures
        hex_parse(hex2_text(b), 255) == Some(b),
{
    let t = hex2_text(b);
    assert(t.drop_last() =~= seq![hex_char(b / 16)]);
    assert(t.drop_last().drop_last() =~= Seq::<char>::empty());
    lemma_hex_char(b / 16);
    lemma_hex_char(b % 16);
    assert(hex_value(t.drop_last().drop_last()) == 0);
    assert(hex_value(t.drop_last()) == hex_digit_value(hex_char(b / 16)));
    assert(hex_value(t) == (b / 16) * 16 + b % 16);
    assert(all_hex(t));
}

/// Text without the separator splits into itself alone.
pub proof fn lemma_split_nosep(y: Seq<char>, sep: char)
    requires
        !y.contains(sep),
    ensures
        split_spec(y, sep) == seq![y],
    decreases y.len(),
{
    if y.len() == 0 {
        assert(y =~= Seq::<char>::empty());
        assert(split_spec(y, sep) =~= seq![y]);
    } else {
        let t = y.drop_last();
        assert(!t.contains(sep)) by {
            if t.contains(sep) {
                let i = choose|i: int| 0 <= i < t.len() && t[i] == sep;
                assert(y[i] == sep);
            }
        }
        lemma_split_nosep(t, sep);
        assert(y.last() != sep) by {
            assert(y[y.len() - 1] == y.last());
        }
        assert(y.drop_last() == t);
        assert(split_spec(y, sep) == split_spec(t, sep).update(0, split_spec(t, sep).last().push(y.last())));
        assert(t.push(y.last()) =~= y);
        assert(split_spec(y, sep) =~= seq![y]);
    }
}

/// Splitting `x`, a separator and a piece without separator gives the
/// pieces of `x` and then that piece.
pub proof fn lemma_split_append(x: Seq<char>, y: Seq<char>, sep: char)
    requires
        !y.contains(sep),
    ensures
        split_spec(x + seq![sep] + y, sep) == split_spec(x, sep).push(y),
    decreases y.len(),
{
    let s = x + seq![sep] + y;
    if y.len() == 0 {
        assert(y =~= Seq::<char>::empty());
        assert(s.drop_last() =~= x);
        assert(s.last() == sep);
        assert(split_spec(s, sep) == split_spec(x, sep).push(Seq::<char>::empty()));
    } else {
        let t = y.drop_last();
        assert(!t.contains(sep)) by {
            if t.contains(sep) {
                let i = choose|i: int| 0 <= i < t.len() && t[i] == sep;
                assert(y[i] == sep);
            }
        }
        lemma_split_append(x, t, sep);
        assert(s.drop_last() =~= x + seq![sep] + t);
        assert(s.last() == y.last());
        assert(y.last() != sep) by {
            assert(y[y.len() - 1] == y.last());
        }
        assert(t.push(y.last()) =~= y);
        let p = split_spec(x, sep).push(t);
        assert(split_spec(s, sep) == p.update(p.len() - 1, p.last().push(s.last())));
        assert(split_spec(s, sep) =~= split_spec(x, sep).push(y));
    }
}

/// A digit string without a leading zero is the decimal text of its value.
pub proof fn lemma_dec_text_of_value(p: Seq<char>)
    requires
        p.len() >= 1,
        all_digits(p),
        p.len() == 1 || p[0] != '0',
    ensures
        dec_text(dec_value(p)) == p,
    decreases p.len(),
{
    let c = p.last();
    assert(is_digit(p[p.len() - 1]));
    let d = digit_value(c);
    assert(d < 10);
    assert(digit_char(d) == c) by {
        assert(((48 + d) as u8) as char == c);
    }
    if p.len() == 1 {
        assert(p.drop_last() =~= Seq::<char>::empty());
        assert(dec_value(p.drop_last()) == 0);
        assert(dec_value(p) == d);
        assert(dec_text(d) =~= p);
    } else {
        let q = p.drop_last();
        assert(all_digits(q)) by {
            assert forall|i: int| 0 <= i < q.len() implies is_digit(#[trigger] q[i]) by {
                assert(q[i] == p[i]);
            }
        }
        assert(q[0] == p[0]);
        lemma_dec_text_of_value(q);
        lemma_dec_value_lead(q);
        let v = dec_value(p);
        assert(v == dec_value(q) * 10 + d);
        assert(v / 10 == dec_value(q) && v % 10 == d) by (nonlinear_arith)
            requires
                v == dec_value(q) * 10 + d,
                d < 10,
        ;
        assert(dec_text(v) == dec_text(v / 10).push(digit_char(v % 10)));
        assert(dec_text(v) =~= p);
    }
}

/// A digit string without a leading zero and of two or more digits
/// denotes at least 1.
proof fn lemma_dec_value_lead(q: Seq<char>)
    requires
        q.len() >= 1,
        all_digits(q),
        q[0] != '0',
    ensures
        dec_value(q) >= 1,
    decreases q.len(),
{
    if q.len() == 1 {
        assert(q.drop_last() =~= Seq::<char>::empty());
        assert(is_digit(q[0]));
    } else {
        let t = q.drop_last();
        assert(all_digits(t)) by {
            assert forall|i: int| 0 <= i < t.len() implies is_digit(#[trigger] t[i]) by {
                assert(t[i] == q[i]);
            }
        }
        assert(t[0] == q[0]);
        lemma_dec_value_lead(t);
    }
}

/// The pieces joined again by the separator.
pub open spec fn join_spec(p: Seq<Seq<char>>, sep: char) -> Seq<char>
    decreases p.len(),
{
    if p.len() == 0 {
        Seq::empty()
    } else if p.len() == 1 {
        p[0]
    } else {
        join_spec(p.drop_last(), sep) + seq![sep] + p.last()
    }
}

/// Joining the pieces of a split gives the text back.
pub proof fn lemma_join_split(s: Seq<char>, sep: char)
    ensures
        join_spec(split_spec(s, sep), sep) == s,
    decreases s.len(),
{
    if s.len() == 0 {
        assert(join_spec(split_spec(s, sep), sep) =~= s);
    } else {
        let t = s.drop_last();
        lemma_join_split(t, sep);
        let p = split_spec(t, sep);
        lemma_split_len(t, sep);
        if s.last() == sep {
            assert(split_spec(s, sep).drop_last() =~= p);
            assert(join_spec(split_spec(s, sep), sep) =~= s);
        } else {
            let q = split_spec(s, sep);
            if p.len() == 1 {
                assert(q == p.update(0, p[0].push(s.last())));
                assert(q.len() == 1);
                assert(join_spec(p, sep) == p[0]);
                assert(join_spec(q, sep) == q[0]);
                assert(join_spec(q, sep) =~= s);
            } else {
                assert(q == p.update(p.len() - 1, p.last().push(s.last())));
                assert(q.drop_last() =~= p.drop_last());
                assert(q.last() == p.last().push(s.last()));
                assert(join_spec(p, sep) == join_spec(p.drop_last(), sep) + seq![sep] + p.last());
                assert(join_spec(q, sep) == join_spec(p.drop_last(), sep) + seq![sep] + p.last().push(
                    s.last(),
                ));
                assert(s == t.push(s.last()));
                assert(join_spec(q, sep) =~= s);
            }
        }
    }
}

proof fn lemma_split_len(s: Seq<char>, sep: char)
    ensures
        split_spec(s, sep).len() >= 1,
    decreases s.len(),
{
    if s.len() > 0 {
        lemma_split_len(s.drop_last(), sep);
    }
}

/// `s` without one leading `+`: unsigned numbers may be written with it.
pub open spec fn unsigned_digits(s: Seq<char>) -> Seq<char> {
    if s.len() > 0 && s[0] == '+' {
        s.drop_first()
    } else {
        s
    }
}

/// What parsing `s` as an unsigned decimal number, optionally signed `+`,
/// no larger than `max` gives.
pub open spec fn uint_parse(s: Seq<char>, max: nat) -> Option<nat> {
    dec_parse(unsigned_digits(s), max)
}

/// What parsing `s` as an unsigned hexadecimal number, optionally signed
/// `+`, no larger than `max` gives.
pub open spec fn uhex_parse(s: Seq<char>, max: nat) -> Option<nat> {
    hex_parse(unsigned_digits(s), max)
}

fn unsigned_part(s: &Vec<char>) -> (r: Vec<char>)
    ensures
        r@ == unsigned_digits(s@),
{
    if s.len() > 0 && s[0] == '+' {
        let r = slice_chars(s, 1, s.len());
        assert(r@ =~= s@.drop_first());
        r
    } else {
        slice_chars(s, 0, s.len())
    }
}

/// Parses an unsigned decimal number, optionally signed `+`, no larger
/// than `max`.
pub fn parse_uint(s: &Vec<char>, max: u64) -> (r: Option<u64>)
    ensures
        r matches Some(v) ==> uint_parse(s@, max as nat) == Some(v as nat),
        r is None ==> uint_parse(s@, max as nat) is None,
{
    let d = unsigned_part(s);
    parse_dec(&d, max)
}

/// Parses an unsigned hexadecimal number, optionally signed `+`, no larger
/// than `max`.
pub fn parse_uhex(s: &Vec<char>, max: u64) -> (r: Option<u64>)
    ensures
        r matches Some(v) ==> uhex_parse(s@, max as nat) == Some(v as nat),
        r is None ==> uhex_parse(s@, max as nat) is None,
{
    let d = unsigned_part(s);
    parse_hex(&d, max)
}

/// Decimal text reads back as the number, also through the signed form.
pub proof fn lemma_uint_round_trip(n: nat, max: nat)
    requires
        n <= max,
    ensures
        uint_parse(dec_text(n), max) == Some(n),
{
    lemma_dec_round_trip(n);
    assert(is_digit(dec_text(n)[0]));
}

} // verus!
