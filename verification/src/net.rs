//! IPv4 and IPv6 addresses in their textual forms: the dotted-decimal and
//! colon-hexadecimal grammars that `Rtcp` and `Candidate` read, and the
//! canonical forms (RFC 5952 for IPv6) that they write.

use crate::text::{
    all_digits, all_hex, chars_of, decimal, digits_value, find, find_from, has_no,
    hex_digit_value, hex_lower, hex_value, is_hex_char, join, lemma_decimal, lemma_decimal_has_no,
    lemma_decimal_leading, lemma_find, lemma_find_from, lemma_has_no_concat, lemma_hex_lower,
    lemma_join_has_no, lemma_join_push,
    lemma_split_cons, lemma_split_join, lemma_split_single, parse_uint, parse_uint_chars,
    push_decimal, push_hex_lower, split, split_chars, string_of, subvec, views,
};
use vstd::prelude::*;

verus! {

/// An IPv4 address.
#[derive(Debug, Clone, Copy, PartialEq, Eq)]
pub struct Ipv4Addr {
    pub octets: [u8; 4],
}

/// An IPv6 address, as eight 16-bit segments.
#[derive(Debug, Clone, Copy, PartialEq, Eq)]
pub struct Ipv6Addr {
    pub segments: [u16; 8],
}

/// An IP address, either IPv4 or IPv6.
#[derive(Debug, Clone, Copy, PartialEq, Eq)]
pub enum IpAddr {
    V4(Ipv4Addr),
    V6(Ipv6Addr),
}

/// The octets or segments of an address.
pub enum IpAddrModel {
    V4(Seq<u8>),
    V6(Seq<u16>),
}

impl DeepView for IpAddr {
    type V = IpAddrModel;

    open spec fn deep_view(&self) -> IpAddrModel {
        match self {
            IpAddr::V4(a) => IpAddrModel::V4(a.octets@),
            IpAddr::V6(a) => IpAddrModel::V6(a.segments@),
        }
    }
}

impl Ipv4Addr {
    pub fn new(a: u8, b: u8, c: u8, d: u8) -> (r: Ipv4Addr)
        ensures
            r.octets@ == seq![a, b, c, d],
    {
        let r = Ipv4Addr { octets: [a, b, c, d] };
        assert(r.octets@ =~= seq![a, b, c, d]);
        r
    }

    pub fn octets(&self) -> (r: [u8; 4])
        ensures
            r == self.octets,
    {
        self.octets
    }
}

impl Ipv6Addr {
    pub fn new(a: u16, b: u16, c: u16, d: u16, e: u16, f: u16, g: u16, h: u16) -> (r: Ipv6Addr)
        ensures
            r.segments@ == seq![a, b, c, d, e, f, g, h],
    {
        let r = Ipv6Addr { segments: [a, b, c, d, e, f, g, h] };
        assert(r.segments@ =~= seq![a, b, c, d, e, f, g, h]);
        r
    }

    pub fn segments(&self) -> (r: [u16; 8])
        ensures
            r == self.segments,
    {
        self.segments
    }
}

// ---------------------------------------------------------------------------
// Grammar
// ---------------------------------------------------------------------------

/// One decimal octet: one to three digits, no leading zero, at most 255.
pub open spec fn v4_octet(p: Seq<char>) -> Option<u8> {
    if 1 <= p.len() <= 3 && all_digits(p) && (p.len() == 1 || p[0] != '0') && digits_value(p)
        <= 255 {
        Some(digits_value(p) as u8)
    } else {
        None
    }
}

/// The octets of a dotted-decimal IPv4 address.
pub open spec fn spec_parse_v4(s: Seq<char>) -> Option<Seq<u8>> {
    let p = split(s, '.');
    if p.len() == 4 {
        match (v4_octet(p[0]), v4_octet(p[1]), v4_octet(p[2]), v4_octet(p[3])) {
            (Some(a), Some(b), Some(c), Some(d)) => Some(seq![a, b, c, d]),
            _ => None,
        }
    } else {
        None
    }
}

/// One hexadecimal group of an IPv6 address: one to four hexadecimal digits.
pub open spec fn hex_group(p: Seq<char>) -> Option<u16> {
    if 1 <= p.len() <= 4 && all_hex(p) {
        Some(hex_value(p) as u16)
    } else {
        None
    }
}

/// The values of pieces that must all be hexadecimal groups.
pub open spec fn hex_groups(ps: Seq<Seq<char>>) -> Option<Seq<u16>>
    decreases ps.len(),
{
    if ps.len() == 0 {
        Some(seq![])
    } else {
        match (hex_groups(ps.drop_last()), hex_group(ps.last())) {
            (Some(g), Some(x)) => Some(g.push(x)),
            _ => None,
        }
    }
}

/// The two segments that an embedded dotted-decimal address stands for.
pub open spec fn v4_segments(o: Seq<u8>) -> Seq<u16> {
    seq![(o[0] as int * 256 + o[1] as int) as u16, (o[2] as int * 256 + o[3] as int) as u16]
}

/// The last piece of an IPv6 address: a group, or an embedded IPv4 address.
pub open spec fn last_groups(p: Seq<char>) -> Option<Seq<u16>> {
    match hex_group(p) {
        Some(x) => Some(seq![x]),
        None => match spec_parse_v4(p) {
            Some(o) => Some(v4_segments(o)),
            None => None,
        },
    }
}

/// Colon-separated groups whose last piece may be an embedded IPv4 address.
pub open spec fn mixed_groups(t: Seq<char>) -> Option<Seq<u16>> {
    let ps = split(t, ':');
    match (hex_groups(ps.drop_last()), last_groups(ps.last())) {
        (Some(a), Some(b)) => Some(a + b),
        _ => None,
    }
}

/// Index of the first `::` in `s` at or after `k`.
pub open spec fn dcolon_from(s: Seq<char>, k: int) -> Option<int>
    decreases s.len() - k,
{
    if k < 0 || k + 1 >= s.len() {
        None
    } else if s[k] == ':' && s[k + 1] == ':' {
        Some(k)
    } else {
        dcolon_from(s, k + 1)
    }
}

pub open spec fn zeros(n: nat) -> Seq<u16> {
    Seq::new(n, |i: int| 0u16)
}

/// The segments of a colon-hexadecimal IPv6 address, as `Ipv6Addr::from_str`
/// reads them: eight groups, or fewer with one `::` standing for at least
/// one zero group, the last two groups possibly written as an IPv4 address.
pub open spec fn spec_parse_v6(s: Seq<char>) -> Option<Seq<u16>> {
    match dcolon_from(s, 0) {
        Some(p) => {
            let head = s.take(p);
            let tail = s.skip(p + 2);
            let h = if head.len() == 0 {
                Some(seq![])
            } else {
                hex_groups(split(head, ':'))
            };
            let t = if tail.len() == 0 {
                Some(seq![])
            } else {
                mixed_groups(tail)
            };
            match (h, t) {
                (Some(h), Some(t)) => if h.len() + t.len() <= 7 {
                    Some(h + zeros((8 - h.len() - t.len()) as nat) + t)
                } else {
                    None
                },
                _ => None,
            }
        },
        None => match mixed_groups(s) {
            Some(g) => if g.len() == 8 {
                Some(g)
            } else {
                None
            },
            None => None,
        },
    }
}

/// An IP address as `IpAddr::from_str` reads it: IPv4 first, then IPv6.
pub open spec fn spec_parse_ip(s: Seq<char>) -> Option<IpAddrModel> {
    match spec_parse_v4(s) {
        Some(o) => Some(IpAddrModel::V4(o)),
        None => match spec_parse_v6(s) {
            Some(g) => Some(IpAddrModel::V6(g)),
            None => None,
        },
    }
}

// ---------------------------------------------------------------------------
// Canonical forms
// ---------------------------------------------------------------------------

pub open spec fn spec_display_v4(o: Seq<u8>) -> Seq<char> {
    decimal(o[0] as nat) + seq!['.'] + decimal(o[1] as nat) + seq!['.'] + decimal(o[2] as nat)
        + seq!['.'] + decimal(o[3] as nat)
}

/// Groups in lower-case hexadecimal, separated by colons.
pub open spec fn join_hex(g: Seq<u16>) -> Seq<char> {
    join(g.map_values(|x: u16| hex_lower(x as nat)), ':')
}

/// The longest run of zero segments, the leftmost among equals, as a start
/// and a length: the scan keeps the longest run seen (`ls`, `ll`) and the
/// current one (`cs`, `cl`).
pub open spec fn zero_scan(g: Seq<u16>, i: int, ls: int, ll: int, cs: int, cl: int) -> (int, int)
    decreases g.len() - i,
{
    if i < 0 || i >= g.len() {
        (ls, ll)
    } else if g[i] == 0 {
        let ncs = if cl == 0 {
            i
        } else {
            cs
        };
        if cl + 1 > ll {
            zero_scan(g, i + 1, ncs, cl + 1, ncs, cl + 1)
        } else {
            zero_scan(g, i + 1, ls, ll, ncs, cl + 1)
        }
    } else {
        zero_scan(g, i + 1, ls, ll, 0, 0)
    }
}

pub open spec fn zero_run(g: Seq<u16>) -> (int, int) {
    zero_scan(g, 0, 0, 0, 0, 0)
}

/// The segments of an IPv4-mapped address (`::ffff:a.b.c.d`).
pub open spec fn is_v4_mapped(g: Seq<u16>) -> bool {
    g[0] == 0 && g[1] == 0 && g[2] == 0 && g[3] == 0 && g[4] == 0 && g[5] == 0xffff
}

pub open spec fn mapped_octets(g: Seq<u16>) -> Seq<u8> {
    seq![(g[6] / 256) as u8, (g[6] % 256) as u8, (g[7] / 256) as u8, (g[7] % 256) as u8]
}

/// The canonical form of an IPv6 address: an IPv4-mapped address as
/// `::ffff:` and its dotted-decimal form; else the groups in lower-case
/// hexadecimal, the longest run of two or more zero groups written `::`.
pub open spec fn spec_display_v6(g: Seq<u16>) -> Seq<char> {
    if is_v4_mapped(g) {
        seq![':', ':', 'f', 'f', 'f', 'f', ':'] + spec_display_v4(mapped_octets(g))
    } else {
        let (st, ln) = zero_run(g);
        if ln > 1 {
            join_hex(g.take(st)) + seq![':', ':'] + join_hex(g.skip(st + ln))
        } else {
            join_hex(g)
        }
    }
}

pub open spec fn spec_display_ip(a: IpAddrModel) -> Seq<char> {
    match a {
        IpAddrModel::V4(o) => spec_display_v4(o),
        IpAddrModel::V6(g) => spec_display_v6(g),
    }
}

/// The octets or segments have the number that the address family holds.
pub open spec fn ip_well_formed(a: IpAddrModel) -> bool {
    match a {
        IpAddrModel::V4(o) => o.len() == 4,
        IpAddrModel::V6(g) => g.len() == 8,
    }
}

// ---------------------------------------------------------------------------
// Parsing
// ---------------------------------------------------------------------------

fn octet_chars(p: &Vec<char>) -> (r: Option<u8>)
    ensures
        r == v4_octet(p@),
{
    let n: usize = p.len();
    if n < 1 || n > 3 {
        return None;
    }
    if !('0' <= p[0] && p[0] <= '9') {
        return None;
    }
    if n > 1 && p[0] == '0' {
        return None;
    }
    match parse_uint_chars(p, 255) {
        Some(v) => {
            assert(p@[0] != '+');
            Some(v as u8)
        },
        None => {
            assert(p@[0] != '+');
            None
        },
    }
}

pub fn parse_v4_chars(s: &Vec<char>) -> (r: Option<Ipv4Addr>)
    ensures
        match r {
            Some(a) => spec_parse_v4(s@) == Some(a.octets@),
            None => spec_parse_v4(s@) is None,
        },
{
    let p = split_chars(s, '.');
    if p.len() != 4 {
        return None;
    }
    let a = match octet_chars(&p[0]) {
        Some(x) => x,
        None => return None,
    };
    let b = match octet_chars(&p[1]) {
        Some(x) => x,
        None => return None,
    };
    let c = match octet_chars(&p[2]) {
        Some(x) => x,
        None => return None,
    };
    let d = match octet_chars(&p[3]) {
        Some(x) => x,
        None => return None,
    };
    Some(Ipv4Addr::new(a, b, c, d))
}

fn hex_group_chars(p: &Vec<char>) -> (r: Option<u16>)
    ensures
        r == hex_group(p@),
{
    let n: usize = p.len();
    if n < 1 || n > 4 {
        return None;
    }
    let mut v: u64 = 0;
    for i in 0..n
        invariant
            n == p@.len(),
            1 <= n <= 4,
            all_hex(p@.take(i as int)),
            v as nat == hex_value(p@.take(i as int)),
            v < pow16(i as nat),
    {
        if !is_hex_char(p[i]) {
            assert(!all_hex(p@)) by {
                assert(!crate::text::is_hex_digit(p@[i as int]));
            }
            return None;
        }
        let ghost pre = p@.take(i as int);
        assert(p@.take(i + 1).drop_last() =~= pre);
        let d: u64 = hex_digit_value(p[i]);
        assert(pow16((i + 1) as nat) == 16 * pow16(i as nat));
        assert(pow16(i as nat) <= 4096) by {
            assert(pow16(0) == 1);
            assert(pow16(1) == 16);
            assert(pow16(2) == 256);
            assert(pow16(3) == 4096);
        }
        assert(v * 16 + d < 16 * pow16(i as nat)) by (nonlinear_arith)
            requires
                v < pow16(i as nat),
                d < 16,
        ;
        v = v * 16 + d;
        assert(all_hex(p@.take(i + 1))) by {
            assert forall|j: int| 0 <= j < i + 1 implies crate::text::is_hex_digit(
                #[trigger] p@.take(i + 1)[j],
            ) by {
                if j < i {
                    assert(p@.take(i + 1)[j] == pre[j]);
                }
            }
        }
    }
    assert(p@.take(n as int) =~= p@);
    assert(pow16(4) == 65536) by {
        assert(pow16(0) == 1);
        assert(pow16(1) == 16);
        assert(pow16(2) == 256);
        assert(pow16(3) == 4096);
    }
    assert(pow16(n as nat) <= 65536) by {
        assert(pow16(0) == 1);
        assert(pow16(1) == 16);
        assert(pow16(2) == 256);
        assert(pow16(3) == 4096);
    }
    Some(v as u16)
}

/// `16^k`, the bound on the value of `k` hexadecimal digits.
pub open spec fn pow16(k: nat) -> nat
    decreases k,
{
    if k == 0 {
        1
    } else {
        16 * pow16((k - 1) as nat)
    }
}

proof fn lemma_hex_groups_push(ps: Seq<Seq<char>>, i: int)
    requires
        0 <= i < ps.len(),
    ensures
        hex_groups(ps.take(i + 1)) == (match (hex_groups(ps.take(i)), hex_group(ps[i])) {
            (Some(g), Some(x)) => Some(g.push(x)),
            _ => None,
        }),
{
    assert(ps.take(i + 1).drop_last() =~= ps.take(i));
}

/// The groups of the pieces `p[0..n]`, all hexadecimal.
fn hex_groups_chars(p: &Vec<Vec<char>>, n: usize) -> (r: Option<Vec<u16>>)
    requires
        n <= p@.len(),
    ensures
        match r {
            Some(g) => hex_groups(views(p@).take(n as int)) == Some(g@),
            None => hex_groups(views(p@).take(n as int)) is None,
        },
{
    let mut g: Vec<u16> = Vec::new();
    assert(views(p@).take(0) =~= Seq::<Seq<char>>::empty());
    for i in 0..n
        invariant
            n <= p@.len(),
            hex_groups(views(p@).take(i as int)) == Some(g@),
    {
        proof {
            lemma_hex_groups_push(views(p@), i as int);
        }
        match hex_group_chars(&p[i]) {
            Some(x) => {
                g.push(x);
            },
            None => {
                proof {
                    let ps = views(p@).take(n as int);
                    assert(ps.take(i + 1) =~= views(p@).take(i + 1));
                    lemma_hex_groups_none_extends(ps, i + 1);
                }
                return None;
            },
        }
    }
    Some(g)
}

proof fn lemma_hex_groups_none_extends(ps: Seq<Seq<char>>, i: int)
    requires
        0 <= i <= ps.len(),
        hex_groups(ps.take(i)) is None,
    ensures
        hex_groups(ps) is None,
    decreases ps.len() - i,
{
    if i < ps.len() {
        lemma_hex_groups_push(ps, i);
        lemma_hex_groups_none_extends(ps, i + 1);
    } else {
        assert(ps.take(i) =~= ps);
    }
}

fn mixed_groups_chars(t: &Vec<char>) -> (r: Option<Vec<u16>>)
    ensures
        match r {
            Some(g) => mixed_groups(t@) == Some(g@),
            None => mixed_groups(t@) is None,
        },
{
    let p = split_chars(t, ':');
    proof {
        crate::text::lemma_split_len(t@, ':');
    }
    let n: usize = p.len();
    let ghost ps = views(p@);
    assert(ps.drop_last() =~= ps.take(n - 1));
    let mut g = match hex_groups_chars(&p, n - 1) {
        Some(g) => g,
        None => return None,
    };
    let last = &p[n - 1];
    assert(ps.last() == last@);
    match hex_group_chars(last) {
        Some(x) => {
            g.push(x);
            Some(g)
        },
        None => {
            let v4 = parse_v4_chars(last);
            match v4 {
                Some(a) => {
                    let o = a.octets;
                    let ghost before = g@;
                    g.push(((o[0] as u16) * 256 + (o[1] as u16)) as u16);
                    g.push(((o[2] as u16) * 256 + (o[3] as u16)) as u16);
                    assert(g@ =~= before + v4_segments(a.octets@));
                    Some(g)
                },
                None => None,
            }
        },
    }
}

fn dcolon_chars(s: &Vec<char>) -> (r: Option<usize>)
    ensures
        match r {
            Some(i) => dcolon_from(s@, 0) == Some(i as int),
            None => dcolon_from(s@, 0) is None,
        },
{
    let n: usize = s.len();
    let mut i: usize = 0;
    while n > 0 && i < n - 1
        invariant
            n == s@.len(),
            dcolon_from(s@, 0) == dcolon_from(s@, i as int),
        decreases n - i,
    {
        if s[i] == ':' && s[i + 1] == ':' {
            return Some(i);
        }
        i = i + 1;
    }
    None
}

pub fn parse_v6_chars(s: &Vec<char>) -> (r: Option<Ipv6Addr>)
    ensures
        match r {
            Some(a) => spec_parse_v6(s@) == Some(a.segments@),
            None => spec_parse_v6(s@) is None,
        },
{
    match dcolon_chars(s) {
        Some(p) => {
            let n: usize = s.len();
            proof {
                dcolon_bounds(s@, 0);
            }
            let head = subvec(s, 0, p);
            let tail = subvec(s, p + 2, n);
            assert(head@ =~= s@.take(p as int));
            assert(tail@ =~= s@.skip(p + 2));
            let h = if head.len() == 0 {
                Some(Vec::new())
            } else {
                let hp = split_chars(&head, ':');
                let r = hex_groups_chars(&hp, hp.len());
                assert(views(hp@).take(hp@.len() as int) =~= views(hp@));
                r
            };
            let h = match h {
                Some(h) => h,
                None => return None,
            };
            let t = if tail.len() == 0 {
                Some(Vec::new())
            } else {
                mixed_groups_chars(&tail)
            };
            let t = match t {
                Some(t) => t,
                None => return None,
            };
            if h.len() > 7 || t.len() > 7 - h.len() {
                return None;
            }
            let seg = fill_segments(&h, &t);
            Some(Ipv6Addr { segments: seg })
        },
        None => {
            let g = match mixed_groups_chars(s) {
                Some(g) => g,
                None => return None,
            };
            if g.len() != 8 {
                return None;
            }
            Some(Ipv6Addr { segments: to_array(&g) })
        },
    }
}

fn to_array(g: &Vec<u16>) -> (seg: [u16; 8])
    requires
        g@.len() == 8,
    ensures
        seg@ == g@,
{
    let seg: [u16; 8] = [g[0], g[1], g[2], g[3], g[4], g[5], g[6], g[7]];
    assert(seg@ =~= g@);
    seg
}

/// The head groups, zero groups for the `::`, then the tail groups.
fn fill_segments(h: &Vec<u16>, t: &Vec<u16>) -> (seg: [u16; 8])
    requires
        h@.len() + t@.len() <= 7,
    ensures
        seg@ == h@ + zeros((8 - h@.len() - t@.len()) as nat) + t@,
{
    let fill: usize = 8 - h.len() - t.len();
    let mut g: Vec<u16> = Vec::new();
    for i in 0..h.len()
        invariant
            g@ =~= h@.take(i as int),
    {
        g.push(h[i]);
    }
    assert(h@.take(h@.len() as int) =~= h@);
    for i in 0..fill
        invariant
            g@ =~= h@ + zeros(i as nat),
    {
        g.push(0);
    }
    for i in 0..t.len()
        invariant
            g@ =~= h@ + zeros(fill as nat) + t@.take(i as int),
    {
        g.push(t[i]);
    }
    assert(t@.take(t@.len() as int) =~= t@);
    to_array(&g)
}

proof fn dcolon_bounds(s: Seq<char>, k: int)
    requires
        0 <= k,
    ensures
        dcolon_from(s, k) matches Some(i) ==> k <= i && i + 1 < s.len() && s[i] == ':' && s[i + 1]
            == ':' && (forall|j: int| k <= j < i ==> !(#[trigger] s[j] == ':' && s[j + 1] == ':')),
        dcolon_from(s, k) is None ==> (forall|j: int|
            k <= j && j + 1 < s.len() ==> !(#[trigger] s[j] == ':' && s[j + 1] == ':')),
    decreases s.len() - k,
{
    if k + 1 < s.len() && !(s[k] == ':' && s[k + 1] == ':') {
        dcolon_bounds(s, k + 1);
    }
}

pub fn parse_ip_chars(s: &Vec<char>) -> (r: Option<IpAddr>)
    ensures
        match r {
            Some(a) => spec_parse_ip(s@) == Some(a.deep_view()),
            None => spec_parse_ip(s@) is None,
        },
{
    match parse_v4_chars(s) {
        Some(a) => Some(IpAddr::V4(a)),
        None => match parse_v6_chars(s) {
            Some(a) => Some(IpAddr::V6(a)),
            None => None,
        },
    }
}

// ---------------------------------------------------------------------------
// Formatting
// ---------------------------------------------------------------------------

pub fn push_v4(out: &mut Vec<char>, o: [u8; 4])
    ensures
        final(out)@ == old(out)@ + spec_display_v4(o@),
{
    push_decimal(out, o[0] as u64);
    out.push('.');
    push_decimal(out, o[1] as u64);
    out.push('.');
    push_decimal(out, o[2] as u64);
    out.push('.');
    push_decimal(out, o[3] as u64);
    assert(final(out)@ =~= old(out)@ + spec_display_v4(o@));
}

/// Appends the groups `g[from..to]` in hexadecimal, separated by colons.
fn push_groups(out: &mut Vec<char>, g: &[u16; 8], from: usize, to: usize)
    requires
        from <= to <= 8,
    ensures
        final(out)@ == old(out)@ + join_hex(g@.subrange(from as int, to as int)),
{
    let ghost start = out@;
    let ghost hs = g@.map_values(|x: u16| hex_lower(x as nat));
    assert(g@.subrange(from as int, from as int).map_values(|x: u16| hex_lower(x as nat))
        =~= Seq::<Seq<char>>::empty());
    for i in from..to
        invariant
            from <= to <= 8,
            hs == g@.map_values(|x: u16| hex_lower(x as nat)),
            out@ == start + join_hex(g@.subrange(from as int, i as int)),
    {
        let ghost pre = g@.subrange(from as int, i as int).map_values(|x: u16| hex_lower(x as nat));
        assert(g@.subrange(from as int, i + 1).map_values(|x: u16| hex_lower(x as nat)) =~= pre.push(
            hex_lower(g@[i as int] as nat),
        ));
        if i > from {
            out.push(':');
            proof {
                lemma_join_push(pre, hex_lower(g@[i as int] as nat), ':');
            }
        } else {
            assert(pre.push(hex_lower(g@[i as int] as nat)) =~= seq![hex_lower(g@[i as int] as nat)]);
        }
        push_hex_lower(out, g[i] as u64);
        assert(out@ =~= start + join_hex(g@.subrange(from as int, i + 1)));
    }
}

fn zero_run_of(g: &[u16; 8]) -> (r: (usize, usize))
    ensures
        r.0 as int == zero_run(g@).0,
        r.1 as int == zero_run(g@).1,
{
    let mut ls: usize = 0;
    let mut ll: usize = 0;
    let mut cs: usize = 0;
    let mut cl: usize = 0;
    for i in 0..8
        invariant
            ls <= 8,
            ll <= i,
            cs <= 8,
            cl <= i,
            zero_run(g@) == zero_scan(g@, i as int, ls as int, ll as int, cs as int, cl as int),
    {
        if g[i] == 0 {
            if cl == 0 {
                cs = i;
            }
            cl = cl + 1;
            if cl > ll {
                ls = cs;
                ll = cl;
            }
        } else {
            cs = 0;
            cl = 0;
        }
    }
    (ls, ll)
}

pub fn push_v6(out: &mut Vec<char>, g: &[u16; 8])
    ensures
        final(out)@ == old(out)@ + spec_display_v6(g@),
{
    if g[0] == 0 && g[1] == 0 && g[2] == 0 && g[3] == 0 && g[4] == 0 && g[5] == 0xffff {
        out.push(':');
        out.push(':');
        out.push('f');
        out.push('f');
        out.push('f');
        out.push('f');
        out.push(':');
        let ghost mid = out@;
        push_v4(out, [(g[6] / 256) as u8, (g[6] % 256) as u8, (g[7] / 256) as u8, (g[7] % 256) as u8]);
        assert(final(out)@ =~= old(out)@ + spec_display_v6(g@));
    } else {
        let (st, ln) = zero_run_of(g);
        proof {
            lemma_zero_run(g@);
        }
        if ln > 1 {
            push_groups(out, g, 0, st);
            out.push(':');
            out.push(':');
            push_groups(out, g, st + ln, 8);
            assert(g@.subrange(0, st as int) =~= g@.take(st as int));
            assert(g@.subrange(st + ln, 8) =~= g@.skip(st + ln));
        } else {
            push_groups(out, g, 0, 8);
            assert(g@.subrange(0, 8) =~= g@);
        }
        assert(final(out)@ =~= old(out)@ + spec_display_v6(g@));
    }
}

/// A run of zero segments inside the address.
pub open spec fn is_zero_run(g: Seq<u16>, st: int, ln: int) -> bool {
    0 <= st && 0 <= ln && st + ln <= g.len() && forall|j: int| st <= j < st + ln ==> g[j] == 0
}

proof fn lemma_zero_scan(g: Seq<u16>, i: int, ls: int, ll: int, cs: int, cl: int)
    requires
        0 <= i <= g.len(),
        is_zero_run(g, ls, ll),
        is_zero_run(g, cs, cl),
        cs + cl == i || cl == 0,
        cl == 0 ==> cs == 0,
    ensures
        is_zero_run(g, zero_scan(g, i, ls, ll, cs, cl).0, zero_scan(g, i, ls, ll, cs, cl).1),
    decreases g.len() - i,
{
    if i < g.len() {
        if g[i] == 0 {
            let ncs = if cl == 0 {
                i
            } else {
                cs
            };
            assert(is_zero_run(g, ncs, cl + 1));
            lemma_zero_scan(g, i + 1, if cl + 1 > ll { ncs } else { ls }, if cl + 1 > ll {
                cl + 1
            } else {
                ll
            }, ncs, cl + 1);
        } else {
            lemma_zero_scan(g, i + 1, ls, ll, 0, 0);
        }
    }
}

pub proof fn lemma_zero_run(g: Seq<u16>)
    ensures
        is_zero_run(g, zero_run(g).0, zero_run(g).1),
{
    lemma_zero_scan(g, 0, 0, 0, 0, 0);
}

pub fn push_ip(out: &mut Vec<char>, a: &IpAddr)
    ensures
        final(out)@ == old(out)@ + spec_display_ip(a.deep_view()),
{
    match a {
        IpAddr::V4(x) => push_v4(out, x.octets),
        IpAddr::V6(x) => push_v6(out, &x.segments),
    }
}

impl IpAddr {
    pub fn to_string(&self) -> (r: String)
        ensures
            r@ == spec_display_ip(self.deep_view()),
    {
        let mut out: Vec<char> = Vec::new();
        push_ip(&mut out, self);
        string_of(&out)
    }

    pub fn from_str(s: &str) -> (r: Result<IpAddr, AddrParseError>)
        ensures
            match r {
                Ok(a) => spec_parse_ip(s@) == Some(a.deep_view()),
                Err(_) => spec_parse_ip(s@) is None,
            },
    {
        match parse_ip_chars(&chars_of(s)) {
            Some(a) => Ok(a),
            None => Err(AddrParseError),
        }
    }
}

/// The error of reading an IP address from text that is not one.
#[derive(Debug, Clone, Copy, PartialEq, Eq)]
pub struct AddrParseError;

impl AddrParseError {
    /// The message of the error.
    pub fn to_string(&self) -> (r: String)
        ensures
            r@ == "invalid IP address syntax"@,
    {
        crate::text::lit("invalid IP address syntax")
    }
}

impl std::str::FromStr for IpAddr {
    type Err = AddrParseError;

    fn from_str(s: &str) -> (r: Result<IpAddr, AddrParseError>)
        ensures
            match r {
                Ok(a) => spec_parse_ip(s@) == Some(a.deep_view()),
                Err(_) => spec_parse_ip(s@) is None,
            },
    {
        IpAddr::from_str(s)
    }
}


// ---------------------------------------------------------------------------
// Reading back the canonical forms
// ---------------------------------------------------------------------------

proof fn lemma_octet_round_trip(n: u8)
    ensures
        v4_octet(decimal(n as nat)) == Some(n),
        has_no(decimal(n as nat), '.'),
        has_no(decimal(n as nat), ':'),
        decimal(n as nat).len() >= 1,
{
    lemma_decimal(n as nat);
    lemma_decimal_leading(n as nat);
    lemma_decimal_has_no(n as nat, '.');
    lemma_decimal_has_no(n as nat, ':');
}

#[verifier::spinoff_prover]
proof fn lemma_v4_round_trip(o: Seq<u8>)
    requires
        o.len() == 4,
    ensures
        spec_parse_v4(spec_display_v4(o)) == Some(o),
        spec_display_v4(o).len() >= 7,
{
    let d0 = decimal(o[0] as nat);
    let d1 = decimal(o[1] as nat);
    let d2 = decimal(o[2] as nat);
    let d3 = decimal(o[3] as nat);
    lemma_octet_round_trip(o[0]);
    lemma_octet_round_trip(o[1]);
    lemma_octet_round_trip(o[2]);
    lemma_octet_round_trip(o[3]);
    let s = spec_display_v4(o);
    assert(s =~= d0 + seq!['.'] + (d1 + seq!['.'] + (d2 + seq!['.'] + d3)));
    lemma_split_cons(d0, '.', d1 + seq!['.'] + (d2 + seq!['.'] + d3));
    lemma_split_cons(d1, '.', d2 + seq!['.'] + d3);
    lemma_split_cons(d2, '.', d3);
    lemma_split_single(d3, '.');
    assert(split(s, '.') =~= seq![d0, d1, d2, d3]);
    assert(seq![o[0], o[1], o[2], o[3]] =~= o);
}

proof fn lemma_v4_has_no(o: Seq<u8>, c: char)
    requires
        o.len() == 4,
        !crate::text::is_digit(c),
        c != '.',
    ensures
        has_no(spec_display_v4(o), c),
{
    let d0 = decimal(o[0] as nat);
    let d1 = decimal(o[1] as nat);
    let d2 = decimal(o[2] as nat);
    let d3 = decimal(o[3] as nat);
    lemma_decimal_has_no(o[0] as nat, c);
    lemma_decimal_has_no(o[1] as nat, c);
    lemma_decimal_has_no(o[2] as nat, c);
    lemma_decimal_has_no(o[3] as nat, c);
    lemma_has_no_concat(d0, seq!['.'], c);
    lemma_has_no_concat(d0 + seq!['.'], d1, c);
    lemma_has_no_concat(d0 + seq!['.'] + d1, seq!['.'], c);
    lemma_has_no_concat(d0 + seq!['.'] + d1 + seq!['.'], d2, c);
    lemma_has_no_concat(d0 + seq!['.'] + d1 + seq!['.'] + d2, seq!['.'], c);
    lemma_has_no_concat(d0 + seq!['.'] + d1 + seq!['.'] + d2 + seq!['.'], d3, c);
}

/// The groups in hexadecimal hold no space.
proof fn lemma_join_hex_no_space(g: Seq<u16>)
    ensures
        has_no(join_hex(g), ' '),
{
    let ps = g.map_values(|x: u16| hex_lower(x as nat));
    assert forall|i: int| 0 <= i < ps.len() implies has_no(#[trigger] ps[i], ' ') by {
        lemma_hex_lower(g[i] as nat);
    }
    lemma_join_has_no(ps, ':', ' ');
}

proof fn lemma_v6_no_space(g: Seq<u16>)
    requires
        g.len() == 8,
    ensures
        has_no(spec_display_v6(g), ' '),
{
    if is_v4_mapped(g) {
        lemma_v4_has_no(mapped_octets(g), ' ');
        lemma_has_no_concat(seq![':', ':', 'f', 'f', 'f', 'f', ':'], spec_display_v4(mapped_octets(g)), ' ');
    } else {
        let (st, ln) = zero_run(g);
        lemma_zero_run(g);
        if ln > 1 {
            lemma_join_hex_no_space(g.take(st));
            lemma_join_hex_no_space(g.skip(st + ln));
            lemma_has_no_concat(join_hex(g.take(st)), seq![':', ':'], ' ');
            lemma_has_no_concat(join_hex(g.take(st)) + seq![':', ':'], join_hex(g.skip(st + ln)), ' ');
        } else {
            lemma_join_hex_no_space(g);
        }
    }
}

/// Text without a dot is no IPv4 address.
proof fn lemma_v4_needs_dots(s: Seq<char>)
    requires
        has_no(s, '.'),
    ensures
        spec_parse_v4(s) is None,
{
    lemma_split_single(s, '.');
}

proof fn lemma_hex_group_round_trip(x: u16)
    ensures
        hex_group(hex_lower(x as nat)) == Some(x),
        has_no(hex_lower(x as nat), ':'),
        has_no(hex_lower(x as nat), '.'),
        hex_lower(x as nat).len() >= 1,
{
    lemma_hex_lower(x as nat);
}

proof fn lemma_hex_groups_round_trip(g: Seq<u16>)
    ensures
        hex_groups(g.map_values(|x: u16| hex_lower(x as nat))) == Some(g),
    decreases g.len(),
{
    let ps = g.map_values(|x: u16| hex_lower(x as nat));
    if g.len() > 0 {
        assert(ps.drop_last() =~= g.drop_last().map_values(|x: u16| hex_lower(x as nat)));
        lemma_hex_groups_round_trip(g.drop_last());
        lemma_hex_group_round_trip(g.last());
        assert(g.drop_last().push(g.last()) =~= g);
    } else {
        assert(g =~= Seq::<u16>::empty());
    }
}

/// No `::`, and neither a leading nor a trailing `:`.
pub open spec fn colon_clean(s: Seq<char>) -> bool {
    &&& s.len() > 0
    &&& s[0] != ':'
    &&& s.last() != ':'
    &&& forall|j: int| 0 <= j < s.len() - 1 ==> !(#[trigger] s[j] == ':' && s[j + 1] == ':')
}

proof fn lemma_join_clean(p: Seq<Seq<char>>)
    requires
        p.len() > 0,
        forall|i: int| 0 <= i < p.len() ==> (#[trigger] p[i]).len() > 0 && has_no(p[i], ':'),
    ensures
        colon_clean(join(p, ':')),
        has_no(join(p, ':'), '.') <== (forall|i: int| 0 <= i < p.len() ==> has_no(#[trigger] p[i], '.')),
    decreases p.len(),
{
    if p.len() > 1 {
        let rest = p.drop_first();
        assert forall|i: int| 0 <= i < rest.len() implies (#[trigger] rest[i]).len() > 0 && has_no(
            rest[i],
            ':',
        ) by {
            assert(rest[i] == p[i + 1]);
        }
        lemma_join_clean(rest);
        let a = p[0];
        let b = join(rest, ':');
        let s = a + seq![':'] + b;
        assert(join(p, ':') == s);
        assert forall|j: int| 0 <= j < s.len() - 1 implies !(#[trigger] s[j] == ':' && s[j + 1]
            == ':') by {
            if j < a.len() {
                assert(s[j] == a[j]);
            } else if j == a.len() {
                assert(s[j + 1] == b[0]);
            } else {
                assert(s[j] == b[j - a.len() - 1]);
                assert(s[j + 1] == b[j - a.len()]);
            }
        }
        assert(s.last() == b.last());
        if forall|i: int| 0 <= i < p.len() ==> has_no(#[trigger] p[i], '.') {
            assert forall|i: int| 0 <= i < rest.len() implies has_no(#[trigger] rest[i], '.') by {
                assert(rest[i] == p[i + 1]);
            }
            assert forall|j: int| 0 <= j < s.len() implies s[j] != '.' by {
                if j < a.len() {
                    assert(s[j] == a[j]);
                } else if j > a.len() {
                    assert(s[j] == b[j - a.len() - 1]);
                }
            }
        }
    }
}

proof fn lemma_join_hex(g: Seq<u16>)
    requires
        g.len() > 0,
    ensures
        colon_clean(join_hex(g)),
        has_no(join_hex(g), '.'),
        split(join_hex(g), ':') == g.map_values(|x: u16| hex_lower(x as nat)),
        hex_groups(split(join_hex(g), ':')) == Some(g),
        mixed_groups(join_hex(g)) == Some(g),
{
    let ps = g.map_values(|x: u16| hex_lower(x as nat));
    assert forall|i: int| 0 <= i < ps.len() implies (#[trigger] ps[i]).len() > 0 && has_no(
        ps[i],
        ':',
    ) && has_no(ps[i], '.') by {
        lemma_hex_group_round_trip(g[i]);
    }
    lemma_join_clean(ps);
    lemma_split_join(ps, ':');
    lemma_hex_groups_round_trip(g);
    assert(ps.drop_last() =~= g.drop_last().map_values(|x: u16| hex_lower(x as nat)));
    lemma_hex_groups_round_trip(g.drop_last());
    lemma_hex_group_round_trip(g.last());
    assert(g.drop_last() + seq![g.last()] =~= g);
}

proof fn lemma_dcolon_is(s: Seq<char>, k: int, i: int)
    requires
        0 <= k <= i,
        i + 1 < s.len(),
        s[i] == ':' && s[i + 1] == ':',
        forall|j: int| k <= j < i ==> !(#[trigger] s[j] == ':' && s[j + 1] == ':'),
    ensures
        dcolon_from(s, k) == Some(i),
    decreases i - k,
{
    if k < i {
        lemma_dcolon_is(s, k + 1, i);
    }
}

proof fn lemma_dcolon_none(s: Seq<char>, k: int)
    requires
        0 <= k,
        forall|j: int| k <= j < s.len() - 1 ==> !(#[trigger] s[j] == ':' && s[j + 1] == ':'),
    ensures
        dcolon_from(s, k) is None,
    decreases s.len() - k,
{
    if k + 1 < s.len() {
        lemma_dcolon_none(s, k + 1);
    }
}

/// The hexadecimal groups on one side of a `::`.
proof fn lemma_hex_side(g: Seq<u16>)
    ensures
        g.len() == 0 ==> join_hex(g) == Seq::<char>::empty(),
        g.len() > 0 ==> colon_clean(join_hex(g)) && hex_groups(split(join_hex(g), ':')) == Some(g)
            && mixed_groups(join_hex(g)) == Some(g),
        has_no(join_hex(g), '.'),
{
    if g.len() > 0 {
        lemma_join_hex(g);
    } else {
        assert(g.map_values(|x: u16| hex_lower(x as nat)) =~= Seq::<Seq<char>>::empty());
        assert(join_hex(g) =~= Seq::<char>::empty());
    }
}

/// In `a::b`, where `a` is empty or colon-clean, the first `::` is after `a`.
proof fn lemma_dcolon_after(a: Seq<char>, b: Seq<char>)
    requires
        a.len() == 0 || colon_clean(a),
    ensures
        dcolon_from(a + seq![':', ':'] + b, 0) == Some(a.len() as int),
        (a + seq![':', ':'] + b).take(a.len() as int) == a,
        (a + seq![':', ':'] + b).skip(a.len() as int + 2) == b,
{
    let s = a + seq![':', ':'] + b;
    assert forall|j: int| 0 <= j < a.len() implies !(#[trigger] s[j] == ':' && s[j + 1] == ':') by {
        if j < a.len() - 1 {
            assert(s[j] == a[j]);
            assert(s[j + 1] == a[j + 1]);
        } else {
            assert(s[j] == a.last());
        }
    }
    lemma_dcolon_is(s, 0, a.len() as int);
    assert(s.take(a.len() as int) =~= a);
    assert(s.skip(a.len() as int + 2) =~= b);
}

proof fn lemma_v6_compressed(g: Seq<u16>, st: int, ln: int)
    requires
        g.len() == 8,
        is_zero_run(g, st, ln),
        ln > 1,
    ensures
        spec_parse_v6(join_hex(g.take(st)) + seq![':', ':'] + join_hex(g.skip(st + ln))) == Some(g),
        has_no(join_hex(g.take(st)) + seq![':', ':'] + join_hex(g.skip(st + ln)), '.'),
{
    let hg = g.take(st);
    let tg = g.skip(st + ln);
    let a = join_hex(hg);
    let b = join_hex(tg);
    lemma_hex_side(hg);
    lemma_hex_side(tg);
    lemma_dcolon_after(a, b);
    assert(hg + zeros((8 - hg.len() - tg.len()) as nat) + tg =~= g);
    lemma_has_no_concat(a, seq![':', ':'], '.');
    lemma_has_no_concat(a + seq![':', ':'], b, '.');
}

#[verifier::rlimit(30)]
proof fn lemma_v6_mapped_round_trip(g: Seq<u16>)
    requires
        g.len() == 8,
        is_v4_mapped(g),
    ensures
        spec_parse_ip(spec_display_v6(g)) == Some(IpAddrModel::V6(g)),
{
    let s = spec_display_v6(g);
        let o = mapped_octets(g);
        let v = spec_display_v4(o);
        lemma_v4_round_trip(o);
        lemma_v4_has_no(o, ':');
        let f = seq!['f', 'f', 'f', 'f'];
        assert(s =~= seq![':', ':'] + (f + seq![':'] + v));
        // not dotted-decimal: the first piece starts with a colon
        assert(spec_parse_v4(s) is None) by {
            lemma_find(s, '.');
            let p = split(s, '.');
            if let Some(i) = find(s, '.') {
                assert(p[0] == s.take(i));
                assert(i > 0);
                assert(!crate::text::is_digit(p[0][0]));
            }
        }
        lemma_dcolon_is(s, 0, 0);
        assert(s.take(0) =~= Seq::<char>::empty());
        let tail = f + seq![':'] + v;
        assert(s.skip(2) =~= tail);
        lemma_split_cons(f, ':', v);
        lemma_split_single(v, ':');
        let ps = split(tail, ':');
        assert(ps =~= seq![f, v]);
        assert(ps.drop_last() =~= seq![f]);
        assert(seq![f].drop_last() =~= Seq::<Seq<char>>::empty());
        assert(hex_value(seq!['f']) == 15) by {
            assert(seq!['f'].drop_last() =~= Seq::<char>::empty());
            assert(hex_value(Seq::<char>::empty()) == 0);
            assert(crate::text::hex_val('f') == 15);
        }
        assert(hex_value(seq!['f', 'f']) == 255) by {
            assert(seq!['f', 'f'].drop_last() =~= seq!['f']);
        }
        assert(hex_value(seq!['f', 'f', 'f']) == 4095) by {
            assert(seq!['f', 'f', 'f'].drop_last() =~= seq!['f', 'f']);
        }
        assert(hex_value(f) == 65535) by {
            assert(f.drop_last() =~= seq!['f', 'f', 'f']);
        }
        assert(hex_group(f) == Some(0xffffu16));
        assert(hex_groups(seq![f]) == Some(seq![0xffffu16])) by {
            assert(hex_groups(Seq::<Seq<char>>::empty()) == Some(Seq::<u16>::empty()));
            assert(seq![f].last() == f);
            assert(Seq::<u16>::empty().push(0xffffu16) =~= seq![0xffffu16]);
        }
        assert(hex_group(v) is None);
        assert(v4_segments(o) =~= seq![g[6], g[7]]);
        assert(seq![0xffffu16] + v4_segments(o) =~= seq![0xffffu16, g[6], g[7]]);
        assert(zeros(5) + seq![0xffffu16, g[6], g[7]] =~= g);
        assert(Seq::<u16>::empty() + zeros(5) + seq![0xffffu16, g[6], g[7]] =~= g);
}

proof fn lemma_v6_round_trip(g: Seq<u16>)
    requires
        g.len() == 8,
    ensures
        spec_parse_ip(spec_display_v6(g)) == Some(IpAddrModel::V6(g)),
{
    let s = spec_display_v6(g);
    if is_v4_mapped(g) {
        lemma_v6_mapped_round_trip(g);
    } else {
        let (st, ln) = zero_run(g);
        lemma_zero_run(g);
        if ln > 1 {
            lemma_v6_compressed(g, st, ln);
            lemma_v4_needs_dots(s);
        } else {
            lemma_join_hex(g);
            lemma_dcolon_none(s, 0);
            lemma_v4_needs_dots(s);
        }
    }
}

/// Reading back the canonical form of an address gives the address.
pub proof fn lemma_ip_round_trip(a: IpAddrModel)
    requires
        ip_well_formed(a),
    ensures
        spec_parse_ip(spec_display_ip(a)) == Some(a),
        has_no(spec_display_ip(a), ' '),
{
    match a {
        IpAddrModel::V4(o) => {
            lemma_v4_round_trip(o);
            lemma_v4_has_no(o, ' ');
        },
        IpAddrModel::V6(g) => {
            lemma_v6_round_trip(g);
            lemma_v6_no_space(g);
        },
    }
}

/// An address read from text has the number of octets or segments that its
/// family holds.
pub proof fn lemma_parsed_ip_well_formed(s: Seq<char>)
    ensures
        spec_parse_ip(s) matches Some(a) ==> ip_well_formed(a),
{
}

/// The canonical form of an address read from text reads back as the same
/// address.
pub proof fn lemma_ip_canonical(s: Seq<char>)
    ensures
        spec_parse_ip(s) matches Some(a) ==> spec_parse_ip(spec_display_ip(a)) == Some(a),
{
    if let Some(a) = spec_parse_ip(s) {
        lemma_parsed_ip_well_formed(s);
        lemma_ip_round_trip(a);
    }
}

} // verus!
