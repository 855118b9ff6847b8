//! IPv4 and IPv6 addresses and their textual forms.
//!
//! An IPv4 address is written as four decimal octets without leading zeros. An IPv6 address is
//! written as eight groups of up to four hexadecimal digits; one run of zero groups may be
//! abbreviated to `::`, and the last two groups may be written as an IPv4 address.

use crate::number::{
    all_digits, decimal, decimal_text, digit, digit_value, hex_text, is_digit, lemma_numeral,
    numeral, value, value_of,
};
use crate::text::{
    chars_of, find_text_from, join, joined, law_split, lemma_find_text_unique, lemma_join_head,
    lemma_split_head, lemma_split_join, lemma_split_whole, pieces, slice, split,
};
use vstd::prelude::*;
use vstd::string::*;

verus! {

/// An IPv4 address, as a number of 32 bits.
#[derive(Debug, Clone, Copy, PartialEq, Eq, Structural)]
pub struct Ipv4Addr {
    pub bits: u32,
}

impl DeepView for Ipv4Addr {
    type V = Ipv4Addr;

    open spec fn deep_view(&self) -> Ipv4Addr {
        *self
    }
}

/// An IPv6 address, as eight groups of 16 bits.
#[derive(Debug, Clone, Copy, PartialEq, Eq)]
pub struct Ipv6Addr {
    pub segments: [u16; 8],
}

impl DeepView for Ipv6Addr {
    type V = Seq<u16>;

    open spec fn deep_view(&self) -> Seq<u16> {
        self.segments@
    }
}

/// An address of either family.
#[derive(Debug, Clone, Copy, PartialEq, Eq)]
pub enum IpAddr {
    V4(Ipv4Addr),
    V6(Ipv6Addr),
}

/// What an [`IpAddr`] is.
pub enum IpAddrView {
    V4(Ipv4Addr),
    V6(Seq<u16>),
}

impl DeepView for IpAddr {
    type V = IpAddrView;

    open spec fn deep_view(&self) -> IpAddrView {
        match self {
            IpAddr::V4(a) => IpAddrView::V4(*a),
            IpAddr::V6(a) => IpAddrView::V6(a.deep_view()),
        }
    }
}

/// The address with these octets.
pub open spec fn ipv4(a: nat, b: nat, c: nat, d: nat) -> Ipv4Addr {
    Ipv4Addr { bits: (a * 0x1000000 + b * 0x10000 + c * 0x100 + d) as u32 }
}

/// The octet of `a` at `i`, counted from the most significant one.
pub open spec fn octet(a: Ipv4Addr, i: int) -> nat {
    if i == 0 {
        (a.bits / 0x1000000) as nat
    } else if i == 1 {
        (a.bits / 0x10000 % 0x100) as nat
    } else if i == 2 {
        (a.bits / 0x100 % 0x100) as nat
    } else {
        (a.bits % 0x100) as nat
    }
}

/// Whether `s` writes an octet: one to three decimal digits, no leading zero, at most 255.
pub open spec fn is_octet(s: Seq<char>) -> bool {
    &&& 1 <= s.len() <= 3
    &&& all_digits(s, 10)
    &&& s.len() == 1 || s[0] != '0'
    &&& value(s, 10) <= 255
}

/// The IPv4 address that a text writes.
pub open spec fn parse_ipv4(s: Seq<char>) -> Option<Ipv4Addr> {
    let p = split(s, '.');
    if p.len() == 4 && is_octet(p[0]) && is_octet(p[1]) && is_octet(p[2]) && is_octet(p[3]) {
        Some(ipv4(value(p[0], 10), value(p[1], 10), value(p[2], 10), value(p[3], 10)))
    } else {
        None
    }
}

/// How an IPv4 address is written.
pub open spec fn ipv4_text(a: Ipv4Addr) -> Seq<char> {
    decimal(octet(a, 0)) + "."@ + decimal(octet(a, 1)) + "."@ + decimal(octet(a, 2)) + "."@
        + decimal(octet(a, 3))
}

/// Whether `s` writes a group: one to four hexadecimal digits.
pub open spec fn is_group(s: Seq<char>) -> bool {
    1 <= s.len() <= 4 && all_digits(s, 16)
}

/// The groups that the pieces write, if each of them writes one.
pub open spec fn groups(p: Seq<Seq<char>>) -> Option<Seq<u16>> {
    if forall|i: int| 0 <= i < p.len() ==> is_group(#[trigger] p[i]) {
        Some(Seq::new(p.len(), |i: int| value(p[i], 16) as u16))
    } else {
        None
    }
}

/// The groups that the pieces write, where the last piece may write two groups as an IPv4
/// address.
pub open spec fn groups_or_ipv4(p: Seq<Seq<char>>) -> Option<Seq<u16>> {
    if p.len() > 0 && parse_ipv4(p.last()) is Some {
        let a = parse_ipv4(p.last())->0;
        match groups(p.drop_last()) {
            Some(g) => Some(g.push((a.bits / 0x10000) as u16).push((a.bits % 0x10000) as u16)),
            None => None,
        }
    } else {
        groups(p)
    }
}

/// The pieces between the colons of `s`; none where `s` is empty.
pub open spec fn colon_pieces(s: Seq<char>) -> Seq<Seq<char>> {
    if s.len() == 0 {
        Seq::empty()
    } else {
        split(s, ':')
    }
}

/// `n` groups that are zero.
pub open spec fn zero_groups(n: nat) -> Seq<u16> {
    Seq::new(n, |i: int| 0u16)
}

/// The IPv6 address that a text writes.
pub open spec fn parse_ipv6(s: Seq<char>) -> Option<Seq<u16>> {
    let at = find_text_from(s, seq![':', ':'], 0);
    if at < s.len() {
        let head = groups(colon_pieces(s.subrange(0, at)));
        let tail = groups_or_ipv4(colon_pieces(s.subrange(at + 2, s.len() as int)));
        match (head, tail) {
            (Some(h), Some(t)) => if h.len() + t.len() <= 7 {
                Some(h + zero_groups((8 - h.len() - t.len()) as nat) + t)
            } else {
                None
            },
            _ => None,
        }
    } else {
        match groups_or_ipv4(colon_pieces(s)) {
            Some(g) => if g.len() == 8 {
                Some(g)
            } else {
                None
            },
            None => None,
        }
    }
}

/// How many zero groups stand in a row from `i` on.
pub open spec fn zeros_from(g: Seq<u16>, i: int) -> nat
    decreases g.len() - i,
{
    if 0 <= i < g.len() && g[i] == 0 {
        1 + zeros_from(g, i + 1)
    } else {
        0
    }
}

/// Where the longest run of zero groups that starts before `n` starts, the first of several.
pub open spec fn longest_zeros(g: Seq<u16>, n: int) -> int
    decreases n,
{
    if n <= 0 {
        0
    } else {
        let best = longest_zeros(g, n - 1);
        if zeros_from(g, n - 1) > zeros_from(g, best) {
            n - 1
        } else {
            best
        }
    }
}

/// The groups in hexadecimal, with colons between them.
pub open spec fn groups_text(g: Seq<u16>) -> Seq<char> {
    join(Seq::new(g.len(), |i: int| numeral(g[i] as nat, 16)), ":"@)
}

/// Whether the groups are those of an IPv4-mapped address, `::ffff:0:0/96`.
pub open spec fn is_ipv4_mapped(g: Seq<u16>) -> bool {
    g[0] == 0 && g[1] == 0 && g[2] == 0 && g[3] == 0 && g[4] == 0 && g[5] == 0xffff
}

/// How an IPv6 address is written: its longest run of two or more zero groups abbreviated, and
/// an IPv4-mapped address with its IPv4 part in decimal.
pub open spec fn ipv6_text(g: Seq<u16>) -> Seq<char> {
    if is_ipv4_mapped(g) {
        "::ffff:"@ + ipv4_text(Ipv4Addr { bits: (g[6] * 0x10000 + g[7]) as u32 })
    } else {
        let start = longest_zeros(g, 8);
        let len = zeros_from(g, start);
        if len > 1 {
            groups_text(g.subrange(0, start)) + "::"@ + groups_text(
                g.subrange(start + len, g.len() as int),
            )
        } else {
            groups_text(g)
        }
    }
}

/// Whether the address is a link-local unicast one, `fe80::/10`.
pub open spec fn is_link_local(g: Seq<u16>) -> bool {
    0xfe80 <= g[0] < 0xfec0
}

/// The address of either family that a text writes.
pub open spec fn parse_ip(s: Seq<char>) -> Option<IpAddrView> {
    match parse_ipv4(s) {
        Some(a) => Some(IpAddrView::V4(a)),
        None => match parse_ipv6(s) {
            Some(g) => Some(IpAddrView::V6(g)),
            None => None,
        },
    }
}

impl Ipv4Addr {
    /// `0.0.0.0`.
    pub fn unspecified() -> (r: Ipv4Addr)
        ensures
            r == ipv4(0, 0, 0, 0),
    {
        Ipv4Addr { bits: 0 }
    }

    /// The address `a.b.c.d`.
    pub fn new(a: u8, b: u8, c: u8, d: u8) -> (r: Ipv4Addr)
        ensures
            r == ipv4(a as nat, b as nat, c as nat, d as nat),
    {
        Ipv4Addr {
            bits: (a as u32) * 0x1000000 + (b as u32) * 0x10000 + (c as u32) * 0x100 + (d as u32),
        }
    }

    /// Reads an address.
    pub fn parse(s: &str) -> (r: Option<Ipv4Addr>)
        ensures
            r == parse_ipv4(s@),
    {
        let p = pieces(s, '.');
        if p.len() != 4 {
            return None;
        }
        assert forall|i: int| 0 <= i < 4 implies split(s@, '.')[i] == #[trigger] p[i]@ by {
            assert(p.deep_view()[i] == p[i]@);
        }
        match (
            read_octet(p[0].as_str()),
            read_octet(p[1].as_str()),
            read_octet(p[2].as_str()),
            read_octet(p[3].as_str()),
        ) {
            (Some(a), Some(b), Some(c), Some(d)) => Some(Ipv4Addr::new(a, b, c, d)),
            _ => None,
        }
    }

    /// Writes the address.
    pub fn to_text(&self) -> (r: String)
        ensures
            r@ == ipv4_text(*self),
    {
        let mut out = decimal_text(self.bits / 0x1000000);
        out.append(".");
        out.append(decimal_text(self.bits / 0x10000 % 0x100).as_str());
        out.append(".");
        out.append(decimal_text(self.bits / 0x100 % 0x100).as_str());
        out.append(".");
        out.append(decimal_text(self.bits % 0x100).as_str());
        out
    }
}

/// Reads an octet.
fn read_octet(s: &str) -> (r: Option<u8>)
    ensures
        r == (if is_octet(s@) {
            Some(value(s@, 10) as u8)
        } else {
            None
        }),
{
    let chars = chars_of(s);
    if chars.len() == 0 || chars.len() > 3 || (chars.len() > 1 && chars[0] == '0') {
        return None;
    }
    match value_of(&chars, 10, 255) {
        Some(v) => Some(v as u8),
        None => None,
    }
}

/// Reads a group.
fn read_group(s: &str) -> (r: Option<u16>)
    ensures
        r == (if is_group(s@) {
            Some(value(s@, 16) as u16)
        } else {
            None
        }),
{
    let chars = chars_of(s);
    if chars.len() == 0 || chars.len() > 4 {
        return None;
    }
    proof {
        if all_digits(s@, 16) {
            crate::number::lemma_short_hex(s@);
        }
    }
    match value_of(&chars, 16, 0xffff) {
        Some(v) => Some(v as u16),
        None => None,
    }
}

/// Reads the first `n` pieces as groups.
fn read_groups(p: &Vec<String>, n: usize) -> (r: Option<Vec<u16>>)
    requires
        n <= p@.len(),
    ensures
        match r {
            Some(g) => groups(p.deep_view().take(n as int)) == Some(g@),
            None => groups(p.deep_view().take(n as int)) is None,
        },
{
    let ghost all = p.deep_view().take(n as int);
    let mut out: Vec<u16> = Vec::new();
    let mut i: usize = 0;
    while i < n
        invariant
            i <= n <= p@.len(),
            all == p.deep_view().take(n as int),
            out@.len() == i,
            forall|k: int|
                0 <= k < i ==> is_group(#[trigger] all[k]) && out@[k] == value(all[k], 16) as u16,
        decreases n - i,
    {
        assert(all[i as int] == p[i as int]@);
        match read_group(p[i].as_str()) {
            Some(v) => {
                out.push(v);
            },
            None => {
                assert(!is_group(all[i as int]));
                return None;
            },
        }
        i = i + 1;
    }
    assert(groups(all)->0 =~= out@);
    Some(out)
}

/// Reads pieces as groups, the last one possibly as an IPv4 address.
fn read_groups_or_ipv4(p: &Vec<String>) -> (r: Option<Vec<u16>>)
    ensures
        match r {
            Some(g) => groups_or_ipv4(p.deep_view()) == Some(g@),
            None => groups_or_ipv4(p.deep_view()) is None,
        },
{
    let ghost all = p.deep_view();
    if p.len() > 0 {
        let last: usize = p.len() - 1;
        assert(all.last() == p[last as int]@);
        match Ipv4Addr::parse(p[last].as_str()) {
            Some(a) => {
                assert(all.take(last as int) =~= all.drop_last());
                match read_groups(p, last) {
                    Some(g) => {
                        let mut out = g;
                        out.push((a.bits / 0x10000) as u16);
                        out.push((a.bits % 0x10000) as u16);
                        return Some(out);
                    },
                    None => {
                        return None;
                    },
                }
            },
            None => {},
        }
    }
    assert(all.take(p.len() as int) =~= all);
    read_groups(p, p.len())
}

/// The pieces between the colons of a text; none where it is empty.
fn read_colon_pieces(s: &str) -> (r: Vec<String>)
    ensures
        r.deep_view() == colon_pieces(s@),
{
    if s.is_empty() {
        let out: Vec<String> = Vec::new();
        assert(out.deep_view() =~= Seq::<Seq<char>>::empty());
        out
    } else {
        pieces(s, ':')
    }
}

impl Ipv6Addr {
    /// `::`.
    pub fn unspecified() -> (r: Ipv6Addr)
        ensures
            r.deep_view() == zero_groups(8),
    {
        let r = Ipv6Addr { segments: [0, 0, 0, 0, 0, 0, 0, 0] };
        assert(r.segments@ =~= zero_groups(8));
        r
    }

    /// The address with these groups.
    fn from_groups(g: &Vec<u16>) -> (r: Ipv6Addr)
        requires
            g@.len() == 8,
        ensures
            r.deep_view() == g@,
    {
        let r = Ipv6Addr { segments: [g[0], g[1], g[2], g[3], g[4], g[5], g[6], g[7]] };
        assert(r.segments@ =~= g@);
        r
    }

    /// Whether two addresses are the same.
    pub fn same(&self, other: &Ipv6Addr) -> (r: bool)
        ensures
            r == (self.deep_view() == other.deep_view()),
    {
        let mut i: usize = 0;
        while i < 8
            invariant
                i <= 8,
                forall|k: int| 0 <= k < i ==> self.segments@[k] == other.segments@[k],
            decreases 8 - i,
        {
            if self.segments[i] != other.segments[i] {
                return false;
            }
            i = i + 1;
        }
        assert(self.segments@ =~= other.segments@);
        true
    }

    /// Reads an address.
    pub fn parse(s: &str) -> (r: Option<Ipv6Addr>)
        ensures
            r.deep_view() == parse_ipv6(s@),
    {
        let chars = chars_of(s);
        let at = find_double_colon(&chars);
        if at < chars.len() {
            let head = read_colon_pieces(slice(s, 0, at).as_str());
            let tail = read_colon_pieces(slice(s, at + 2, chars.len()).as_str());
            assert(head.deep_view().take(head@.len() as int) =~= head.deep_view());
            match (read_groups(&head, head.len()), read_groups_or_ipv4(&tail)) {
                (Some(h), Some(t)) => {
                    if h.len() > 7 || t.len() > 7 - h.len() {
                        return None;
                    }
                    let mut g = h;
                    let ghost front = h@;
                    let ghost n = 8 - h@.len() - t@.len();
                    while g.len() < 8 - t.len()
                        invariant
                            front.len() + t@.len() <= 7,
                            n == 8 - front.len() - t@.len(),
                            front.len() <= g@.len() <= 8 - t@.len(),
                            g@ == front + zero_groups((g@.len() - front.len()) as nat),
                        decreases 8 - g@.len(),
                    {
                        g.push(0);
                        assert(g@ =~= front + zero_groups((g@.len() - front.len()) as nat));
                    }
                    let mut rest = t;
                    g.append(&mut rest);
                    Some(Ipv6Addr::from_groups(&g))
                },
                _ => None,
            }
        } else {
            let p = read_colon_pieces(s);
            match read_groups_or_ipv4(&p) {
                Some(g) => {
                    if g.len() == 8 {
                        Some(Ipv6Addr::from_groups(&g))
                    } else {
                        None
                    }
                },
                None => None,
            }
        }
    }

    /// Writes the address.
    pub fn to_text(&self) -> (r: String)
        ensures
            r@ == ipv6_text(self.deep_view()),
    {
        let g = self.segments;
        let ghost v = self.segments@;
        if g[0] == 0 && g[1] == 0 && g[2] == 0 && g[3] == 0 && g[4] == 0 && g[5] == 0xffff {
            let low = Ipv4Addr { bits: (g[6] as u32) * 0x10000 + (g[7] as u32) };
            let mut out = "::ffff:".to_owned();
            out.append(low.to_text().as_str());
            return out;
        }
        let mut start: usize = 0;
        let mut len: usize = self.zero_run(0);
        let mut i: usize = 1;
        assert(longest_zeros(v, 0) == 0);
        while i < 8
            invariant
                1 <= i <= 8,
                start < i,
                v == self.segments@,
                start == longest_zeros(v, i as int),
                len == zeros_from(v, start as int),
            decreases 8 - i,
        {
            let here = self.zero_run(i);
            if here > len {
                start = i;
                len = here;
            }
            i = i + 1;
        }
        proof {
            lemma_zeros_from(v, start as int);
        }
        if len > 1 {
            let mut out = self.range_text(0, start);
            out.append("::");
            out.append(self.range_text(start + len, 8).as_str());
            out
        } else {
            assert(v.subrange(0, 8) =~= v);
            self.range_text(0, 8)
        }
    }

    /// How many zero groups stand in a row from `i` on.
    fn zero_run(&self, i: usize) -> (r: usize)
        requires
            i <= 8,
        ensures
            r == zeros_from(self.deep_view(), i as int),
        decreases 8 - i,
    {
        if i < 8 && self.segments[i] == 0 {
            proof {
                lemma_zeros_from(self.segments@, i + 1);
            }
            1 + self.zero_run(i + 1)
        } else {
            0
        }
    }

    /// The groups from `from` up to `to`, with colons between them.
    fn range_text(&self, from: usize, to: usize) -> (r: String)
        requires
            from <= to <= 8,
        ensures
            r@ == groups_text(self.deep_view().subrange(from as int, to as int)),
    {
        let ghost g = self.segments@.subrange(from as int, to as int);
        let mut parts: Vec<String> = Vec::new();
        let mut i: usize = from;
        while i < to
            invariant
                from <= i <= to <= 8,
                g == self.segments@.subrange(from as int, to as int),
                parts@.len() == i - from,
                forall|k: int|
                    0 <= k < parts@.len() ==> (#[trigger] parts@[k])@ == numeral(g[k] as nat, 16),
            decreases to - i,
        {
            parts.push(hex_text(self.segments[i]));
            i = i + 1;
        }
        assert(parts.deep_view() =~= Seq::new(g.len(), |k: int| numeral(g[k] as nat, 16)));
        joined(&parts, ":")
    }

    /// Whether the address is a link-local unicast one.
    pub fn is_unicast_link_local(&self) -> (r: bool)
        ensures
            r == is_link_local(self.deep_view()),
    {
        let top: u16 = self.segments[0];
        assert((top & 0xffc0 == 0xfe80) == (0xfe80 <= top && top < 0xfec0)) by (bit_vector);
        top & 0xffc0 == 0xfe80
    }
}

pub proof fn lemma_zeros_from(g: Seq<u16>, i: int)
    requires
        0 <= i <= g.len(),
    ensures
        i + zeros_from(g, i) <= g.len(),
        forall|k: int| i <= k < i + zeros_from(g, i) ==> g[k] == 0,
    decreases g.len() - i,
{
    if i < g.len() && g[i] == 0 {
        lemma_zeros_from(g, i + 1);
    }
}

/// The index of the first two colons in a row; the length of the text if there are none.
fn find_double_colon(chars: &Vec<char>) -> (r: usize)
    ensures
        r == find_text_from(chars@, seq![':', ':'], 0),
        r < chars@.len() ==> r + 2 <= chars@.len(),
        r <= chars@.len(),
{
    let mut i: usize = 0;
    while i < chars.len() && 2 <= chars.len() - i
        invariant
            i <= chars.len(),
            find_text_from(chars@, seq![':', ':'], 0) == find_text_from(
                chars@,
                seq![':', ':'],
                i as int,
            ),
        decreases chars.len() - i,
    {
        let ghost here = chars@.subrange(i as int, i + 2);
        if chars[i] == ':' && chars[i + 1] == ':' {
            assert(here =~= seq![':', ':']);
            return i;
        }
        assert(here[0] != ':' || here[1] != ':');
        i = i + 1;
    }
    chars.len()
}

/// Reading back what an IPv4 address is written as gives the address.
pub proof fn law_ipv4_round_trip(a: Ipv4Addr)
    ensures
        parse_ipv4(ipv4_text(a)) == Some(a),
{
    lemma_octets(a);
    let (p, q, r, t) = (octet(a, 0), octet(a, 1), octet(a, 2), octet(a, 3));
    lemma_octet(p);
    lemma_octet(q);
    lemma_octet(r);
    lemma_octet(t);
    lemma_split_four(decimal(p), decimal(q), decimal(r), decimal(t));
    assert(ipv4_text(a) == decimal(p) + seq!['.'] + decimal(q) + seq!['.'] + decimal(r) + seq!['.']
        + decimal(t)) by {
        reveal_strlit(".");
        assert("."@ =~= seq!['.']);
    }
}

proof fn lemma_octets(a: Ipv4Addr)
    ensures
        octet(a, 0) < 256,
        octet(a, 1) < 256,
        octet(a, 2) < 256,
        octet(a, 3) < 256,
        ipv4(octet(a, 0), octet(a, 1), octet(a, 2), octet(a, 3)) == a,
{
}

proof fn lemma_split_four(a: Seq<char>, b: Seq<char>, c: Seq<char>, d: Seq<char>)
    requires
        !a.contains('.'),
        !b.contains('.'),
        !c.contains('.'),
        !d.contains('.'),
    ensures
        split(a + seq!['.'] + b + seq!['.'] + c + seq!['.'] + d, '.') == seq![a, b, c, d],
{
    let dot = seq!['.'];
    let cd = c + dot + d;
    let bcd = b + dot + cd;
    assert(a + dot + b + dot + c + dot + d =~= a + dot + bcd);
    lemma_split_whole(d, '.');
    lemma_split_head(c, '.', d);
    lemma_split_head(b, '.', cd);
    lemma_split_head(a, '.', bcd);
    assert(split(a + dot + bcd, '.') =~= seq![a, b, c, d]);
}

proof fn lemma_octet(n: nat)
    requires
        n < 256,
    ensures
        is_octet(decimal(n)),
        !decimal(n).contains('.'),
        value(decimal(n), 10) == n,
{
    lemma_numeral(n, 10);
    let s = decimal(n);
    assert forall|i: int| 0 <= i < s.len() implies s[i] != '.' by {
        assert(is_digit(s[i], 10));
    }
    reveal_with_fuel(numeral, 4);
    if n >= 100 {
        assert(s =~= seq![digit(n / 10 / 10), digit((n / 10) % 10), digit(n % 10)]);
    } else if n >= 10 {
        assert(s =~= seq![digit(n / 10), digit(n % 10)]);
    }
}

proof fn lemma_group(n: nat)
    requires
        n < 0x10000,
    ensures
        is_group(numeral(n, 16)),
        !numeral(n, 16).contains(':'),
        !numeral(n, 16).contains('.'),
        value(numeral(n, 16), 16) == n,
{
    lemma_numeral(n, 16);
    let s = numeral(n, 16);
    assert forall|i: int| 0 <= i < s.len() implies s[i] != ':' && s[i] != '.' by {
        assert(is_digit(s[i], 16));
    }
    reveal_with_fuel(numeral, 5);
}

/// Whether no two colons stand in a row in `t`, and none at its ends.
spec fn single_colons(t: Seq<char>) -> bool {
    &&& forall|i: int| 0 <= i < t.len() - 1 ==> #[trigger] t[i] != ':' || t[i + 1] != ':'
    &&& t.len() > 0 ==> t[0] != ':' && t.last() != ':'
}

proof fn lemma_join_single_colons(p: Seq<Seq<char>>)
    requires
        forall|i: int| 0 <= i < p.len() ==> (#[trigger] p[i]).len() > 0 && !p[i].contains(':'),
    ensures
        single_colons(join(p, seq![':'])),
        p.len() > 0 ==> join(p, seq![':']).len() > 0,
    decreases p.len(),
{
    if p.len() == 1 {
        let t = p[0];
        assert forall|i: int| 0 <= i < t.len() implies t[i] != ':' by {
            assert(p[0].contains(t[i]));
        }
    } else if p.len() > 1 {
        let init = p.drop_last();
        assert forall|i: int| 0 <= i < init.len() implies (#[trigger] init[i]).len() > 0
            && !init[i].contains(':') by {
            assert(init[i] == p[i]);
        }
        lemma_join_single_colons(init);
        let a = join(init, seq![':']);
        let b = p[p.len() - 1];
        let t = a + seq![':'] + b;
        assert forall|i: int| 0 <= i < b.len() implies b[i] != ':' by {
            assert(b.contains(b[i]));
        }
        assert forall|i: int| 0 <= i < t.len() - 1 implies #[trigger] t[i] != ':' || t[i + 1]
            != ':' by {
            if i + 1 < a.len() {
                assert(t[i] == a[i] && t[i + 1] == a[i + 1]);
            } else if i + 1 == a.len() {
                assert(t[i] == a.last());
            } else {
                assert(t[i + 1] == b[i - a.len()]);
            }
        }
        assert(t[0] == a[0]);
        assert(t.last() == b.last());
    }
}

proof fn lemma_groups_text(g: Seq<u16>)
    ensures
        single_colons(groups_text(g)),
        groups(colon_pieces(groups_text(g))) == Some(g),
        groups_or_ipv4(colon_pieces(groups_text(g))) == Some(g),
{
    let p = Seq::new(g.len(), |i: int| numeral(g[i] as nat, 16));
    assert(":"@ =~= seq![':']) by {
        reveal_strlit(":");
    }
    assert forall|i: int| 0 <= i < p.len() implies (#[trigger] p[i]).len() > 0 && !p[i].contains(
        ':',
    ) && is_group(p[i]) && !p[i].contains('.') && value(p[i], 16) == g[i] by {
        lemma_group(g[i] as nat);
    }
    lemma_join_single_colons(p);
    if g.len() > 0 {
        lemma_split_join(p, ':');
        lemma_split_whole(p.last(), '.');
        assert(split(p.last(), '.').len() == 1);
    }
    assert(colon_pieces(groups_text(g)) == p);
    assert(groups(p)->0 =~= g);
}

proof fn lemma_first_double_colon(head: Seq<char>, tail: Seq<char>)
    requires
        single_colons(head),
    ensures
        find_text_from(head + "::"@ + tail, seq![':', ':'], 0) == head.len(),
        head.len() < (head + "::"@ + tail).len(),
        (head + "::"@ + tail).subrange(0, head.len() as int) == head,
        (head + "::"@ + tail).subrange(
            head.len() as int + 2,
            (head + "::"@ + tail).len() as int,
        ) == tail,
{
    reveal_strlit("::");
    let s = head + "::"@ + tail;
    let two = seq![':', ':'];
    let at = head.len() as int;
    assert(s.subrange(at, at + 2) =~= two);
    assert forall|k: int| 0 <= k < at && k + 2 <= s.len() implies #[trigger] s.subrange(k, k + 2)
        != two by {
        let here = s.subrange(k, k + 2);
        assert(here[0] == head[k]);
        if k + 1 < at {
            assert(here[1] == head[k + 1]);
        } else {
            assert(head[k] == head.last());
        }
    }
    lemma_find_text_unique(s, two, 0, at);
    assert(s.subrange(0, at) =~= head);
    assert(s.subrange(at + 2, s.len() as int) =~= tail);
}

proof fn lemma_no_double_colon(s: Seq<char>)
    requires
        single_colons(s),
    ensures
        find_text_from(s, seq![':', ':'], 0) == s.len(),
{
    let two = seq![':', ':'];
    assert forall|k: int| 0 <= k < s.len() && k + 2 <= s.len() implies #[trigger] s.subrange(
        k,
        k + 2,
    ) != two by {
        let here = s.subrange(k, k + 2);
        assert(here[0] == s[k] && here[1] == s[k + 1]);
    }
    lemma_find_text_unique(s, two, 0, s.len() as int);
}

proof fn lemma_ipv4_text_colons(a: Ipv4Addr)
    ensures
        !ipv4_text(a).contains(':'),
        ipv4_text(a).len() > 0,
{
    lemma_octets(a);
    assert forall|n: nat| n < 256 implies !(#[trigger] decimal(n)).contains(':') && decimal(n).len()
        > 0 by {
        lemma_numeral(n, 10);
        assert forall|i: int| 0 <= i < decimal(n).len() implies decimal(n)[i] != ':' by {
            assert(is_digit(decimal(n)[i], 10));
        }
    }
    reveal_strlit(".");
    let (p, q, r, t) = (
        decimal(octet(a, 0)),
        decimal(octet(a, 1)),
        decimal(octet(a, 2)),
        decimal(octet(a, 3)),
    );
    lemma_concat_lacks(p, "."@, ':');
    lemma_concat_lacks(p + "."@, q, ':');
    lemma_concat_lacks(p + "."@ + q, "."@, ':');
    lemma_concat_lacks(p + "."@ + q + "."@, r, ':');
    lemma_concat_lacks(p + "."@ + q + "."@ + r, "."@, ':');
    lemma_concat_lacks(p + "."@ + q + "."@ + r + "."@, t, ':');
}

proof fn lemma_concat_lacks(a: Seq<char>, b: Seq<char>, c: char)
    requires
        !a.contains(c),
        !b.contains(c),
    ensures
        !(a + b).contains(c),
{
    assert forall|i: int| 0 <= i < (a + b).len() implies (a + b)[i] != c by {
        if i < a.len() {
            assert(a.contains(a[i]));
        } else {
            assert(b.contains(b[i - a.len()]));
        }
    }
}

proof fn lemma_mapped_round_trip(g: Seq<u16>)
    requires
        g.len() == 8,
        is_ipv4_mapped(g),
    ensures
        parse_ipv6(ipv6_text(g)) == Some(g),
{
    let a = Ipv4Addr { bits: (g[6] * 0x10000 + g[7]) as u32 };
    let v4 = ipv4_text(a);
    law_ipv4_round_trip(a);
    lemma_ipv4_text_colons(a);
    let tail = seq!['f', 'f', 'f', 'f'] + seq![':'] + v4;
    let empty = Seq::<char>::empty();
    assert(ipv6_text(g) == empty + "::"@ + tail) by {
        reveal_strlit("::ffff:");
        reveal_strlit("::");
        assert("::ffff:"@ + v4 =~= empty + "::"@ + tail);
    }
    lemma_first_double_colon(empty, tail);
    lemma_mapped_tail(v4, a);
    assert(groups(colon_pieces(empty)) == Some(Seq::<u16>::empty())) by {
        assert(groups(colon_pieces(empty))->0 =~= Seq::<u16>::empty());
    }
    assert(Seq::<u16>::empty() + zero_groups(5) + seq![0xffffu16, g[6], g[7]] =~= g);
}

proof fn lemma_mapped_tail(v4: Seq<char>, a: Ipv4Addr)
    requires
        parse_ipv4(v4) == Some(a),
        !v4.contains(':'),
    ensures
        groups_or_ipv4(colon_pieces(seq!['f', 'f', 'f', 'f'] + seq![':'] + v4)) == Some(
            seq![0xffffu16, (a.bits / 0x10000) as u16, (a.bits % 0x10000) as u16],
        ),
{
    let ffff = seq!['f', 'f', 'f', 'f'];
    lemma_ffff();
    lemma_split_head(ffff, ':', v4);
    lemma_split_whole(v4, ':');
    let p = colon_pieces(ffff + seq![':'] + v4);
    assert(p =~= seq![ffff, v4]);
    assert(p.drop_last() =~= seq![ffff]);
    assert(groups(p.drop_last())->0 =~= seq![0xffffu16]);
    assert(groups_or_ipv4(p)->0 =~= seq![
        0xffffu16,
        (a.bits / 0x10000) as u16,
        (a.bits % 0x10000) as u16,
    ]);
}

proof fn lemma_ffff()
    ensures
        is_group(seq!['f', 'f', 'f', 'f']),
        value(seq!['f', 'f', 'f', 'f'], 16) == 0xffff,
        !seq!['f', 'f', 'f', 'f'].contains(':'),
{
    let ffff = seq!['f', 'f', 'f', 'f'];
    assert(ffff.drop_last() =~= seq!['f', 'f', 'f']);
    assert(seq!['f', 'f', 'f'].drop_last() =~= seq!['f', 'f']);
    assert(seq!['f', 'f'].drop_last() =~= seq!['f']);
    assert(seq!['f'].drop_last() =~= Seq::<char>::empty());
    assert(value(Seq::<char>::empty(), 16) == 0);
    assert(value(seq!['f'], 16) == 15);
    assert(value(seq!['f', 'f'], 16) == 255);
    assert(value(seq!['f', 'f', 'f'], 16) == 4095);
}

/// Reading back what an IPv6 address is written as gives the address.
pub proof fn law_ipv6_round_trip(g: Seq<u16>)
    requires
        g.len() == 8,
    ensures
        parse_ipv6(ipv6_text(g)) == Some(g),
{
    if is_ipv4_mapped(g) {
        lemma_mapped_round_trip(g);
    } else {
        let start = longest_zeros(g, 8);
        lemma_longest_zeros(g, 8);
        let len = zeros_from(g, start);
        lemma_zeros_from(g, start);
        if len > 1 {
            let h = g.subrange(0, start);
            let t = g.subrange(start + len, 8);
            lemma_groups_text(h);
            lemma_groups_text(t);
            lemma_first_double_colon(groups_text(h), groups_text(t));
            assert(h + zero_groups((8 - h.len() - t.len()) as nat) + t =~= g);
        } else {
            lemma_groups_text(g);
            lemma_no_double_colon(groups_text(g));
        }
    }
}

/// An IPv6 address has eight groups.
pub proof fn lemma_eight_groups(s: Seq<char>)
    ensures
        parse_ipv6(s) matches Some(g) ==> g.len() == 8,
{
}

proof fn lemma_longest_zeros(g: Seq<u16>, n: int)
    requires
        0 <= n <= g.len(),
    ensures
        0 <= longest_zeros(g, n) <= n,
    decreases n,
{
    if n > 0 {
        lemma_longest_zeros(g, n - 1);
    }
}

impl IpAddr {
    /// Reads an address of either family.
    pub fn parse(s: &str) -> (r: Option<IpAddr>)
        ensures
            r.deep_view() == parse_ip(s@),
    {
        match Ipv4Addr::parse(s) {
            Some(a) => Some(IpAddr::V4(a)),
            None => match Ipv6Addr::parse(s) {
                Some(a) => Some(IpAddr::V6(a)),
                None => None,
            },
        }
    }
}

/// A numeral of one to three digits without a leading zero is that of its value.
proof fn lemma_octet_text(s: Seq<char>)
    requires
        is_octet(s),
    ensures
        decimal(value(s, 10)) == s,
{
    assert(is_digit(s[0], 10));
    let a = digit_value(s[0]);
    reveal_with_fuel(value, 4);
    reveal_with_fuel(numeral, 4);
    if s.len() == 1 {
        assert(s =~= seq![s[0]]);
        assert(value(s, 10) == a);
        assert(digit(a) == s[0]);
    } else if s.len() == 2 {
        assert(is_digit(s[1], 10));
        let b = digit_value(s[1]);
        assert(s.drop_last() =~= seq![s[0]]);
        assert(value(s, 10) == a * 10 + b);
        assert(numeral((a * 10 + b) as nat, 10) =~= seq![digit(a), digit(b)]);
        assert(s =~= seq![digit(a), digit(b)]);
    } else {
        assert(is_digit(s[1], 10) && is_digit(s[2], 10));
        let b = digit_value(s[1]);
        let c = digit_value(s[2]);
        assert(s.drop_last().drop_last() =~= seq![s[0]]);
        assert(s.drop_last() =~= seq![s[0], s[1]]);
        assert(value(s.drop_last(), 10) == a * 10 + b);
        assert(value(s, 10) == (a * 10 + b) * 10 + c);
        let n = ((a * 10 + b) * 10 + c) as nat;
        assert(n / 10 == a * 10 + b && n % 10 == c);
        assert(numeral((a * 10 + b) as nat, 10) =~= seq![digit(a), digit(b)]);
        assert(numeral(n, 10) =~= seq![digit(a), digit(b), digit(c)]);
        assert(s =~= seq![digit(a), digit(b), digit(c)]);
    }
}

proof fn lemma_octets_of(a: nat, b: nat, c: nat, d: nat)
    requires
        a < 256 && b < 256 && c < 256 && d < 256,
    ensures
        octet(ipv4(a, b, c, d), 0) == a,
        octet(ipv4(a, b, c, d), 1) == b,
        octet(ipv4(a, b, c, d), 2) == c,
        octet(ipv4(a, b, c, d), 3) == d,
{
    let n = a * 0x1000000 + b * 0x10000 + c * 0x100 + d;
    assert(0 <= n <= u32::MAX);
    assert(ipv4(a, b, c, d).bits == n);
    assert(n / 0x1000000 == a);
    assert(n / 0x10000 == a * 0x100 + b);
    assert(n / 0x100 == a * 0x10000 + b * 0x100 + c);
}

proof fn lemma_four_pieces(p: Seq<Seq<char>>)
    requires
        p.len() == 4,
    ensures
        join(p, seq!['.']) == p[0] + "."@ + p[1] + "."@ + p[2] + "."@ + p[3],
{
    let dot = seq!['.'];
    reveal_strlit(".");
    assert("."@ =~= dot);
    lemma_join_head(p, dot);
    lemma_join_head(p.skip(1), dot);
    lemma_join_head(p.skip(1).skip(1), dot);
    let last = p.skip(1).skip(1).skip(1);
    assert(last.len() == 1 && last[0] == p[3]);
    assert(p.skip(1)[0] == p[1] && p.skip(1).skip(1)[0] == p[2]);
    assert(join(last, dot) == p[3]);
    assert(join(p, dot) =~= p[0] + "."@ + p[1] + "."@ + p[2] + "."@ + p[3]);
}

/// A text is read as an IPv4 address only if it is how that address is written.
pub proof fn law_ipv4_text_is_the_only_one(s: Seq<char>)
    ensures
        parse_ipv4(s) matches Some(a) ==> s == ipv4_text(a),
{
    if let Some(a) = parse_ipv4(s) {
        let p = split(s, '.');
        law_split(s, '.');
        lemma_octet_text(p[0]);
        lemma_octet_text(p[1]);
        lemma_octet_text(p[2]);
        lemma_octet_text(p[3]);
        lemma_octets_of(value(p[0], 10), value(p[1], 10), value(p[2], 10), value(p[3], 10));
        lemma_four_pieces(p);
    }
}

/// A text is read as an IPv4 address if it is one, and otherwise as an IPv6 address if it is that.
pub proof fn law_parse_ip(s: Seq<char>)
    ensures
        parse_ipv4(s) matches Some(a) ==> parse_ip(s) == Some(IpAddrView::V4(a)),
        parse_ipv4(s) is None && parse_ipv6(s) is Some ==> parse_ip(s) == Some(
            IpAddrView::V6(parse_ipv6(s)->Some_0),
        ),
        parse_ipv4(s) is None && parse_ipv6(s) is None ==> parse_ip(s) is None,
{
}

/// Whether every text is one to four hexadecimal digits.
pub open spec fn are_groups(p: Seq<Seq<char>>) -> bool {
    forall|i: int|
        0 <= i < p.len() ==> 1 <= (#[trigger] p[i]).len() <= 4 && forall|k: int|
            0 <= k < p[i].len() ==> {
                let c = #[trigger] p[i][k];
                '0' <= c <= '9' || 'a' <= c <= 'f' || 'A' <= c <= 'F'
            }
}

/// The numbers that the groups write.
pub open spec fn numbers_of(p: Seq<Seq<char>>) -> Seq<u16> {
    Seq::new(p.len(), |i: int| value(p[i], 16) as u16)
}

proof fn lemma_written_groups(p: Seq<Seq<char>>)
    requires
        are_groups(p),
    ensures
        single_colons(join(p, seq![':'])),
        groups(colon_pieces(join(p, seq![':']))) == Some(numbers_of(p)),
        groups_or_ipv4(colon_pieces(join(p, seq![':']))) == Some(numbers_of(p)),
{
    assert forall|i: int| 0 <= i < p.len() implies (#[trigger] p[i]).len() > 0 && !p[i].contains(
        ':',
    ) && is_group(p[i]) && !p[i].contains('.') by {
        let s = p[i];
        assert forall|k: int| 0 <= k < s.len() implies s[k] != ':' && s[k] != '.' && is_digit(
            #[trigger] s[k],
            16,
        ) by {
            let c = p[i][k];
        }
    }
    lemma_join_single_colons(p);
    if p.len() > 0 {
        lemma_split_join(p, ':');
        lemma_split_whole(p.last(), '.');
        assert(split(p.last(), '.').len() == 1);
    }
    assert(colon_pieces(join(p, seq![':'])) == p);
    assert(groups(p)->0 =~= numbers_of(p));
}

/// Eight groups with colons between them are an IPv6 address, and so are at most seven with `::` in
/// one place, which stands for as many zero groups as are missing. Other numbers of groups are
/// none.
pub proof fn law_ipv6_forms(h: Seq<Seq<char>>, t: Seq<Seq<char>>)
    requires
        are_groups(h),
        are_groups(t),
    ensures
        parse_ipv6(join(h, seq![':'])) == (if h.len() == 8 {
            Some(numbers_of(h))
        } else {
            None
        }),
        parse_ipv6(join(h, seq![':']) + "::"@ + join(t, seq![':'])) == (if h.len() + t.len() <= 7 {
            Some(
                numbers_of(h) + Seq::new((8 - h.len() - t.len()) as nat, |i: int| 0u16)
                    + numbers_of(t),
            )
        } else {
            None
        }),
{
    lemma_written_groups(h);
    lemma_written_groups(t);
    lemma_no_double_colon(join(h, seq![':']));
    lemma_first_double_colon(join(h, seq![':']), join(t, seq![':']));
    if h.len() + t.len() <= 7 {
        assert(zero_groups((8 - h.len() - t.len()) as nat) =~= Seq::new(
            (8 - h.len() - t.len()) as nat,
            |i: int| 0u16,
        ));
    }
}

} // verus!
