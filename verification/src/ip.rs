//! The address model: typed IPv4/IPv6 addresses, parsing from text, and the
//! canonical text rendering used as a DNS record value.
//!
//! An address literal is either a dotted decimal quad (each group one to
//! three digits, no leading zeros, at most 255) or an IPv6 literal: hex
//! groups of one to four digits separated by `:`, with at most one `::`
//! standing for one or more zero groups.

use vstd::prelude::*;

verus! {

/// A typed IP address, the payload of a device record.
///
/// An IPv4 address is its four octets; an IPv6 address is its eight 16-bit
/// groups, most significant first.
#[derive(Clone, Copy, PartialEq, Eq, Structural, Debug)]
pub enum IpAddress {
    V4(u8, u8, u8, u8),
    V6(u16, u16, u16, u16, u16, u16, u16, u16),
}

impl IpAddress {
    /// True of the IPv4 variant; record type A is derived from this.
    pub open spec fn is_v4(self) -> bool {
        self is V4
    }

    /// The eight groups of an IPv6 address as a sequence.
    pub open spec fn v6_groups(self) -> Seq<u16> {
        match self {
            IpAddress::V6(g0, g1, g2, g3, g4, g5, g6, g7) => seq![
                g0,
                g1,
                g2,
                g3,
                g4,
                g5,
                g6,
                g7,
            ],
            _ => Seq::empty(),
        }
    }
}

pub open spec fn is_dec_digit(c: char) -> bool {
    '0' <= c && c <= '9'
}

pub open spec fn dec_digit_val(c: char) -> int {
    c as int - '0' as int
}

pub open spec fn is_hex_digit(c: char) -> bool {
    is_dec_digit(c) || ('a' <= c && c <= 'f') || ('A' <= c && c <= 'F')
}

pub open spec fn hex_digit_val(c: char) -> int {
    if is_dec_digit(c) {
        dec_digit_val(c)
    } else if 'a' <= c && c <= 'f' {
        c as int - 'a' as int + 10
    } else {
        c as int - 'A' as int + 10
    }
}

pub open spec fn all_dec_digits(s: Seq<char>) -> bool {
    forall|j: int| 0 <= j < s.len() ==> is_dec_digit(#[trigger] s[j])
}

pub open spec fn all_hex_digits(s: Seq<char>) -> bool {
    forall|j: int| 0 <= j < s.len() ==> is_hex_digit(#[trigger] s[j])
}

/// The numeric value of a sequence of decimal digits, most significant first.
pub open spec fn dec_val(s: Seq<char>) -> int
    decreases s.len(),
{
    if s.len() == 0 {
        0
    } else {
        dec_val(s.drop_last()) * 10 + dec_digit_val(s.last())
    }
}

/// The numeric value of a sequence of hex digits, most significant first.
pub open spec fn hex_val(s: Seq<char>) -> int
    decreases s.len(),
{
    if s.len() == 0 {
        0
    } else {
        hex_val(s.drop_last()) * 16 + hex_digit_val(s.last())
    }
}

/// A valid decimal octet group: one to three digits, no leading zero, at
/// most 255.
pub open spec fn is_dec_octet(g: Seq<char>) -> bool {
    1 <= g.len() <= 3 && all_dec_digits(g) && (g.len() > 1 ==> g[0] != '0') && dec_val(g) <= 255
}

/// The end of the run of decimal digits that starts at `i`.
pub open spec fn spec_scan_dec_digits(s: Seq<char>, i: int) -> int
    decreases s.len() - i
        when 0 <= i <= s.len()
{
    if i < s.len() && is_dec_digit(s[i]) {
        spec_scan_dec_digits(s, i + 1)
    } else {
        i
    }
}

/// The end of the run of hex digits that starts at `i`.
pub open spec fn spec_scan_hex_digits(s: Seq<char>, i: int) -> int
    decreases s.len() - i
        when 0 <= i <= s.len()
{
    if i < s.len() && is_hex_digit(s[i]) {
        spec_scan_hex_digits(s, i + 1)
    } else {
        i
    }
}

pub proof fn lemma_scan_dec_bound(s: Seq<char>, i: int)
    requires
        0 <= i <= s.len(),
    ensures
        i <= spec_scan_dec_digits(s, i) <= s.len(),
        forall|j: int| i <= j < spec_scan_dec_digits(s, i) ==> is_dec_digit(#[trigger] s[j]),
        spec_scan_dec_digits(s, i) < s.len() ==> !is_dec_digit(s[spec_scan_dec_digits(s, i)]),
    decreases s.len() - i,
{
    if i < s.len() && is_dec_digit(s[i]) {
        lemma_scan_dec_bound(s, i + 1);
    }
}

pub proof fn lemma_scan_hex_bound(s: Seq<char>, i: int)
    requires
        0 <= i <= s.len(),
    ensures
        i <= spec_scan_hex_digits(s, i) <= s.len(),
        forall|j: int| i <= j < spec_scan_hex_digits(s, i) ==> is_hex_digit(#[trigger] s[j]),
        spec_scan_hex_digits(s, i) < s.len() ==> !is_hex_digit(s[spec_scan_hex_digits(s, i)]),
    decreases s.len() - i,
{
    if i < s.len() && is_hex_digit(s[i]) {
        lemma_scan_hex_bound(s, i + 1);
    }
}

pub proof fn lemma_dec_val_small(s: Seq<char>)
    requires
        all_dec_digits(s),
        s.len() <= 3,
    ensures
        0 <= dec_val(s),
        s.len() <= 3 ==> dec_val(s) < 1000,
        s.len() <= 2 ==> dec_val(s) < 100,
        s.len() <= 1 ==> dec_val(s) < 10,
    decreases s.len(),
{
    if s.len() > 0 {
        assert(all_dec_digits(s.drop_last())) by {
            assert(forall|j: int|
                0 <= j < s.len() - 1 ==> #[trigger] s.drop_last()[j] == s[j]);
        }
        lemma_dec_val_small(s.drop_last());
    }
}

pub proof fn lemma_hex_val_small(s: Seq<char>)
    requires
        all_hex_digits(s),
        s.len() <= 4,
    ensures
        0 <= hex_val(s),
        s.len() <= 4 ==> hex_val(s) < 0x10000,
        s.len() <= 3 ==> hex_val(s) < 0x1000,
        s.len() <= 2 ==> hex_val(s) < 0x100,
        s.len() <= 1 ==> hex_val(s) < 0x10,
    decreases s.len(),
{
    if s.len() > 0 {
        assert(all_hex_digits(s.drop_last())) by {
            assert(forall|j: int|
                0 <= j < s.len() - 1 ==> #[trigger] s.drop_last()[j] == s[j]);
        }
        lemma_hex_val_small(s.drop_last());
    }
}

/// The parse of an IPv4 literal: four dot-separated decimal octets and
/// nothing else.
pub open spec fn spec_parse_ipv4(s: Seq<char>) -> Option<IpAddress> {
    let e1 = spec_scan_dec_digits(s, 0);
    if e1 < s.len() && s[e1] == '.' {
        let e2 = spec_scan_dec_digits(s, e1 + 1);
        if e2 < s.len() && s[e2] == '.' {
            let e3 = spec_scan_dec_digits(s, e2 + 1);
            if e3 < s.len() && s[e3] == '.' {
                let e4 = spec_scan_dec_digits(s, e3 + 1);
                if e4 == s.len() && is_dec_octet(s.subrange(0, e1)) && is_dec_octet(
                    s.subrange(e1 + 1, e2),
                ) && is_dec_octet(s.subrange(e2 + 1, e3)) && is_dec_octet(
                    s.subrange(e3 + 1, e4),
                ) {
                    Some(
                        IpAddress::V4(
                            dec_val(s.subrange(0, e1)) as u8,
                            dec_val(s.subrange(e1 + 1, e2)) as u8,
                            dec_val(s.subrange(e2 + 1, e3)) as u8,
                            dec_val(s.subrange(e3 + 1, e4)) as u8,
                        ),
                    )
                } else {
                    None
                }
            } else {
                None
            }
        } else {
            None
        }
    } else {
        None
    }
}

fn exec_is_dec_digit(c: char) -> (r: bool)
    ensures
        r == is_dec_digit(c),
{
    '0' <= c && c <= '9'
}

fn exec_is_hex_digit(c: char) -> (r: bool)
    ensures
        r == is_hex_digit(c),
{
    ('0' <= c && c <= '9') || ('a' <= c && c <= 'f') || ('A' <= c && c <= 'F')
}

fn scan_dec_digits(s: &str, i: usize) -> (e: usize)
    requires
        i <= s@.len(),
    ensures
        e == spec_scan_dec_digits(s@, i as int),
        i <= e <= s@.len(),
    decreases s@.len() - i,
{
    let n = s.unicode_len();
    if i < n && exec_is_dec_digit(s.get_char(i)) {
        scan_dec_digits(s, i + 1)
    } else {
        i
    }
}

fn scan_hex_digits(s: &str, i: usize) -> (e: usize)
    requires
        i <= s@.len(),
    ensures
        e == spec_scan_hex_digits(s@, i as int),
        i <= e <= s@.len(),
    decreases s@.len() - i,
{
    let n = s.unicode_len();
    if i < n && exec_is_hex_digit(s.get_char(i)) {
        scan_hex_digits(s, i + 1)
    } else {
        i
    }
}

/// The value of the decimal digit run `s[i..e]`.
fn dec_group_val(s: &str, i: usize, e: usize) -> (v: u32)
    requires
        i <= e <= s@.len(),
        e - i <= 3,
        all_dec_digits(s@.subrange(i as int, e as int)),
    ensures
        v == dec_val(s@.subrange(i as int, e as int)),
        v < 1000,
    decreases e - i,
{
    proof {
        lemma_dec_val_small(s@.subrange(i as int, e as int));
    }
    if i == e {
        assert(s@.subrange(i as int, e as int) =~= Seq::<char>::empty());
        0
    } else {
        assert(s@.subrange(i as int, e as int - 1) =~= s@.subrange(
            i as int,
            e as int,
        ).drop_last());
        let prev = dec_group_val(s, i, e - 1);
        let c = s.get_char(e - 1);
        assert(c == s@.subrange(i as int, e as int).last());
        assert(is_dec_digit(c));
        prev * 10 + (c as u32 - 48)
    }
}

/// The value of the hex digit run `s[i..e]`.
fn hex_group_val(s: &str, i: usize, e: usize) -> (v: u32)
    requires
        i <= e <= s@.len(),
        e - i <= 4,
        all_hex_digits(s@.subrange(i as int, e as int)),
    ensures
        v == hex_val(s@.subrange(i as int, e as int)),
        v < 0x10000,
    decreases e - i,
{
    proof {
        lemma_hex_val_small(s@.subrange(i as int, e as int));
    }
    if i == e {
        assert(s@.subrange(i as int, e as int) =~= Seq::<char>::empty());
        0
    } else {
        assert(s@.subrange(i as int, e as int - 1) =~= s@.subrange(
            i as int,
            e as int,
        ).drop_last());
        let prev = hex_group_val(s, i, e - 1);
        let c = s.get_char(e - 1);
        assert(c == s@.subrange(i as int, e as int).last());
        assert(is_hex_digit(c));
        let d: u32 = if '0' <= c && c <= '9' {
            c as u32 - 48
        } else if 'a' <= c && c <= 'f' {
            c as u32 - 87
        } else {
            c as u32 - 55
        };
        assert(d == hex_digit_val(c));
        prev * 16 + d
    }
}

/// Whether `s[i..e]` is a valid decimal octet group, and its value.
fn check_dec_octet(s: &str, i: usize, e: usize) -> (r: Option<u8>)
    requires
        i <= e <= s@.len(),
        all_dec_digits(s@.subrange(i as int, e as int)),
    ensures
        r is Some <==> is_dec_octet(s@.subrange(i as int, e as int)),
        r is Some ==> r->0 == dec_val(s@.subrange(i as int, e as int)),
{
    let ghost g = s@.subrange(i as int, e as int);
    if e - i < 1 || e - i > 3 {
        return None;
    }
    if e - i > 1 && s.get_char(i) == '0' {
        assert(g[0] == '0');
        return None;
    }
    let v = dec_group_val(s, i, e);
    if v <= 255 {
        Some(v as u8)
    } else {
        None
    }
}

/// Parse an IPv4 literal; the result is exactly `spec_parse_ipv4`.
pub fn parse_ipv4(s: &str) -> (r: Option<IpAddress>)
    ensures
        r == spec_parse_ipv4(s@),
{
    let n = s.unicode_len();
    let e1 = scan_dec_digits(s, 0);
    proof {
        lemma_scan_dec_bound(s@, 0);
    }
    if !(e1 < n && s.get_char(e1) == '.') {
        return None;
    }
    let e2 = scan_dec_digits(s, e1 + 1);
    proof {
        lemma_scan_dec_bound(s@, e1 + 1);
    }
    if !(e2 < n && s.get_char(e2) == '.') {
        return None;
    }
    let e3 = scan_dec_digits(s, e2 + 1);
    proof {
        lemma_scan_dec_bound(s@, e2 + 1);
    }
    if !(e3 < n && s.get_char(e3) == '.') {
        return None;
    }
    let e4 = scan_dec_digits(s, e3 + 1);
    proof {
        lemma_scan_dec_bound(s@, e3 + 1);
    }
    if e4 != n {
        return None;
    }
    let a = check_dec_octet(s, 0, e1);
    let b = check_dec_octet(s, e1 + 1, e2);
    let c = check_dec_octet(s, e2 + 1, e3);
    let d = check_dec_octet(s, e3 + 1, e4);
    match (a, b, c, d) {
        (Some(a), Some(b), Some(c), Some(d)) => Some(IpAddress::V4(a, b, c, d)),
        _ => None,
    }
}

/// `n` zero groups, used to expand `::`.
pub open spec fn zero_groups(n: int) -> Seq<u16> {
    Seq::new(n as nat, |j: int| 0u16)
}

/// The trailing mixed notation: a dotted decimal quad from `i` to the end
/// of the string, standing for the last two 16-bit groups.
pub open spec fn spec_embedded_quad(s: Seq<char>, i: int) -> Option<Seq<u16>> {
    match spec_parse_ipv4(s.subrange(i, s.len() as int)) {
        Some(ip) => match ip {
            IpAddress::V4(a, b, c, d) => Some(
                seq![(a as int * 256 + b as int) as u16, (c as int * 256 + d as int) as u16],
            ),
            _ => None,
        },
        None => None,
    }
}

/// Parse hex groups separated by single `:` from `i` to the end of the
/// string; the run after a `::`. The last piece may be a dotted quad.
pub open spec fn spec_parse_tail_groups(s: Seq<char>, i: int) -> Option<Seq<u16>>
    decreases s.len() - i
        when 0 <= i <= s.len()
        via spec_parse_tail_groups_dec
{
    let e = spec_scan_hex_digits(s, i);
    if !(i < e && e - i <= 4) {
        None
    } else if e == s.len() {
        Some(seq![hex_val(s.subrange(i, e)) as u16])
    } else if s[e] == '.' {
        spec_embedded_quad(s, i)
    } else if s[e] == ':' {
        match spec_parse_tail_groups(s, e + 1) {
            Some(rest) => Some(seq![hex_val(s.subrange(i, e)) as u16] + rest),
            None => None,
        }
    } else {
        None
    }
}

#[via_fn]
proof fn spec_parse_tail_groups_dec(s: Seq<char>, i: int) {
    lemma_scan_hex_bound(s, i);
}

/// Parse groups before any `::`, with `acc` groups already read; a full
/// IPv6 body whose first group starts at `i`.
pub open spec fn spec_parse_head_groups(s: Seq<char>, i: int, acc: Seq<u16>) -> Option<Seq<u16>>
    decreases s.len() - i
        when 0 <= i <= s.len()
        via spec_parse_head_groups_dec
{
    let e = spec_scan_hex_digits(s, i);
    if !(i < e && e - i <= 4) {
        None
    } else if e < s.len() && s[e] == '.' {
        match spec_embedded_quad(s, i) {
            Some(q) => if acc.len() + q.len() == 8 {
                Some(acc + q)
            } else {
                None
            },
            None => None,
        }
    } else {
        let acc2 = acc + seq![hex_val(s.subrange(i, e)) as u16];
        if e == s.len() {
            if acc2.len() == 8 {
                Some(acc2)
            } else {
                None
            }
        } else if s[e] == ':' {
            if e + 1 < s.len() && s[e + 1] == ':' {
                if e + 2 == s.len() {
                    if acc2.len() <= 7 {
                        Some(acc2 + zero_groups(8 - acc2.len()))
                    } else {
                        None
                    }
                } else {
                    match spec_parse_tail_groups(s, e + 2) {
                        Some(t) => if acc2.len() + t.len() <= 7 {
                            Some(acc2 + zero_groups(8 - acc2.len() - t.len()) + t)
                        } else {
                            None
                        },
                        None => None,
                    }
                }
            } else {
                if acc2.len() < 8 {
                    spec_parse_head_groups(s, e + 1, acc2)
                } else {
                    None
                }
            }
        } else {
            None
        }
    }
}

#[via_fn]
proof fn spec_parse_head_groups_dec(s: Seq<char>, i: int, acc: Seq<u16>) {
    lemma_scan_hex_bound(s, i);
}

/// The parse of an IPv6 literal, as its eight groups.
pub open spec fn spec_parse_ipv6(s: Seq<char>) -> Option<Seq<u16>> {
    if s.len() >= 2 && s[0] == ':' && s[1] == ':' {
        if s.len() == 2 {
            Some(zero_groups(8))
        } else {
            match spec_parse_tail_groups(s, 2) {
                Some(t) => if t.len() <= 7 {
                    Some(zero_groups(8 - t.len()) + t)
                } else {
                    None
                },
                None => None,
            }
        }
    } else {
        spec_parse_head_groups(s, 0, Seq::empty())
    }
}

pub open spec fn ip_v6_of(t: Seq<u16>) -> IpAddress {
    IpAddress::V6(t[0], t[1], t[2], t[3], t[4], t[5], t[6], t[7])
}

/// The parse of an address literal: IPv4 where the quad form matches, else
/// IPv6.
pub open spec fn spec_parse_ip(s: Seq<char>) -> Option<IpAddress> {
    if spec_parse_ipv4(s) is Some {
        spec_parse_ipv4(s)
    } else {
        match spec_parse_ipv6(s) {
            Some(t) => Some(ip_v6_of(t)),
            None => None,
        }
    }
}

pub proof fn lemma_head_groups_len(s: Seq<char>, i: int, acc: Seq<u16>)
    requires
        0 <= i <= s.len(),
        spec_parse_head_groups(s, i, acc) is Some,
    ensures
        spec_parse_head_groups(s, i, acc)->0.len() == 8,
    decreases s.len() - i,
{
    lemma_scan_hex_bound(s, i);
    let e = spec_scan_hex_digits(s, i);
    if i < e && e - i <= 4 && !(e < s.len() && s[e] == '.') {
        let acc2 = acc + seq![hex_val(s.subrange(i, e)) as u16];
        if e < s.len() && s[e] == ':' && !(e + 1 < s.len() && s[e + 1] == ':') && acc2.len() < 8 {
            lemma_head_groups_len(s, e + 1, acc2);
        }
    }
}

pub proof fn lemma_parse_ipv6_len(s: Seq<char>)
    requires
        spec_parse_ipv6(s) is Some,
    ensures
        spec_parse_ipv6(s)->0.len() == 8,
{
    if !(s.len() >= 2 && s[0] == ':' && s[1] == ':') {
        lemma_head_groups_len(s, 0, Seq::empty());
    }
}

/// Append `k` zero groups.
fn pad_zero_groups(v: &mut Vec<u16>, k: usize)
    ensures
        final(v)@ == old(v)@ + zero_groups(k as int),
{
    let mut j: usize = 0;
    while j < k
        invariant
            j <= k,
            v@ == old(v)@ + zero_groups(j as int),
        decreases k - j,
    {
        v.push(0);
        assert(old(v)@ + zero_groups(j as int + 1) =~= (old(v)@ + zero_groups(j as int)).push(
            0u16,
        ));
        j = j + 1;
    }
    assert(v@ =~= old(v)@ + zero_groups(k as int));
}

/// Append a copy of `t`.
fn append_groups(v: &mut Vec<u16>, t: &Vec<u16>)
    ensures
        final(v)@ == old(v)@ + t@,
{
    let mut j: usize = 0;
    while j < t.len()
        invariant
            j <= t@.len(),
            v@ == old(v)@ + t@.subrange(0, j as int),
        decreases t@.len() - j,
    {
        v.push(t[j]);
        assert(old(v)@ + t@.subrange(0, j as int + 1) =~= (old(v)@ + t@.subrange(
            0,
            j as int,
        )).push(t@[j as int]));
        j = j + 1;
    }
    assert(v@ =~= old(v)@ + t@);
}

/// Parse a trailing dotted quad as the last two 16-bit groups.
fn parse_embedded_quad(s: &str, i: usize) -> (r: Option<(u16, u16)>)
    requires
        i <= s@.len(),
    ensures
        (r is Some) == (spec_embedded_quad(s@, i as int) is Some),
        (r matches Some(q) ==> spec_embedded_quad(s@, i as int) == Some(seq![q.0, q.1])),
{
    let n = s.unicode_len();
    let sub = s.substring_char(i, n);
    match parse_ipv4(sub) {
        Some(IpAddress::V4(a, b, c, d)) => {
            let hi: u16 = (a as u16) * 256 + (b as u16);
            let lo: u16 = (c as u16) * 256 + (d as u16);
            Some((hi, lo))
        },
        _ => None,
    }
}

fn parse_tail_groups(s: &str, i: usize) -> (r: Option<Vec<u16>>)
    requires
        i <= s@.len(),
    ensures
        (r is Some) == (spec_parse_tail_groups(s@, i as int) is Some),
        r is Some ==> r->0@ == spec_parse_tail_groups(s@, i as int)->0,
    decreases s@.len() - i,
{
    proof {
        lemma_scan_hex_bound(s@, i as int);
    }
    let n = s.unicode_len();
    let e = scan_hex_digits(s, i);
    if !(i < e && e - i <= 4) {
        return None;
    }
    assert(all_hex_digits(s@.subrange(i as int, e as int)));
    let g = hex_group_val(s, i, e) as u16;
    if e == n {
        let mut v: Vec<u16> = Vec::new();
        v.push(g);
        assert(v@ =~= seq![hex_val(s@.subrange(i as int, e as int)) as u16]);
        Some(v)
    } else if s.get_char(e) == '.' {
        match parse_embedded_quad(s, i) {
            Some((hi, lo)) => {
                let mut v: Vec<u16> = Vec::new();
                v.push(hi);
                v.push(lo);
                assert(v@ =~= seq![hi, lo]);
                Some(v)
            },
            None => None,
        }
    } else if s.get_char(e) == ':' {
        match parse_tail_groups(s, e + 1) {
            Some(rest) => {
                let mut v: Vec<u16> = Vec::new();
                v.push(g);
                append_groups(&mut v, &rest);
                assert(v@ =~= seq![hex_val(s@.subrange(i as int, e as int)) as u16] + rest@);
                Some(v)
            },
            None => None,
        }
    } else {
        None
    }
}

fn parse_head_groups(s: &str, i: usize, acc: Vec<u16>) -> (r: Option<Vec<u16>>)
    requires
        i <= s@.len(),
    ensures
        (r is Some) == (spec_parse_head_groups(s@, i as int, acc@) is Some),
        r is Some ==> r->0@ == spec_parse_head_groups(s@, i as int, acc@)->0,
    decreases s@.len() - i,
{
    proof {
        lemma_scan_hex_bound(s@, i as int);
    }
    let n = s.unicode_len();
    let e = scan_hex_digits(s, i);
    if !(i < e && e - i <= 4) {
        return None;
    }
    assert(all_hex_digits(s@.subrange(i as int, e as int)));
    if e < n && s.get_char(e) == '.' {
        let ghost acc0 = acc@;
        return match parse_embedded_quad(s, i) {
            Some((hi, lo)) => {
                if acc.len() == 6 {
                    let mut v = acc;
                    v.push(hi);
                    v.push(lo);
                    assert(v@ =~= acc0 + seq![hi, lo]);
                    Some(v)
                } else {
                    None
                }
            },
            None => None,
        };
    }
    let g = hex_group_val(s, i, e) as u16;
    let ghost acc0 = acc@;
    let mut acc2 = acc;
    acc2.push(g);
    assert(acc2@ =~= acc0 + seq![g]);
    let ghost spec_acc2 = acc2@;
    if e == n {
        if acc2.len() == 8 {
            Some(acc2)
        } else {
            None
        }
    } else if s.get_char(e) == ':' {
        if e + 1 < n && s.get_char(e + 1) == ':' {
            if e + 2 == n {
                if acc2.len() <= 7 {
                    let k = 8 - acc2.len();
                    pad_zero_groups(&mut acc2, k);
                    Some(acc2)
                } else {
                    None
                }
            } else {
                match parse_tail_groups(s, e + 2) {
                    Some(t) => {
                        if acc2.len() <= 7 && t.len() <= 7 - acc2.len() {
                            let k = 8 - acc2.len() - t.len();
                            pad_zero_groups(&mut acc2, k);
                            append_groups(&mut acc2, &t);
                            assert(acc2@ =~= spec_acc2 + zero_groups(
                                8 - spec_acc2.len() - t@.len(),
                            ) + t@);
                            Some(acc2)
                        } else {
                            None
                        }
                    },
                    None => None,
                }
            }
        } else {
            if acc2.len() < 8 {
                parse_head_groups(s, e + 1, acc2)
            } else {
                None
            }
        }
    } else {
        None
    }
}

fn parse_ipv6(s: &str) -> (r: Option<Vec<u16>>)
    ensures
        (r is Some) == (spec_parse_ipv6(s@) is Some),
        r is Some ==> r->0@ == spec_parse_ipv6(s@)->0,
{
    let n = s.unicode_len();
    if n >= 2 && s.get_char(0) == ':' && s.get_char(1) == ':' {
        if n == 2 {
            let mut v: Vec<u16> = Vec::new();
            pad_zero_groups(&mut v, 8);
            assert(v@ =~= zero_groups(8));
            Some(v)
        } else {
            match parse_tail_groups(s, 2) {
                Some(t) => {
                    if t.len() <= 7 {
                        let mut v: Vec<u16> = Vec::new();
                        pad_zero_groups(&mut v, 8 - t.len());
                        append_groups(&mut v, &t);
                        assert(v@ =~= zero_groups(8 - t@.len()) + t@);
                        Some(v)
                    } else {
                        None
                    }
                },
                None => None,
            }
        }
    } else {
        parse_head_groups(s, 0, Vec::new())
    }
}

pub open spec fn dec_digit_char(n: int) -> char {
    ((48 + n) as u8) as char
}

pub open spec fn hex_digit_char(n: int) -> char {
    if n < 10 {
        ((48 + n) as u8) as char
    } else {
        ((87 + n) as u8) as char
    }
}

/// The decimal rendering of `n`, without leading zeros.
pub open spec fn dec_str(n: int) -> Seq<char>
    decreases n
        when 0 <= n
{
    if n < 10 {
        seq![dec_digit_char(n)]
    } else {
        dec_str(n / 10) + seq![dec_digit_char(n % 10)]
    }
}

/// The lowercase hex rendering of `n`, without leading zeros.
pub open spec fn hex_str(n: int) -> Seq<char>
    decreases n
        when 0 <= n
{
    if n < 16 {
        seq![hex_digit_char(n)]
    } else {
        hex_str(n / 16) + seq![hex_digit_char(n % 16)]
    }
}

fn dec_digit_literal(d: u8) -> (r: &'static str)
    requires
        d < 10,
    ensures
        r@ =~= seq![dec_digit_char(d as int)],
{
    proof {
        reveal_strlit("0");
        reveal_strlit("1");
        reveal_strlit("2");
        reveal_strlit("3");
        reveal_strlit("4");
        reveal_strlit("5");
        reveal_strlit("6");
        reveal_strlit("7");
        reveal_strlit("8");
        reveal_strlit("9");
    }
    if d == 0 {
        "0"
    } else if d == 1 {
        "1"
    } else if d == 2 {
        "2"
    } else if d == 3 {
        "3"
    } else if d == 4 {
        "4"
    } else if d == 5 {
        "5"
    } else if d == 6 {
        "6"
    } else if d == 7 {
        "7"
    } else if d == 8 {
        "8"
    } else {
        "9"
    }
}

fn hex_digit_literal(d: u8) -> (r: &'static str)
    requires
        d < 16,
    ensures
        r@ =~= seq![hex_digit_char(d as int)],
{
    proof {
        reveal_strlit("a");
        reveal_strlit("b");
        reveal_strlit("c");
        reveal_strlit("d");
        reveal_strlit("e");
        reveal_strlit("f");
    }
    if d < 10 {
        dec_digit_literal(d)
    } else if d == 10 {
        "a"
    } else if d == 11 {
        "b"
    } else if d == 12 {
        "c"
    } else if d == 13 {
        "d"
    } else if d == 14 {
        "e"
    } else {
        "f"
    }
}

/// The decimal rendering of a machine integer.
pub fn dec_string_u64(n: u64) -> (r: String)
    ensures
        r@ == dec_str(n as int),
    decreases n,
{
    if n < 10 {
        dec_digit_literal(n as u8).to_owned()
    } else {
        let mut s = dec_string_u64(n / 10);
        s.append(dec_digit_literal((n % 10) as u8));
        s
    }
}

/// The lowercase hex rendering of a 16-bit group.
pub fn hex_string_u16(n: u16) -> (r: String)
    ensures
        r@ == hex_str(n as int),
    decreases n,
{
    if n < 16 {
        hex_digit_literal(n as u8).to_owned()
    } else {
        let mut s = hex_string_u16(n / 16);
        s.append(hex_digit_literal((n % 16) as u8));
        s
    }
}

/// The canonical IPv4 rendering: the dotted decimal quad.
pub open spec fn spec_ipv4_str(a: int, b: int, c: int, d: int) -> Seq<char> {
    dec_str(a) + seq!['.'] + dec_str(b) + seq!['.'] + dec_str(c) + seq!['.'] + dec_str(d)
}

/// The length of the run of zero groups that starts at `i`.
pub open spec fn run_len_at(gs: Seq<u16>, i: int) -> int
    decreases gs.len() - i
        when 0 <= i <= gs.len()
{
    if i < gs.len() && gs[i] == 0 {
        1 + run_len_at(gs, i + 1)
    } else {
        0
    }
}

/// The start of the longest zero run, leftmost on ties, scanning from `i`
/// with `best` the best start seen so far.
pub open spec fn best_run_from(gs: Seq<u16>, i: int, best: int) -> int
    decreases gs.len() - i
        when 0 <= i <= gs.len() && 0 <= best <= gs.len()
{
    if i >= gs.len() {
        best
    } else if run_len_at(gs, i) > run_len_at(gs, best) {
        best_run_from(gs, i + 1, i)
    } else {
        best_run_from(gs, i + 1, best)
    }
}

pub open spec fn best_zero_run(gs: Seq<u16>) -> int {
    best_run_from(gs, 1, 0)
}

pub proof fn lemma_run_len_bound(gs: Seq<u16>, i: int)
    requires
        0 <= i <= gs.len(),
    ensures
        0 <= run_len_at(gs, i) <= gs.len() - i,
    decreases gs.len() - i,
{
    if i < gs.len() && gs[i] == 0 {
        lemma_run_len_bound(gs, i + 1);
    }
}

pub proof fn lemma_best_run_bound(gs: Seq<u16>, i: int, best: int)
    requires
        0 <= i <= gs.len(),
        0 <= best < gs.len(),
    ensures
        0 <= best_run_from(gs, i, best) < gs.len(),
    decreases gs.len() - i,
{
    if i < gs.len() {
        if run_len_at(gs, i) > run_len_at(gs, best) {
            lemma_best_run_bound(gs, i + 1, i);
        } else {
            lemma_best_run_bound(gs, i + 1, best);
        }
    }
}

/// Hex groups joined with `:`.
pub open spec fn join_hex(gs: Seq<u16>) -> Seq<char>
    decreases gs.len(),
{
    if gs.len() == 0 {
        Seq::empty()
    } else if gs.len() == 1 {
        hex_str(gs[0] as int)
    } else {
        join_hex(gs.drop_last()) + seq![':'] + hex_str(gs.last() as int)
    }
}

/// An IPv4-mapped address: the first five groups zero and the sixth all
/// ones; such an address renders in the mixed notation.
pub open spec fn is_v4_mapped(gs: Seq<u16>) -> bool {
    gs.len() == 8 && gs[0] == 0 && gs[1] == 0 && gs[2] == 0 && gs[3] == 0 && gs[4] == 0 && gs[5]
        == 0xffff
}

/// The canonical IPv6 rendering: an IPv4-mapped address in mixed notation;
/// otherwise lowercase hex groups, with the longest run of two or more zero
/// groups (leftmost on ties) compressed to `::`.
pub open spec fn spec_ipv6_str(gs: Seq<u16>) -> Seq<char> {
    if is_v4_mapped(gs) {
        seq![':', ':', 'f', 'f', 'f', 'f', ':'] + spec_ipv4_str(
            gs[6] as int / 256,
            gs[6] as int % 256,
            gs[7] as int / 256,
            gs[7] as int % 256,
        )
    } else {
        let b = best_zero_run(gs);
        let l = run_len_at(gs, b);
        if l >= 2 {
            join_hex(gs.subrange(0, b)) + seq![':', ':'] + join_hex(
                gs.subrange(b + l, gs.len() as int),
            )
        } else {
            join_hex(gs)
        }
    }
}

/// The canonical rendering of an address, the DNS record value.
pub open spec fn spec_ip_str(ip: IpAddress) -> Seq<char> {
    match ip {
        IpAddress::V4(a, b, c, d) => spec_ipv4_str(a as int, b as int, c as int, d as int),
        IpAddress::V6(g0, g1, g2, g3, g4, g5, g6, g7) => spec_ipv6_str(ip.v6_groups()),
    }
}

fn exec_run_len_at(gs: &Vec<u16>, i: usize) -> (l: usize)
    requires
        i <= gs@.len(),
    ensures
        l == run_len_at(gs@, i as int),
    decreases gs@.len() - i,
{
    proof {
        lemma_run_len_bound(gs@, i as int);
    }
    if i < gs.len() && gs[i] == 0 {
        1 + exec_run_len_at(gs, i + 1)
    } else {
        0
    }
}

fn exec_best_run_from(gs: &Vec<u16>, i: usize, best: usize) -> (b: usize)
    requires
        i <= gs@.len(),
        best < gs@.len(),
    ensures
        b == best_run_from(gs@, i as int, best as int),
        b < gs@.len(),
    decreases gs@.len() - i,
{
    proof {
        lemma_best_run_bound(gs@, i as int, best as int);
    }
    if i >= gs.len() {
        best
    } else if exec_run_len_at(gs, i) > exec_run_len_at(gs, best) {
        exec_best_run_from(gs, i + 1, i)
    } else {
        exec_best_run_from(gs, i + 1, best)
    }
}

/// Render `gs[from..to]` as hex groups joined with `:`.
fn join_hex_range(gs: &Vec<u16>, from: usize, to: usize) -> (r: String)
    requires
        from <= to <= gs@.len(),
    ensures
        r@ == join_hex(gs@.subrange(from as int, to as int)),
    decreases to - from,
{
    proof {
        reveal_strlit(":");
    }
    if from == to {
        assert(gs@.subrange(from as int, to as int) =~= Seq::<u16>::empty());
        String::new()
    } else if to - from == 1 {
        assert(gs@.subrange(from as int, to as int) =~= seq![gs@[from as int]]);
        hex_string_u16(gs[from])
    } else {
        let ghost sub = gs@.subrange(from as int, to as int);
        assert(sub.drop_last() =~= gs@.subrange(from as int, to as int - 1));
        assert(sub.last() == gs@[to as int - 1]);
        let mut s = join_hex_range(gs, from, to - 1);
        s.append(":");
        let h = hex_string_u16(gs[to - 1]);
        s.append(h.as_str());
        assert(s@ == join_hex(sub.drop_last()) + ":"@ + hex_str(sub.last() as int));
        assert(":"@ =~= seq![':']);
        s
    }
}

/// The groups of an IPv6 address as a vector.
fn v6_group_vec(g0: u16, g1: u16, g2: u16, g3: u16, g4: u16, g5: u16, g6: u16, g7: u16) -> (v: Vec<
    u16,
>)
    ensures
        v@ =~= seq![g0, g1, g2, g3, g4, g5, g6, g7],
{
    let mut v: Vec<u16> = Vec::new();
    v.push(g0);
    v.push(g1);
    v.push(g2);
    v.push(g3);
    v.push(g4);
    v.push(g5);
    v.push(g6);
    v.push(g7);
    v
}

/// Render an address canonically; the result is exactly `spec_ip_str`.
pub fn ip_to_string(ip: &IpAddress) -> (r: String)
    ensures
        r@ == spec_ip_str(*ip),
{
    proof {
        reveal_strlit(".");
        reveal_strlit("::");
    }
    match ip {
        IpAddress::V4(a, b, c, d) => {
            let mut s = dec_string_u64(*a as u64);
            s.append(".");
            let sb = dec_string_u64(*b as u64);
            s.append(sb.as_str());
            s.append(".");
            let sc = dec_string_u64(*c as u64);
            s.append(sc.as_str());
            s.append(".");
            let sd = dec_string_u64(*d as u64);
            s.append(sd.as_str());
            assert("."@ =~= seq!['.']);
            assert(s@ =~= dec_str(*a as int) + seq!['.'] + dec_str(*b as int) + seq!['.'] + dec_str(
                *c as int,
            ) + seq!['.'] + dec_str(*d as int));
            assert(spec_ip_str(*ip) == spec_ipv4_str(*a as int, *b as int, *c as int, *d as int));
            s
        },
        IpAddress::V6(g0, g1, g2, g3, g4, g5, g6, g7) => {
            let gs = v6_group_vec(*g0, *g1, *g2, *g3, *g4, *g5, *g6, *g7);
            assert(gs@ == ip.v6_groups());
            if *g0 == 0 && *g1 == 0 && *g2 == 0 && *g3 == 0 && *g4 == 0 && *g5 == 0xffff {
                proof {
                    reveal_strlit("::ffff:");
                }
                let mut s = "::ffff:".to_owned();
                let a = dec_string_u64((*g6 / 256) as u64);
                s.append(a.as_str());
                s.append(".");
                let b = dec_string_u64((*g6 % 256) as u64);
                s.append(b.as_str());
                s.append(".");
                let c = dec_string_u64((*g7 / 256) as u64);
                s.append(c.as_str());
                s.append(".");
                let d = dec_string_u64((*g7 % 256) as u64);
                s.append(d.as_str());
                assert("."@ =~= seq!['.']);
                assert("::ffff:"@ =~= seq![':', ':', 'f', 'f', 'f', 'f', ':']);
                assert(s@ =~= seq![':', ':', 'f', 'f', 'f', 'f', ':'] + spec_ipv4_str(
                    *g6 as int / 256,
                    *g6 as int % 256,
                    *g7 as int / 256,
                    *g7 as int % 256,
                ));
                return s;
            }
            let b = exec_best_run_from(&gs, 1, 0);
            let l = exec_run_len_at(&gs, b);
            proof {
                lemma_run_len_bound(gs@, b as int);
            }
            if l >= 2 {
                let mut s = join_hex_range(&gs, 0, b);
                s.append("::");
                let tail = join_hex_range(&gs, b + l, 8);
                s.append(tail.as_str());
                assert("::"@ =~= seq![':', ':']);
                assert(s@ =~= join_hex(gs@.subrange(0, b as int)) + seq![':', ':'] + join_hex(
                    gs@.subrange(b as int + l as int, gs@.len() as int),
                ));
                s
            } else {
                assert(gs@.subrange(0, 8) =~= gs@);
                join_hex_range(&gs, 0, 8)
            }
        },
    }
}

/// Parse an address literal; the result is exactly `spec_parse_ip`.
pub fn parse_ip(s: &str) -> (r: Option<IpAddress>)
    ensures
        r == spec_parse_ip(s@),
{
    match parse_ipv4(s) {
        Some(ip) => Some(ip),
        None => {
            match parse_ipv6(s) {
                Some(v) => {
                    proof {
                        lemma_parse_ipv6_len(s@);
                    }
                    Some(IpAddress::V6(v[0], v[1], v[2], v[3], v[4], v[5], v[6], v[7]))
                },
                None => None,
            }
        },
    }
}

} // verus!
