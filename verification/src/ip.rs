//! Plain-value model of name-server addresses: the four octets of a version
//! four address or the eight groups of a version six address, with their
//! textual renderings and the literal parser used to classify user-supplied
//! name-server tokens.

use vstd::prelude::*;

use crate::numtext::all_digits;
use crate::numtext::decimal_value;
use crate::numtext::hex_value;
use crate::numtext::lemma_decimal_value_bound;
use crate::numtext::parse_hex16;
use crate::numtext::parse_u64;
use crate::numtext::spec_decimal;
use crate::numtext::spec_hex;
use crate::numtext::u64_to_string;
use crate::numtext::u64_to_hex_string;
use crate::numtext::valid_hex_chunk;

verus! {

/// A version four address as its four octets.
#[derive(Clone, Copy, Debug, PartialEq, Eq, Structural)]
pub struct Ipv4Address {
    pub a: u8,
    pub b: u8,
    pub c: u8,
    pub d: u8,
}

/// A version six address as its eight sixteen-bit groups.
#[derive(Clone, Copy, Debug, PartialEq, Eq, Structural)]
pub struct Ipv6Address {
    pub s0: u16,
    pub s1: u16,
    pub s2: u16,
    pub s3: u16,
    pub s4: u16,
    pub s5: u16,
    pub s6: u16,
    pub s7: u16,
}

/// A name-server address of either family.
#[derive(Clone, Copy, Debug, PartialEq, Eq, Structural)]
pub enum IpAddress {
    V4(Ipv4Address),
    V6(Ipv6Address),
}

/// The groups of a version six address as a sequence.
pub open spec fn ipv6_groups(ip: Ipv6Address) -> Seq<u16> {
    seq![ip.s0, ip.s1, ip.s2, ip.s3, ip.s4, ip.s5, ip.s6, ip.s7]
}

/// One group of a version six address.
pub fn ipv6_group(ip: &Ipv6Address, i: usize) -> (r: u16)
    requires
        i < 8,
    ensures
        r == ipv6_groups(*ip)[i as int],
{
    if i == 0 {
        ip.s0
    } else if i == 1 {
        ip.s1
    } else if i == 2 {
        ip.s2
    } else if i == 3 {
        ip.s3
    } else if i == 4 {
        ip.s4
    } else if i == 5 {
        ip.s5
    } else if i == 6 {
        ip.s6
    } else {
        ip.s7
    }
}

/// The dotted-decimal text of a version four address.
pub open spec fn spec_ipv4_text(ip: Ipv4Address) -> Seq<char> {
    spec_decimal(ip.a as nat) + seq!['.'] + spec_decimal(ip.b as nat) + seq!['.'] + spec_decimal(
        ip.c as nat,
    ) + seq!['.'] + spec_decimal(ip.d as nat)
}

/// Render a version four address in dotted-decimal text.
pub fn ipv4_to_string(ip: &Ipv4Address) -> (r: String)
    ensures
        r@ == spec_ipv4_text(*ip),
{
    let mut s = u64_to_string(ip.a as u64);
    s.append(".");
    s.append(u64_to_string(ip.b as u64).as_str());
    s.append(".");
    s.append(u64_to_string(ip.c as u64).as_str());
    s.append(".");
    s.append(u64_to_string(ip.d as u64).as_str());
    proof {
        reveal_strlit(".");
        assert(s@ =~= spec_ipv4_text(*ip));
    }
    s
}

/// The length of the run of zero groups starting at a position.
pub open spec fn zero_run_len(gs: Seq<u16>, i: int) -> int
    decreases gs.len() - i when 0 <= i <= gs.len()
{
    if i >= gs.len() || gs[i] != 0 {
        0
    } else {
        1 + zero_run_len(gs, i + 1)
    }
}

/// The leftmost longest run of zero groups among starts below `i`, as its
/// start and length; length zero when every group there is nonzero.
pub open spec fn best_zero_run(gs: Seq<u16>, i: int) -> (int, int)
    decreases i,
{
    if i <= 0 {
        (gs.len() as int, 0)
    } else {
        let (b, l) = best_zero_run(gs, i - 1);
        let li = zero_run_len(gs, i - 1);
        if li > l {
            (i - 1, li)
        } else {
            (b, l)
        }
    }
}

/// The colon-separated hexadecimal text of the groups in `[lo, hi)`.
pub open spec fn spec_groups_text(gs: Seq<u16>, lo: int, hi: int) -> Seq<char>
    decreases hi - lo when lo <= hi
{
    if lo >= hi {
        seq![]
    } else if lo + 1 == hi {
        spec_hex(gs[lo] as nat)
    } else {
        spec_hex(gs[lo] as nat) + seq![':'] + spec_groups_text(gs, lo + 1, hi)
    }
}

/// The canonical text of a version six address: lower-case hexadecimal
/// groups separated by colons, with the leftmost longest run of two or more
/// zero groups elided to a double colon.
pub open spec fn spec_ipv6_text(ip: Ipv6Address) -> Seq<char> {
    let gs = ipv6_groups(ip);
    let (b, l) = best_zero_run(gs, 8);
    if l >= 2 {
        spec_groups_text(gs, 0, b) + seq![':', ':'] + spec_groups_text(gs, b + l, 8)
    } else {
        spec_groups_text(gs, 0, 8)
    }
}

/// The length of the zero run starting at a group position.
fn zero_run_len_at(ip: &Ipv6Address, i: usize) -> (r: usize)
    requires
        i <= 8,
    ensures
        r as int == zero_run_len(ipv6_groups(*ip), i as int),
        i + r <= 8,
    decreases 8 - i,
{
    if i >= 8 {
        0
    } else if ipv6_group(ip, i) != 0 {
        0
    } else {
        1 + zero_run_len_at(ip, i + 1)
    }
}

/// Render the groups in `[lo, hi)` as colon-separated hexadecimal.
fn groups_to_string(ip: &Ipv6Address, lo: usize, hi: usize) -> (r: String)
    requires
        lo <= hi <= 8,
    ensures
        r@ == spec_groups_text(ipv6_groups(*ip), lo as int, hi as int),
    decreases hi - lo,
{
    if lo >= hi {
        String::new()
    } else if lo + 1 == hi {
        u64_to_hex_string(ipv6_group(ip, lo) as u64)
    } else {
        let mut s = u64_to_hex_string(ipv6_group(ip, lo) as u64);
        s.append(":");
        s.append(groups_to_string(ip, lo + 1, hi).as_str());
        proof {
            reveal_strlit(":");
            assert(s@ =~= spec_groups_text(ipv6_groups(*ip), lo as int, hi as int));
        }
        s
    }
}

/// Render a version six address in its canonical text.
pub fn ipv6_to_string(ip: &Ipv6Address) -> (r: String)
    ensures
        r@ == spec_ipv6_text(*ip),
{
    let ghost gs = ipv6_groups(*ip);
    let mut best: usize = 8;
    let mut best_len: usize = 0;
    let mut i: usize = 0;
    while i < 8
        invariant
            0 <= i <= 8,
            (best as int, best_len as int) == best_zero_run(ipv6_groups(*ip), i as int),
            best <= 8,
            best + best_len <= 8,
        decreases 8 - i,
    {
        let li = zero_run_len_at(ip, i);
        if li > best_len {
            best = i;
            best_len = li;
        }
        i = i + 1;
    }
    if best_len >= 2 {
        let mut s = groups_to_string(ip, 0, best);
        s.append("::");
        s.append(groups_to_string(ip, best + best_len, 8).as_str());
        proof {
            reveal_strlit("::");
            assert(("::")@ =~= seq![':', ':']);
            assert(s@ =~= spec_ipv6_text(*ip));
        }
        s
    } else {
        groups_to_string(ip, 0, 8)
    }
}

/// Render an address of either family.
pub fn ip_to_string(ip: &IpAddress) -> (r: String)
    ensures
        r@ == spec_ip_text(*ip),
{
    match ip {
        IpAddress::V4(v4) => ipv4_to_string(v4),
        IpAddress::V6(v6) => ipv6_to_string(v6),
    }
}

/// The text of an address of either family.
pub open spec fn spec_ip_text(ip: IpAddress) -> Seq<char> {
    match ip {
        IpAddress::V4(v4) => spec_ipv4_text(v4),
        IpAddress::V6(v6) => spec_ipv6_text(v6),
    }
}

/// The position of the first occurrence of a character, or the length.
pub open spec fn find_char(s: Seq<char>, c: char) -> int
    decreases s.len(),
{
    if s.len() == 0 {
        0
    } else if s[0] == c {
        0
    } else {
        1 + find_char(s.drop_first(), c)
    }
}

/// `find_char` marks the first occurrence.
proof fn lemma_find_char(s: Seq<char>, c: char)
    ensures
        0 <= find_char(s, c) <= s.len(),
        find_char(s, c) < s.len() ==> s[find_char(s, c)] == c,
        forall|j: int| 0 <= j < find_char(s, c) ==> s[j] != c,
    decreases s.len(),
{
    if s.len() > 0 && s[0] != c {
        lemma_find_char(s.drop_first(), c);
        assert forall|j: int| 0 <= j < find_char(s, c) implies s[j] != c by {
            if j > 0 {
                assert(s.drop_first()[j - 1] == s[j]);
            }
        }
    }
}

/// Find the first occurrence of a character, or the length when absent.
fn find_char_at(s: &str, c: char) -> (r: usize)
    ensures
        r as int == find_char(s@, c),
{
    let n = s.unicode_len();
    let mut i: usize = 0;
    proof {
        lemma_find_char(s@, c);
    }
    while i < n
        invariant
            0 <= i <= n,
            n == s@.len(),
            find_char(s@, c) >= i as int,
        decreases n - i,
    {
        if s.get_char(i) == c {
            proof {
                lemma_find_char(s@, c);
                assert(find_char(s@, c) <= i as int);
            }
            return i;
        }
        proof {
            lemma_find_char(s@, c);
            assert(find_char(s@, c) != i as int);
        }
        i = i + 1;
    }
    n
}

/// The position of the first adjacent pair of colons, or the length.
pub open spec fn find_dcolon(s: Seq<char>) -> int
    decreases s.len(),
{
    if s.len() < 2 {
        s.len() as int
    } else if s[0] == ':' && s[1] == ':' {
        0
    } else {
        1 + find_dcolon(s.drop_first())
    }
}

/// `find_dcolon` marks the first adjacent colon pair; it equals the length
/// when there is none.
proof fn lemma_find_dcolon(s: Seq<char>)
    ensures
        0 <= find_dcolon(s) <= s.len(),
        find_dcolon(s) + 2 <= s.len() ==> s[find_dcolon(s)] == ':' && s[find_dcolon(s) + 1]
            == ':',
        find_dcolon(s) + 2 > s.len() ==> find_dcolon(s) == s.len(),
        forall|j: int|
            0 <= j < find_dcolon(s) && j + 2 <= s.len() ==> !(#[trigger] s[j] == ':' && s[j + 1]
                == ':'),
    decreases s.len(),
{
    if s.len() >= 2 && !(s[0] == ':' && s[1] == ':') {
        lemma_find_dcolon(s.drop_first());
        assert forall|j: int|
            0 <= j < find_dcolon(s) && j + 2 <= s.len() implies !(#[trigger] s[j] == ':' && s[j
            + 1] == ':') by {
            if j > 0 {
                assert(s.drop_first()[j - 1] == s[j]);
                assert(s.drop_first()[j] == s[j + 1]);
            }
        }
    }
}

/// Find the first adjacent pair of colons, or the length when there is
/// none.
fn find_dcolon_at(s: &str) -> (r: usize)
    ensures
        r as int == find_dcolon(s@),
{
    let n = s.unicode_len();
    if n < 2 {
        return n;
    }
    let mut i: usize = 0;
    proof {
        lemma_find_dcolon(s@);
    }
    while i <= n - 2
        invariant
            0 <= i,
            i <= n - 1,
            n == s@.len(),
            n >= 2,
            find_dcolon(s@) >= i as int,
        decreases n - i,
    {
        if s.get_char(i) == ':' && s.get_char(i + 1) == ':' {
            proof {
                lemma_find_dcolon(s@);
                assert(find_dcolon(s@) <= i as int);
            }
            return i;
        }
        proof {
            lemma_find_dcolon(s@);
            assert(find_dcolon(s@) != i as int);
        }
        i = i + 1;
    }
    proof {
        lemma_find_dcolon(s@);
    }
    n
}

/// A decimal chunk accepted as one octet of a dotted-quad literal: one to
/// three digits, no leading zero, value at most 255.
pub open spec fn valid_octet_text(s: Seq<char>) -> bool {
    1 <= s.len() <= 3 && all_digits(s) && decimal_value(s) <= 255 && (s.len() > 1 ==> s[0] != '0')
}

/// Parse one octet of a dotted-quad literal.
fn parse_octet(s: &str) -> (r: Option<u8>)
    ensures
        r is Some <==> valid_octet_text(s@),
        r matches Some(v) ==> v as int == decimal_value(s@),
{
    let n = s.unicode_len();
    if n == 0 || n > 3 {
        return None;
    }
    if n > 1 && s.get_char(0) == '0' {
        return None;
    }
    match parse_u64(s) {
        Some(v) => {
            if v <= 255 {
                Some(v as u8)
            } else {
                None
            }
        },
        None => {
            proof {
                if all_digits(s@) {
                    lemma_decimal_value_bound(s@, s@.len() as int);
                    assert(s@.take(s@.len() as int) =~= s@);
                }
            }
            None
        },
    }
}

/// The octet values of a dotted literal with `k` chunks left to read.
pub open spec fn spec_parse_octets(s: Seq<char>, k: int) -> Option<Seq<int>>
    decreases k,
{
    if k <= 1 {
        if valid_octet_text(s) {
            Some(seq![decimal_value(s)])
        } else {
            None
        }
    } else {
        let i = find_char(s, '.');
        if i >= s.len() {
            None
        } else if !valid_octet_text(s.take(i)) {
            None
        } else {
            match spec_parse_octets(s.skip(i + 1), k - 1) {
                Some(rest) => Some(seq![decimal_value(s.take(i))] + rest),
                None => None,
            }
        }
    }
}

/// Parse `k` dot-separated octets.
fn parse_octets(s: &str, k: usize) -> (r: Option<Vec<u8>>)
    requires
        1 <= k <= 4,
    ensures
        r is Some <==> spec_parse_octets(s@, k as int) is Some,
        r matches Some(v) ==> v@.len() == k && Some(v@.map_values(|x: u8| x as int))
            == spec_parse_octets(s@, k as int),
    decreases k,
{
    if k == 1 {
        match parse_octet(s) {
            Some(v) => {
                let r: Vec<u8> = vec![v];
                proof {
                    assert(r@.map_values(|x: u8| x as int) =~= seq![decimal_value(s@)]);
                }
                Some(r)
            },
            None => None,
        }
    } else {
        let n = s.unicode_len();
        let i = find_char_at(s, '.');
        proof {
            lemma_find_char(s@, '.');
        }
        if i >= n {
            return None;
        }
        let head = s.substring_char(0, i);
        proof {
            assert(head@ =~= s@.take(i as int));
        }
        match parse_octet(head) {
            None => None,
            Some(v) => {
                let tail = s.substring_char(i + 1, n);
                proof {
                    assert(tail@ =~= s@.skip(i as int + 1));
                }
                match parse_octets(tail, k - 1) {
                    None => None,
                    Some(mut rest) => {
                        rest.insert(0, v);
                        proof {
                            assert(rest@.map_values(|x: u8| x as int) =~= seq![
                                decimal_value(s@.take(i as int)),
                            ] + spec_parse_octets(s@.skip(i as int + 1), k as int - 1)->Some_0);
                        }
                        Some(rest)
                    },
                }
            },
        }
    }
}

/// The address named by a dotted-quad literal.
pub open spec fn spec_parse_ipv4(s: Seq<char>) -> Option<Ipv4Address> {
    match spec_parse_octets(s, 4) {
        Some(vs) => Some(
            Ipv4Address { a: vs[0] as u8, b: vs[1] as u8, c: vs[2] as u8, d: vs[3] as u8 },
        ),
        None => None,
    }
}

/// Parse a dotted-quad literal: exactly four dot-separated decimal octets,
/// each at most 255 and without leading zeros.
pub fn parse_ipv4(s: &str) -> (r: Option<Ipv4Address>)
    ensures
        r == spec_parse_ipv4(s@),
{
    match parse_octets(s, 4) {
        Some(v) => Some(Ipv4Address { a: v[0], b: v[1], c: v[2], d: v[3] }),
        None => None,
    }
}

/// The group values of a colon-separated run of hexadecimal chunks.
pub open spec fn spec_parse_groups(s: Seq<char>) -> Option<Seq<int>>
    decreases s.len(),
{
    let i = find_char(s, ':');
    if !(0 <= i < s.len()) {
        if valid_hex_chunk(s) {
            Some(seq![hex_value(s)])
        } else {
            None
        }
    } else if !valid_hex_chunk(s.take(i)) {
        None
    } else {
        match spec_parse_groups(s.skip(i + 1)) {
            Some(rest) => Some(seq![hex_value(s.take(i))] + rest),
            None => None,
        }
    }
}

/// Parse a colon-separated run of hexadecimal groups.
fn parse_groups(s: &str) -> (r: Option<Vec<u16>>)
    ensures
        r is Some <==> spec_parse_groups(s@) is Some,
        r matches Some(v) ==> Some(v@.map_values(|x: u16| x as int)) == spec_parse_groups(s@),
    decreases s@.len(),
{
    let n = s.unicode_len();
    let i = find_char_at(s, ':');
    proof {
        lemma_find_char(s@, ':');
    }
    if i >= n {
        match parse_hex16(s) {
            Some(v) => {
                let r: Vec<u16> = vec![v];
                proof {
                    assert(r@.map_values(|x: u16| x as int) =~= seq![
                        hex_value(s@),
                    ]);
                }
                Some(r)
            },
            None => None,
        }
    } else {
        let head = s.substring_char(0, i);
        proof {
            assert(head@ =~= s@.take(i as int));
        }
        match parse_hex16(head) {
            None => None,
            Some(v) => {
                let tail = s.substring_char(i + 1, n);
                proof {
                    assert(tail@ =~= s@.skip(i as int + 1));
                }
                match parse_groups(tail) {
                    None => None,
                    Some(mut rest) => {
                        rest.insert(0, v);
                        proof {
                            assert(rest@.map_values(|x: u16| x as int) =~= seq![
                                hex_value(s@.take(i as int)),
                            ] + spec_parse_groups(s@.skip(i as int + 1))->Some_0);
                        }
                        Some(rest)
                    },
                }
            },
        }
    }
}

/// A run of zero group values.
pub open spec fn zero_groups(k: int) -> Seq<int> {
    Seq::new(k as nat, |i: int| 0)
}

/// The address with the given eight group values.
pub open spec fn groups_to_ipv6(gs: Seq<int>) -> Ipv6Address
    recommends
        gs.len() == 8,
{
    Ipv6Address {
        s0: gs[0] as u16,
        s1: gs[1] as u16,
        s2: gs[2] as u16,
        s3: gs[3] as u16,
        s4: gs[4] as u16,
        s5: gs[5] as u16,
        s6: gs[6] as u16,
        s7: gs[7] as u16,
    }
}

/// The address named by a version six literal: eight colon-separated
/// hexadecimal groups, or fewer with one double colon standing for the
/// elided zero groups.
pub open spec fn spec_parse_ipv6(s: Seq<char>) -> Option<Ipv6Address> {
    let d = find_dcolon(s);
    if d + 2 <= s.len() {
        let left = s.take(d);
        let right = s.skip(d + 2);
        if find_dcolon(right) + 2 <= right.len() {
            None
        } else {
            let lg = if left.len() == 0 {
                Some(Seq::<int>::empty())
            } else {
                spec_parse_groups(left)
            };
            let rg = if right.len() == 0 {
                Some(Seq::<int>::empty())
            } else {
                spec_parse_groups(right)
            };
            match (lg, rg) {
                (Some(l), Some(r)) => if l.len() + r.len() <= 7 {
                    Some(groups_to_ipv6(l + zero_groups(8 - l.len() - r.len()) + r))
                } else {
                    None
                },
                _ => None,
            }
        }
    } else {
        match spec_parse_groups(s) {
            Some(gs) => if gs.len() == 8 {
                Some(groups_to_ipv6(gs))
            } else {
                None
            },
            None => None,
        }
    }
}

/// Parse a version six literal.
pub fn parse_ipv6(s: &str) -> (r: Option<Ipv6Address>)
    ensures
        r == spec_parse_ipv6(s@),
{
    let n = s.unicode_len();
    let d = find_dcolon_at(s);
    if n >= 2 && d <= n - 2 {
        let left = s.substring_char(0, d);
        let right = s.substring_char(d + 2, n);
        proof {
            assert(left@ =~= s@.take(d as int));
            assert(right@ =~= s@.skip(d as int + 2));
        }
        let rd = find_dcolon_at(right);
        let rn = right.unicode_len();
        if rn >= 2 && rd <= rn - 2 {
            return None;
        }
        proof {
            lemma_find_dcolon(right@);
        }
        let lg: Vec<u16> = if left.unicode_len() == 0 {
            Vec::new()
        } else {
            match parse_groups(left) {
                Some(v) => v,
                None => {
                    return None;
                },
            }
        };
        let rg: Vec<u16> = if right.unicode_len() == 0 {
            Vec::new()
        } else {
            match parse_groups(right) {
                Some(v) => v,
                None => {
                    return None;
                },
            }
        };
        if lg.len() <= 7 && rg.len() <= 7 - lg.len() {
            let ghost lspec = if left@.len() == 0 {
                Seq::<int>::empty()
            } else {
                spec_parse_groups(left@)->Some_0
            };
            let ghost rspec = if right@.len() == 0 {
                Seq::<int>::empty()
            } else {
                spec_parse_groups(right@)->Some_0
            };
            let ghost full = lspec + zero_groups(8 - lg@.len() - rg@.len()) + rspec;
            let zeros = 8 - lg.len() - rg.len();
            let mut gs = lg;
            proof {
                assert(gs@.map_values(|x: u16| x as int) =~= lspec + zero_groups(0));
            }
            let mut z: usize = 0;
            while z < zeros
                invariant
                    z <= zeros,
                    zeros == 8 - lspec.len() - rspec.len(),
                    gs@.map_values(|x: u16| x as int) =~= lspec + zero_groups(z as int),
                decreases zeros - z,
            {
                let ghost prev = gs@;
                gs.push(0);
                proof {
                    prev.lemma_push_map_commute(|x: u16| x as int, 0u16);
                    assert((lspec + zero_groups(z as int)).push(0int) =~= lspec + zero_groups(
                        z as int + 1,
                    ));
                    assert(gs@.map_values(|x: u16| x as int) == (lspec + zero_groups(z as int)).push(
                        0int,
                    ));
                }
                z = z + 1;
            }
            let mut j: usize = 0;
            proof {
                assert(rspec.take(0) =~= Seq::<int>::empty());
                assert(gs@.map_values(|x: u16| x as int) =~= lspec + zero_groups(
                    8 - lspec.len() - rspec.len(),
                ) + rspec.take(0));
            }
            while j < rg.len()
                invariant
                    j <= rg.len(),
                    rg@.map_values(|x: u16| x as int) =~= rspec,
                    gs@.map_values(|x: u16| x as int) =~= lspec + zero_groups(
                        8 - lspec.len() - rspec.len(),
                    ) + rspec.take(j as int),
                decreases rg.len() - j,
            {
                let x = rg[j];
                let ghost prev = gs@;
                gs.push(x);
                proof {
                    assert(rg@.map_values(|x: u16| x as int)[j as int] == x as int);
                    prev.lemma_push_map_commute(|x: u16| x as int, x);
                    let base = lspec + zero_groups(8 - lspec.len() - rspec.len());
                    assert((base + rspec.take(j as int)).push(x as int) =~= base + rspec.take(
                        j as int + 1,
                    ));
                    assert(gs@.map_values(|x: u16| x as int) == (base + rspec.take(
                        j as int,
                    )).push(x as int));
                }
                j = j + 1;
            }
            proof {
                assert(rspec.take(rspec.len() as int) =~= rspec);
                assert(gs@.map_values(|x: u16| x as int) =~= full);
                assert(gs@.len() == 8);
            }
            let ip = Ipv6Address {
                s0: gs[0],
                s1: gs[1],
                s2: gs[2],
                s3: gs[3],
                s4: gs[4],
                s5: gs[5],
                s6: gs[6],
                s7: gs[7],
            };
            proof {
                assert forall|i: int| 0 <= i < 8 implies gs@[i] as int == full[i] by {
                    assert(gs@.map_values(|x: u16| x as int)[i] == full[i]);
                }
                assert(ip == groups_to_ipv6(full));
            }
            Some(ip)
        } else {
            None
        }
    } else {
        match parse_groups(s) {
            Some(gs) => {
                if gs.len() == 8 {
                    let ghost full = gs@.map_values(|x: u16| x as int);
                    let ip = Ipv6Address {
                        s0: gs[0],
                        s1: gs[1],
                        s2: gs[2],
                        s3: gs[3],
                        s4: gs[4],
                        s5: gs[5],
                        s6: gs[6],
                        s7: gs[7],
                    };
                    proof {
                        assert forall|i: int| 0 <= i < 8 implies gs@[i] as int == full[i] by {
                            assert(gs@.map_values(|x: u16| x as int)[i] == full[i]);
                        }
                        assert(ip == groups_to_ipv6(full));
                    }
                    Some(ip)
                } else {
                    None
                }
            },
            None => None,
        }
    }
}

/// A digit string holds no dot.
proof fn lemma_digits_have_no_dot(s: Seq<char>)
    requires
        all_digits(s),
    ensures
        forall|i: int| 0 <= i < s.len() ==> s[i] != '.',
{
    assert forall|i: int| 0 <= i < s.len() implies s[i] != '.' by {
        assert(crate::numtext::is_digit(s[i]));
    }
}

/// The first occurrence of a character placed after a run that lacks it is
/// exactly at that run's end.
proof fn lemma_find_char_concat(x: Seq<char>, y: Seq<char>, c: char)
    requires
        forall|i: int| 0 <= i < x.len() ==> x[i] != c,
    ensures
        find_char(x + seq![c] + y, c) == x.len(),
{
    let s = x + seq![c] + y;
    lemma_find_char(s, c);
    assert(s[x.len() as int] == c);
    assert forall|j: int| 0 <= j < x.len() implies s[j] != c by {
        assert(s[j] == x[j]);
    }
    if find_char(s, c) < x.len() {
        assert(s[find_char(s, c)] == c);
    }
    if find_char(s, c) > x.len() {
        assert(s[x.len() as int] != c);
    }
}

/// The canonical rendering of one octet is a chunk the dotted-quad grammar
/// accepts, and it reads back as the octet's value.
proof fn lemma_octet_rendering_valid(v: nat)
    requires
        v <= 255,
    ensures
        valid_octet_text(spec_decimal(v)),
        decimal_value(spec_decimal(v)) == v,
{
    crate::numtext::lemma_spec_decimal_digits(v);
    crate::numtext::lemma_spec_decimal_len(v, 3);
    crate::numtext::lemma_spec_decimal_no_leading_zero(v);
    crate::numtext::lemma_decimal_value_of_rendering(v);
}

/// One dot-separated chunk peels off the front of a dotted literal.
proof fn lemma_parse_octets_step(x: Seq<char>, rest: Seq<char>, k: int)
    requires
        2 <= k <= 4,
        valid_octet_text(x),
        spec_parse_octets(rest, k - 1) is Some,
    ensures
        spec_parse_octets(x + seq!['.'] + rest, k) == Some(
            seq![decimal_value(x)] + spec_parse_octets(rest, k - 1)->Some_0,
        ),
{
    lemma_digits_have_no_dot(x);
    lemma_find_char_concat(x, rest, '.');
    let s = x + seq!['.'] + rest;
    assert(s.take(x.len() as int) =~= x);
    assert(s.skip(x.len() as int + 1) =~= rest);
}

/// Round trip of the dotted-quad grammar: the rendering of any version four
/// address parses back to exactly that address.
#[verifier::rlimit(100)]
#[verifier::spinoff_prover]
pub proof fn lemma_ipv4_text_parses_back(ip: Ipv4Address)
    ensures
        spec_parse_ipv4(spec_ipv4_text(ip)) == Some(ip),
{
    let ta = spec_decimal(ip.a as nat);
    let tb = spec_decimal(ip.b as nat);
    let tc = spec_decimal(ip.c as nat);
    let td = spec_decimal(ip.d as nat);
    lemma_octet_rendering_valid(ip.a as nat);
    lemma_octet_rendering_valid(ip.b as nat);
    lemma_octet_rendering_valid(ip.c as nat);
    lemma_octet_rendering_valid(ip.d as nat);

    let s4 = spec_ipv4_text(ip);
    let s3 = tb + seq!['.'] + tc + seq!['.'] + td;
    let s2 = tc + seq!['.'] + td;

    assert(spec_parse_octets(td, 1) == Some(seq![decimal_value(td)]));
    assert(s2 =~= tc + seq!['.'] + td);
    lemma_parse_octets_step(tc, td, 2);
    assert(s3 =~= tb + seq!['.'] + s2);
    lemma_parse_octets_step(tb, s2, 3);
    assert(s4 =~= ta + seq!['.'] + s3);
    lemma_parse_octets_step(ta, s3, 4);

    let vs = spec_parse_octets(s4, 4)->Some_0;
    assert(vs =~= seq![decimal_value(ta)] + (seq![decimal_value(tb)] + (seq![
        decimal_value(tc),
    ] + seq![decimal_value(td)])));
    assert(vs[0] == ip.a as int);
    assert(vs[1] == ip.b as int);
    assert(vs[2] == ip.c as int);
    assert(vs[3] == ip.d as int);
    assert(spec_parse_ipv4(s4) == Some(ip));
}

/// The canonical rendering of one group is a chunk the grammar accepts, and
/// it reads back as the group's value.
proof fn lemma_group_rendering_valid(v: nat)
    requires
        v <= 0xffff,
    ensures
        valid_hex_chunk(spec_hex(v)),
        hex_value(spec_hex(v)) == v,
{
    crate::numtext::lemma_spec_hex_digits(v);
    crate::numtext::lemma_spec_hex_len(v, 4);
    crate::numtext::lemma_hex_value_of_rendering(v);
}

/// A hexadecimal digit string holds no colon.
proof fn lemma_hex_digits_have_no_colon(s: Seq<char>)
    requires
        crate::numtext::all_hex_digits(s),
    ensures
        forall|i: int| 0 <= i < s.len() ==> s[i] != ':',
{
    assert forall|i: int| 0 <= i < s.len() implies s[i] != ':' by {
        assert(crate::numtext::is_hex_digit(s[i]));
    }
}

/// The first occurrence of a character absent from a string is its length.
proof fn lemma_find_char_absent(s: Seq<char>, c: char)
    requires
        forall|i: int| 0 <= i < s.len() ==> s[i] != c,
    ensures
        find_char(s, c) == s.len(),
{
    lemma_find_char(s, c);
    if find_char(s, c) < s.len() {
        assert(s[find_char(s, c)] == c);
    }
}

/// The rendered text of a nonempty group range starts and ends in a
/// hexadecimal digit and holds no adjacent colon pair.
proof fn lemma_groups_text_shape(gs: Seq<u16>, lo: int, hi: int)
    requires
        0 <= lo <= hi <= gs.len(),
    ensures
        lo < hi ==> spec_groups_text(gs, lo, hi).len() >= 1,
        lo < hi ==> crate::numtext::is_hex_digit(spec_groups_text(gs, lo, hi)[0]),
        lo < hi ==> crate::numtext::is_hex_digit(spec_groups_text(gs, lo, hi).last()),
        forall|j: int|
            0 <= j < spec_groups_text(gs, lo, hi).len() ==> (crate::numtext::is_hex_digit(
                #[trigger] spec_groups_text(gs, lo, hi)[j],
            ) || spec_groups_text(gs, lo, hi)[j] == ':'),
        forall|j: int|
            0 <= j < spec_groups_text(gs, lo, hi).len() - 1 ==> !(#[trigger] spec_groups_text(
                gs,
                lo,
                hi,
            )[j] == ':' && spec_groups_text(gs, lo, hi)[j + 1] == ':'),
    decreases hi - lo,
{
    if lo < hi {
        let s = spec_groups_text(gs, lo, hi);
        let x = spec_hex(gs[lo] as nat);
        crate::numtext::lemma_spec_hex_digits(gs[lo] as nat);
        if lo + 1 == hi {
            assert forall|j: int|
                0 <= j < s.len() - 1 implies !(#[trigger] s[j] == ':' && s[j + 1] == ':') by {
                assert(crate::numtext::is_hex_digit(s[j]));
            }
        } else {
            lemma_groups_text_shape(gs, lo + 1, hi);
            let rest = spec_groups_text(gs, lo + 1, hi);
            assert(s =~= x + seq![':'] + rest);
            assert(s[0] == x[0]);
            assert(s.last() == rest.last());
            assert forall|j: int|
                0 <= j < s.len() implies (crate::numtext::is_hex_digit(#[trigger] s[j]) || s[j]
                == ':') by {
                if j < x.len() {
                    assert(s[j] == x[j]);
                    assert(crate::numtext::is_hex_digit(x[j]));
                } else if j > x.len() {
                    assert(s[j] == rest[j - x.len() - 1]);
                }
            }
            assert forall|j: int|
                0 <= j < s.len() - 1 implies !(#[trigger] s[j] == ':' && s[j + 1] == ':') by {
                if j < x.len() {
                    assert(s[j] == x[j]);
                    assert(crate::numtext::is_hex_digit(x[j]));
                } else if j == x.len() {
                    assert(s[j + 1] == rest[0]);
                    assert(crate::numtext::is_hex_digit(rest[0]));
                } else {
                    assert(s[j] == rest[j - x.len() - 1]);
                    assert(s[j + 1] == rest[j - x.len()]);
                }
            }
        }
    }
}

/// A text without an adjacent colon pair has none to find.
proof fn lemma_find_dcolon_absent(s: Seq<char>)
    requires
        forall|j: int| 0 <= j < s.len() - 1 ==> !(#[trigger] s[j] == ':' && s[j + 1] == ':'),
    ensures
        find_dcolon(s) == s.len(),
{
    lemma_find_dcolon(s);
    if find_dcolon(s) + 2 <= s.len() {
        assert(s[find_dcolon(s)] == ':' && s[find_dcolon(s) + 1] == ':');
    }
}

/// A double colon placed after a pair-free text that does not end in a
/// colon is the first double colon.
proof fn lemma_find_dcolon_locate(left: Seq<char>, right: Seq<char>)
    requires
        forall|j: int|
            0 <= j < left.len() - 1 ==> !(#[trigger] left[j] == ':' && left[j + 1] == ':'),
        left.len() > 0 ==> left.last() != ':',
    ensures
        find_dcolon(left + seq![':', ':'] + right) == left.len(),
{
    let s = left + seq![':', ':'] + right;
    lemma_find_dcolon(s);
    assert(s[left.len() as int] == ':');
    assert(s[left.len() as int + 1] == ':');
    if find_dcolon(s) < left.len() {
        let j = find_dcolon(s);
        assert(s[j] == ':' && s[j + 1] == ':');
        if j + 1 < left.len() {
            assert(s[j] == left[j]);
            assert(s[j + 1] == left[j + 1]);
        } else {
            assert(j + 1 == left.len());
            assert(s[j] == left[j]);
            assert(left.last() == left[j]);
        }
    }
    if find_dcolon(s) > left.len() {
        assert(!(s[left.len() as int] == ':' && s[left.len() as int + 1] == ':'));
    }
}

/// The rendered text of a nonempty group range parses back to exactly those
/// group values.
proof fn lemma_groups_text_parses(gs: Seq<u16>, lo: int, hi: int)
    requires
        0 <= lo < hi <= gs.len(),
    ensures
        spec_parse_groups(spec_groups_text(gs, lo, hi)) == Some(
            Seq::new((hi - lo) as nat, |i: int| gs[lo + i] as int),
        ),
    decreases hi - lo,
{
    let x = spec_hex(gs[lo] as nat);
    lemma_group_rendering_valid(gs[lo] as nat);
    crate::numtext::lemma_spec_hex_digits(gs[lo] as nat);
    lemma_hex_digits_have_no_colon(x);
    if lo + 1 == hi {
        lemma_find_char_absent(x, ':');
        assert(spec_parse_groups(x) == Some(seq![hex_value(x)]));
        assert(seq![hex_value(x)] =~= Seq::new(1, |i: int| gs[lo + i] as int));
    } else {
        let rest = spec_groups_text(gs, lo + 1, hi);
        let s = spec_groups_text(gs, lo, hi);
        assert(s =~= x + seq![':'] + rest);
        lemma_find_char_concat(x, rest, ':');
        assert(s.take(x.len() as int) =~= x);
        assert(s.skip(x.len() as int + 1) =~= rest);
        lemma_groups_text_parses(gs, lo + 1, hi);
        assert(spec_parse_groups(s) == Some(seq![hex_value(x)] + Seq::new(
            (hi - lo - 1) as nat,
            |i: int| gs[lo + 1 + i] as int,
        )));
        assert(seq![hex_value(x)] + Seq::new((hi - lo - 1) as nat, |i: int| gs[lo + 1 + i] as int)
            =~= Seq::new((hi - lo) as nat, |i: int| gs[lo + i] as int));
    }
}

/// A zero run is in bounds and all zeros, and ends before a nonzero group.
proof fn lemma_zero_run_zeros(gs: Seq<u16>, i: int)
    requires
        0 <= i <= gs.len(),
    ensures
        0 <= zero_run_len(gs, i),
        i + zero_run_len(gs, i) <= gs.len(),
        forall|j: int| i <= j < i + zero_run_len(gs, i) ==> #[trigger] gs[j] == 0,
    decreases gs.len() - i,
{
    if i < gs.len() && gs[i] == 0 {
        lemma_zero_run_zeros(gs, i + 1);
    }
}

/// The chosen zero run is in bounds and really a zero run.
proof fn lemma_best_zero_run_props(gs: Seq<u16>, i: int)
    requires
        0 <= i <= gs.len(),
    ensures
        ({
            let (b, l) = best_zero_run(gs, i);
            &&& 0 <= l
            &&& l == 0 ==> b == gs.len()
            &&& l > 0 ==> 0 <= b < i && l == zero_run_len(gs, b)
        }),
    decreases i,
{
    if i > 0 {
        lemma_best_zero_run_props(gs, i - 1);
        lemma_zero_run_zeros(gs, i - 1);
    }
}

/// The chosen zero run is the leftmost longest one: no run anywhere is
/// longer, and every run starting earlier is strictly shorter.
pub proof fn lemma_best_zero_run_leftmost_longest(gs: Seq<u16>, i: int)
    requires
        0 <= i <= gs.len(),
    ensures
        ({
            let (b, l) = best_zero_run(gs, i);
            &&& forall|j: int| 0 <= j < i ==> #[trigger] zero_run_len(gs, j) <= l
            &&& l > 0 ==> forall|j: int| 0 <= j < b ==> #[trigger] zero_run_len(gs, j) < l
        }),
    decreases i,
{
    if i > 0 {
        lemma_best_zero_run_leftmost_longest(gs, i - 1);
        lemma_best_zero_run_props(gs, i - 1);
        lemma_zero_run_zeros(gs, i - 1);
    }
}

/// Round trip of the group grammar: the canonical rendering of any version
/// six address parses back to exactly that address.
#[verifier::rlimit(100)]
#[verifier::spinoff_prover]
pub proof fn lemma_ipv6_text_parses_back(ip: Ipv6Address)
    ensures
        spec_parse_ipv6(spec_ipv6_text(ip)) == Some(ip),
{
    let gs = ipv6_groups(ip);
    let (b, l) = best_zero_run(gs, 8);
    lemma_best_zero_run_props(gs, 8);
    lemma_groups_text_shape(gs, 0, 8);
    if l < 2 {
        let s = spec_groups_text(gs, 0, 8);
        lemma_find_dcolon_absent(s);
        lemma_find_dcolon(s);
        lemma_groups_text_parses(gs, 0, 8);
        let vs = spec_parse_groups(s)->Some_0;
        assert(vs.len() == 8);
        assert forall|i: int| 0 <= i < 8 implies vs[i] == gs[i] as int by {}
        assert(groups_to_ipv6(vs) == ip);
    } else {
        lemma_zero_run_zeros(gs, b);
        assert(b + l <= 8);
        let left = spec_groups_text(gs, 0, b);
        let right = spec_groups_text(gs, b + l, 8);
        let s = spec_ipv6_text(ip);
        assert(s =~= left + seq![':', ':'] + right);
        lemma_groups_text_shape(gs, 0, b);
        lemma_groups_text_shape(gs, b + l, 8);
        lemma_find_dcolon_locate(left, right);
        assert(find_dcolon(s) == left.len());
        assert(find_dcolon(s) + 2 <= s.len());
        assert(s.take(left.len() as int) =~= left);
        assert(s.skip(left.len() as int + 2) =~= right);
        lemma_find_dcolon_absent(right);
        lemma_find_dcolon(right);
        let lg = if left.len() == 0 {
            Seq::<int>::empty()
        } else {
            lemma_groups_text_parses(gs, 0, b);
            spec_parse_groups(left)->Some_0
        };
        let rg = if right.len() == 0 {
            Seq::<int>::empty()
        } else {
            lemma_groups_text_parses(gs, b + l, 8);
            spec_parse_groups(right)->Some_0
        };
        assert(left.len() == 0 ==> b == 0) by {
            if b > 0 {
                lemma_groups_text_shape(gs, 0, b);
            }
        }
        assert(right.len() == 0 ==> b + l == 8) by {
            if b + l < 8 {
                lemma_groups_text_shape(gs, b + l, 8);
            }
        }
        assert(lg.len() == b);
        assert(rg.len() == 8 - b - l);
        assert(lg.len() + rg.len() <= 7);
        let full = lg + zero_groups(8 - lg.len() - rg.len()) + rg;
        assert forall|i: int| 0 <= i < 8 implies full[i] == gs[i] as int by {
            if i < b {
                assert(full[i] == lg[i]);
            } else if i < b + l {
                assert(full[i] == zero_groups(l)[i - b]);
                assert(gs[i] == 0);
            } else {
                assert(full[i] == rg[i - b - l]);
            }
        }
        assert(full.len() == 8);
        assert(groups_to_ipv6(full) == ip);
        assert(spec_parse_ipv6(s) == Some(groups_to_ipv6(full)));
    }
}

/// Round trip of the whole literal grammar: the rendering of any address of
/// either family parses back to exactly that address.
pub proof fn lemma_ip_text_parses_back(ip: IpAddress)
    ensures
        spec_parse_ip(spec_ip_text(ip)) == Some(ip),
{
    match ip {
        IpAddress::V4(v4) => {
            lemma_ipv4_text_parses_back(v4);
        },
        IpAddress::V6(v6) => {
            lemma_ipv6_text_parses_back(v6);
            let gs = ipv6_groups(v6);
            let (b, l) = best_zero_run(gs, 8);
            lemma_best_zero_run_props(gs, 8);
            let s = spec_ip_text(ip);
            assert forall|j: int| 0 <= j < s.len() implies s[j] != '.' by {
                lemma_groups_text_shape(gs, 0, 8);
                if l >= 2 {
                    lemma_zero_run_zeros(gs, b);
                    let left = spec_groups_text(gs, 0, b);
                    let right = spec_groups_text(gs, b + l, 8);
                    assert(s =~= left + seq![':', ':'] + right);
                    lemma_groups_text_shape(gs, 0, b);
                    lemma_groups_text_shape(gs, b + l, 8);
                    if j < left.len() {
                        assert(s[j] == left[j]);
                        assert(crate::numtext::is_hex_digit(left[j]) || left[j] == ':');
                    } else if j >= left.len() + 2 {
                        assert(s[j] == right[j - left.len() - 2]);
                        assert(crate::numtext::is_hex_digit(right[j - left.len() - 2]) || right[j
                            - left.len() - 2] == ':');
                    }
                } else {
                    assert(crate::numtext::is_hex_digit(s[j]) || s[j] == ':');
                }
            }
            lemma_find_char_absent(s, '.');
            assert(spec_parse_octets(s, 4) is None);
            assert(spec_parse_ipv4(s) is None);
        },
    }
}

/// The address named by a literal of either family.
pub open spec fn spec_parse_ip(s: Seq<char>) -> Option<IpAddress> {
    match spec_parse_ipv4(s) {
        Some(v4) => Some(IpAddress::V4(v4)),
        None => match spec_parse_ipv6(s) {
            Some(v6) => Some(IpAddress::V6(v6)),
            None => None,
        },
    }
}

/// Parse an address literal of either family.
pub fn parse_ip(s: &str) -> (r: Option<IpAddress>)
    ensures
        r == spec_parse_ip(s@),
{
    match parse_ipv4(s) {
        Some(v4) => Some(IpAddress::V4(v4)),
        None => match parse_ipv6(s) {
            Some(v6) => Some(IpAddress::V6(v6)),
            None => None,
        },
    }
}

} // verus!
