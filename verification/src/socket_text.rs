//! The addresses that socket address texts write.
use crate::address::{
    all_groups, find_colons, first_colons, group, group_count, ipv4_text, is_group, is_ipv6_text,
    is_socket_v6_text, lemma_first_colons, lemma_ipv4_text_chars, lemma_ipv4_text_is_read_back,
    parse_ipv4, parse_socket_v4, read_ipv4, read_socket_v4, socket_v6_text, Ipv4Addr, SocketAddr,
};
use crate::text::{
    decimal, digit, digit_value, find_first, first_index, is_digit, is_hex_digit,
    lemma_decimal_is_read_back, lemma_first_index, lemma_first_index_is, number_value, piece_views,
    read_number, split, split_at_each,
};
use vstd::prelude::*;
use vstd::slice::slice_subrange;

verus! {

/// The number that a hexadecimal digit stands for.
pub open spec fn hex_digit_value(c: char) -> nat {
    if is_digit(c) {
        digit_value(c)
    } else if 'a' <= c && c <= 'f' {
        (c as int - 'a' as int + 10) as nat
    } else {
        (c as int - 'A' as int + 10) as nat
    }
}

/// The number that a run of hexadecimal digits stands for.
pub open spec fn hex_value(s: Seq<char>) -> nat
    decreases s.len(),
{
    if s.len() == 0 {
        0
    } else {
        hex_value(s.drop_last()) * 16 + hex_digit_value(s.last())
    }
}

/// The numbers of groups of hexadecimal digits.
pub open spec fn part_values(parts: Seq<Seq<char>>) -> Seq<nat> {
    parts.map_values(|part: Seq<char>| hex_value(part))
}

/// An IPv4 address as two 16-bit groups.
pub open spec fn ipv4_groups(ip: Ipv4Addr) -> Seq<nat> {
    seq![(ip.a * 256 + ip.b) as nat, (ip.c * 256 + ip.d) as nat]
}

/// The 16-bit groups that `s` writes: groups between colons, of which the last may be an IPv4
/// address.
pub open spec fn group_values(s: Seq<char>) -> Seq<nat> {
    let parts = split(s, ':');
    if s.len() == 0 {
        Seq::empty()
    } else if all_groups(parts) {
        part_values(parts)
    } else {
        part_values(parts.drop_last()) + ipv4_groups(parse_ipv4(parts.last())->0)
    }
}

/// The eight 16-bit groups of the IPv6 address that `s` writes: `::` stands for as many groups of
/// zeros as are missing.
pub open spec fn ipv6_groups(s: Seq<char>) -> Seq<nat> {
    let at = first_colons(s);
    if at < s.len() {
        let head = group_values(s.take(at));
        let tail = group_values(s.skip(at + 2));
        head + Seq::new((8 - head.len() - tail.len()) as nat, |i: int| 0nat) + tail
    } else {
        group_values(s)
    }
}

/// The number with the given 16-bit groups, the highest first.
pub open spec fn groups_value(groups: Seq<nat>) -> nat
    decreases groups.len(),
{
    if groups.len() == 0 {
        0
    } else {
        groups_value(groups.drop_last()) * 0x1_0000 + groups.last()
    }
}

/// The 128 bits of the IPv6 address that `s` writes.
pub open spec fn ipv6_value(s: Seq<char>) -> u128 {
    groups_value(ipv6_groups(s)) as u128
}

/// The IPv6 address text in `s`, without the scope behind a percent sign.
pub open spec fn unscoped(s: Seq<char>) -> Seq<char> {
    s.take(first_index(s, '%'))
}

/// The scope behind the percent sign in `s`, or zero where there is none.
pub open spec fn scope_value(s: Seq<char>) -> u32 {
    let at = first_index(s, '%');
    if at < s.len() {
        number_value(s.skip(at + 1)) as u32
    } else {
        0
    }
}

/// The socket address that `s` writes.
pub open spec fn parse_socket(s: Seq<char>) -> Option<SocketAddr> {
    if parse_socket_v4(s) is Some {
        Some(
            SocketAddr::V4 {
                ip: parse_socket_v4(s)->0,
                port: number_value(s.skip(first_index(s, ':') + 1)) as u16,
            },
        )
    } else if is_socket_v6_text(s) {
        let at = first_index(s, ']');
        let inside = s.subrange(1, at);
        Some(
            SocketAddr::V6 {
                bits: ipv6_value(unscoped(inside)),
                port: number_value(s.skip(at + 2)) as u16,
                flowinfo: 0,
                scope_id: scope_value(inside),
            },
        )
    } else {
        None
    }
}

/// Groups of 16 bits as numbers.
pub open spec fn group_numbers(groups: Seq<u16>) -> Seq<nat> {
    groups.map_values(|g: u16| g as nat)
}

/// The number in a group of hexadecimal digits.
fn read_group(s: &[char]) -> (value: u16)
    requires
        is_group(s@),
    ensures
        value == hex_value(s@),
{
    let mut value: u32 = 0;
    let mut i: usize = 0;
    while i < s.len()
        invariant
            i <= s@.len() <= 4,
            is_group(s@),
            value == hex_value(s@.take(i as int)),
            i == 0 ==> value == 0,
            i == 1 ==> value < 0x10,
            i == 2 ==> value < 0x100,
            i == 3 ==> value < 0x1000,
            i == 4 ==> value < 0x1_0000,
        decreases s@.len() - i,
    {
        let c: char = s[i];
        assert(is_hex_digit(s@[i as int]));
        let d: u32 = if digit(c) {
            c as u32 - '0' as u32
        } else if 'a' <= c && c <= 'f' {
            c as u32 - 'a' as u32 + 10
        } else {
            c as u32 - 'A' as u32 + 10
        };
        assert(d == hex_digit_value(c));
        assert(s@.take(i + 1).drop_last() =~= s@.take(i as int));
        value = value * 16 + d;
        i += 1;
    }
    assert(s@.take(i as int) =~= s@);
    value as u16
}

/// As many groups come out as `group_count` says.
proof fn lemma_group_values(s: Seq<char>, ipv4_end: bool)
    requires
        group_count(s, ipv4_end) is Some,
    ensures
        group_values(s).len() == group_count(s, ipv4_end)->0,
{
    crate::text::lemma_split_join(s, ':');
}

/// The 16-bit groups that a text writes.
fn read_groups(s: &[char], ipv4_end: bool) -> (groups: Vec<u16>)
    requires
        group_count(s@, ipv4_end) is Some,
    ensures
        group_numbers(groups@) == group_values(s@),
{
    let mut groups: Vec<u16> = Vec::new();
    if s.len() == 0 {
        assert(group_numbers(groups@) =~= group_values(s@));
        return groups;
    }
    let parts: Vec<Vec<char>> = split_at_each(s, ':');
    let ghost pieces = split(s@, ':');
    assert(pieces.len() == parts@.len());
    let last: usize = parts.len() - 1;
    assert forall|k: int| 0 <= k < last implies is_group(#[trigger] pieces[k]) by {
        assert(pieces.drop_last()[k] == pieces[k]);
    }
    let mut i: usize = 0;
    while i < last
        invariant
            i <= last,
            last + 1 == parts@.len(),
            pieces == piece_views(parts@),
            forall|k: int| 0 <= k < last ==> is_group(#[trigger] pieces[k]),
            group_numbers(groups@) =~= part_values(pieces.take(i as int)),
        decreases last - i,
    {
        assert(pieces[i as int] == parts@[i as int]@);
        let ghost before = group_numbers(groups@);
        let value: u16 = read_group(parts[i].as_slice());
        groups.push(value);
        assert(group_numbers(groups@) =~= before.push(value as nat));
        assert(part_values(pieces.take(i + 1)) =~= part_values(pieces.take(i as int)).push(
            hex_value(pieces[i as int]),
        ));
        i += 1;
    }
    assert(pieces.take(last as int) =~= pieces.drop_last());
    assert(pieces[last as int] == parts@[last as int]@);
    if group(parts[last].as_slice()) {
        let ghost before = group_numbers(groups@);
        let value: u16 = read_group(parts[last].as_slice());
        groups.push(value);
        assert(group_numbers(groups@) =~= before.push(value as nat));
        assert(part_values(pieces) =~= before.push(hex_value(pieces[last as int])));
        assert(all_groups(pieces));
        assert(group_numbers(groups@) =~= part_values(pieces));
    } else {
        assert(!is_group(pieces[last as int]));
        let ip: Ipv4Addr = read_ipv4(parts[last].as_slice()).unwrap();
        groups.push(ip.a as u16 * 256 + ip.b as u16);
        groups.push(ip.c as u16 * 256 + ip.d as u16);
        assert(group_numbers(groups@) =~= part_values(pieces.drop_last()) + ipv4_groups(ip));
    }
    groups
}

/// The number with eight groups of 16 bits.
fn value_of_groups(groups: &Vec<u16>) -> (value: u128)
    requires
        groups@.len() == 8,
    ensures
        value == groups_value(group_numbers(groups@)),
{
    let ghost numbers = group_numbers(groups@);
    let mut value: u128 = 0;
    let mut i: usize = 0;
    while i < 8
        invariant
            i <= 8,
            groups@.len() == 8,
            numbers == group_numbers(groups@),
            value == groups_value(numbers.take(i as int)),
            i == 0 ==> value == 0,
            i == 1 ==> value < 0x1_0000,
            i == 2 ==> value < 0x1_0000_0000,
            i == 3 ==> value < 0x1_0000_0000_0000,
            i == 4 ==> value < 0x1_0000_0000_0000_0000,
            i == 5 ==> value < 0x1_0000_0000_0000_0000_0000,
            i == 6 ==> value < 0x1_0000_0000_0000_0000_0000_0000,
            i == 7 ==> value < 0x1_0000_0000_0000_0000_0000_0000_0000,
        decreases 8 - i,
    {
        assert(numbers.take(i + 1).drop_last() =~= numbers.take(i as int));
        assert(numbers[i as int] == groups@[i as int]);
        value = value * 0x1_0000 + groups[i] as u128;
        i += 1;
    }
    assert(numbers.take(8) =~= numbers);
    value
}

/// The 128 bits of the IPv6 address that a text writes.
fn read_ipv6(s: &[char]) -> (bits: u128)
    requires
        is_ipv6_text(s@),
    ensures
        bits == ipv6_value(s@),
{
    let at: usize = find_colons(s);
    proof {
        lemma_first_colons(s@);
    }
    if at >= s.len() {
        proof {
            lemma_group_values(s@, true);
        }
        let groups: Vec<u16> = read_groups(s, true);
        assert(group_numbers(groups@).len() == groups@.len());
        return value_of_groups(&groups);
    }
    let before: &[char] = slice_subrange(s, 0, at);
    let after: &[char] = slice_subrange(s, at + 2, s.len());
    assert(before@ =~= s@.take(at as int));
    assert(after@ =~= s@.skip(at + 2));
    proof {
        lemma_group_values(before@, false);
        lemma_group_values(after@, true);
    }
    let mut groups: Vec<u16> = read_groups(before, false);
    let tail: Vec<u16> = read_groups(after, true);
    let ghost head = groups@;
    assert(group_numbers(head).len() == head.len());
    assert(group_numbers(tail@).len() == tail@.len());
    let end: usize = 8 - tail.len();
    while groups.len() < end
        invariant
            head.len() <= groups@.len() <= end <= 8,
            groups@ =~= head + Seq::new((groups@.len() - head.len()) as nat, |i: int| 0u16),
        decreases end - groups@.len(),
    {
        groups.push(0);
    }
    let mut i: usize = 0;
    while i < tail.len()
        invariant
            i <= tail@.len(),
            head.len() <= end,
            groups@ =~= head + Seq::new((end - head.len()) as nat, |i: int| 0u16) + tail@.take(
                i as int,
            ),
        decreases tail@.len() - i,
    {
        groups.push(tail[i]);
        i += 1;
    }
    assert(group_numbers(groups@) =~= ipv6_groups(s@));
    value_of_groups(&groups)
}

/// The socket address that a text writes.
pub(crate) fn read_socket(s: &[char]) -> (addr: Option<SocketAddr>)
    ensures
        addr == parse_socket(s@),
{
    let length: usize = s.len();
    if let Some(ip) = read_socket_v4(s) {
        proof {
            lemma_first_index(s@, ':');
        }
        let at: usize = find_first(s, ':');
        let digits: &[char] = slice_subrange(s, at + 1, length);
        assert(digits@ =~= s@.skip(at + 1));
        let port: u32 = read_number(digits, 0xffff).unwrap();
        return Some(SocketAddr::V4 { ip, port: port as u16 });
    }
    if !socket_v6_text(s) {
        return None;
    }
    proof {
        lemma_first_index(s@, ']');
    }
    let at: usize = find_first(s, ']');
    let digits: &[char] = slice_subrange(s, at + 2, length);
    assert(digits@ =~= s@.skip(at + 2));
    let port: u32 = read_number(digits, 0xffff).unwrap();
    let inside: &[char] = slice_subrange(s, 1, at);
    proof {
        lemma_first_index(inside@, '%');
    }
    let end: usize = find_first(inside, '%');
    let ip: &[char] = slice_subrange(inside, 0, end);
    assert(ip@ =~= unscoped(inside@));
    let scope_id: u32 = if end < inside.len() {
        let scope: &[char] = slice_subrange(inside, end + 1, inside.len());
        assert(scope@ =~= inside@.skip(end + 1));
        read_number(scope, 0xffff_ffff).unwrap()
    } else {
        assert(ip@ =~= inside@);
        0
    };
    Some(SocketAddr::V6 { bits: read_ipv6(ip), port: port as u16, flowinfo: 0, scope_id })
}

/// An IPv4 address and its port are read back from the text with both.
pub proof fn lemma_socket_v4_is_read_back(ip: Ipv4Addr, port: u16)
    ensures
        parse_socket(ipv4_text(ip) + seq![':'] + decimal(port as nat)) == Some(
            SocketAddr::V4 { ip, port },
        ),
{
    let address = ipv4_text(ip);
    let digits = decimal(port as nat);
    let text = address + seq![':'] + digits;
    lemma_ipv4_text_chars(ip);
    lemma_ipv4_text_is_read_back(ip);
    lemma_decimal_is_read_back(port as nat);
    assert forall|i: int| 0 <= i < address.len() implies #[trigger] text[i] != ':' by {
        assert(text[i] == address[i]);
    }
    lemma_first_index_is(text, ':', address.len() as int);
    assert(text.take(address.len() as int) =~= address);
    assert(text.skip(address.len() + 1int) =~= digits);
}

} // verus!
