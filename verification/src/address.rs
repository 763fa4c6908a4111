//! Network addresses and their textual forms.
use crate::text::{
    chars_of, decimal, digit, find_first, first_index, hex_digit, is_digit, is_hex_digit,
    is_number, join, lemma_char_in_piece, lemma_decimal_is_read_back, lemma_decimal_shape,
    lemma_first_piece, lemma_number_is_decimal, lemma_split_join, lemma_split_last,
    lemma_split_whole, parse_number, piece_views, push_decimal, read_number, split, split_at_each,
};
use vstd::prelude::*;
use vstd::slice::slice_subrange;

verus! {

/// An IPv4 address, as its four octets.
#[derive(Clone, Copy, Debug, PartialEq, Eq, Structural)]
pub struct Ipv4Addr {
    pub a: u8,
    pub b: u8,
    pub c: u8,
    pub d: u8,
}

/// An IPv4 address, or the 128 bits of an IPv6 address.
#[derive(Clone, Copy, Debug, PartialEq, Eq, Structural)]
pub enum IpAddr {
    V4(Ipv4Addr),
    V6(u128),
}

/// An address with a port, and for IPv6 with its flow information and scope.
#[derive(Clone, Copy, Debug, PartialEq, Eq, Structural)]
pub enum SocketAddr {
    V4 { ip: Ipv4Addr, port: u16 },
    V6 { bits: u128, port: u16, flowinfo: u32, scope_id: u32 },
}

/// The number of one part of a dotted IPv4 text: one to three digits for a number up to 255,
/// without leading zeros.
pub open spec fn octet_value(s: Seq<char>) -> Option<nat> {
    if s.len() <= 3 && (s.len() > 1 ==> s[0] != '0') {
        parse_number(s, u8::MAX as nat)
    } else {
        None
    }
}

/// The four octets in `parts`.
pub open spec fn octets_value(parts: Seq<Seq<char>>) -> Option<Ipv4Addr> {
    if parts.len() == 4 && octet_value(parts[0]) is Some && octet_value(parts[1]) is Some
        && octet_value(parts[2]) is Some && octet_value(parts[3]) is Some {
        Some(
            Ipv4Addr {
                a: octet_value(parts[0])->0 as u8,
                b: octet_value(parts[1])->0 as u8,
                c: octet_value(parts[2])->0 as u8,
                d: octet_value(parts[3])->0 as u8,
            },
        )
    } else {
        None
    }
}

/// The IPv4 address that `s` writes in dotted decimal form.
pub open spec fn parse_ipv4(s: Seq<char>) -> Option<Ipv4Addr> {
    octets_value(split(s, '.'))
}

/// The dotted decimal form of an IPv4 address.
pub open spec fn ipv4_text(ip: Ipv4Addr) -> Seq<char> {
    decimal(ip.a as nat) + seq!['.'] + decimal(ip.b as nat) + seq!['.'] + decimal(ip.c as nat)
        + seq!['.'] + decimal(ip.d as nat)
}

/// One group of an IPv6 text: one to four hexadecimal digits.
pub open spec fn is_group(s: Seq<char>) -> bool {
    1 <= s.len() <= 4 && forall|i: int| 0 <= i < s.len() ==> is_hex_digit(#[trigger] s[i])
}

/// All of `parts` are groups of an IPv6 text.
pub open spec fn all_groups(parts: Seq<Seq<char>>) -> bool {
    forall|i: int| 0 <= i < parts.len() ==> is_group(#[trigger] parts[i])
}

/// How many 16-bit groups `s` writes: groups between colons, of which the last may be an IPv4
/// address, which stands for two.
pub open spec fn group_count(s: Seq<char>, ipv4_end: bool) -> Option<nat> {
    let parts = split(s, ':');
    if s.len() == 0 {
        Some(0)
    } else if all_groups(parts) {
        Some(parts.len())
    } else if ipv4_end && all_groups(parts.drop_last()) && parse_ipv4(parts.last()) is Some {
        Some(parts.len() + 1)
    } else {
        None
    }
}

/// Two colons stand next to each other, from `at` on.
pub open spec fn colons_at(s: Seq<char>, at: int) -> bool {
    0 <= at && at + 1 < s.len() && s[at] == ':' && s[at + 1] == ':'
}

/// Where the first two adjacent colons stand in `s`, or `s.len()` where there are none.
pub open spec fn first_colons(s: Seq<char>) -> int
    decreases s.len(),
{
    if s.len() == 0 {
        0
    } else if colons_at(s, 0) {
        0
    } else {
        1 + first_colons(s.skip(1))
    }
}

/// `s` writes an IPv6 address: eight groups, or fewer with `::` for at least one group of zeros.
pub open spec fn is_ipv6_text(s: Seq<char>) -> bool {
    let at = first_colons(s);
    if at < s.len() {
        let head = group_count(s.take(at), false);
        let tail = group_count(s.skip(at + 2), true);
        head is Some && tail is Some && head->0 + tail->0 <= 7
    } else {
        group_count(s, true) == Some(8nat)
    }
}

/// A port in a socket address text: digits for a number up to 65535.
pub open spec fn is_port_text(s: Seq<char>) -> bool {
    parse_number(s, u16::MAX as nat) is Some
}

/// The IPv4 address of the socket address that `s` writes, with its port behind a colon.
pub open spec fn parse_socket_v4(s: Seq<char>) -> Option<Ipv4Addr> {
    let at = first_index(s, ':');
    if at < s.len() && is_port_text(s.skip(at + 1)) {
        parse_ipv4(s.take(at))
    } else {
        None
    }
}

/// An IPv6 address text with an optional scope behind a percent sign.
pub open spec fn is_scoped_ipv6_text(s: Seq<char>) -> bool {
    let at = first_index(s, '%');
    if at < s.len() {
        is_ipv6_text(s.take(at)) && parse_number(s.skip(at + 1), u32::MAX as nat) is Some
    } else {
        is_ipv6_text(s)
    }
}

/// `s` writes an IPv6 socket address: the address in brackets, a colon and the port.
pub open spec fn is_socket_v6_text(s: Seq<char>) -> bool {
    let at = first_index(s, ']');
    &&& s.len() > 0
    &&& s[0] == '['
    &&& at + 1 < s.len()
    &&& s[at + 1] == ':'
    &&& is_scoped_ipv6_text(s.subrange(1, at))
    &&& is_port_text(s.skip(at + 2))
}

impl Ipv4Addr {
    /// The address 0.0.0.0, which names no host.
    pub open spec fn spec_is_unspecified(self) -> bool {
        self.a == 0 && self.b == 0 && self.c == 0 && self.d == 0
    }

    /// Whether this is the address 0.0.0.0.
    pub fn is_unspecified(&self) -> (yes: bool)
        ensures
            yes == self.spec_is_unspecified(),
    {
        self.a == 0 && self.b == 0 && self.c == 0 && self.d == 0
    }

    /// Whether this is an address of the block 127.0.0.0/8.
    pub fn is_loopback(&self) -> (yes: bool)
        ensures
            yes == (self.a == 127),
    {
        self.a == 127
    }

    /// Whether this is an address of the block 169.254.0.0/16.
    pub fn is_link_local(&self) -> (yes: bool)
        ensures
            yes == (self.a == 169 && self.b == 254),
    {
        self.a == 169 && self.b == 254
    }

    /// The dotted decimal form of this address.
    pub fn text(&self) -> (text: String)
        ensures
            text@ == ipv4_text(*self),
    {
        let mut text = String::new();
        push_decimal(&mut text, self.a as u64);
        text.push('.');
        push_decimal(&mut text, self.b as u64);
        text.push('.');
        push_decimal(&mut text, self.c as u64);
        text.push('.');
        push_decimal(&mut text, self.d as u64);
        assert(text@ =~= ipv4_text(*self));
        text
    }
}

impl SocketAddr {
    /// Whether this is an IPv4 address.
    pub fn is_ipv4(&self) -> (yes: bool)
        ensures
            yes == (self is V4),
    {
        match self {
            SocketAddr::V4 { .. } => true,
            SocketAddr::V6 { .. } => false,
        }
    }

    /// Whether this is an IPv6 address.
    pub fn is_ipv6(&self) -> (yes: bool)
        ensures
            yes == (self is V6),
    {
        !self.is_ipv4()
    }

    /// The address without the port.
    pub open spec fn spec_ip(self) -> IpAddr {
        match self {
            SocketAddr::V4 { ip, .. } => IpAddr::V4(ip),
            SocketAddr::V6 { bits, .. } => IpAddr::V6(bits),
        }
    }

    /// The address without the port.
    pub fn ip(&self) -> (ip: IpAddr)
        ensures
            ip == self.spec_ip(),
    {
        match self {
            SocketAddr::V4 { ip, .. } => IpAddr::V4(*ip),
            SocketAddr::V6 { bits, .. } => IpAddr::V6(*bits),
        }
    }
}

/// The number of one part of a dotted IPv4 text.
fn read_octet(s: &[char]) -> (octet: Option<u8>)
    ensures
        match octet {
            Some(n) => octet_value(s@) == Some(n as nat),
            None => octet_value(s@) is None,
        },
{
    if s.len() > 3 || (s.len() > 1 && s[0] == '0') {
        return None;
    }
    match read_number(s, 255) {
        Some(n) => Some(n as u8),
        None => None,
    }
}

/// The IPv4 address that a text writes.
pub(crate) fn read_ipv4(s: &[char]) -> (ip: Option<Ipv4Addr>)
    ensures
        ip == parse_ipv4(s@),
{
    let parts: Vec<Vec<char>> = split_at_each(s, '.');
    let ghost pieces = split(s@, '.');
    assert(pieces.len() == parts@.len());
    if parts.len() != 4 {
        return None;
    }
    assert(pieces[0] == parts@[0]@ && pieces[1] == parts@[1]@ && pieces[2] == parts@[2]@
        && pieces[3] == parts@[3]@);
    match (
        read_octet(parts[0].as_slice()),
        read_octet(parts[1].as_slice()),
        read_octet(parts[2].as_slice()),
        read_octet(parts[3].as_slice()),
    ) {
        (Some(a), Some(b), Some(c), Some(d)) => Some(Ipv4Addr { a, b, c, d }),
        _ => None,
    }
}

/// Whether a text is one group of an IPv6 text.
pub(crate) fn group(s: &[char]) -> (yes: bool)
    ensures
        yes == is_group(s@),
{
    if s.len() < 1 || s.len() > 4 {
        return false;
    }
    let mut i: usize = 0;
    while i < s.len()
        invariant
            i <= s@.len(),
            forall|k: int| 0 <= k < i ==> is_hex_digit(#[trigger] s@[k]),
        decreases s@.len() - i,
    {
        if !hex_digit(s[i]) {
            assert(!is_hex_digit(s@[i as int]));
            return false;
        }
        i += 1;
    }
    true
}

/// How many 16-bit groups a text writes.
fn count_groups(s: &[char], ipv4_end: bool) -> (count: Option<usize>)
    ensures
        match count {
            Some(n) => group_count(s@, ipv4_end) == Some(n as nat),
            None => group_count(s@, ipv4_end) is None || group_count(s@, ipv4_end)->0 > 8,
        },
{
    if s.len() == 0 {
        return Some(0);
    }
    let parts: Vec<Vec<char>> = split_at_each(s, ':');
    let ghost pieces = split(s@, ':');
    assert(pieces.len() == parts@.len());
    if parts.len() > 8 {
        return None;
    }
    let last: usize = parts.len() - 1;
    let mut i: usize = 0;
    while i < last
        invariant
            i <= last,
            last + 1 == parts@.len(),
            pieces == piece_views(parts@),
            forall|k: int| 0 <= k < i ==> is_group(#[trigger] pieces[k]),
            s@.len() > 0,
            pieces == split(s@, ':'),
        decreases last - i,
    {
        assert(pieces[i as int] == parts@[i as int]@);
        if !group(parts[i].as_slice()) {
            assert(!is_group(pieces[i as int]));
            assert(pieces.drop_last()[i as int] == pieces[i as int]);
            return None;
        }
        i += 1;
    }
    assert(pieces[last as int] == parts@[last as int]@);
    if group(parts[last].as_slice()) {
        Some(parts.len())
    } else if ipv4_end && read_ipv4(parts[last].as_slice()).is_some() {
        assert(!is_group(pieces[last as int]));
        Some(parts.len() + 1)
    } else {
        assert(!is_group(pieces[last as int]));
        None
    }
}

/// `first_colons` is the first place of two adjacent colons, if there is one.
pub proof fn lemma_first_colons(s: Seq<char>)
    ensures
        0 <= first_colons(s) <= s.len(),
        first_colons(s) < s.len() ==> colons_at(s, first_colons(s)),
        forall|i: int| 0 <= i < first_colons(s) ==> !#[trigger] colons_at(s, i),
    decreases s.len(),
{
    if s.len() > 0 && !colons_at(s, 0) {
        let rest = s.skip(1);
        lemma_first_colons(rest);
        assert forall|i: int| 0 <= i < first_colons(s) implies !#[trigger] colons_at(s, i) by {
            if i > 0 {
                assert(!colons_at(rest, i - 1));
            }
        }
    }
}

/// Where the first two adjacent colons stand in a text, or the length of the text.
pub(crate) fn find_colons(s: &[char]) -> (at: usize)
    ensures
        at as int == first_colons(s@),
{
    let mut i: usize = 0;
    while i < s.len()
        invariant
            i <= s@.len(),
            forall|k: int| 0 <= k < i ==> !#[trigger] colons_at(s@, k),
        decreases s@.len() - i,
    {
        if s.len() - i > 1 && s[i] == ':' && s[i + 1] == ':' {
            proof {
                lemma_first_colons(s@);
                assert(colons_at(s@, i as int));
            }
            return i;
        }
        assert(!colons_at(s@, i as int));
        i += 1;
    }
    proof {
        lemma_first_colons(s@);
    }
    i
}

/// Whether a text writes an IPv6 address.
pub(crate) fn ipv6_text(s: &[char]) -> (yes: bool)
    ensures
        yes == is_ipv6_text(s@),
{
    let at: usize = find_colons(s);
    proof {
        lemma_first_colons(s@);
    }
    if at < s.len() {
        let before: &[char] = slice_subrange(s, 0, at);
        let after: &[char] = slice_subrange(s, at + 2, s.len());
        assert(before@ =~= s@.take(at as int));
        assert(after@ =~= s@.skip(at + 2));
        match (count_groups(before, false), count_groups(after, true)) {
            (Some(head), Some(tail)) => head <= 7 && tail <= 7 - head,
            _ => false,
        }
    } else {
        match count_groups(s, true) {
            Some(n) => n == 8,
            None => false,
        }
    }
}

/// The IPv4 address of the IPv4 socket address that a text writes.
pub(crate) fn read_socket_v4(s: &[char]) -> (ip: Option<Ipv4Addr>)
    ensures
        ip == parse_socket_v4(s@),
{
    let at: usize = find_first(s, ':');
    proof {
        crate::text::lemma_first_index(s@, ':');
    }
    if at < s.len() {
        let host: &[char] = slice_subrange(s, 0, at);
        let port: &[char] = slice_subrange(s, at + 1, s.len());
        assert(host@ =~= s@.take(at as int));
        assert(port@ =~= s@.skip(at + 1));
        if read_number(port, 0xffff).is_some() {
            read_ipv4(host)
        } else {
            None
        }
    } else {
        None
    }
}

/// Whether a text writes an IPv6 address with an optional scope.
fn scoped_ipv6_text(s: &[char]) -> (yes: bool)
    ensures
        yes == is_scoped_ipv6_text(s@),
{
    let at: usize = find_first(s, '%');
    proof {
        crate::text::lemma_first_index(s@, '%');
    }
    if at < s.len() {
        let ip: &[char] = slice_subrange(s, 0, at);
        let scope: &[char] = slice_subrange(s, at + 1, s.len());
        assert(ip@ =~= s@.take(at as int));
        assert(scope@ =~= s@.skip(at + 1));
        ipv6_text(ip) && read_number(scope, 0xffff_ffff).is_some()
    } else {
        ipv6_text(s)
    }
}

/// Whether a text writes an IPv6 socket address.
pub(crate) fn socket_v6_text(s: &[char]) -> (yes: bool)
    ensures
        yes == is_socket_v6_text(s@),
{
    if s.len() == 0 || s[0] != '[' {
        return false;
    }
    let at: usize = find_first(s, ']');
    proof {
        crate::text::lemma_first_index(s@, ']');
    }
    if at >= s.len() || s.len() - at < 2 || s[at + 1] != ':' {
        return false;
    }
    let port: &[char] = slice_subrange(s, at + 2, s.len());
    assert(port@ =~= s@.skip(at + 2));
    scoped_ipv6_text(slice_subrange(s, 1, at)) && read_number(port, 0xffff).is_some()
}

/// A number up to 255 in at most three digits, leading zeros or not.
pub open spec fn is_loose_octet(s: Seq<char>) -> bool {
    s.len() <= 3 && parse_number(s, u8::MAX as nat) is Some
}

/// `s` has the look of an IPv4 address: four numbers between dots, and maybe a colon and digits.
pub open spec fn looks_like_ipv4(s: Seq<char>) -> bool {
    let at = first_index(s, ':');
    let parts = split(s.take(at), '.');
    &&& parts.len() == 4
    &&& forall|i: int| 0 <= i < 4 ==> is_loose_octet(#[trigger] parts[i])
    &&& at < s.len() ==> is_number(s.skip(at + 1))
}

/// The two parts at `i` are not both empty.
pub open spec fn has_group_near(parts: Seq<Seq<char>>, i: int) -> bool {
    parts[i].len() > 0 || parts[i + 1].len() > 0
}

/// Groups of hexadecimal digits with one or two colons between them, at least two groups.
pub open spec fn is_colon_groups(s: Seq<char>) -> bool {
    let parts = split(s, ':');
    &&& parts.len() >= 2
    &&& is_group(parts[0])
    &&& is_group(parts.last())
    &&& forall|i: int| 0 <= i < parts.len() ==> is_group(#[trigger] parts[i]) || parts[i].len() == 0
    &&& forall|i: int| 0 <= i < parts.len() - 1 ==> #[trigger] has_group_near(parts, i)
}

/// Groups in brackets, then a colon and digits.
pub open spec fn is_bracketed_groups(s: Seq<char>) -> bool {
    let at = first_index(s, ']');
    &&& s.len() > 0
    &&& s[0] == '['
    &&& at + 1 < s.len()
    &&& s[at + 1] == ':'
    &&& is_colon_groups(s.subrange(1, at))
    &&& is_number(s.skip(at + 2))
}

/// `s` has the look of an IPv6 address: groups between colons, or such groups in brackets with a
/// port behind them.
pub open spec fn looks_like_ipv6(s: Seq<char>) -> bool {
    is_colon_groups(s) || is_bracketed_groups(s)
}

/// Whether a text is a run of digits.
fn all_digits(s: &[char]) -> (yes: bool)
    ensures
        yes == is_number(s@),
{
    let mut i: usize = 0;
    while i < s.len()
        invariant
            i <= s@.len(),
            forall|k: int| 0 <= k < i ==> is_digit(#[trigger] s@[k]),
        decreases s@.len() - i,
    {
        if !digit(s[i]) {
            assert(!is_digit(s@[i as int]));
            return false;
        }
        i += 1;
    }
    s.len() > 0
}

/// Whether a text is a number up to 255 in at most three digits.
fn loose_octet(s: &[char]) -> (yes: bool)
    ensures
        yes == is_loose_octet(s@),
{
    s.len() <= 3 && read_number(s, 255).is_some()
}

/// Whether characters have the look of an IPv4 address.
pub(crate) fn ipv4_look(s: &[char]) -> (yes: bool)
    ensures
        yes == looks_like_ipv4(s@),
{
    let at: usize = find_first(s, ':');
    proof {
        crate::text::lemma_first_index(s@, ':');
    }
    if at < s.len() {
        let port: &[char] = slice_subrange(s, at + 1, s.len());
        assert(port@ =~= s@.skip(at + 1));
        if !all_digits(port) {
            return false;
        }
    }
    let host: &[char] = slice_subrange(s, 0, at);
    assert(host@ =~= s@.take(at as int));
    let parts: Vec<Vec<char>> = split_at_each(host, '.');
    let ghost pieces = split(host@, '.');
    assert(pieces.len() == parts@.len());
    if parts.len() != 4 {
        return false;
    }
    assert(pieces[0] == parts@[0]@ && pieces[1] == parts@[1]@ && pieces[2] == parts@[2]@
        && pieces[3] == parts@[3]@);
    loose_octet(parts[0].as_slice()) && loose_octet(parts[1].as_slice()) && loose_octet(
        parts[2].as_slice(),
    ) && loose_octet(parts[3].as_slice())
}

/// Whether characters are groups of hexadecimal digits with one or two colons between them.
fn colon_groups(s: &[char]) -> (yes: bool)
    ensures
        yes == is_colon_groups(s@),
{
    let parts: Vec<Vec<char>> = split_at_each(s, ':');
    let ghost pieces = split(s@, ':');
    assert(pieces.len() == parts@.len());
    if parts.len() < 2 {
        return false;
    }
    let last: usize = parts.len() - 1;
    assert(pieces[0] == parts@[0]@ && pieces[last as int] == parts@[last as int]@);
    if !group(parts[0].as_slice()) || !group(parts[last].as_slice()) {
        return false;
    }
    let mut i: usize = 0;
    while i < last
        invariant
            i <= last,
            last + 1 == parts@.len(),
            pieces == piece_views(parts@),
            pieces == split(s@, ':'),
            forall|k: int|
                0 <= k < i ==> is_group(#[trigger] pieces[k]) || pieces[k].len() == 0,
            forall|k: int| 0 <= k < i ==> #[trigger] has_group_near(pieces, k),
        decreases last - i,
    {
        assert(pieces[i as int] == parts@[i as int]@);
        assert(pieces[i + 1] == parts@[i + 1]@);
        let here: &Vec<char> = &parts[i];
        if here.len() == 0 {
            if parts[i + 1].len() == 0 {
                assert(!has_group_near(pieces, i as int));
                return false;
            }
        } else if !group(here.as_slice()) {
            assert(!is_group(pieces[i as int]));
            return false;
        }
        assert(has_group_near(pieces, i as int));
        i += 1;
    }
    true
}

/// Whether characters are groups in brackets, then a colon and digits.
fn bracketed_groups(s: &[char]) -> (yes: bool)
    ensures
        yes == is_bracketed_groups(s@),
{
    if s.len() == 0 || s[0] != '[' {
        return false;
    }
    let at: usize = find_first(s, ']');
    proof {
        crate::text::lemma_first_index(s@, ']');
    }
    if at >= s.len() || s.len() - at < 2 || s[at + 1] != ':' {
        return false;
    }
    let port: &[char] = slice_subrange(s, at + 2, s.len());
    assert(port@ =~= s@.skip(at + 2));
    colon_groups(slice_subrange(s, 1, at)) && all_digits(port)
}

/// Whether characters have the look of an IPv6 address.
pub(crate) fn ipv6_look(s: &[char]) -> (yes: bool)
    ensures
        yes == looks_like_ipv6(s@),
{
    colon_groups(s) || bracketed_groups(s)
}

/// Whether a text has the look of an IPv4 address.
pub fn is_ipv4_str(id: &str) -> (yes: bool)
    ensures
        yes == looks_like_ipv4(id@),
{
    let chars: Vec<char> = chars_of(id);
    ipv4_look(chars.as_slice())
}

/// Whether a text has the look of an IPv6 address.
pub fn is_ipv6_str(id: &str) -> (yes: bool)
    ensures
        yes == looks_like_ipv6(id@),
{
    let chars: Vec<char> = chars_of(id);
    ipv6_look(chars.as_slice())
}

/// A text with the look of an IPv6 address holds a colon.
pub proof fn lemma_ipv6_look_is_not_empty(s: Seq<char>)
    requires
        looks_like_ipv6(s),
    ensures
        s.len() > 0,
        s.contains(':'),
{
    if is_bracketed_groups(s) {
        assert(s[first_index(s, ']') + 1] == ':');
        crate::text::lemma_first_index(s, ']');
    } else if !s.contains(':') {
        lemma_split_whole(s, ':');
    }
}

/// A text with the look of an IPv6 address that starts with a bracket has its port behind the
/// closing bracket.
pub proof fn lemma_bracketed_look(s: Seq<char>)
    requires
        looks_like_ipv6(s),
        s[0] == '[',
    ensures
        is_bracketed_groups(s),
{
    if is_colon_groups(s) {
        let parts = split(s, ':');
        lemma_split_join(s, ':');
        lemma_first_piece(s, ':');
        crate::text::lemma_first_index(s, ':');
        assert(is_hex_digit(parts[0][0]));
        assert(parts[0][0] == s[0]);
    }
}

/// Groups between colons hold no bracket.
pub proof fn lemma_groups_hold_no_bracket(s: Seq<char>)
    requires
        is_colon_groups(s),
    ensures
        !s.contains(']'),
        !s.contains('['),
{
    let parts = split(s, ':');
    if s.contains(']') {
        lemma_char_in_piece(s, ':', ']');
        let i = choose|i: int| 0 <= i < parts.len() && (#[trigger] parts[i]).contains(']');
        let j = choose|j: int| 0 <= j < parts[i].len() && parts[i][j] == ']';
        assert(is_hex_digit(parts[i][j]));
    }
    if s.contains('[') {
        lemma_char_in_piece(s, ':', '[');
        let i = choose|i: int| 0 <= i < parts.len() && (#[trigger] parts[i]).contains('[');
        let j = choose|j: int| 0 <= j < parts[i].len() && parts[i][j] == '[';
        assert(is_hex_digit(parts[i][j]));
    }
}

/// A run of digits holds no dot and no colon.
proof fn lemma_digits_only(s: Seq<char>, c: char)
    requires
        is_number(s),
        !is_digit(c),
    ensures
        !s.contains(c),
{
    if s.contains(c) {
        let i = choose|i: int| 0 <= i < s.len() && s[i] == c;
        assert(is_digit(s[i]));
    }
}

/// The octets of an address are read back from their decimal texts.
proof fn lemma_octet_is_read_back(n: u8)
    ensures
        octet_value(decimal(n as nat)) == Some(n as nat),
        !decimal(n as nat).contains('.'),
        !decimal(n as nat).contains(':'),
{
    lemma_decimal_is_read_back(n as nat);
    lemma_decimal_shape(n as nat);
    lemma_digits_only(decimal(n as nat), '.');
    lemma_digits_only(decimal(n as nat), ':');
}

/// The dotted decimal form of an address names that address.
pub proof fn lemma_ipv4_text_is_read_back(ip: Ipv4Addr)
    ensures
        parse_ipv4(ipv4_text(ip)) == Some(ip),
{
    lemma_octet_is_read_back(ip.a);
    lemma_octet_is_read_back(ip.b);
    lemma_octet_is_read_back(ip.c);
    lemma_octet_is_read_back(ip.d);
    let a = decimal(ip.a as nat);
    let b = decimal(ip.b as nat);
    let c = decimal(ip.c as nat);
    let d = decimal(ip.d as nat);
    lemma_split_whole(a, '.');
    lemma_split_last(a, b, '.');
    lemma_split_last(a + seq!['.'] + b, c, '.');
    lemma_split_last(a + seq!['.'] + b + seq!['.'] + c, d, '.');
    assert(ipv4_text(ip) =~= a + seq!['.'] + b + seq!['.'] + c + seq!['.'] + d);
    assert(split(ipv4_text(ip), '.') =~= seq![a, b, c, d]);
}

/// An address has no other text than its dotted decimal form.
pub proof fn lemma_ipv4_text_is_the_only_one(s: Seq<char>)
    ensures
        parse_ipv4(s) matches Some(ip) ==> ipv4_text(ip) == s,
{
    if let Some(ip) = parse_ipv4(s) {
        let parts = split(s, '.');
        lemma_split_join(s, '.');
        lemma_number_is_decimal(parts[0]);
        lemma_number_is_decimal(parts[1]);
        lemma_number_is_decimal(parts[2]);
        lemma_number_is_decimal(parts[3]);
        let three = parts.drop_last();
        let two = three.drop_last();
        let one = two.drop_last();
        assert(join(one, seq!['.']) == parts[0]);
        assert(join(two, seq!['.']) == parts[0] + seq!['.'] + parts[1]);
        assert(join(three, seq!['.']) == parts[0] + seq!['.'] + parts[1] + seq!['.'] + parts[2]);
        assert(ipv4_text(ip) =~= s);
    }
}

/// The characters of the dotted decimal form are digits and dots.
pub proof fn lemma_ipv4_text_chars(ip: Ipv4Addr)
    ensures
        ipv4_text(ip).len() > 0,
        is_digit(ipv4_text(ip)[0]),
        is_digit(ipv4_text(ip).last()),
        forall|i: int|
            0 <= i < ipv4_text(ip).len() ==> is_digit(#[trigger] ipv4_text(ip)[i])
                || ipv4_text(ip)[i] == '.',
{
    lemma_decimal_is_read_back(ip.a as nat);
    lemma_decimal_is_read_back(ip.b as nat);
    lemma_decimal_is_read_back(ip.c as nat);
    lemma_decimal_is_read_back(ip.d as nat);
    let a = decimal(ip.a as nat);
    let ab = a + seq!['.'] + decimal(ip.b as nat);
    let abc = ab + seq!['.'] + decimal(ip.c as nat);
    let abcd = abc + seq!['.'] + decimal(ip.d as nat);
    assert(abcd =~= ipv4_text(ip));
    assert(abcd[0] == a[0]);
    assert(abcd.last() == decimal(ip.d as nat).last());
}

/// An IPv6 address text holds a colon.
pub proof fn lemma_ipv6_text_has_colon(s: Seq<char>)
    requires
        !s.contains(':'),
    ensures
        !is_ipv6_text(s),
        !is_scoped_ipv6_text(s),
{
    lemma_no_colon_no_ipv6(s);
    let at = first_index(s, '%');
    crate::text::lemma_first_index(s, '%');
    if at < s.len() {
        let front = s.take(at);
        assert(!front.contains(':')) by {
            if front.contains(':') {
                let i = choose|i: int| 0 <= i < front.len() && front[i] == ':';
                assert(s[i] == ':');
            }
        }
        lemma_no_colon_no_ipv6(front);
    }
}

proof fn lemma_no_colon_no_ipv6(s: Seq<char>)
    requires
        !s.contains(':'),
    ensures
        !is_ipv6_text(s),
{
    lemma_first_colons(s);
    let at = first_colons(s);
    if at < s.len() {
        assert(s[at] == ':');
    } else {
        lemma_split_whole(s, ':');
    }
}

} // verus!
