//! Characters, numbers and separators in host, port and address texts.
use vstd::prelude::*;
use vstd::slice::slice_subrange;

verus! {

/// `String::push` appends one character.
pub assume_specification[ String::push ](s: &mut String, c: char)
    ensures
        final(s)@ == old(s)@.push(c),
;

/// An ASCII decimal digit.
pub open spec fn is_digit(c: char) -> bool {
    '0' <= c && c <= '9'
}

/// An ASCII hexadecimal digit, in either case.
pub open spec fn is_hex_digit(c: char) -> bool {
    is_digit(c) || ('a' <= c && c <= 'f') || ('A' <= c && c <= 'F')
}

/// A character with the Unicode property `White_Space`.
pub open spec fn is_space(c: char) -> bool {
    let u = c as u32;
    ||| 0x09 <= u <= 0x0d
    ||| u == 0x20
    ||| u == 0x85
    ||| u == 0xa0
    ||| u == 0x1680
    ||| 0x2000 <= u <= 0x200a
    ||| u == 0x2028
    ||| u == 0x2029
    ||| u == 0x202f
    ||| u == 0x205f
    ||| u == 0x3000
}

/// The number that a decimal digit stands for.
pub open spec fn digit_value(c: char) -> nat {
    (c as int - '0' as int) as nat
}

/// A non-empty run of decimal digits.
pub open spec fn is_number(s: Seq<char>) -> bool {
    s.len() > 0 && forall|i: int| 0 <= i < s.len() ==> is_digit(#[trigger] s[i])
}

/// The number that a run of decimal digits stands for.
pub open spec fn number_value(s: Seq<char>) -> nat
    decreases s.len(),
{
    if s.len() == 0 {
        0
    } else {
        number_value(s.drop_last()) * 10 + digit_value(s.last())
    }
}

/// The number in `s`, where `s` is a run of digits for a number up to `max`.
pub open spec fn parse_number(s: Seq<char>, max: nat) -> Option<nat> {
    if is_number(s) && number_value(s) <= max {
        Some(number_value(s))
    } else {
        None
    }
}

/// `s` without its first character, where that is `c`.
pub open spec fn strip_first(s: Seq<char>, c: char) -> Seq<char> {
    if s.len() > 0 && s[0] == c {
        s.skip(1)
    } else {
        s
    }
}

/// The 16-bit number in `s`: digits, after an optional plus sign.
pub open spec fn parse_port(s: Seq<char>) -> Option<nat> {
    parse_number(strip_first(s, '+'), u16::MAX as nat)
}

/// The signed 32-bit number in `s`: digits, after an optional sign.
pub open spec fn parse_int(s: Seq<char>) -> Option<int> {
    if s.len() > 0 && s[0] == '-' {
        match parse_number(s.skip(1), 0x8000_0000) {
            Some(n) => Some(-(n as int)),
            None => None,
        }
    } else {
        match parse_number(strip_first(s, '+'), i32::MAX as nat) {
            Some(n) => Some(n as int),
            None => None,
        }
    }
}

/// The decimal digit for a number below ten.
pub open spec fn digit_char(d: nat) -> char {
    ('0' as int + d) as char
}

/// The decimal text of a natural number, without leading zeros.
pub open spec fn decimal(n: nat) -> Seq<char>
    decreases n,
{
    if n < 10 {
        seq![digit_char(n)]
    } else {
        decimal(n / 10).push(digit_char(n % 10))
    }
}

/// The decimal text of an integer.
pub open spec fn signed_decimal(i: int) -> Seq<char> {
    if i < 0 {
        seq!['-'] + decimal((-i) as nat)
    } else {
        decimal(i as nat)
    }
}

/// Where `c` first stands in `s`, or `s.len()` where it does not.
pub open spec fn first_index(s: Seq<char>, c: char) -> int
    decreases s.len(),
{
    if s.len() == 0 {
        0
    } else if s[0] == c {
        0
    } else {
        1 + first_index(s.skip(1), c)
    }
}

/// Where `c` last stands in `s`, or -1 where it does not.
pub open spec fn last_index(s: Seq<char>, c: char) -> int
    decreases s.len(),
{
    if s.len() == 0 {
        -1
    } else if s.last() == c {
        s.len() - 1
    } else {
        last_index(s.drop_last(), c)
    }
}

/// The pieces of `s` between the separators `c`.
pub open spec fn split(s: Seq<char>, c: char) -> Seq<Seq<char>>
    decreases s.len(),
{
    if s.len() == 0 {
        seq![Seq::empty()]
    } else {
        let front = split(s.drop_last(), c);
        if s.last() == c {
            front.push(Seq::empty())
        } else {
            front.drop_last().push(front.last().push(s.last()))
        }
    }
}

/// The pieces of `s` before and after its last `c`.
pub open spec fn rsplit_once(s: Seq<char>, c: char) -> Option<(Seq<char>, Seq<char>)> {
    let i = last_index(s, c);
    if i < 0 {
        None
    } else {
        Some((s.take(i), s.skip(i + 1)))
    }
}

/// `s` without white space at its start.
pub open spec fn trim_start(s: Seq<char>) -> Seq<char>
    decreases s.len(),
{
    if s.len() > 0 && is_space(s[0]) {
        trim_start(s.skip(1))
    } else {
        s
    }
}

/// `s` without white space at its end.
pub open spec fn trim_end(s: Seq<char>) -> Seq<char>
    decreases s.len(),
{
    if s.len() > 0 && is_space(s.last()) {
        trim_end(s.drop_last())
    } else {
        s
    }
}

/// `s` without white space at either end.
pub open spec fn trim(s: Seq<char>) -> Seq<char> {
    trim_end(trim_start(s))
}

/// `s` without any `c` at its end.
pub open spec fn trim_end_char(s: Seq<char>, c: char) -> Seq<char>
    decreases s.len(),
{
    if s.len() > 0 && s.last() == c {
        trim_end_char(s.drop_last(), c)
    } else {
        s
    }
}

/// An ASCII capital as the small letter, any other character as it is.
pub open spec fn lower_char(c: char) -> char {
    if 'A' <= c && c <= 'Z' {
        (c as int + 32) as char
    } else {
        c
    }
}

/// `s` with its ASCII capitals as small letters.
pub open spec fn lower(s: Seq<char>) -> Seq<char> {
    s.map_values(|c: char| lower_char(c))
}

/// `part` stands in `s`, from `at` on.
pub open spec fn stands_at(s: Seq<char>, part: Seq<char>, at: int) -> bool {
    0 <= at && at + part.len() <= s.len() && s.subrange(at, at + part.len() as int) == part
}

/// `part` stands somewhere in `s`.
pub open spec fn has_part(s: Seq<char>, part: Seq<char>) -> bool {
    exists|at: int| stands_at(s, part, at)
}

/// The texts in `parts`, one after the other, with `sep` between them.
pub open spec fn join(parts: Seq<Seq<char>>, sep: Seq<char>) -> Seq<char>
    decreases parts.len(),
{
    if parts.len() == 0 {
        Seq::empty()
    } else if parts.len() == 1 {
        parts[0]
    } else {
        join(parts.drop_last(), sep) + sep + parts.last()
    }
}

/// The number of a shorter run of digits is no larger.
proof fn lemma_number_value_grows(s: Seq<char>, i: int)
    requires
        0 <= i <= s.len(),
    ensures
        number_value(s.take(i)) <= number_value(s),
    decreases s.len() - i,
{
    if i == s.len() {
        assert(s.take(i) =~= s);
    } else {
        lemma_number_value_grows(s, i + 1);
        assert(s.take(i + 1).drop_last() =~= s.take(i));
    }
}

/// Reading a decimal text gives back its number.
pub proof fn lemma_decimal_is_read_back(n: nat)
    ensures
        is_number(decimal(n)),
        number_value(decimal(n)) == n,
    decreases n,
{
    if n < 10 {
        assert(decimal(n).drop_last() =~= Seq::<char>::empty());
        assert(number_value(decimal(n).drop_last()) == 0);
    } else {
        lemma_decimal_is_read_back(n / 10);
        let s = decimal(n);
        assert(s.drop_last() =~= decimal(n / 10));
        assert forall|i: int| 0 <= i < s.len() implies is_digit(#[trigger] s[i]) by {
            if i < s.len() - 1 {
                assert(s[i] == decimal(n / 10)[i]);
            }
        }
    }
}

/// `first_index` is the first place of `c`, if there is one.
pub proof fn lemma_first_index(s: Seq<char>, c: char)
    ensures
        0 <= first_index(s, c) <= s.len(),
        first_index(s, c) < s.len() ==> s[first_index(s, c)] == c,
        forall|i: int| 0 <= i < first_index(s, c) ==> #[trigger] s[i] != c,
        first_index(s, c) < s.len() <==> s.contains(c),
    decreases s.len(),
{
    if s.len() > 0 && s[0] != c {
        let rest = s.skip(1);
        lemma_first_index(rest, c);
        assert forall|i: int| 0 <= i < first_index(s, c) implies #[trigger] s[i] != c by {
            if i > 0 {
                assert(s[i] == rest[i - 1]);
            }
        }
        if s.contains(c) {
            let i = choose|i: int| 0 <= i < s.len() && s[i] == c;
            assert(rest[i - 1] == c);
        }
        if rest.contains(c) {
            let i = choose|i: int| 0 <= i < rest.len() && rest[i] == c;
            assert(s[i + 1] == c);
        }
    } else if s.len() > 0 {
        assert(s[0] == c);
    }
}

/// The place that satisfies what `lemma_first_index` says is the first index.
pub proof fn lemma_first_index_is(s: Seq<char>, c: char, at: int)
    requires
        0 <= at <= s.len(),
        at < s.len() ==> s[at] == c,
        forall|i: int| 0 <= i < at ==> #[trigger] s[i] != c,
    ensures
        first_index(s, c) == at,
{
    lemma_first_index(s, c);
}

/// `last_index` is the last place of `c`, if there is one.
pub proof fn lemma_last_index(s: Seq<char>, c: char)
    ensures
        -1 <= last_index(s, c) < s.len(),
        last_index(s, c) >= 0 ==> s[last_index(s, c)] == c,
        forall|i: int| last_index(s, c) < i < s.len() ==> #[trigger] s[i] != c,
        last_index(s, c) >= 0 <==> s.contains(c),
    decreases s.len(),
{
    if s.len() > 0 && s.last() != c {
        let front = s.drop_last();
        lemma_last_index(front, c);
        assert forall|i: int| last_index(s, c) < i < s.len() implies #[trigger] s[i] != c by {
            if i < s.len() - 1 {
                assert(s[i] == front[i]);
            }
        }
        if s.contains(c) {
            let i = choose|i: int| 0 <= i < s.len() && s[i] == c;
            assert(front[i] == c);
        }
        if front.contains(c) {
            let i = choose|i: int| 0 <= i < front.len() && front[i] == c;
            assert(s[i] == c);
        }
    } else if s.len() > 0 {
        assert(s[s.len() - 1] == c);
    }
}

/// The place that satisfies what `lemma_last_index` says is the last index.
pub proof fn lemma_last_index_is(s: Seq<char>, c: char, at: int)
    requires
        -1 <= at < s.len(),
        at >= 0 ==> s[at] == c,
        forall|i: int| at < i < s.len() ==> #[trigger] s[i] != c,
    ensures
        last_index(s, c) == at,
{
    lemma_last_index(s, c);
}

/// A run of digits without leading zeros is the decimal text of its number.
pub proof fn lemma_number_is_decimal(s: Seq<char>)
    requires
        is_number(s),
        s.len() > 1 ==> s[0] != '0',
    ensures
        decimal(number_value(s)) == s,
    decreases s.len(),
{
    let front = s.drop_last();
    assert(is_digit(s.last()));
    assert(s =~= front.push(s.last()));
    if front.len() == 0 {
        assert(number_value(front) == 0);
    } else {
        assert forall|i: int| 0 <= i < front.len() implies is_digit(#[trigger] front[i]) by {
            assert(front[i] == s[i]);
        }
        assert(front[0] == s[0]);
        lemma_number_is_decimal(front);
        if number_value(front) == 0 {
            assert(front[0] == digit_char(0));
        }
    }
}

/// A decimal text has no leading zeros, and at most three digits below a thousand.
pub proof fn lemma_decimal_shape(n: nat)
    ensures
        decimal(n).len() > 0,
        decimal(n).len() > 1 ==> decimal(n)[0] != '0',
        n < 10 ==> decimal(n).len() == 1,
        n >= 10 ==> decimal(n).len() >= 2,
        n < 100 ==> decimal(n).len() <= 2,
        n < 1000 ==> decimal(n).len() <= 3,
    decreases n,
{
    if n >= 10 {
        lemma_decimal_shape(n / 10);
        assert(decimal(n)[0] == decimal(n / 10)[0]);
        if n / 10 < 10 {
            assert(decimal(n / 10) =~= seq![digit_char(n / 10)]);
            assert(digit_char(n / 10) != '0');
        }
    }
}

/// A text without the separator is one piece.
pub proof fn lemma_split_whole(s: Seq<char>, c: char)
    requires
        !s.contains(c),
    ensures
        split(s, c) == seq![s],
    decreases s.len(),
{
    if s.len() > 0 {
        let front = s.drop_last();
        assert(s[s.len() - 1] != c);
        assert(!front.contains(c)) by {
            if front.contains(c) {
                let i = choose|i: int| 0 <= i < front.len() && front[i] == c;
                assert(s[i] == c);
            }
        }
        lemma_split_whole(front, c);
        assert(front.push(s.last()) =~= s);
        assert(split(s, c) =~= seq![s]);
    } else {
        assert(s =~= Seq::<char>::empty());
        assert(split(s, c) =~= seq![s]);
    }
}

/// What follows the last separator is the last piece.
pub proof fn lemma_split_last(s: Seq<char>, t: Seq<char>, c: char)
    requires
        !t.contains(c),
    ensures
        split(s + seq![c] + t, c) == split(s, c).push(t),
    decreases t.len(),
{
    let whole = s + seq![c] + t;
    if t.len() == 0 {
        assert(whole.drop_last() =~= s);
        assert(whole.last() == c);
        assert(t =~= Seq::<char>::empty());
    } else {
        let front = t.drop_last();
        assert(t[t.len() - 1] != c);
        assert(!front.contains(c)) by {
            if front.contains(c) {
                let i = choose|i: int| 0 <= i < front.len() && front[i] == c;
                assert(t[i] == c);
            }
        }
        lemma_split_last(s, front, c);
        assert(whole.drop_last() =~= s + seq![c] + front);
        assert(whole.last() == t.last());
        assert(front.push(t.last()) =~= t);
        assert(split(s, c).push(front).drop_last() =~= split(s, c));
    }
}

/// The pieces hold no separator, and joined by it they are the text.
pub proof fn lemma_split_join(s: Seq<char>, c: char)
    ensures
        split(s, c).len() > 0,
        join(split(s, c), seq![c]) == s,
        forall|i: int| 0 <= i < split(s, c).len() ==> !(#[trigger] split(s, c)[i]).contains(c),
    decreases s.len(),
{
    let parts = split(s, c);
    if s.len() == 0 {
        assert(s =~= Seq::<char>::empty());
        assert(parts =~= seq![Seq::<char>::empty()]);
    } else {
        let front = split(s.drop_last(), c);
        lemma_split_join(s.drop_last(), c);
        assert(s.drop_last().push(s.last()) =~= s);
        if s.last() == c {
            assert(parts.drop_last() =~= front);
            assert(join(parts, seq![c]) =~= s);
        } else {
            assert(parts.drop_last() =~= front.drop_last());
            assert forall|i: int| 0 <= i < parts.len() implies !(#[trigger] parts[i]).contains(
                c,
            ) by {
                if i < parts.len() - 1 {
                    assert(parts[i] == front[i]);
                } else {
                    let piece = front.last();
                    assert(piece == front[front.len() - 1]);
                    if parts[i].contains(c) {
                        let j = choose|j: int| 0 <= j < parts[i].len() && parts[i][j] == c;
                        assert(piece[j] == c);
                    }
                }
            }
            assert(join(parts, seq![c]) =~= s);
        }
    }
}

/// The first piece of a text is the start of the text.
pub proof fn lemma_first_piece(s: Seq<char>, c: char)
    ensures
        split(s, c).len() > 0,
        split(s, c)[0] == s.take(first_index(s, c)),
    decreases s.len(),
{
    lemma_first_index(s, c);
    if s.len() > 0 {
        let front = s.drop_last();
        lemma_first_piece(front, c);
        lemma_first_index(front, c);
        let pieces = split(front, c);
        if front.contains(c) {
            let at = first_index(front, c);
            assert forall|i: int| 0 <= i < at implies #[trigger] s[i] != c by {
                assert(s[i] == front[i]);
            }
            lemma_first_index_is(s, c, at);
            assert(s.take(at) =~= front.take(at));
            lemma_split_has_two(front, c);
            assert(split(s, c)[0] == pieces[0]);
        } else {
            lemma_split_whole(front, c);
            assert forall|i: int| 0 <= i < front.len() implies #[trigger] s[i] != c by {
                assert(s[i] == front[i]);
            }
            assert(front.take(front.len() as int) =~= front);
            if s.last() == c {
                lemma_first_index_is(s, c, s.len() - 1);
                assert(s.take(s.len() - 1) =~= front);
            } else {
                lemma_first_index_is(s, c, s.len() as int);
                assert(s.take(s.len() as int) =~= front.push(s.last()));
            }
        }
    } else {
        assert(s.take(0) =~= Seq::<char>::empty());
    }
}

/// A text that holds the separator has at least two pieces.
pub proof fn lemma_split_has_two(s: Seq<char>, c: char)
    requires
        s.contains(c),
    ensures
        split(s, c).len() >= 2,
    decreases s.len(),
{
    let front = s.drop_last();
    lemma_split_join(front, c);
    if s.last() != c {
        let i = choose|i: int| 0 <= i < s.len() && s[i] == c;
        assert(front[i] == c);
        lemma_split_has_two(front, c);
    }
}

/// A character that is not the separator stands in some piece.
pub proof fn lemma_char_in_piece(s: Seq<char>, c: char, x: char)
    requires
        s.contains(x),
        x != c,
    ensures
        exists|i: int| 0 <= i < split(s, c).len() && (#[trigger] split(s, c)[i]).contains(x),
    decreases s.len(),
{
    let front = s.drop_last();
    let before = split(front, c);
    let pieces = split(s, c);
    lemma_split_join(front, c);
    if s.last() == x {
        let last = pieces[pieces.len() - 1];
        assert(last[last.len() - 1] == x);
        assert(last.contains(x));
    } else {
        let k = choose|k: int| 0 <= k < s.len() && s[k] == x;
        assert(front[k] == x);
        lemma_char_in_piece(front, c, x);
        let i = choose|i: int| 0 <= i < before.len() && (#[trigger] before[i]).contains(x);
        let j = choose|j: int| 0 <= j < before[i].len() && before[i][j] == x;
        assert(pieces[i][j] == x);
        assert(pieces[i].contains(x));
    }
}

/// Reading the decimal text of a number gives back the number, as long as it fits.
pub proof fn lemma_int_is_read_back(n: int)
    requires
        0 <= n <= i32::MAX,
    ensures
        parse_int(signed_decimal(n)) == Some(n),
        is_number(signed_decimal(n)),
        !signed_decimal(n).contains(':'),
{
    let s = signed_decimal(n);
    lemma_decimal_is_read_back(n as nat);
    assert(is_digit(s[0]));
    if s.contains(':') {
        let i = choose|i: int| 0 <= i < s.len() && s[i] == ':';
        assert(is_digit(s[i]));
    }
}

/// The characters of a text.
pub(crate) fn chars_of(s: &str) -> (chars: Vec<char>)
    ensures
        chars@ == s@,
{
    let mut chars: Vec<char> = Vec::new();
    for c in it: s.chars()
        invariant
            it.seq() == s@,
            chars@ == s@.take(it.index()),
    {
        chars.push(c);
    }
    chars
}

/// The text with the given characters.
pub(crate) fn text_of(chars: &[char]) -> (text: String)
    ensures
        text@ == chars@,
{
    let mut text = String::new();
    let mut i: usize = 0;
    while i < chars.len()
        invariant
            i <= chars@.len(),
            text@ == chars@.take(i as int),
        decreases chars@.len() - i,
    {
        text.push(chars[i]);
        i += 1;
        assert(chars@.take(i as int) =~= chars@.take(i - 1).push(chars@[i - 1]));
    }
    assert(chars@.take(i as int) =~= chars@);
    text
}

/// Whether two texts hold the same characters.
pub(crate) fn same_chars(a: &[char], b: &[char]) -> (same: bool)
    ensures
        same == (a@ == b@),
{
    if a.len() != b.len() {
        return false;
    }
    let mut i: usize = 0;
    while i < a.len()
        invariant
            i <= a@.len(),
            a@.len() == b@.len(),
            forall|k: int| 0 <= k < i ==> a@[k] == b@[k],
        decreases a@.len() - i,
    {
        if a[i] != b[i] {
            return false;
        }
        i += 1;
    }
    assert(a@ =~= b@);
    true
}

/// Whether two runs of bytes are the same.
pub(crate) fn same_bytes(a: &[u8], b: &[u8]) -> (same: bool)
    ensures
        same == (a@ == b@),
{
    if a.len() != b.len() {
        return false;
    }
    let mut i: usize = 0;
    while i < a.len()
        invariant
            i <= a@.len(),
            a@.len() == b@.len(),
            forall|k: int| 0 <= k < i ==> a@[k] == b@[k],
        decreases a@.len() - i,
    {
        if a[i] != b[i] {
            return false;
        }
        i += 1;
    }
    assert(a@ =~= b@);
    true
}

/// Whether a character is a decimal digit.
pub(crate) fn digit(c: char) -> (yes: bool)
    ensures
        yes == is_digit(c),
{
    '0' <= c && c <= '9'
}

/// Whether a character is a hexadecimal digit.
pub(crate) fn hex_digit(c: char) -> (yes: bool)
    ensures
        yes == is_hex_digit(c),
{
    digit(c) || ('a' <= c && c <= 'f') || ('A' <= c && c <= 'F')
}

/// Whether a character is white space.
pub(crate) fn space(c: char) -> (yes: bool)
    ensures
        yes == is_space(c),
{
    let u: u32 = c as u32;
    (0x09 <= u && u <= 0x0d) || u == 0x20 || u == 0x85 || u == 0xa0 || u == 0x1680 || (0x2000 <= u
        && u <= 0x200a) || u == 0x2028 || u == 0x2029 || u == 0x202f || u == 0x205f || u == 0x3000
}

/// Whether `c` stands in a text.
pub(crate) fn has_char(s: &[char], c: char) -> (yes: bool)
    ensures
        yes == s@.contains(c),
{
    let at: usize = find_first(s, c);
    proof {
        lemma_first_index(s@, c);
    }
    at < s.len()
}

/// Where `c` first stands in a text, or the length of the text.
pub(crate) fn find_first(s: &[char], c: char) -> (at: usize)
    ensures
        at as int == first_index(s@, c),
{
    let mut i: usize = 0;
    while i < s.len() && s[i] != c
        invariant
            i <= s@.len(),
            forall|k: int| 0 <= k < i ==> #[trigger] s@[k] != c,
        decreases s@.len() - i,
    {
        i += 1;
    }
    proof {
        lemma_first_index_is(s@, c, i as int);
    }
    i
}

/// Where `c` last stands in a text.
pub(crate) fn find_last(s: &[char], c: char) -> (at: Option<usize>)
    ensures
        match at {
            Some(i) => last_index(s@, c) == i,
            None => last_index(s@, c) == -1,
        },
{
    let mut i: usize = s.len();
    while i > 0
        invariant
            i <= s@.len(),
            forall|k: int| i <= k < s@.len() ==> #[trigger] s@[k] != c,
        decreases i,
    {
        i -= 1;
        if s[i] == c {
            proof {
                lemma_last_index_is(s@, c, i as int);
            }
            return Some(i);
        }
    }
    proof {
        lemma_last_index_is(s@, c, -1);
    }
    None
}

/// The number in a run of digits, up to `max`.
pub(crate) fn read_number(s: &[char], max: u32) -> (number: Option<u32>)
    ensures
        match number {
            Some(n) => parse_number(s@, max as nat) == Some(n as nat),
            None => parse_number(s@, max as nat) is None,
        },
{
    if s.len() == 0 {
        return None;
    }
    let mut value: u64 = 0;
    let mut i: usize = 0;
    while i < s.len()
        invariant
            i <= s@.len(),
            value == number_value(s@.take(i as int)),
            value <= max,
            forall|k: int| 0 <= k < i ==> is_digit(#[trigger] s@[k]),
        decreases s@.len() - i,
    {
        if !digit(s[i]) {
            assert(!is_digit(s@[i as int]));
            return None;
        }
        let next: u64 = value * 10 + (s[i] as u64 - '0' as u64);
        assert(s@.take(i + 1).drop_last() =~= s@.take(i as int));
        assert(next == number_value(s@.take(i + 1)));
        if next > max as u64 {
            proof {
                lemma_number_value_grows(s@, i + 1);
            }
            return None;
        }
        value = next;
        i += 1;
    }
    assert(s@.take(i as int) =~= s@);
    Some(value as u32)
}

/// A text without its first character, where that is `c`.
pub(crate) fn without_first(s: &[char], c: char) -> (rest: &[char])
    ensures
        rest@ == strip_first(s@, c),
{
    if s.len() > 0 && s[0] == c {
        slice_subrange(s, 1, s.len())
    } else {
        s
    }
}

/// The 16-bit number in a text.
pub(crate) fn read_port(s: &[char]) -> (port: Option<u16>)
    ensures
        match port {
            Some(n) => parse_port(s@) == Some(n as nat),
            None => parse_port(s@) is None,
        },
{
    match read_number(without_first(s, '+'), 0xffff) {
        Some(n) => Some(n as u16),
        None => None,
    }
}

/// The signed 32-bit number in a text.
pub(crate) fn read_int(s: &[char]) -> (number: Option<i32>)
    ensures
        match number {
            Some(n) => parse_int(s@) == Some(n as int),
            None => parse_int(s@) is None,
        },
{
    if s.len() > 0 && s[0] == '-' {
        match read_number(slice_subrange(s, 1, s.len()), 0x8000_0000) {
            Some(n) => Some((-(n as i64)) as i32),
            None => None,
        }
    } else {
        match read_number(without_first(s, '+'), 0x7fff_ffff) {
            Some(n) => Some(n as i32),
            None => None,
        }
    }
}

/// Appends the decimal text of a number.
pub(crate) fn push_decimal(out: &mut String, n: u64)
    ensures
        final(out)@ == old(out)@ + decimal(n as nat),
    decreases n,
{
    if n >= 10 {
        push_decimal(out, n / 10);
    }
    let d: u8 = (n % 10) as u8;
    out.push((48 + d) as char);
    assert(out@ =~= old(out)@ + decimal(n as nat));
}

/// Appends the decimal text of a signed number.
pub(crate) fn push_signed(out: &mut String, n: i32)
    ensures
        final(out)@ == old(out)@ + signed_decimal(n as int),
{
    if n < 0 {
        out.push('-');
        push_decimal(out, (-(n as i64)) as u64);
        assert(out@ =~= old(out)@ + signed_decimal(n as int));
    } else {
        push_decimal(out, n as u64);
    }
}

/// The views of a list of texts.
pub open spec fn piece_views(pieces: Seq<Vec<char>>) -> Seq<Seq<char>> {
    pieces.map_values(|piece: Vec<char>| piece@)
}

/// The pieces of a text between the separators `c`.
pub(crate) fn split_at_each(s: &[char], c: char) -> (pieces: Vec<Vec<char>>)
    ensures
        piece_views(pieces@) == split(s@, c),
        pieces@.len() > 0,
{
    let mut done: Vec<Vec<char>> = Vec::new();
    let mut current: Vec<char> = Vec::new();
    let mut i: usize = 0;
    assert(piece_views(done@).push(current@) =~= split(s@.take(0), c));
    while i < s.len()
        invariant
            i <= s@.len(),
            piece_views(done@).push(current@) == split(s@.take(i as int), c),
        decreases s@.len() - i,
    {
        let ghost before = piece_views(done@).push(current@);
        assert(s@.take(i + 1).drop_last() =~= s@.take(i as int));
        if s[i] == c {
            done.push(current);
            current = Vec::new();
            assert(piece_views(done@) =~= before);
        } else {
            current.push(s[i]);
            assert(before.drop_last() =~= piece_views(done@));
        }
        i += 1;
        assert(piece_views(done@).push(current@) =~= split(s@.take(i as int), c));
    }
    assert(s@.take(i as int) =~= s@);
    let ghost last = current@;
    let ghost earlier = piece_views(done@);
    done.push(current);
    assert(piece_views(done@) =~= earlier.push(last));
    done
}

/// A text without white space at either end.
pub(crate) fn trimmed(s: &[char]) -> (rest: &[char])
    ensures
        rest@ == trim(s@),
{
    let mut from: usize = 0;
    assert(s@.skip(0) =~= s@);
    while from < s.len() && space(s[from])
        invariant
            from <= s@.len(),
            trim_start(s@) == trim_start(s@.skip(from as int)),
        decreases s@.len() - from,
    {
        assert(s@.skip(from as int).skip(1) =~= s@.skip(from + 1));
        from += 1;
    }
    let start: &[char] = slice_subrange(s, from, s.len());
    assert(start@ =~= s@.skip(from as int));
    assert(start@ == trim_start(s@));
    let mut to: usize = start.len();
    assert(start@.take(to as int) =~= start@);
    while to > 0 && space(start[to - 1])
        invariant
            to <= start@.len(),
            trim_end(start@) == trim_end(start@.take(to as int)),
        decreases to,
    {
        assert(start@.take(to as int).drop_last() =~= start@.take(to - 1));
        to -= 1;
    }
    let rest: &[char] = slice_subrange(start, 0, to);
    assert(rest@ =~= start@.take(to as int));
    rest
}

/// A text without any `c` at its end.
pub(crate) fn without_trailing(s: &[char], c: char) -> (rest: &[char])
    ensures
        rest@ == trim_end_char(s@, c),
{
    let mut to: usize = s.len();
    assert(s@.take(to as int) =~= s@);
    while to > 0 && s[to - 1] == c
        invariant
            to <= s@.len(),
            trim_end_char(s@, c) == trim_end_char(s@.take(to as int), c),
        decreases to,
    {
        assert(s@.take(to as int).drop_last() =~= s@.take(to - 1));
        to -= 1;
    }
    let rest: &[char] = slice_subrange(s, 0, to);
    assert(rest@ =~= s@.take(to as int));
    rest
}

/// A text with its ASCII capitals as small letters.
pub(crate) fn lowered(s: &[char]) -> (low: Vec<char>)
    ensures
        low@ == lower(s@),
{
    let mut low: Vec<char> = Vec::new();
    let mut i: usize = 0;
    while i < s.len()
        invariant
            i <= s@.len(),
            low@ =~= lower(s@.take(i as int)),
        decreases s@.len() - i,
    {
        let c: char = s[i];
        let small: char = if 'A' <= c && c <= 'Z' {
            ((c as u8) + 32) as char
        } else {
            c
        };
        assert(small == lower_char(c));
        low.push(small);
        i += 1;
        assert(low@ =~= lower(s@.take(i as int)));
    }
    assert(s@.take(i as int) =~= s@);
    low
}

/// Whether white space stands anywhere in a text.
pub(crate) fn has_space(s: &[char]) -> (yes: bool)
    ensures
        yes == exists|i: int| 0 <= i < s@.len() && is_space(#[trigger] s@[i]),
{
    let mut i: usize = 0;
    while i < s.len()
        invariant
            i <= s@.len(),
            forall|k: int| 0 <= k < i ==> !is_space(#[trigger] s@[k]),
        decreases s@.len() - i,
    {
        if space(s[i]) {
            assert(is_space(s@[i as int]));
            return true;
        }
        i += 1;
    }
    false
}

/// Whether `part` stands anywhere in a text.
pub(crate) fn contains_part(s: &[char], part: &[char]) -> (yes: bool)
    ensures
        yes == has_part(s@, part@),
{
    if part.len() > s.len() {
        return false;
    }
    let last: usize = s.len() - part.len();
    let mut at: usize = 0;
    loop
        invariant
            at <= last,
            last + part@.len() == s@.len() <= usize::MAX,
            forall|k: int| 0 <= k < at ==> !stands_at(s@, part@, k),
        decreases last - at,
    {
        let window: &[char] = slice_subrange(s, at, at + part.len());
        if same_chars(window, part) {
            assert(stands_at(s@, part@, at as int));
            return true;
        }
        assert(!stands_at(s@, part@, at as int));
        if at == last {
            return false;
        }
        at += 1;
    }
}

} // verus!
