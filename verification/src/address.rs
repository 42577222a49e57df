//! Internet addresses, in the byte order of the network.
use vstd::prelude::*;

use crate::text::{decimal, digit, law_split_concat, law_split_one, split};

verus! {

/// Whether a character is a decimal digit.
pub open spec fn is_digit(c: char) -> bool {
    '0' <= c <= '9'
}

/// Whether all characters are digits.
pub open spec fn all_digits(s: Seq<char>) -> bool {
    forall|i: int| 0 <= i < s.len() ==> is_digit(#[trigger] s[i])
}

/// The number that a text of digits stands for.
pub open spec fn value(s: Seq<char>) -> nat
    decreases s.len(),
{
    if s.len() == 0 {
        0
    } else {
        value(s.drop_last()) * 10 + (s.last() as nat - 48) as nat
    }
}

/// Numbers in decimal notation with a dot between any two.
pub open spec fn dotted(octets: Seq<u8>) -> Seq<char>
    decreases octets.len(),
{
    if octets.len() == 0 {
        seq![]
    } else if octets.len() == 1 {
        decimal(octets[0] as nat)
    } else {
        decimal(octets[0] as nat).push('.') + dotted(octets.skip(1))
    }
}

/// The decimal notation of a number consists of digits, does not begin with a zero unless it is
/// one, and stands for that number.
pub proof fn law_decimal_value(n: nat)
    ensures
        decimal(n).len() > 0,
        all_digits(decimal(n)),
        n > 0 ==> decimal(n)[0] != '0',
        n == 0 ==> decimal(n) == seq!['0'],
        value(decimal(n)) == n,
    decreases n,
{
    if n < 10 {
        assert(decimal(n).drop_last() =~= Seq::<char>::empty());
        assert(value(Seq::<char>::empty()) == 0);
    } else {
        law_decimal_value(n / 10);
        assert(decimal(n).drop_last() =~= decimal(n / 10));
        assert(decimal(n)[0] == decimal(n / 10)[0]);
    }
}

/// Digits without a needless zero in front are the decimal notation of what they stand for.
proof fn lemma_canonical(s: Seq<char>)
    requires
        s.len() > 0,
        all_digits(s),
        s.len() > 1 ==> s[0] != '0',
    ensures
        s == decimal(value(s)),
        s.len() > 1 ==> value(s) >= 10,
    decreases s.len(),
{
    let front = s.drop_last();
    let last = (s.last() as nat - 48) as nat;
    assert(is_digit(s[s.len() - 1]));
    assert(digit(last as int) == s.last());
    if s.len() == 1 {
        assert(front =~= Seq::<char>::empty());
        assert(value(front) == 0);
        assert(s =~= decimal(value(s)));
    } else {
        assert(front[0] == s[0]);
        lemma_canonical(front);
        if front.len() == 1 {
            assert(front.drop_last() =~= Seq::<char>::empty());
            assert(value(front.drop_last()) == 0);
            assert(is_digit(front[0]));
            assert(value(front) == (front[0] as nat - 48) as nat);
        }
        assert(value(front) >= 1);
        assert(value(s) == value(front) * 10 + last);
        assert(value(s) / 10 == value(front));
        assert(value(s) % 10 == last);
        assert(s =~= front.push(s.last()));
    }
}

/// The first digits stand for no more than all of them.
proof fn lemma_value_of_front(s: Seq<char>, k: int)
    requires
        0 <= k <= s.len(),
    ensures
        value(s.take(k)) <= value(s),
    decreases s.len(),
{
    if k == s.len() {
        assert(s.take(k) =~= s);
    } else {
        lemma_value_of_front(s.drop_last(), k);
        assert(s.drop_last().take(k) =~= s.take(k));
    }
}

/// Whether a number stands in a text from one position to another, and ends there.
pub open spec fn number_at(s: Seq<char>, from: int, to: int, n: nat) -> bool {
    &&& 0 <= from <= to <= s.len()
    &&& s.subrange(from, to) == decimal(n)
    &&& to < s.len() ==> !is_digit(s[to])
}

/// At most one number stands at a position.
proof fn lemma_number_unique(s: Seq<char>, from: int, to1: int, n1: nat, to2: int, n2: nat)
    requires
        number_at(s, from, to1, n1),
        number_at(s, from, to2, n2),
    ensures
        to1 == to2,
        n1 == n2,
{
    law_decimal_value(n1);
    law_decimal_value(n2);
    if to1 < to2 {
        assert(is_digit(s.subrange(from, to2)[to1 - from]));
    }
    if to2 < to1 {
        assert(is_digit(s.subrange(from, to1)[to2 - from]));
    }
}

/// Where the first number of a dotted text stands.
proof fn lemma_dotted_head(s: Seq<char>, from: int, octets: Seq<u8>)
    requires
        0 <= from <= s.len(),
        octets.len() > 0,
        s.skip(from) == dotted(octets),
    ensures
        ({
            let to = from + decimal(octets[0] as nat).len();
            &&& number_at(s, from, to, octets[0] as nat)
            &&& octets.len() == 1 ==> to == s.len()
            &&& octets.len() > 1 ==> to < s.len() && s[to] == '.' && s.skip(to + 1) == dotted(
                octets.skip(1),
            )
        }),
{
    let head = decimal(octets[0] as nat);
    let to = from + head.len();
    let rest = s.skip(from);
    if octets.len() == 1 {
        assert(s.subrange(from, to) =~= head);
    } else {
        let tail = dotted(octets.skip(1));
        assert(rest.len() == head.len() + 1 + tail.len());
        assert(s[to] == rest[head.len() as int]);
        assert(s.subrange(from, to) =~= head) by {
            assert forall|i: int| 0 <= i < head.len() implies s.subrange(from, to)[i]
                == #[trigger] head[i] by {
                assert(rest[i] == head[i]);
            }
        }
        assert(s.skip(to + 1) =~= tail) by {
            assert forall|i: int| 0 <= i < tail.len() implies s.skip(to + 1)[i]
                == #[trigger] tail[i] by {
                assert(rest[head.len() + 1 + i] == tail[i]);
            }
        }
    }
}

/// A dotted text is that of one sequence of its length only.
pub proof fn law_dotted_injective(a: Seq<u8>, b: Seq<u8>)
    requires
        a.len() == b.len(),
        dotted(a) == dotted(b),
    ensures
        a == b,
    decreases a.len(),
{
    if a.len() > 0 {
        let s = dotted(a);
        assert(s.skip(0) =~= s);
        lemma_dotted_head(s, 0, a);
        lemma_dotted_head(s, 0, b);
        lemma_number_unique(
            s,
            0,
            decimal(a[0] as nat).len() as int,
            a[0] as nat,
            decimal(b[0] as nat).len() as int,
            b[0] as nat,
        );
        if a.len() > 1 {
            law_dotted_injective(a.skip(1), b.skip(1));
            assert(a =~= seq![a[0]] + a.skip(1));
            assert(b =~= seq![b[0]] + b.skip(1));
        } else {
            assert(a =~= b);
        }
    } else {
        assert(a =~= b);
    }
}

/// Reads a number of at most 255 that stands at a position, and where it ends.
fn read_octet(s: &str, from: usize) -> (r: Option<(u8, usize)>)
    requires
        from <= s@.len(),
    ensures
        match r {
            Some((n, to)) => number_at(s@, from as int, to as int, n as nat),
            None => forall|n: u8, to: int| !#[trigger] number_at(s@, from as int, to, n as nat),
        },
{
    let len: usize = s.unicode_len();
    let mut to: usize = from;
    let mut n: u32 = 0;
    while to < len && '0' <= s.get_char(to) && s.get_char(to) <= '9'
        invariant
            from <= to <= len,
            len == s@.len(),
            n <= 255,
            all_digits(s@.subrange(from as int, to as int)),
            n == value(s@.subrange(from as int, to as int)),
        decreases len - to,
    {
        let ghost front = s@.subrange(from as int, to as int);
        let c = s.get_char(to);
        n = n * 10 + (c as u32 - 48);
        to = to + 1;
        let ghost read = s@.subrange(from as int, to as int);
        proof {
            assert(read.drop_last() =~= front);
            assert(read.last() == c);
            assert forall|i: int| 0 <= i < read.len() implies is_digit(#[trigger] read[i]) by {
                if i < front.len() {
                    assert(read[i] == front[i]);
                }
            }
        }
        if n > 255 {
            proof {
                assert forall|m: u8, end: int| !#[trigger] number_at(
                    s@,
                    from as int,
                    end,
                    m as nat,
                ) by {
                    if number_at(s@, from as int, end, m as nat) {
                        let whole = s@.subrange(from as int, end);
                        law_decimal_value(m as nat);
                        if end < to {
                            assert(is_digit(read[end - from]));
                        }
                        lemma_value_of_front(whole, to - from);
                        assert(whole.take(to - from) =~= read);
                    }
                }
            }
            return None;
        }
    }
    let ghost read = s@.subrange(from as int, to as int);
    if to == from || (to - from > 1 && s.get_char(from) == '0') {
        proof {
            assert forall|m: u8, end: int| !#[trigger] number_at(s@, from as int, end, m as nat) by {
                if number_at(s@, from as int, end, m as nat) {
                    let whole = s@.subrange(from as int, end);
                    law_decimal_value(m as nat);
                    if end < to {
                        assert(is_digit(read[end - from]));
                    }
                    if end > to {
                        assert(is_digit(whole[to - from]));
                    }
                    assert(whole =~= read);
                    assert(read[0] == s@[from as int]);
                }
            }
        }
        return None;
    }
    proof {
        assert(read[0] == s@[from as int]);
        lemma_canonical(read);
    }
    Some((n as u8, to))
}

/// Reads a dotted text of so many numbers that makes up the rest of a text.
fn read_dotted(s: &str, from: usize, count: usize) -> (r: Option<Vec<u8>>)
    requires
        from <= s@.len(),
        count > 0,
    ensures
        match r {
            Some(octets) => octets@.len() == count && s@.skip(from as int) == dotted(octets@),
            None => forall|octets: Seq<u8>|
                octets.len() == count ==> s@.skip(from as int) != #[trigger] dotted(octets),
        },
    decreases count,
{
    let len: usize = s.unicode_len();
    match read_octet(s, from) {
        None => {
            proof {
                assert forall|octets: Seq<u8>| octets.len() == count implies s@.skip(from as int)
                    != #[trigger] dotted(octets) by {
                    if s@.skip(from as int) == dotted(octets) {
                        lemma_dotted_head(s@, from as int, octets);
                    }
                }
            }
            None
        },
        Some((n, to)) => {
            proof {
                assert forall|octets: Seq<u8>|
                    octets.len() == count && s@.skip(from as int) == #[trigger] dotted(
                        octets,
                    ) implies octets[0] == n && to == from + decimal(n as nat).len() by {
                    lemma_dotted_head(s@, from as int, octets);
                    lemma_number_unique(
                        s@,
                        from as int,
                        to as int,
                        n as nat,
                        from + decimal(octets[0] as nat).len(),
                        octets[0] as nat,
                    );
                }
                assert forall|octets: Seq<u8>|
                    octets.len() == count && s@.skip(from as int) == #[trigger] dotted(
                        octets,
                    ) implies (if count == 1 {
                    to == s@.len()
                } else {
                    to < s@.len() && s@[to as int] == '.' && s@.skip(to + 1) == dotted(
                        octets.skip(1),
                    )
                }) by {
                    lemma_dotted_head(s@, from as int, octets);
                }
            }
            if count == 1 {
                if to == len {
                    let octets: Vec<u8> = vec![n];
                    proof {
                        assert(s@.skip(from as int) =~= s@.subrange(from as int, to as int));
                    }
                    Some(octets)
                } else {
                    None
                }
            } else if to < len && s.get_char(to) == '.' {
                match read_dotted(s, to + 1, count - 1) {
                    None => None,
                    Some(mut tail) => {
                        let mut octets: Vec<u8> = vec![n];
                        let ghost rest = tail@;
                        octets.append(&mut tail);
                        proof {
                            assert(octets@.skip(1) =~= rest);
                            assert(s@.skip(from as int) =~= s@.subrange(
                                from as int,
                                to as int,
                            ).push('.') + s@.skip(to + 1));
                        }
                        Some(octets)
                    },
                }
            } else {
                None
            }
        },
    }
}

/// `nix::sys::socket::Ipv4Addr::new`: an address by its four octets, as the bytes that it has in
/// memory; claims that these are the octets in the order in which they are written.
#[allow(deprecated)]
#[verifier::external_body]
fn ipv4_bytes(a: u8, b: u8, c: u8, d: u8) -> (bytes: [u8; 4])
    ensures
        bytes@ == seq![a, b, c, d],
{
    nix::sys::socket::Ipv4Addr::new(a, b, c, d).0.s_addr.to_ne_bytes()
}

/// `nix::sys::socket::Ipv6Addr::new`: an address by its eight segments, as the bytes that it has
/// in memory; claims that each segment is there as two bytes, the higher one first.
#[allow(deprecated)]
#[verifier::external_body]
fn ipv6_bytes(s: [u16; 8]) -> (bytes: [u8; 16])
    ensures
        forall|i: int|
            0 <= i < 8 ==> bytes@[2 * i] == (#[trigger] s@[i]) / 256 && bytes@[2 * i + 1] == s@[i]
                % 256,
{
    nix::sys::socket::Ipv6Addr::new(s[0], s[1], s[2], s[3], s[4], s[5], s[6], s[7]).0.s6_addr
}

/// Whether bytes are those of an address with these segments.
pub open spec fn in_network_order(segments: Seq<u16>, bytes: Seq<u8>) -> bool {
    forall|i: int|
        0 <= i < 8 ==> bytes[2 * i] == (#[trigger] segments[i]) / 256 && bytes[2 * i + 1]
            == segments[i] % 256
}

/// An address of the fourth version of the protocol.
#[derive(Debug, Copy, Clone)]
pub struct MyIpv4Addr {
    pub addr: [u8; 4],
}

/// An address of the sixth version of the protocol.
#[derive(Debug, Copy, Clone)]
pub struct MyIpv6Addr {
    pub addr: [u8; 16],
}

impl MyIpv4Addr {
    /// The address by its octets.
    pub fn new(a: u8, b: u8, c: u8, d: u8) -> (r: MyIpv4Addr)
        ensures
            r.addr@ == seq![a, b, c, d],
    {
        MyIpv4Addr { addr: ipv4_bytes(a, b, c, d) }
    }

    /// Reads an address: four numbers of at most 255 in decimal notation, with dots between
    /// them.
    pub fn parse(s: &str) -> (r: Option<MyIpv4Addr>)
        ensures
            match r {
                Some(address) => s@ == dotted(address.addr@),
                None => forall|octets: Seq<u8>| octets.len() == 4 ==> s@ != #[trigger] dotted(octets),
            },
            forall|octets: Seq<u8>|
                octets.len() == 4 && s@ == #[trigger] dotted(octets) ==> r is Some
                    && r->0.addr@ == octets,
    {
        proof {
            assert(s@.skip(0) =~= s@);
        }
        match read_dotted(s, 0, 4) {
            Some(octets) => {
                let address = MyIpv4Addr::new(octets[0], octets[1], octets[2], octets[3]);
                proof {
                    assert(address.addr@ =~= octets@);
                    assert forall|other: Seq<u8>|
                        other.len() == 4 && s@ == #[trigger] dotted(other) implies address.addr@
                        == other by {
                        law_dotted_injective(address.addr@, other);
                    }
                }
                Some(address)
            },
            None => None,
        }
    }
}

impl MyIpv6Addr {
    /// The address by its segments.
    pub fn new(segments: [u16; 8]) -> (r: MyIpv6Addr)
        ensures
            in_network_order(segments@, r.addr@),
    {
        MyIpv6Addr { addr: ipv6_bytes(segments) }
    }
}

/// The parts of a dotted text between the dots are the numbers, each in decimal notation.
pub proof fn law_dotted_parts(octets: Seq<u8>)
    requires
        octets.len() > 0,
    ensures
        split(dotted(octets), '.').len() == octets.len(),
        forall|i: int|
            0 <= i < octets.len() ==> {
                let part = #[trigger] split(dotted(octets), '.')[i];
                &&& part.len() > 0
                &&& all_digits(part)
                &&& value(part) == octets[i]
                &&& part[0] == '0' ==> part.len() == 1
            },
    decreases octets.len(),
{
    let head = decimal(octets[0] as nat);
    law_decimal_value(octets[0] as nat);
    assert(!head.contains('.')) by {
        if head.contains('.') {
            let i = choose|i: int| 0 <= i < head.len() && head[i] == '.';
            assert(is_digit(head[i]));
        }
    }
    law_split_one(head, '.');
    if octets.len() > 1 {
        let rest = octets.skip(1);
        law_dotted_parts(rest);
        law_split_concat(head, '.', dotted(rest));
        let parts = split(dotted(octets), '.');
        assert forall|i: int| 0 <= i < octets.len() implies {
            let part = #[trigger] parts[i];
            &&& part.len() > 0
            &&& all_digits(part)
            &&& value(part) == octets[i]
            &&& part[0] == '0' ==> part.len() == 1
        } by {
            if i > 0 {
                assert(parts[i] == split(dotted(rest), '.')[i - 1]);
                assert(rest[i - 1] == octets[i]);
            }
        }
    }
}

/// The bytes of an address hold its segments, the higher byte of each first.
pub proof fn law_segments_of_bytes(segments: Seq<u16>, bytes: Seq<u8>, i: int)
    requires
        in_network_order(segments, bytes),
        0 <= i < 8,
    ensures
        bytes[2 * i] * 256 + bytes[2 * i + 1] == segments[i],
{
    assert(segments[i] == segments[i]);
}

} // verus!
