//! Numbers as text, and text put together.
use vstd::prelude::*;

verus! {

/// The character that stands for a digit.
pub open spec fn digit(d: int) -> char {
    (48 + d) as char
}

/// A number in decimal notation, without leading zeros.
pub open spec fn decimal(n: nat) -> Seq<char>
    decreases n,
{
    if n < 10 {
        seq![digit(n as int)]
    } else {
        decimal(n / 10).push(digit((n % 10) as int))
    }
}

/// The text of a string slice, if there is one.
pub open spec fn opt_text(s: Option<&str>) -> Option<Seq<char>> {
    match s {
        Some(s) => Some(s@),
        None => None,
    }
}

/// The text of a string, if there is one.
pub open spec fn opt_string_text(s: Option<String>) -> Option<Seq<char>> {
    match s {
        Some(s) => Some(s@),
        None => None,
    }
}

pub(crate) fn opt_owned(s: Option<&str>) -> (r: Option<String>)
    ensures
        opt_string_text(r) == opt_text(s),
{
    match s {
        Some(s) => Some(s.to_owned()),
        None => None,
    }
}

fn digit_text(d: u32) -> (text: &'static str)
    requires
        d < 10,
    ensures
        text@ == seq![digit(d as int)],
{
    proof {
        reveal_strlit("0");
        reveal_strlit("1");
        reveal_strlit("2");
        reveal_strlit("3");
        reveal_strlit("4");
        reveal_strlit("5");
        reveal_strlit("6");
        reveal_strlit("7");
        reveal_strlit("8");
        reveal_strlit("9");
    }
    let text = match d {
        0 => "0",
        1 => "1",
        2 => "2",
        3 => "3",
        4 => "4",
        5 => "5",
        6 => "6",
        7 => "7",
        8 => "8",
        _ => "9",
    };
    proof {
        assert(text@ =~= seq![digit(d as int)]);
    }
    text
}

/// A number in decimal notation.
pub fn decimal_text(n: u32) -> (text: String)
    ensures
        text@ == decimal(n as nat),
    decreases n,
{
    if n < 10 {
        digit_text(n).to_owned()
    } else {
        let mut text = decimal_text(n / 10);
        text.append(digit_text(n % 10));
        proof {
            assert(text@ =~= decimal(n as nat));
        }
        text
    }
}

/// The parts of a text between the places where a character stands; there is one more of them.
pub open spec fn split(s: Seq<char>, at: char) -> Seq<Seq<char>>
    decreases s.len(),
{
    if s.len() == 0 {
        seq![s]
    } else {
        let before = split(s.drop_last(), at);
        if s.last() == at {
            before.push(Seq::empty())
        } else {
            before.drop_last().push(before.last().push(s.last()))
        }
    }
}

/// A text in which the character does not stand is its only part.
pub proof fn law_split_one(s: Seq<char>, at: char)
    requires
        !s.contains(at),
    ensures
        split(s, at) == seq![s],
    decreases s.len(),
{
    if s.len() > 0 {
        assert(s[s.len() - 1] == s.last());
        assert forall|i: int| 0 <= i < s.drop_last().len() implies s.drop_last()[i] != at by {
            assert(s.contains(s[i]));
        }
        law_split_one(s.drop_last(), at);
        assert(s.contains(s.last()));
        assert(split(s, at) =~= seq![s]) by {
            assert(s.drop_last().push(s.last()) =~= s);
        }
    }
}

/// The parts of two texts with the character between them are those of the first, followed by those
/// of the second.
pub proof fn law_split_concat(a: Seq<char>, at: char, b: Seq<char>)
    ensures
        split(a.push(at) + b, at) == split(a, at) + split(b, at),
        split(b, at).len() > 0,
    decreases b.len(),
{
    let all = a.push(at) + b;
    if b.len() == 0 {
        assert(b =~= Seq::empty());
        assert(all =~= a.push(at));
        assert(a.push(at).drop_last() =~= a);
        assert(split(all, at) =~= split(a, at) + split(b, at));
    } else {
        law_split_concat(a, at, b.drop_last());
        assert(all.drop_last() =~= a.push(at) + b.drop_last());
        assert(all.last() == b.last());
        assert(split(all, at) =~= split(a, at) + split(b, at));
    }
}

/// There is a text exactly where there is a string, and it is that of the string.
pub proof fn law_optional_text(slice: Option<&str>, string: Option<String>)
    ensures
        opt_text(slice) is Some <==> slice is Some,
        slice matches Some(s) ==> opt_text(slice) == Some(s@),
        opt_string_text(string) is Some <==> string is Some,
        string matches Some(s) ==> opt_string_text(string) == Some(s@),
{
}

} // verus!
