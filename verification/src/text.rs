//! Small text utilities: decimal notation and space-separated words.

use vstd::prelude::*;
use vstd::string::*;

verus! {

/// The views of a sequence of strings, in order.
pub open spec fn strings_view(v: Seq<String>) -> Seq<Seq<char>> {
    Seq::new(v.len(), |i: int| v[i]@)
}

/// The character that writes the digit `d`.
pub open spec fn digit_char(d: nat) -> char {
    if d == 0 {
        '0'
    } else if d == 1 {
        '1'
    } else if d == 2 {
        '2'
    } else if d == 3 {
        '3'
    } else if d == 4 {
        '4'
    } else if d == 5 {
        '5'
    } else if d == 6 {
        '6'
    } else if d == 7 {
        '7'
    } else if d == 8 {
        '8'
    } else {
        '9'
    }
}

/// Decimal notation of `n`: most significant digit first, no leading zero
/// except for zero itself.
pub open spec fn decimal(n: nat) -> Seq<char>
    decreases n,
{
    if n < 10 {
        seq![digit_char(n)]
    } else {
        decimal(n / 10).push(digit_char(n % 10))
    }
}

/// Decimal notation of a signed number: a minus sign before the magnitude
/// of a negative one.
pub open spec fn signed_decimal(i: int) -> Seq<char> {
    if i < 0 {
        seq!['-'] + decimal((-i) as nat)
    } else {
        decimal(i as nat)
    }
}

/// Words separated by single spaces.
pub open spec fn join_words(words: Seq<Seq<char>>) -> Seq<char>
    decreases words.len(),
{
    if words.len() == 0 {
        Seq::empty()
    } else if words.len() == 1 {
        words[0]
    } else {
        join_words(words.drop_last()) + seq![' '] + words.last()
    }
}

fn digit_str(d: u64) -> (s: &'static str)
    requires
        d < 10,
    ensures
        s@ == seq![digit_char(d as nat)],
{
    proof {
        reveal_strlit("0");
        reveal_strlit("1");
        reveal_strlit("2");
        reveal_strlit("3");
        reveal_strlit("4");
        reveal_strlit("5");
        reveal_strlit("6");
        reveal_strlit("7");
        reveal_strlit("8");
        reveal_strlit("9");
    }
    let s: &'static str = if d == 0 {
        "0"
    } else if d == 1 {
        "1"
    } else if d == 2 {
        "2"
    } else if d == 3 {
        "3"
    } else if d == 4 {
        "4"
    } else if d == 5 {
        "5"
    } else if d == 6 {
        "6"
    } else if d == 7 {
        "7"
    } else if d == 8 {
        "8"
    } else {
        "9"
    };
    assert(s@ =~= seq![digit_char(d as nat)]);
    s
}

/// Writes `n` in decimal notation.
pub fn to_decimal(n: u64) -> (s: String)
    ensures
        s@ == decimal(n as nat),
    decreases n,
{
    if n < 10 {
        String::from_str(digit_str(n))
    } else {
        let head = to_decimal(n / 10);
        let s = head.concat(digit_str(n % 10));
        assert(s@ =~= decimal(n as nat));
        s
    }
}

/// Writes a signed number in decimal notation.
pub fn to_signed_decimal(i: i32) -> (s: String)
    ensures
        s@ == signed_decimal(i as int),
{
    if i < 0 {
        let wide: i64 = i as i64;
        let magnitude: i64 = -wide;
        proof {
            reveal_strlit("-");
        }
        let s = String::from_str("-").concat(to_decimal(magnitude as u64).as_str());
        assert(s@ =~= signed_decimal(i as int));
        s
    } else {
        to_decimal(i as u64)
    }
}

/// Copies a list of strings.
pub fn clone_strings(v: &Vec<String>) -> (out: Vec<String>)
    ensures
        strings_view(out@) == strings_view(v@),
{
    let mut out: Vec<String> = Vec::new();
    let mut i: usize = 0;
    while i < v.len()
        invariant
            i <= v.len(),
            out.len() == i,
            forall|k: int| 0 <= k < i ==> out[k]@ == v[k]@,
        decreases v.len() - i,
    {
        out.push(v[i].clone());
        i += 1;
    }
    assert(strings_view(out@) =~= strings_view(v@));
    out
}

/// Writes `first` and then each of `rest`, separated by single spaces.
pub fn join_with_spaces(first: &str, rest: &Vec<String>) -> (s: String)
    ensures
        s@ == join_words(seq![first@] + strings_view(rest@)),
{
    let mut s = String::from_str(first);
    let mut i: usize = 0;
    let ghost all = seq![first@] + strings_view(rest@);
    assert(all.subrange(0, 1) =~= seq![first@]);
    while i < rest.len()
        invariant
            i <= rest.len(),
            all == seq![first@] + strings_view(rest@),
            s@ == join_words(all.subrange(0, i + 1)),
        decreases rest.len() - i,
    {
        proof {
            reveal_strlit(" ");
            let next = all.subrange(0, i + 2);
            assert(next.drop_last() =~= all.subrange(0, i + 1));
            assert(next.last() == rest[i as int]@);
            assert(seq![' '] =~= " "@);
        }
        s.append(" ");
        s.append(rest[i].as_str());
        i += 1;
    }
    assert(all.subrange(0, i + 1) =~= all);
    s
}

} // verus!
