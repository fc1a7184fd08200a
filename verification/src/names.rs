//! Decimal formatting for the default track name "Track N".

use vstd::prelude::*;
use vstd::string::StringExecFns;

verus! {

/// The character for one decimal digit.
pub open spec fn digit_char(d: nat) -> char {
    if d == 0 {
        '0'
    } else if d == 1 {
        '1'
    } else if d == 2 {
        '2'
    } else if d == 3 {
        '3'
    } else if d == 4 {
        '4'
    } else if d == 5 {
        '5'
    } else if d == 6 {
        '6'
    } else if d == 7 {
        '7'
    } else if d == 8 {
        '8'
    } else {
        '9'
    }
}

/// The decimal digits of `n`, most significant first, with no leading zero
/// except for `n == 0` itself.
pub open spec fn dec_str(n: nat) -> Seq<char>
    decreases n,
{
    if n < 10 {
        seq![digit_char(n)]
    } else {
        dec_str(n / 10).push(digit_char(n % 10))
    }
}

/// The name a track gets when no (valid, non-empty) name meta-event names
/// it: "Track N", where N is the one-based track number.
pub open spec fn default_name(index: nat) -> Seq<char> {
    "Track "@ + dec_str(index + 1)
}

fn push_digit(s: &mut String, d: usize)
    requires
        d < 10,
    ensures
        final(s)@ == old(s)@.push(digit_char(d as nat)),
{
    let digit: &str = if d == 0 {
        "0"
    } else if d == 1 {
        "1"
    } else if d == 2 {
        "2"
    } else if d == 3 {
        "3"
    } else if d == 4 {
        "4"
    } else if d == 5 {
        "5"
    } else if d == 6 {
        "6"
    } else if d == 7 {
        "7"
    } else if d == 8 {
        "8"
    } else {
        "9"
    };
    proof {
        reveal_strlit("0");
        reveal_strlit("1");
        reveal_strlit("2");
        reveal_strlit("3");
        reveal_strlit("4");
        reveal_strlit("5");
        reveal_strlit("6");
        reveal_strlit("7");
        reveal_strlit("8");
        reveal_strlit("9");
        assert(digit@ =~= seq![digit_char(d as nat)]);
    }
    s.append(digit);
    proof {
        assert(s@ =~= old(s)@.push(digit_char(d as nat)));
    }
}

/// Appends the decimal digits of `n` to `s`.
pub fn append_dec(s: &mut String, n: usize)
    ensures
        final(s)@ == old(s)@ + dec_str(n as nat),
    decreases n,
{
    if n < 10 {
        push_digit(s, n);
        proof {
            assert(s@ =~= old(s)@ + dec_str(n as nat));
        }
    } else {
        append_dec(s, n / 10);
        push_digit(s, n % 10);
        proof {
            assert(s@ =~= old(s)@ + dec_str(n as nat));
        }
    }
}

/// Builds the default name "Track N" for the track at the given zero-based
/// position.
pub fn make_default_name(index: usize) -> (s: String)
    requires
        index < usize::MAX,
    ensures
        s@ == default_name(index as nat),
{
    let mut s = "Track ".to_owned();
    append_dec(&mut s, index + 1);
    proof {
        assert(s@ =~= default_name(index as nat));
    }
    s
}

} // verus!
