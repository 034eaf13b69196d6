use vstd::prelude::*;
use vstd::string::StringExecFns;

use crate::types::Quantity;

verus! {

pub open spec fn digit(d: nat) -> char {
    if d == 0 {
        '0'
    } else if d == 1 {
        '1'
    } else if d == 2 {
        '2'
    } else if d == 3 {
        '3'
    } else if d == 4 {
        '4'
    } else if d == 5 {
        '5'
    } else if d == 6 {
        '6'
    } else if d == 7 {
        '7'
    } else if d == 8 {
        '8'
    } else {
        '9'
    }
}

/// Decimal digits of a number, without leading zeros.
pub open spec fn dec_text(n: nat) -> Seq<char>
    decreases n,
{
    if n < 10 {
        seq![digit(n)]
    } else {
        dec_text(n / 10).push(digit(n % 10))
    }
}

fn digit_str(d: u32) -> (r: &'static str)
    requires
        d < 10,
    ensures
        r@ == seq![digit(d as nat)],
{
    proof {
        reveal_strlit("0");
        reveal_strlit("1");
        reveal_strlit("2");
        reveal_strlit("3");
        reveal_strlit("4");
        reveal_strlit("5");
        reveal_strlit("6");
        reveal_strlit("7");
        reveal_strlit("8");
        reveal_strlit("9");
    }
    let r = if d == 0 {
        "0"
    } else if d == 1 {
        "1"
    } else if d == 2 {
        "2"
    } else if d == 3 {
        "3"
    } else if d == 4 {
        "4"
    } else if d == 5 {
        "5"
    } else if d == 6 {
        "6"
    } else if d == 7 {
        "7"
    } else if d == 8 {
        "8"
    } else {
        "9"
    };
    proof {
        assert(r@ =~= seq![digit(d as nat)]);
    }
    r
}

/// Appends the decimal digits of `n`.
fn push_decimal(out: &mut String, n: u32)
    ensures
        final(out)@ == old(out)@ + dec_text(n as nat),
    decreases n,
{
    if n >= 10 {
        push_decimal(out, n / 10);
    }
    out.append(digit_str(n % 10));
    proof {
        if n >= 10 {
            assert(final(out)@ =~= old(out)@ + dec_text(n as nat));
        } else {
            assert(final(out)@ =~= old(out)@ + dec_text(n as nat));
        }
    }
}

/// What a quantity reads as: the default number of items, then the range of
/// numbers accepted.
pub open spec fn quantity_text(q: Quantity) -> Seq<char> {
    dec_text(q.default as nat) + " items"@ + match (q.min, q.max) {
        (0, Some(max)) => " (or any amount up to "@ + dec_text(max as nat) + ")"@,
        (0, None) => Seq::empty(),
        (min, Some(max)) => " (or from "@ + dec_text(min as nat) + " to "@ + dec_text(max as nat)
            + ")"@,
        (min, None) => " (or any amount above "@ + dec_text(min as nat) + ")"@,
    }
}

impl Quantity {
    /// The quantity in words, as `5 items (or from 2 to 9)`.
    pub fn to_string(&self) -> (r: String)
        ensures
            r@ == quantity_text(*self),
    {
        let mut out = String::new();
        push_decimal(&mut out, self.default);
        out.append(" items");
        match (self.min, self.max) {
            (0, Some(max)) => {
                out.append(" (or any amount up to ");
                push_decimal(&mut out, max);
                out.append(")");
            },
            (0, None) => {},
            (min, Some(max)) => {
                out.append(" (or from ");
                push_decimal(&mut out, min);
                out.append(" to ");
                push_decimal(&mut out, max);
                out.append(")");
            },
            (min, None) => {
                out.append(" (or any amount above ");
                push_decimal(&mut out, min);
                out.append(")");
            },
        }
        proof {
            assert(out@ =~= quantity_text(*self));
        }
        out
    }
}

} // verus!
