//! Extraction of the one integer the driver takes: a decimal side length,
//! accepted exactly when the text is non-empty, all digits, and the value
//! lies within `[1, MAX_N]`.

use vstd::prelude::*;
use crate::errors::Failure;
use crate::MAX_N;

verus! {

/// An ASCII decimal digit.
pub open spec fn is_digit(ch: u8) -> bool {
    48 <= ch <= 57
}

pub open spec fn all_digits(s: Seq<u8>) -> bool {
    forall|t: int| 0 <= t < s.len() ==> is_digit(#[trigger] s[t])
}

/// The value of a string of decimal digits, most significant first.
pub open spec fn decimal_value(s: Seq<u8>) -> int
    decreases s.len(),
{
    if s.len() == 0 {
        0
    } else {
        decimal_value(s.drop_last()) * 10 + (s.last() - 48)
    }
}

/// The accepted arguments: non-empty, all digits, value within range.
pub open spec fn valid_arg(s: Seq<u8>) -> bool {
    s.len() > 0 && all_digits(s) && 1 <= decimal_value(s) <= MAX_N as int
}

proof fn lemma_decimal_nonneg(s: Seq<u8>)
    requires
        all_digits(s),
    ensures
        decimal_value(s) >= 0,
    decreases s.len(),
{
    if s.len() > 0 {
        assert forall|t: int| 0 <= t < s.drop_last().len() implies is_digit(
            #[trigger] s.drop_last()[t],
        ) by {
            assert(s.drop_last()[t] == s[t]);
        }
        lemma_decimal_nonneg(s.drop_last());
    }
}

/// A digit string's value never falls below any prefix's value.
proof fn lemma_decimal_prefix_le(s: Seq<u8>, l: int)
    requires
        all_digits(s),
        0 <= l <= s.len(),
    ensures
        decimal_value(s.take(l)) <= decimal_value(s),
    decreases s.len() - l,
{
    if l == s.len() {
        assert(s.take(l) =~= s);
    } else {
        lemma_decimal_prefix_le(s, l + 1);
        assert(s.take(l + 1).drop_last() =~= s.take(l));
        assert(s.take(l + 1).last() == s[l]);
        assert forall|t: int| 0 <= t < s.take(l).len() implies is_digit(
            #[trigger] s.take(l)[t],
        ) by {
            assert(s.take(l)[t] == s[t]);
        }
        lemma_decimal_nonneg(s.take(l));
        assert(decimal_value(s.take(l)) <= decimal_value(s.take(l + 1)));
    }
}

/// Parses the side length from the argument's bytes. Returns the value
/// exactly when [`valid_arg`] holds of the bytes; everything else is a
/// `BadArguments` failure.
#[verifier::loop_isolation(false)]
pub fn parse_n(arg: &Vec<u8>) -> (r: Result<usize, Failure>)
    ensures
        match r {
            Ok(v) => valid_arg(arg@) && v == decimal_value(arg@) && 1 <= v <= MAX_N,
            Err(e) => e == Failure::BadArguments && !valid_arg(arg@),
        },
{
    if arg.len() == 0 {
        return Err(Failure::BadArguments);
    }
    let mut acc: usize = 0;
    let mut t: usize = 0;
    while t < arg.len()
        invariant
            t <= arg@.len(),
            all_digits(arg@.take(t as int)),
            acc == decimal_value(arg@.take(t as int)),
            acc <= MAX_N,
        decreases arg@.len() - t,
    {
        let ch = arg[t];
        if ch < 48 || ch > 57 {
            return Err(Failure::BadArguments);
        }
        proof {
            assert(arg@.take(t + 1).drop_last() =~= arg@.take(t as int));
            assert(arg@.take(t + 1).last() == arg@[t as int]);
            assert forall|u: int| 0 <= u < t + 1 implies is_digit(
                #[trigger] arg@.take(t + 1)[u],
            ) by {
                if u < t {
                    assert(arg@.take(t + 1)[u] == arg@.take(t as int)[u]);
                }
            }
        }
        let d = (ch - 48) as usize;
        let newacc = acc * 10 + d;
        if newacc > MAX_N {
            proof {
                if all_digits(arg@) {
                    lemma_decimal_prefix_le(arg@, t + 1);
                }
            }
            return Err(Failure::BadArguments);
        }
        acc = newacc;
        t = t + 1;
    }
    proof {
        assert(arg@.take(arg@.len() as int) =~= arg@);
    }
    if acc == 0 {
        return Err(Failure::BadArguments);
    }
    Ok(acc)
}

} // verus!
