//! Small string helpers: character collection, string building and
//! decimal rendering, shared by the layout parser and the error messages.

use vstd::prelude::*;
use vstd::std_specs::iter::IteratorSpec;

verus! {

broadcast use vstd::string::next_postcondition, vstd::string::axiom_spec_iter;

/// Collects the characters of a string slice into a vector.
pub fn chars_of(s: &str) -> (r: Vec<char>)
    ensures
        r@ == s@,
{
    let mut it = s.chars();
    let mut r: Vec<char> = Vec::new();
    loop
        invariant
            it.obeys_prophetic_iter_laws(),
            it.decrease() is Some,
            r@ + it.remaining() == s@,
        ensures
            r@ == s@,
        decreases it.decrease()->Some_0,
    {
        let ghost rem0 = it.remaining();
        let ghost r0 = r@;
        match it.next() {
            Some(c) => {
                r.push(c);
                proof {
                    assert(rem0.len() > 0 && c == rem0[0] && it.remaining() == rem0.drop_first());
                    assert(r@ + it.remaining() =~= r0 + rem0);
                }
            },
            None => {
                proof {
                    assert(r@ + rem0 == s@);
                    assert(rem0.len() == 0);
                    assert(r@ =~= r@ + rem0);
                    assert(r@ =~= s@);
                }
                break;
            },
        }
    }
    proof {
        assert(r@ =~= s@);
    }
    r
}

/// Relies on `String::push`: appends one character to the string.
#[verifier::external_body]
pub(crate) fn push_char(s: &mut String, c: char)
    ensures
        final(s)@ == old(s)@.push(c),
{
    s.push(c);
}

/// Builds a string from a slice of characters.
pub fn chars_to_string(v: &[char]) -> (r: String)
    ensures
        r@ == v@,
{
    let mut r = String::new();
    let mut i: usize = 0;
    while i < v.len()
        invariant
            i <= v@.len(),
            r@ == v@.take(i as int),
        decreases v@.len() - i,
    {
        push_char(&mut r, v[i]);
        proof {
            assert(v@.take(i + 1) =~= v@.take(i as int).push(v@[i as int]));
        }
        i = i + 1;
    }
    proof {
        assert(v@.take(v@.len() as int) =~= v@);
    }
    r
}

/// The character of one decimal digit.
pub open spec fn spec_decimal_digit(d: int) -> char {
    if d == 0 {
        '0'
    } else if d == 1 {
        '1'
    } else if d == 2 {
        '2'
    } else if d == 3 {
        '3'
    } else if d == 4 {
        '4'
    } else if d == 5 {
        '5'
    } else if d == 6 {
        '6'
    } else if d == 7 {
        '7'
    } else if d == 8 {
        '8'
    } else {
        '9'
    }
}

/// The decimal rendering of a number, most significant digit first, with
/// no leading zeros (zero itself renders as one digit).
pub open spec fn spec_decimal(n: nat) -> Seq<char>
    decreases n,
{
    if n < 10 {
        seq![spec_decimal_digit(n as int)]
    } else {
        spec_decimal(n / 10).push(spec_decimal_digit((n % 10) as int))
    }
}

/// Returns the character of one decimal digit.
fn decimal_digit(d: u64) -> (c: char)
    requires
        d < 10,
    ensures
        c == spec_decimal_digit(d as int),
{
    match d {
        0 => '0',
        1 => '1',
        2 => '2',
        3 => '3',
        4 => '4',
        5 => '5',
        6 => '6',
        7 => '7',
        8 => '8',
        _ => '9',
    }
}

/// Renders a number in decimal.
pub fn decimal_string(n: u64) -> (r: String)
    ensures
        r@ == spec_decimal(n as nat),
{
    if n == 0 {
        let mut r = String::new();
        push_char(&mut r, '0');
        proof {
            assert(r@ =~= spec_decimal(0));
        }
        return r;
    }
    let mut digits: Vec<char> = Vec::new();
    let mut m: u64 = n;
    proof {
        assert(spec_decimal(n as nat) + Seq::<char>::empty() =~= spec_decimal(n as nat));
    }
    while m > 0
        invariant
            spec_decimal(n as nat) == if m == 0 {
                digits@
            } else {
                spec_decimal(m as nat) + digits@
            },
        decreases m,
    {
        let ghost m0 = m as nat;
        let ghost d0 = digits@;
        let c = decimal_digit(m % 10);
        digits.insert(0, c);
        m = m / 10;
        proof {
            assert(digits@ =~= seq![spec_decimal_digit((m0 % 10) as int)] + d0);
            if m > 0 {
                assert(spec_decimal(m0) == spec_decimal(m0 / 10).push(
                    spec_decimal_digit((m0 % 10) as int),
                ));
                assert(spec_decimal(m0) + d0 =~= spec_decimal(m as nat) + digits@);
            } else {
                assert(m0 < 10);
                assert(spec_decimal(m0) + d0 =~= digits@);
            }
        }
    }
    chars_to_string(digits.as_slice())
}

} // verus!
