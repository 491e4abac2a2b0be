//! Building owned strings from characters.

use vstd::prelude::*;

verus! {

/// Trusted, not proved: `String::push` appends the given character to the
/// end of the string and leaves what was there before as it was.
pub assume_specification[ std::string::String::push ](s: &mut std::string::String, c: char)
    ensures
        final(s)@ == old(s)@.push(c),
;

/// Append all of `chars` to `s`, in order.
pub fn push_chars(s: &mut String, chars: &Vec<char>)
    ensures
        final(s)@ == old(s)@ + chars@,
{
    let mut i: usize = 0;
    while i < chars.len()
        invariant
            i <= chars.len(),
            s@ == old(s)@ + chars@.take(i as int),
        decreases chars.len() - i,
    {
        s.push(chars[i]);
        i += 1;
        assert(s@ =~= old(s)@ + chars@.take(i as int));
    }
    assert(chars@.take(i as int) =~= chars@);
}

/// Append all of `chars` to `to`, in order.
pub fn extend_chars(to: &mut Vec<char>, chars: &Vec<char>)
    ensures
        final(to)@ == old(to)@ + chars@,
{
    let mut i: usize = 0;
    while i < chars.len()
        invariant
            i <= chars.len(),
            to@ == old(to)@ + chars@.take(i as int),
        decreases chars.len() - i,
    {
        to.push(chars[i]);
        i += 1;
        assert(to@ =~= old(to)@ + chars@.take(i as int));
    }
    assert(chars@.take(i as int) =~= chars@);
}

/// The string made of `chars`, in order.
pub fn string_from(chars: &Vec<char>) -> (s: String)
    ensures
        s@ == chars@,
{
    let mut s = String::new();
    push_chars(&mut s, chars);
    assert(s@ =~= chars@);
    s
}

/// The string of the one character `c`.
pub fn string_of(c: char) -> (s: String)
    ensures
        s@ == seq![c],
{
    let mut s = String::new();
    s.push(c);
    assert(s@ =~= seq![c]);
    s
}

/// The string of the two characters `a` and `b`.
pub fn string_of_two(a: char, b: char) -> (s: String)
    ensures
        s@ == seq![a, b],
{
    let mut s = String::new();
    s.push(a);
    s.push(b);
    assert(s@ =~= seq![a, b]);
    s
}

/// The digits of the numerals, by their worth.
pub const DIGITS: [char; 16] = [
    '0',
    '1',
    '2',
    '3',
    '4',
    '5',
    '6',
    '7',
    '8',
    '9',
    'a',
    'b',
    'c',
    'd',
    'e',
    'f',
];

/// Division by a base of 2 or more makes a number that is not below the
/// base smaller.
pub proof fn lemma_quotient_smaller(n: nat, base: nat)
    requires
        base >= 2,
        n >= base,
    ensures
        n / base < n,
        0 <= n % base < base,
{
    assert(n / base < n && 0 <= n % base < base) by (nonlinear_arith)
        requires
            base >= 2,
            n >= base,
    ;
}

/// The numeral of `n` to the base `base`: its digits, the most significant
/// first, without leading zeros; the numeral of 0 is `0`.
pub open spec fn numeral(n: nat, base: nat) -> Seq<char>
    decreases n,
{
    if base < 2 || n < base {
        seq![DIGITS@[n as int]]
    } else {
        proof {
            lemma_quotient_smaller(n, base);
        }
        numeral(n / base, base).push(DIGITS@[(n % base) as int])
    }
}

/// The decimal numeral of `n`.
pub open spec fn decimal(n: nat) -> Seq<char> {
    numeral(n, 10)
}

/// The hexadecimal numeral of `n`, in lower case.
pub open spec fn hexadecimal(n: nat) -> Seq<char> {
    numeral(n, 16)
}

/// Append the numeral of `n` to the base `base` to `s`.
pub fn push_numeral(s: &mut String, n: u64, base: u64)
    requires
        2 <= base <= 16,
    ensures
        final(s)@ == old(s)@ + numeral(n as nat, base as nat),
    decreases n,
{
    if n >= base {
        proof {
            lemma_quotient_smaller(n as nat, base as nat);
        }
        push_numeral(s, n / base, base);
    }
    let ghost before = s@;
    let digit = (n % base) as usize;
    proof {
        if n < base {
            assert(n % base == n) by (nonlinear_arith)
                requires
                    n < base,
            ;
        }
    }
    s.push(DIGITS[digit]);
    assert(s@ == before.push(DIGITS@[digit as int]));
    assert(s@ =~= old(s)@ + numeral(n as nat, base as nat));
}

} // verus!
