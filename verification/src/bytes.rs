//! Byte strings: comparing, appending, and the decimal digits of a number.
use vstd::prelude::*;

verus! {

/// Whether two byte strings have the same content.
pub fn bytes_equal(a: &[u8], b: &[u8]) -> (r: bool)
    ensures
        r == (a@ == b@),
{
    if a.len() != b.len() {
        return false;
    }
    let mut i: usize = 0;
    while i < a.len()
        invariant
            a@.len() == b@.len(),
            i <= a@.len(),
            forall|j: int| 0 <= j < i ==> a@[j] == b@[j],
        decreases a@.len() - i,
    {
        if a[i] != b[i] {
            return false;
        }
        i += 1;
    }
    assert(a@ =~= b@);
    true
}

/// Appends a copy of `tail` to `text`.
pub fn append_bytes(text: &mut Vec<u8>, tail: &[u8])
    ensures
        final(text)@ == old(text)@ + tail@,
{
    let mut i: usize = 0;
    while i < tail.len()
        invariant
            i <= tail@.len(),
            text@ == old(text)@ + tail@.take(i as int),
        decreases tail@.len() - i,
    {
        text.push(tail[i]);
        assert(tail@.take(i + 1) == tail@.take(i as int).push(tail@[i as int]));
        i += 1;
    }
    assert(tail@.take(i as int) == tail@);
}

/// The decimal digits of `n`, most significant first; one digit for 0.
pub open spec fn decimal_digits(n: nat) -> Seq<u8>
    decreases n,
{
    if n < 10 {
        seq![(48 + n) as u8]
    } else {
        decimal_digits(n / 10).push((48 + n % 10) as u8)
    }
}

/// Renders `n` in decimal.
pub fn decimal(n: usize) -> (text: Vec<u8>)
    ensures
        text@ == decimal_digits(n as nat),
{
    // Collect the digits from the least significant one, then turn them round.
    let mut reversed: Vec<u8> = Vec::new();
    let mut rest: usize = n;
    while rest >= 10
        invariant
            decimal_digits(n as nat) == decimal_digits(rest as nat) + reversed@.reverse(),
        decreases rest,
    {
        let digit: u8 = (48 + rest % 10) as u8;
        proof {
            let r = reversed@;
            assert(r.push(digit).reverse() =~= seq![digit] + r.reverse());
            assert(decimal_digits(rest as nat) == decimal_digits((rest / 10) as nat).push(digit));
            assert(decimal_digits((rest / 10) as nat).push(digit) + r.reverse()
                =~= decimal_digits((rest / 10) as nat) + (seq![digit] + r.reverse()));
        }
        reversed.push(digit);
        rest = rest / 10;
    }
    let mut text: Vec<u8> = Vec::new();
    text.push((48 + rest) as u8);
    let mut i: usize = reversed.len();
    while i > 0
        invariant
            i <= reversed@.len(),
            text@ == decimal_digits(rest as nat) + reversed@.reverse().take(reversed@.len() - i),
        decreases i,
    {
        i -= 1;
        proof {
            let rv = reversed@.reverse();
            let k = reversed@.len() - i - 1;
            assert(rv[k] == reversed@[i as int]);
            assert(rv.take(k + 1) =~= rv.take(k).push(rv[k]));
            assert((decimal_digits(rest as nat) + rv.take(k)).push(rv[k]) =~= decimal_digits(
                rest as nat,
            ) + rv.take(k + 1));
        }
        text.push(reversed[i]);
    }
    proof {
        let rv = reversed@.reverse();
        assert(rv.take(reversed@.len() as int) =~= rv);
    }
    text
}

} // verus!
