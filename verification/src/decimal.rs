//! ASCII decimal numerals: the form in which ports and startup numbers
//! reach the system, and the form in which the registry is persisted.

use vstd::prelude::*;

verus! {

/// An ASCII decimal digit.
pub open spec fn is_digit(b: u8) -> bool {
    48 <= b <= 57
}

/// The number a run of ASCII digits denotes, most significant first.
pub open spec fn digits_value(s: Seq<u8>) -> int
    decreases s.len(),
{
    if s.len() == 0 {
        0
    } else {
        digits_value(s.drop_last()) * 10 + s.last() - 48
    }
}

/// A run of digits denoting a 16-bit number: nonempty, digits only, and
/// no larger than 65535.
pub open spec fn valid_u16(s: Seq<u8>) -> bool {
    &&& s.len() > 0
    &&& (forall|i: int| 0 <= i < s.len() ==> is_digit(s[i]))
    &&& 0 <= digits_value(s) <= 65535
}

/// The decimal digits of `n`, most significant first.
pub open spec fn spec_digits(n: nat) -> Seq<u8>
    decreases n,
{
    if n < 10 {
        seq![(n + 48) as u8]
    } else {
        spec_digits(n / 10).push((n % 10 + 48) as u8)
    }
}

pub open spec fn pow10(k: nat) -> nat
    decreases k,
{
    if k == 0 {
        1
    } else {
        10 * pow10((k - 1) as nat)
    }
}

/// The decimal form of a number is nonempty, all digits, and denotes the
/// number itself.
pub proof fn lemma_spec_digits(n: nat)
    ensures
        spec_digits(n).len() >= 1,
        forall|i: int| 0 <= i < spec_digits(n).len() ==> is_digit(spec_digits(n)[i]),
        digits_value(spec_digits(n)) == n,
    decreases n,
{
    if n < 10 {
        let d = spec_digits(n);
        assert(d.drop_last() =~= Seq::<u8>::empty());
        assert(digits_value(d.drop_last()) == 0);
        assert(digits_value(d) == d.last() - 48);
    } else {
        lemma_spec_digits(n / 10);
        let d = spec_digits(n);
        assert(d.drop_last() =~= spec_digits(n / 10));
        assert(d.last() == (n % 10 + 48) as u8);
        assert(digits_value(d) == digits_value(spec_digits(n / 10)) * 10 + n % 10);
        assert forall|i: int| 0 <= i < d.len() implies is_digit(d[i]) by {
            if i < d.len() - 1 {
                assert(d[i] == spec_digits(n / 10)[i]);
            }
        }
    }
}

/// Once a digit prefix already exceeds the 16-bit range, the whole run
/// does.
pub proof fn lemma_digits_value_grows(s: Seq<u8>, q: int)
    requires
        0 <= q <= s.len(),
        digits_value(s.take(q)) > 65535,
    ensures
        digits_value(s) > 65535,
    decreases s.len() - q,
{
    if q < s.len() {
        assert(s.take(q + 1).drop_last() =~= s.take(q));
        assert(s.take(q + 1).last() == s[q]);
        lemma_digits_value_grows(s, q + 1);
    } else {
        assert(s.take(q) =~= s);
    }
}

/// A run of digits denotes a number below ten to its length.
pub proof fn lemma_digits_value_bound(s: Seq<u8>)
    requires
        forall|i: int| 0 <= i < s.len() ==> is_digit(s[i]),
    ensures
        0 <= digits_value(s) < pow10(s.len()),
    decreases s.len(),
{
    if s.len() > 0 {
        assert forall|i: int| 0 <= i < s.drop_last().len() implies is_digit(s.drop_last()[i]) by {
            assert(s.drop_last()[i] == s[i]);
        }
        lemma_digits_value_bound(s.drop_last());
        assert(is_digit(s.last()));
    }
}

/// Concatenating digit runs shifts the left one by the right one's length.
pub proof fn lemma_digits_value_append(a: Seq<u8>, b: Seq<u8>)
    ensures
        digits_value(a + b) == digits_value(a) * pow10(b.len()) + digits_value(b),
    decreases b.len(),
{
    if b.len() == 0 {
        assert(a + b =~= a);
        assert(pow10(b.len()) == 1);
        assert(digits_value(b) == 0);
        assert(digits_value(a + b) == digits_value(a) * pow10(b.len()) + digits_value(b));
    } else {
        assert((a + b).drop_last() =~= a + b.drop_last());
        assert((a + b).last() == b.last());
        lemma_digits_value_append(a, b.drop_last());
        let x = digits_value(a);
        let y = digits_value(b.drop_last());
        let p = pow10(b.drop_last().len()) as int;
        assert(pow10(b.len()) == 10 * p);
        assert(digits_value(a + b) == digits_value(a + b.drop_last()) * 10 + b.last() - 48);
        assert(digits_value(a + b.drop_last()) == x * p + y);
        assert(digits_value(b) == y * 10 + b.last() - 48);
        assert(digits_value(a + b) == x * pow10(b.len()) + digits_value(b)) by (nonlinear_arith)
            requires
                digits_value(a + b) == (x * p + y) * 10 + b.last() - 48,
                pow10(b.len()) == 10 * p,
                digits_value(b) == y * 10 + b.last() - 48,
        ;
    }
}

/// Render one number's digits onto the end of `out`.
pub fn push_digits(n: u16, out: &mut Vec<u8>)
    ensures
        final(out)@ == old(out)@ + spec_digits(n as nat),
    decreases n,
{
    if n < 10 {
        out.push(n as u8 + 48);
        proof {
            assert(out@ =~= old(out)@ + spec_digits(n as nat));
        }
    } else {
        push_digits(n / 10, out);
        out.push((n % 10) as u8 + 48);
        proof {
            assert(out@ =~= old(out)@ + spec_digits(n as nat));
        }
    }
}

/// Parse the digit run `bytes[start..end]` as a 16-bit number.
pub fn parse_digits(bytes: &Vec<u8>, start: usize, end: usize) -> (r: Option<u16>)
    requires
        start <= end <= bytes@.len(),
    ensures
        r is Some <==> valid_u16(bytes@.subrange(start as int, end as int)),
        r matches Some(v) ==> v == digits_value(bytes@.subrange(start as int, end as int)),
{
    if start == end {
        proof {
            assert(bytes@.subrange(start as int, end as int).len() == 0);
        }
        return None;
    }
    let mut acc: u32 = 0;
    let mut p: usize = start;
    while p < end
        invariant
            start <= p <= end,
            end <= bytes@.len(),
            start < end,
            forall|m: int| start <= m < p ==> is_digit(bytes@[m]),
            acc <= 65535,
            acc == digits_value(bytes@.subrange(start as int, p as int)),
        decreases end - p,
    {
        let b = bytes[p];
        if b < 48 || b > 57 {
            proof {
                assert(!is_digit(bytes@.subrange(start as int, end as int)[p - start]));
            }
            return None;
        }
        proof {
            assert(bytes@.subrange(start as int, p + 1).drop_last() =~= bytes@.subrange(
                start as int,
                p as int,
            ));
            assert(bytes@.subrange(start as int, p + 1).last() == bytes@[p as int]);
        }
        let next = acc * 10 + (b - 48) as u32;
        if next > 65535 {
            proof {
                let l = bytes@.subrange(start as int, end as int);
                assert(l.take(p + 1 - start) =~= bytes@.subrange(start as int, p + 1));
                lemma_digits_value_grows(l, p + 1 - start);
            }
            return None;
        }
        acc = next;
        p += 1;
    }
    proof {
        let l = bytes@.subrange(start as int, end as int);
        assert forall|m: int| 0 <= m < l.len() implies is_digit(l[m]) by {
            assert(l[m] == bytes@[start + m]);
        }
        assert(valid_u16(l));
    }
    Some(acc as u16)
}

} // verus!
