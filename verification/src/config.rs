//! Startup configuration: the validated parameters of one game.
//!
//! The console front end hands the startup numbers over as plain text;
//! this module parses the liar ratio as an exact decimal fraction (no
//! floating point enters the library) and checks the parameter rules: a
//! nonzero target, a maximum of at least two, at least two agents, and a
//! ratio in `[0, 1)` that yields at least one liar and one truthful
//! agent.

use vstd::arithmetic::div_mod::{lemma_div_is_ordered, lemma_div_multiples_vanish};
use vstd::arithmetic::mul::lemma_mul_inequality;
use vstd::prelude::*;

use crate::decimal::{digits_value, is_digit, lemma_digits_value_bound, pow10};
use crate::select::Ratio;

verus! {

/// Index of the first dot of `s`, or `s.len()` when there is none.
pub open spec fn first_dot(s: Seq<u8>) -> nat
    decreases s.len(),
{
    if s.len() == 0 {
        0
    } else if s[0] == 46 {
        0
    } else {
        1 + first_dot(s.drop_first())
    }
}

pub proof fn lemma_first_dot(s: Seq<u8>)
    ensures
        first_dot(s) <= s.len(),
        forall|i: int| 0 <= i < first_dot(s) ==> s[i] != 46,
        first_dot(s) < s.len() ==> s[first_dot(s) as int] == 46,
    decreases s.len(),
{
    if s.len() > 0 && s[0] != 46 {
        lemma_first_dot(s.drop_first());
        assert forall|i: int| 0 <= i < first_dot(s) implies s[i] != 46 by {
            if i > 0 {
                assert(s.drop_first()[i - 1] == s[i]);
            }
        }
        if first_dot(s) < s.len() {
            assert(s.drop_first()[first_dot(s) - 1] == s[first_dot(s) as int]);
        }
    }
}

/// The exact fraction a decimal ratio literal denotes: an integer part,
/// optionally a dot and a fractional part, at most nine characters in
/// all. `"0.3"` denotes 3/10; a dotless literal has denominator one.
pub open spec fn spec_ratio(s: Seq<u8>) -> Option<Ratio> {
    let k = first_dot(s) as int;
    if s.len() == 0 || s.len() > 9 {
        None
    } else if k >= s.len() {
        if forall|i: int| 0 <= i < s.len() ==> is_digit(s[i]) {
            Some(Ratio { num: digits_value(s) as u32, den: 1 })
        } else {
            None
        }
    } else {
        let intp = s.take(k);
        let frac = s.skip(k + 1);
        if intp.len() >= 1 && frac.len() >= 1 && (forall|i: int|
            0 <= i < intp.len() ==> is_digit(intp[i])) && (forall|i: int|
            0 <= i < frac.len() ==> is_digit(frac[i])) {
            Some(Ratio { num: digits_value(intp + frac) as u32, den: pow10(frac.len()) as u32 })
        } else {
            None
        }
    }
}

proof fn lemma_pow10_values()
    ensures
        pow10(0) == 1,
        pow10(1) == 10,
        pow10(2) == 100,
        pow10(3) == 1000,
        pow10(4) == 10000,
        pow10(5) == 100000,
        pow10(6) == 1000000,
        pow10(7) == 10000000,
        pow10(8) == 100000000,
        pow10(9) == 1000000000,
{
    assert(pow10(0) == 1);
    assert(pow10(1) == 10);
    assert(pow10(2) == 100);
    assert(pow10(3) == 1000);
    assert(pow10(4) == 10000);
    assert(pow10(5) == 100000);
    assert(pow10(6) == 1000000);
    assert(pow10(7) == 10000000);
    assert(pow10(8) == 100000000);
    assert(pow10(9) == 1000000000);
}

proof fn lemma_pow10_le_nine(k: nat)
    requires
        k <= 9,
    ensures
        pow10(k) <= 1_000_000_000,
        pow10(k) >= 1,
{
    lemma_pow10_values();
    assert(pow10(k) <= 1_000_000_000 && pow10(k) >= 1) by {
        if k == 0 {
        } else if k == 1 {
        } else if k == 2 {
        } else if k == 3 {
        } else if k == 4 {
        } else if k == 5 {
        } else if k == 6 {
        } else if k == 7 {
        } else if k == 8 {
        } else {
            assert(k == 9);
        }
    }
}

/// Accumulate the digit run `bytes[from..to]` onto the value of the
/// digits already read; `None` on the first non-digit.
fn accumulate_digits(
    bytes: &Vec<u8>,
    from: usize,
    to: usize,
    acc0: u64,
    Ghost(prefix): Ghost<Seq<u8>>,
) -> (r: Option<u64>)
    requires
        from <= to <= bytes@.len(),
        forall|i: int| 0 <= i < prefix.len() ==> is_digit(prefix[i]),
        acc0 == digits_value(prefix),
        prefix.len() + (to - from) <= 9,
    ensures
        r is Some <==> (forall|i: int| from <= i < to ==> is_digit(bytes@[i])),
        r matches Some(a) ==> a == digits_value(
            prefix + bytes@.subrange(from as int, to as int),
        ),
{
    let mut acc = acc0;
    let mut p: usize = from;
    proof {
        assert(prefix + bytes@.subrange(from as int, from as int) =~= prefix);
    }
    while p < to
        invariant
            from <= p <= to,
            to <= bytes@.len(),
            prefix.len() + (to - from) <= 9,
            forall|i: int| 0 <= i < prefix.len() ==> is_digit(prefix[i]),
            forall|i: int| from <= i < p ==> is_digit(bytes@[i]),
            acc == digits_value(prefix + bytes@.subrange(from as int, p as int)),
        decreases to - p,
    {
        let b = bytes[p];
        if b < 48 || b > 57 {
            return None;
        }
        proof {
            let cur = prefix + bytes@.subrange(from as int, p as int);
            assert forall|i: int| 0 <= i < cur.len() implies is_digit(cur[i]) by {
                if i >= prefix.len() {
                    assert(cur[i] == bytes@[from + (i - prefix.len())]);
                }
            }
            lemma_digits_value_bound(cur);
            lemma_pow10_le_nine(cur.len());
            let nxt = prefix + bytes@.subrange(from as int, p + 1);
            assert(nxt.drop_last() =~= cur);
            assert(nxt.last() == bytes@[p as int]);
        }
        acc = acc * 10 + (b - 48) as u64;
        p += 1;
    }
    Some(acc)
}

/// Parse a liar-ratio literal such as `"0.3"` into its exact fraction.
pub fn parse_ratio(s: &Vec<u8>) -> (r: Option<Ratio>)
    ensures
        r == spec_ratio(s@),
        r matches Some(rt) ==> rt.den >= 1,
{
    let len = s.len();
    if len == 0 || len > 9 {
        return None;
    }
    proof {
        lemma_first_dot(s@);
    }
    let mut k: usize = 0;
    while k < len && s[k] != 46
        invariant
            k <= len,
            len == s@.len(),
            forall|m: int| 0 <= m < k ==> s@[m] != 46,
        decreases len - k,
    {
        k += 1;
    }
    proof {
        let f = first_dot(s@) as int;
        if k < len {
            if f < k {
                assert(s@[f] == 46);
                assert(false);
            }
            if f > k {
                assert(s@[k as int] != 46);
                assert(false);
            }
        } else {
            if f < len {
                assert(s@[f] == 46);
                assert(false);
            }
        }
        assert(f == k);
    }
    if k == len {
        match accumulate_digits(s, 0, len, 0, Ghost(Seq::<u8>::empty())) {
            Some(a) => {
                proof {
                    assert(Seq::<u8>::empty() + s@.subrange(0, len as int) =~= s@);
                    lemma_digits_value_bound(s@);
                    lemma_pow10_le_nine(s@.len());
                }
                Some(Ratio { num: a as u32, den: 1 })
            },
            None => None,
        }
    } else {
        if k == 0 || k + 1 == len {
            return None;
        }
        let ghost intp = s@.take(k as int);
        let ghost frac = s@.skip(k as int + 1);
        match accumulate_digits(s, 0, k, 0, Ghost(Seq::<u8>::empty())) {
            None => {
                proof {
                    let i = choose|i: int| 0 <= i < k && !is_digit(s@[i]);
                    assert(!is_digit(intp[i]));
                }
                None
            },
            Some(a1) => {
                proof {
                    assert(Seq::<u8>::empty() + s@.subrange(0, k as int) =~= intp);
                    assert forall|i: int| 0 <= i < intp.len() implies is_digit(intp[i]) by {
                        assert(intp[i] == s@[i]);
                    }
                }
                match accumulate_digits(s, k + 1, len, a1, Ghost(intp)) {
                    None => {
                        proof {
                            let i = choose|i: int| k + 1 <= i < len && !is_digit(s@[i]);
                            assert(!is_digit(frac[i - (k + 1)]));
                        }
                        None
                    },
                    Some(a) => {
                        proof {
                            assert(intp + s@.subrange(k as int + 1, len as int) =~= intp + frac);
                            let whole = intp + frac;
                            assert forall|i: int| 0 <= i < whole.len() implies is_digit(
                                whole[i],
                            ) by {
                                if i >= intp.len() {
                                    assert(whole[i] == frac[i - intp.len()]);
                                    assert(frac[i - intp.len()] == s@[k + 1 + (i - intp.len())]);
                                }
                            }
                            lemma_digits_value_bound(whole);
                            lemma_pow10_le_nine(whole.len());
                        }
                        let den = pow10_u32(len - (k + 1));
                        Some(Ratio { num: a as u32, den })
                    },
                }
            },
        }
    }
}

/// Ten to a small power, for a fraction's denominator.
fn pow10_u32(k: usize) -> (r: u32)
    requires
        k <= 9,
    ensures
        r == pow10(k as nat),
        r >= 1,
{
    let mut r: u32 = 1;
    let mut q: usize = 0;
    while q < k
        invariant
            q <= k <= 9,
            r == pow10(q as nat),
        decreases k - q,
    {
        proof {
            lemma_pow10_values();
            assert(q <= 8);
            assert(pow10(q as nat) <= 100_000_000);
        }
        r = r * 10;
        q += 1;
    }
    proof {
        lemma_pow10_le_nine(k as nat);
    }
    r
}

/// The number of liars among `num_agents` agents at ratio `r`: the ratio
/// of the agent count, rounded down.
pub open spec fn spec_num_liars(num_agents: u16, r: Ratio) -> int {
    (r.num * num_agents) / (r.den as int)
}

/// How many of the agents lie.
pub fn num_liars(num_agents: u16, ratio: &Ratio) -> (n: u16)
    requires
        ratio.wf(),
    ensures
        n == spec_num_liars(num_agents, *ratio),
        n <= num_agents,
{
    proof {
        let nu = ratio.num as int;
        let ag = num_agents as int;
        assert(nu * ag <= 0xffff_ffff * 65536) by (nonlinear_arith)
            requires
                0 <= nu <= 0xffff_ffff,
                0 <= ag <= 65536,
        ;
    }
    let prod = ratio.num as u64 * num_agents as u64;
    let q = prod / ratio.den as u64;
    proof {
        let nu = ratio.num as int;
        let de = ratio.den as int;
        let ag = num_agents as int;
        lemma_mul_inequality(nu, de, ag);
        lemma_div_is_ordered(nu * ag, de * ag, de);
        lemma_div_multiples_vanish(ag, de);
        assert(de * ag == ag * de) by (nonlinear_arith);
        assert((nu * ag) / de <= ag);
    }
    q as u16
}

#[derive(Clone, Copy, Debug, PartialEq, Eq)]
pub enum ConfigError {
    BadValue,
    BadMaxValue,
    BadNumAgents,
    BadLiarRatio,
}

/// The validated startup parameters of one game.
pub struct Config {
    pub value: u16,
    pub max_value: u16,
    pub num_agents: u16,
    pub liar_ratio: Ratio,
}

impl Config {
    /// The startup rules: a nonzero target, a maximum of at least two, at
    /// least two agents, and a liar ratio below one that makes at least
    /// one agent lie and at least one tell the truth.
    pub open spec fn valid_inputs(value: u16, max_value: u16, num_agents: u16, r: Ratio) -> bool {
        &&& value >= 1
        &&& max_value >= 2
        &&& num_agents >= 2
        &&& r.num < r.den
        &&& spec_num_liars(num_agents, r) >= 1
        &&& spec_num_liars(num_agents, r) < num_agents
    }

    /// Check the startup parameters, in the order they are given; the
    /// first broken rule names the error.
    pub fn new(value: u16, max_value: u16, num_agents: u16, liar_ratio: Ratio) -> (r: Result<
        Config,
        ConfigError,
    >)
        requires
            liar_ratio.den >= 1,
        ensures
            r is Ok <==> Self::valid_inputs(value, max_value, num_agents, liar_ratio),
            r matches Ok(c) ==> c == (Config { value, max_value, num_agents, liar_ratio }),
            r == Err::<Config, ConfigError>(ConfigError::BadValue) <==> value == 0,
            r == Err::<Config, ConfigError>(ConfigError::BadMaxValue) <==> (value >= 1 && max_value
                < 2),
            r == Err::<Config, ConfigError>(ConfigError::BadNumAgents) <==> (value >= 1 && max_value
                >= 2 && num_agents < 2),
            r == Err::<Config, ConfigError>(ConfigError::BadLiarRatio) <==> (value >= 1 && max_value
                >= 2 && num_agents >= 2 && !(liar_ratio.num < liar_ratio.den && 1
                <= spec_num_liars(num_agents, liar_ratio) < num_agents)),
    {
        if value == 0 {
            return Err(ConfigError::BadValue);
        }
        if max_value < 2 {
            return Err(ConfigError::BadMaxValue);
        }
        if num_agents < 2 {
            return Err(ConfigError::BadNumAgents);
        }
        if liar_ratio.num >= liar_ratio.den {
            return Err(ConfigError::BadLiarRatio);
        }
        let liars = num_liars(num_agents, &liar_ratio);
        if liars < 1 || liars >= num_agents {
            return Err(ConfigError::BadLiarRatio);
        }
        Ok(Config { value, max_value, num_agents, liar_ratio })
    }
}

} // verus!
