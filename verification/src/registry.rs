//! The registry: the ordered list of agent ports, persisted as text.
//!
//! The persisted form is one decimal port per line, each line terminated by
//! a newline. This module renders a port list to those bytes and parses
//! them back; the file I/O around it lives outside the library. Parsing is
//! strict, as a failed load is fatal to the coordinator: a line that is
//! empty, unterminated, holds a non-digit, or names a number above 65535
//! rejects the whole input.

use vstd::prelude::*;

use crate::decimal::{
    digits_value, is_digit, lemma_spec_digits, parse_digits, push_digits, spec_digits, valid_u16,
};

verus! {

/// Index of the first newline of `s`, or `s.len()` when there is none.
pub open spec fn first_newline(s: Seq<u8>) -> nat
    decreases s.len(),
{
    if s.len() == 0 {
        0
    } else if s[0] == 10 {
        0
    } else {
        1 + first_newline(s.drop_first())
    }
}

pub proof fn lemma_first_newline(s: Seq<u8>)
    ensures
        first_newline(s) <= s.len(),
        forall|i: int| 0 <= i < first_newline(s) ==> s[i] != 10,
        first_newline(s) < s.len() ==> s[first_newline(s) as int] == 10,
    decreases s.len(),
{
    if s.len() > 0 && s[0] != 10 {
        lemma_first_newline(s.drop_first());
        assert forall|i: int| 0 <= i < first_newline(s) implies s[i] != 10 by {
            if i > 0 {
                assert(s.drop_first()[i - 1] == s[i]);
            }
        }
        if first_newline(s) < s.len() {
            assert(s.drop_first()[first_newline(s) - 1] == s[first_newline(s) as int]);
        }
    }
}

/// The port list a registry file denotes, or `None` when malformed.
pub open spec fn spec_parse(s: Seq<u8>) -> Option<Seq<u16>>
    decreases s.len(),
{
    if s.len() == 0 {
        Some(Seq::<u16>::empty())
    } else {
        let k = first_newline(s) as int;
        if k >= s.len() {
            None
        } else if valid_u16(s.take(k)) {
            match spec_parse(s.skip(k + 1)) {
                Some(ports) => Some(seq![digits_value(s.take(k)) as u16] + ports),
                None => None,
            }
        } else {
            None
        }
    }
}

/// The registry bytes denoting `ports`: each port as a newline-terminated
/// decimal line, in order.
pub open spec fn spec_render(ports: Seq<u16>) -> Seq<u8>
    decreases ports.len(),
{
    if ports.len() == 0 {
        Seq::<u8>::empty()
    } else {
        spec_digits(ports[0] as nat) + seq![10u8] + spec_render(ports.drop_first())
    }
}

/// Rendering distributes over concatenation of port lists.
pub proof fn lemma_render_append(a: Seq<u16>, b: Seq<u16>)
    ensures
        spec_render(a + b) == spec_render(a) + spec_render(b),
    decreases a.len(),
{
    if a.len() == 0 {
        assert(a + b =~= b);
        assert(Seq::<u8>::empty() + spec_render(b) =~= spec_render(b));
    } else {
        assert((a + b).drop_first() =~= a.drop_first() + b);
        lemma_render_append(a.drop_first(), b);
        assert(spec_digits(a[0] as nat) + seq![10u8] + (spec_render(a.drop_first()) + spec_render(
            b,
        )) =~= (spec_digits(a[0] as nat) + seq![10u8] + spec_render(a.drop_first())) + spec_render(
            b,
        ));
    }
}

/// Render a port list as registry bytes: one decimal line per port.
pub fn render_registry(ports: &Vec<u16>) -> (r: Vec<u8>)
    ensures
        r@ == spec_render(ports@),
{
    let mut out: Vec<u8> = Vec::new();
    let mut i: usize = 0;
    while i < ports.len()
        invariant
            i <= ports@.len(),
            out@ == spec_render(ports@.take(i as int)),
        decreases ports@.len() - i,
    {
        let ghost before = out@;
        push_digits(ports[i], &mut out);
        out.push(10);
        proof {
            let pre = ports@.take(i as int);
            let one = seq![ports@[i as int]];
            assert(ports@.take(i + 1) =~= pre + one);
            lemma_render_append(pre, one);
            assert(spec_render(one.drop_first()) =~= Seq::<u8>::empty());
            assert(spec_render(one) =~= spec_digits(ports@[i as int] as nat) + seq![10u8]);
            assert(out@ =~= before + spec_digits(ports@[i as int] as nat) + seq![10u8]);
            assert(out@ =~= spec_render(ports@.take(i + 1)));
        }
        i += 1;
    }
    proof {
        assert(ports@.take(ports@.len() as int) =~= ports@);
    }
    out
}

/// Scan one line beginning at `start`: find its newline and its value.
fn parse_line(bytes: &Vec<u8>, start: usize) -> (r: Option<(u16, usize)>)
    requires
        start < bytes@.len(),
    ensures
        ({
            let t = bytes@.skip(start as int);
            let k = first_newline(t) as int;
            match r {
                Some(pair) => {
                    &&& k < t.len()
                    &&& valid_u16(t.take(k))
                    &&& pair.0 == digits_value(t.take(k))
                    &&& pair.1 == start + k + 1
                    &&& pair.1 <= bytes@.len()
                },
                None => k >= t.len() || !valid_u16(t.take(k)),
            }
        }),
{
    let ghost t = bytes@.skip(start as int);
    proof {
        lemma_first_newline(t);
    }
    let len = bytes.len();
    let mut j: usize = start;
    while j < len && bytes[j] != 10
        invariant
            start <= j <= len,
            len == bytes@.len(),
            forall|m: int| start <= m < j ==> bytes@[m] != 10,
        decreases len - j,
    {
        j += 1;
    }
    let ghost k = first_newline(t) as int;
    if j == len {
        proof {
            if k < t.len() {
                assert(t[k] == bytes@[start + k]);
            }
        }
        return None;
    }
    proof {
        assert(t[j - start] == bytes@[j as int]);
        if k < j - start {
            assert(t[k] == bytes@[start + k]);
            assert(false);
        }
        if k > j - start {
            assert(t[j - start] != 10);
            assert(false);
        }
        assert(k == j - start);
        assert(t.take(k) =~= bytes@.subrange(start as int, j as int));
    }
    match parse_digits(bytes, start, j) {
        Some(v) => Some((v, j + 1)),
        None => None,
    }
}

/// Parse registry bytes back into the port list they denote. `None` is the
/// fatal case: the input is not a well-formed registry file.
pub fn parse_registry(bytes: &Vec<u8>) -> (r: Option<Vec<u16>>)
    ensures
        r is Some <==> spec_parse(bytes@) is Some,
        r matches Some(ports) ==> spec_parse(bytes@) == Some(ports@),
{
    let mut out: Vec<u16> = Vec::new();
    let mut i: usize = 0;
    let len = bytes.len();
    proof {
        assert(bytes@.skip(0) =~= bytes@);
    }
    while i < len
        invariant
            i <= len,
            len == bytes@.len(),
            spec_parse(bytes@) is Some <==> spec_parse(bytes@.skip(i as int)) is Some,
            spec_parse(bytes@.skip(i as int)) matches Some(w) ==> spec_parse(bytes@) == Some(
                out@ + w,
            ),
        decreases len - i,
    {
        match parse_line(bytes, i) {
            None => {
                proof {
                    let t = bytes@.skip(i as int);
                    assert(t.len() > 0);
                    assert(spec_parse(t) is None);
                }
                return None;
            },
            Some(pair) => {
                let v = pair.0;
                let next = pair.1;
                proof {
                    let t = bytes@.skip(i as int);
                    let k = first_newline(t) as int;
                    assert(t.skip(k + 1) =~= bytes@.skip(next as int));
                    match spec_parse(bytes@.skip(next as int)) {
                        Some(w) => {
                            assert(spec_parse(t) == Some(seq![digits_value(t.take(k)) as u16] + w));
                            assert(out@.push(v) + w =~= out@ + (seq![digits_value(t.take(k)) as u16]
                                + w));
                        },
                        None => {
                            assert(spec_parse(t) is None);
                        },
                    }
                }
                out.push(v);
                i = next;
            },
        }
    }
    proof {
        assert(bytes@.skip(len as int) =~= Seq::<u8>::empty());
        assert(out@ + Seq::<u16>::empty() =~= out@);
    }
    Some(out)
}

/// Law: loading gives back exactly what was published — parsing a rendered
/// port list yields that same list, in the same order.
pub proof fn lemma_registry_round_trip(ports: Seq<u16>)
    ensures
        spec_parse(spec_render(ports)) == Some(ports),
    decreases ports.len(),
{
    if ports.len() == 0 {
        assert(spec_parse(spec_render(ports)) == Some(Seq::<u16>::empty()));
        assert(Seq::<u16>::empty() =~= ports);
    } else {
        let p = ports[0];
        let d = spec_digits(p as nat);
        let s = spec_render(ports);
        let rest = spec_render(ports.drop_first());
        lemma_spec_digits(p as nat);
        lemma_first_newline(s);
        let k = first_newline(s) as int;
        assert(s =~= d + seq![10u8] + rest);
        assert(s[d.len() as int] == 10);
        assert forall|i: int| 0 <= i < d.len() implies s[i] != 10 by {
            assert(s[i] == d[i]);
            assert(is_digit(d[i]));
        }
        if k < d.len() {
            assert(s[k] == 10);
            assert(false);
        }
        if k > d.len() {
            assert(s[d.len() as int] != 10);
            assert(false);
        }
        assert(k == d.len());
        assert(s.take(k) =~= d);
        assert(valid_u16(d));
        assert(s.skip(k + 1) =~= rest);
        lemma_registry_round_trip(ports.drop_first());
        assert(digits_value(d) == p);
        assert(seq![digits_value(s.take(k)) as u16] + ports.drop_first() =~= ports);
    }
}

} // verus!
