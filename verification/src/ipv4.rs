//! The IPv4 and CIDR grammars of the address expander.
//!
//! An IPv4 literal is four decimal octets separated by dots, each octet
//! `0..=255` written without leading zeros. A CIDR block is an IPv4 literal,
//! a slash and a decimal prefix length `0..=32`; its addresses are the
//! `2^(32-prefix)` addresses of the block containing the written address.

use vstd::prelude::*;

use crate::chars::{
    all_digits, chars_to_string, dec_val, digit_val, ex_is_digit, fmt_nat, is_digit,
    lemma_fmt_nat_correct, push_decimal,
};

verus! {

/// A decimal octet string: one to three digits, value at most 255, no
/// leading zero.
pub open spec fn is_octet(s: Seq<char>) -> bool {
    &&& 1 <= s.len() <= 3
    &&& all_digits(s)
    &&& dec_val(s) <= 255
    &&& (s.len() > 1 ==> s[0] != '0')
}

/// The three dots of an IPv4 literal stand at `p1 < p2 < p3` and the four
/// segments they cut are octet strings.
pub open spec fn ipv4_dots_at(s: Seq<char>, p1: int, p2: int, p3: int) -> bool {
    &&& 0 <= p1 < p2 < p3 < s.len()
    &&& s[p1] == '.' && s[p2] == '.' && s[p3] == '.'
    &&& is_octet(s.subrange(0, p1))
    &&& is_octet(s.subrange(p1 + 1, p2))
    &&& is_octet(s.subrange(p2 + 1, p3))
    &&& is_octet(s.subrange(p3 + 1, s.len() as int))
}

/// `s` is an IPv4 literal.
pub open spec fn is_ipv4_literal(s: Seq<char>) -> bool {
    exists|p1: int, p2: int, p3: int| ipv4_dots_at(s, p1, p2, p3)
}

/// The 32-bit value written at a given dot decomposition.
pub open spec fn ipv4_value_at(s: Seq<char>, p1: int, p2: int, p3: int) -> int {
    dec_val(s.subrange(0, p1)) * 0x1000000 + dec_val(s.subrange(p1 + 1, p2)) * 0x10000 + dec_val(
        s.subrange(p2 + 1, p3),
    ) * 0x100 + dec_val(s.subrange(p3 + 1, s.len() as int))
}

/// The 32-bit value of an IPv4 literal.
pub open spec fn ipv4_value(s: Seq<char>) -> int {
    let (p1, p2, p3) = choose|p1: int, p2: int, p3: int| ipv4_dots_at(s, p1, p2, p3);
    ipv4_value_at(s, p1, p2, p3)
}

/// Every character of an IPv4 literal is a digit or one of its three dots.
pub proof fn lemma_ipv4_dots_cover(s: Seq<char>, p1: int, p2: int, p3: int)
    requires
        ipv4_dots_at(s, p1, p2, p3),
    ensures
        forall|d: int|
            0 <= d < s.len() && s[d] == '.' ==> d == p1 || d == p2 || d == p3,
{
    assert forall|d: int| 0 <= d < s.len() && s[d] == '.' implies d == p1 || d == p2 || d == p3 by {
        if d < p1 {
            assert(s.subrange(0, p1)[d] == s[d]);
            assert(is_digit(s[d]));
        } else if p1 < d < p2 {
            assert(s.subrange(p1 + 1, p2)[d - p1 - 1] == s[d]);
            assert(is_digit(s[d]));
        } else if p2 < d < p3 {
            assert(s.subrange(p2 + 1, p3)[d - p2 - 1] == s[d]);
            assert(is_digit(s[d]));
        } else if p3 < d {
            assert(s.subrange(p3 + 1, s.len() as int)[d - p3 - 1] == s[d]);
            assert(is_digit(s[d]));
        }
    }
}

/// The dot decomposition of an IPv4 literal is unique.
pub proof fn lemma_ipv4_dots_unique(
    s: Seq<char>,
    p1: int,
    p2: int,
    p3: int,
    q1: int,
    q2: int,
    q3: int,
)
    requires
        ipv4_dots_at(s, p1, p2, p3),
        ipv4_dots_at(s, q1, q2, q3),
    ensures
        p1 == q1 && p2 == q2 && p3 == q3,
{
    lemma_ipv4_dots_cover(s, p1, p2, p3);
    lemma_ipv4_dots_cover(s, q1, q2, q3);
}

/// An IPv4 literal holds no slash.
pub proof fn lemma_ipv4_no_slash(s: Seq<char>)
    requires
        is_ipv4_literal(s),
    ensures
        forall|d: int| 0 <= d < s.len() ==> s[d] != '/',
{
    let (p1, p2, p3) = choose|p1: int, p2: int, p3: int| ipv4_dots_at(s, p1, p2, p3);
    assert forall|d: int| 0 <= d < s.len() implies s[d] != '/' by {
        if d != p1 && d != p2 && d != p3 {
            if d < p1 {
                assert(s.subrange(0, p1)[d] == s[d]);
            } else if p1 < d < p2 {
                assert(s.subrange(p1 + 1, p2)[d - p1 - 1] == s[d]);
            } else if p2 < d < p3 {
                assert(s.subrange(p2 + 1, p3)[d - p2 - 1] == s[d]);
            } else {
                assert(s.subrange(p3 + 1, s.len() as int)[d - p3 - 1] == s[d]);
            }
            assert(is_digit(s[d]));
        }
    }
}

/// Parses one segment `v[from..to]` as a decimal octet.
fn parse_octet(v: &Vec<char>, from: usize, to: usize) -> (r: Option<u8>)
    requires
        from <= to <= v@.len(),
    ensures
        match r {
            Some(n) => is_octet(v@.subrange(from as int, to as int)) && n as int == dec_val(
                v@.subrange(from as int, to as int),
            ),
            None => !is_octet(v@.subrange(from as int, to as int)),
        },
{
    let ghost seg = v@.subrange(from as int, to as int);
    if to - from < 1 || to - from > 3 {
        return None;
    }
    if v[from] == '0' && to - from > 1 {
        return None;
    }
    let mut val: u32 = 0;
    let mut i: usize = from;
    while i < to
        invariant
            from <= i <= to <= v@.len(),
            to - from <= 3,
            seg == v@.subrange(from as int, to as int),
            all_digits(v@.subrange(from as int, i as int)),
            val as int == dec_val(v@.subrange(from as int, i as int)),
        decreases to - i,
    {
        proof {
            crate::chars::lemma_dec_val_small(v@.subrange(from as int, i as int));
        }
        let c = v[i];
        if !ex_is_digit(c) {
            proof {
                assert(seg[i - from] == c);
            }
            return None;
        }
        let d: u32 = (c as u32) - 48;
        proof {
            assert(d == digit_val(c));
            let prev = v@.subrange(from as int, i as int);
            let next = v@.subrange(from as int, i as int + 1);
            assert(next.drop_last() =~= prev);
            assert(next.last() == c);
            assert(dec_val(next) == dec_val(prev) * 10 + digit_val(c));
        }
        val = val * 10 + d;
        i += 1;
        proof {
            assert(all_digits(v@.subrange(from as int, i as int)));
        }
    }
    proof {
        assert(v@.subrange(from as int, i as int) == seg);
    }
    if val > 255 {
        return None;
    }
    Some(val as u8)
}

/// Parses a full IPv4 literal, returning its 32-bit value.
pub fn parse_ipv4(v: &Vec<char>) -> (r: Option<u32>)
    ensures
        match r {
            Some(n) => is_ipv4_literal(v@) && n as int == ipv4_value(v@),
            None => !is_ipv4_literal(v@),
        },
{
    let n = v.len();
    let mut d1: usize = 0;
    let mut d2: usize = 0;
    let mut d3: usize = 0;
    let mut d4: usize = 0;
    let mut ndots: usize = 0;
    let mut i: usize = 0;
    while i < n
        invariant
            n == v@.len(),
            i <= n,
            ndots <= i,
            ndots >= 1 ==> d1 < i && v@[d1 as int] == '.',
            ndots >= 2 ==> d1 < d2 < i && v@[d2 as int] == '.',
            ndots >= 3 ==> d2 < d3 < i && v@[d3 as int] == '.',
            ndots >= 4 ==> d3 < d4 < i && v@[d4 as int] == '.',
            forall|j: int|
                0 <= j < i && v@[j] == '.' ==> (ndots >= 1 && j == d1) || (ndots >= 2 && j == d2)
                    || (ndots >= 3 && j == d3) || (ndots >= 4 && j == d4) || ndots > 4,
        decreases n - i,
    {
        if v[i] == '.' {
            if ndots == 0 {
                d1 = i;
            } else if ndots == 1 {
                d2 = i;
            } else if ndots == 2 {
                d3 = i;
            } else if ndots == 3 {
                d4 = i;
            }
            ndots += 1;
        }
        i += 1;
    }
    if ndots != 3 {
        proof {
            if is_ipv4_literal(v@) {
                let (p1, p2, p3) = choose|p1: int, p2: int, p3: int| ipv4_dots_at(v@, p1, p2, p3);
                lemma_ipv4_dots_cover(v@, p1, p2, p3);
                assert(false);
            }
        }
        return None;
    }
    let o1 = parse_octet(v, 0, d1);
    let o2 = parse_octet(v, d1 + 1, d2);
    let o3 = parse_octet(v, d2 + 1, d3);
    let o4 = parse_octet(v, d3 + 1, n);
    match (o1, o2, o3, o4) {
        (Some(a), Some(b), Some(c), Some(d)) => {
            proof {
                assert(ipv4_dots_at(v@, d1 as int, d2 as int, d3 as int));
                let (p1, p2, p3) = choose|p1: int, p2: int, p3: int| ipv4_dots_at(v@, p1, p2, p3);
                lemma_ipv4_dots_unique(v@, p1, p2, p3, d1 as int, d2 as int, d3 as int);
            }
            let val: u32 = (a as u32) * 0x1000000 + (b as u32) * 0x10000 + (c as u32) * 0x100 + (
            d as u32);
            Some(val)
        },
        _ => {
            proof {
                if is_ipv4_literal(v@) {
                    let (p1, p2, p3) = choose|p1: int, p2: int, p3: int|
                        ipv4_dots_at(v@, p1, p2, p3);
                    lemma_ipv4_dots_cover(v@, p1, p2, p3);
                    assert(p1 == d1 && p2 == d2 && p3 == d3);
                    assert(false);
                }
            }
            None
        },
    }
}

/// The canonical text of a 32-bit address value.
pub open spec fn ipv4_string(n: int) -> Seq<char> {
    fmt_nat(n / 0x1000000) + seq!['.'] + fmt_nat((n / 0x10000) % 0x100) + seq!['.'] + fmt_nat(
        (n / 0x100) % 0x100,
    ) + seq!['.'] + fmt_nat(n % 0x100)
}

/// `fmt_nat` of an octet value is at most three characters long.
proof fn lemma_fmt_octet_len(n: int)
    requires
        0 <= n <= 255,
    ensures
        1 <= fmt_nat(n).len() <= 3,
{
    if n < 10 {
        assert(fmt_nat(n).len() == 1);
    } else if n < 100 {
        assert(fmt_nat(n) == fmt_nat(n / 10).push(crate::chars::digit_char(n % 10)));
        assert(fmt_nat(n / 10).len() == 1);
    } else {
        assert(fmt_nat(n) == fmt_nat(n / 10).push(crate::chars::digit_char(n % 10)));
        assert(fmt_nat(n / 10) == fmt_nat(n / 10 / 10).push(
            crate::chars::digit_char((n / 10) % 10),
        ));
        assert(fmt_nat(n / 10 / 10).len() == 1);
    }
}

/// The canonical text of an address value is an IPv4 literal and reads
/// back as the same value.
pub proof fn lemma_ipv4_string_roundtrip(n: int)
    requires
        0 <= n < 0x100000000,
    ensures
        is_ipv4_literal(ipv4_string(n)),
        ipv4_value(ipv4_string(n)) == n,
{
    let a = n / 0x1000000;
    let b = (n / 0x10000) % 0x100;
    let c = (n / 0x100) % 0x100;
    let d = n % 0x100;
    lemma_fmt_nat_correct(a);
    lemma_fmt_nat_correct(b);
    lemma_fmt_nat_correct(c);
    lemma_fmt_nat_correct(d);
    lemma_fmt_octet_len(a);
    lemma_fmt_octet_len(b);
    lemma_fmt_octet_len(c);
    lemma_fmt_octet_len(d);
    let s = ipv4_string(n);
    let la = fmt_nat(a).len() as int;
    let lb = fmt_nat(b).len() as int;
    let lc = fmt_nat(c).len() as int;
    let ld = fmt_nat(d).len() as int;
    let p1 = la;
    let p2 = la + 1 + lb;
    let p3 = la + 1 + lb + 1 + lc;
    assert(s.subrange(0, p1) =~= fmt_nat(a));
    assert(s.subrange(p1 + 1, p2) =~= fmt_nat(b));
    assert(s.subrange(p2 + 1, p3) =~= fmt_nat(c));
    assert(s.subrange(p3 + 1, s.len() as int) =~= fmt_nat(d));
    assert(s[p1] == '.' && s[p2] == '.' && s[p3] == '.');
    assert(ipv4_dots_at(s, p1, p2, p3));
    let (q1, q2, q3) = choose|q1: int, q2: int, q3: int| ipv4_dots_at(s, q1, q2, q3);
    lemma_ipv4_dots_unique(s, q1, q2, q3, p1, p2, p3);
    assert(ipv4_value(s) == a * 0x1000000 + b * 0x10000 + c * 0x100 + d);
    assert(a * 0x1000000 + b * 0x10000 + c * 0x100 + d == n) by {
        lemma_div_mod_split(n);
    };
}

/// Splitting a 32-bit value into octets and reassembling them gives the
/// value back.
proof fn lemma_div_mod_split(n: int)
    requires
        0 <= n < 0x100000000,
    ensures
        (n / 0x1000000) * 0x1000000 + ((n / 0x10000) % 0x100) * 0x10000 + ((n / 0x100) % 0x100)
            * 0x100 + n % 0x100 == n,
{
    assert((n / 0x1000000) * 0x1000000 + ((n / 0x10000) % 0x100) * 0x10000 + ((n / 0x100) % 0x100)
        * 0x100 + n % 0x100 == n) by (nonlinear_arith)
        requires
            0 <= n < 0x100000000,
    ;
}

/// The canonical text of a 32-bit address value, as a `String`.
pub fn format_ipv4(n: u32) -> (r: String)
    ensures
        r@ == ipv4_string(n as int),
{
    let mut out: Vec<char> = Vec::new();
    push_decimal((n / 0x1000000) as u64, &mut out);
    out.push('.');
    push_decimal(((n / 0x10000) % 0x100) as u64, &mut out);
    out.push('.');
    push_decimal(((n / 0x100) % 0x100) as u64, &mut out);
    out.push('.');
    push_decimal((n % 0x100) as u64, &mut out);
    proof {
        assert(out@ =~= ipv4_string(n as int));
    }
    chars_to_string(&out)
}

} // verus!
