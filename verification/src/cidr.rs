//! CIDR blocks and their expansion into individual IPv4 addresses.
//!
//! A CIDR block is an IPv4 literal, a slash and a decimal prefix length
//! `0..=32`. Its addresses are the `2^(32-prefix)` addresses of the block
//! containing the written address, the network base first.

use vstd::prelude::*;

use crate::chars::{all_digits, dec_val, ex_is_digit, lemma_dec_val_small, str_chars};
use crate::ipv4::{
    format_ipv4, ipv4_string, ipv4_value, is_ipv4_literal, lemma_ipv4_no_slash,
    lemma_ipv4_string_roundtrip, parse_ipv4,
};

verus! {

/// Two to the power `n` (and one for negative `n`).
pub open spec fn pow2(n: int) -> int
    decreases n,
{
    if n <= 0 {
        1
    } else {
        2 * pow2(n - 1)
    }
}

/// `pow2` is positive and monotonic.
pub proof fn lemma_pow2_pos_le(a: int, b: int)
    requires
        a <= b,
    ensures
        1 <= pow2(a) <= pow2(b),
    decreases b - a,
{
    if a < b {
        lemma_pow2_pos_le(a, b - 1);
    } else if a == b {
        lemma_pow2_pos_le_base(a);
    }
}

proof fn lemma_pow2_pos_le_base(a: int)
    ensures
        1 <= pow2(a),
    decreases a,
{
    if a > 0 {
        lemma_pow2_pos_le_base(a - 1);
    }
}

/// `pow2(a) * pow2(b) == pow2(a + b)` for non-negative exponents.
pub proof fn lemma_pow2_adds(a: int, b: int)
    requires
        0 <= a,
        0 <= b,
    ensures
        pow2(a) * pow2(b) == pow2(a + b),
    decreases a,
{
    if a == 0 {
    } else {
        lemma_pow2_adds(a - 1, b);
        assert(pow2(a) * pow2(b) == 2 * (pow2(a - 1) * pow2(b))) by (nonlinear_arith)
            requires
                pow2(a) == 2 * pow2(a - 1),
        ;
    }
}

/// A decimal prefix-length string: one to three digits, value at most 32.
pub open spec fn is_prefix_str(p: Seq<char>) -> bool {
    &&& 1 <= p.len() <= 3
    &&& all_digits(p)
    &&& dec_val(p) <= 32
}

/// The slash of a CIDR block stands at `k`, an IPv4 literal before it and
/// a prefix length after it.
pub open spec fn cidr_slash_at(s: Seq<char>, k: int) -> bool {
    &&& 0 <= k < s.len()
    &&& s[k] == '/'
    &&& is_ipv4_literal(s.subrange(0, k))
    &&& is_prefix_str(s.subrange(k + 1, s.len() as int))
}

/// `s` is an IPv4 CIDR block.
pub open spec fn is_ipv4_cidr(s: Seq<char>) -> bool {
    exists|k: int| cidr_slash_at(s, k)
}

/// The slash position of a CIDR block.
pub open spec fn cidr_slash(s: Seq<char>) -> int {
    choose|k: int| cidr_slash_at(s, k)
}

/// The written (pre-mask) address value of a CIDR block.
pub open spec fn cidr_base(s: Seq<char>) -> int {
    ipv4_value(s.subrange(0, cidr_slash(s)))
}

/// The prefix length of a CIDR block.
pub open spec fn cidr_prefix_len(s: Seq<char>) -> int {
    dec_val(s.subrange(cidr_slash(s) + 1, s.len() as int))
}

/// The slash decomposition of a CIDR block is unique.
pub proof fn lemma_cidr_slash_unique(s: Seq<char>, k1: int, k2: int)
    requires
        cidr_slash_at(s, k1),
        cidr_slash_at(s, k2),
    ensures
        k1 == k2,
{
    if k1 < k2 {
        lemma_ipv4_no_slash(s.subrange(0, k2));
        assert(s.subrange(0, k2)[k1] == s[k1]);
    } else if k2 < k1 {
        lemma_ipv4_no_slash(s.subrange(0, k1));
        assert(s.subrange(0, k1)[k2] == s[k2]);
    }
}

/// The network base of a block: the written address rounded down to a
/// multiple of the block size.
pub open spec fn network_of(base: int, prefix: int) -> int {
    base / pow2(32 - prefix) * pow2(32 - prefix)
}

/// The addresses of a block with the given written address and prefix
/// length, in ascending order.
pub open spec fn addresses_of(base: int, prefix: int) -> Seq<Seq<char>> {
    Seq::new(pow2(32 - prefix) as nat, |i: int| ipv4_string(network_of(base, prefix) + i))
}

/// The expansion of a line: the block's addresses where the line is a
/// CIDR block, nothing otherwise.
pub open spec fn cidr_expansion(s: Seq<char>) -> Seq<Seq<char>> {
    if is_ipv4_cidr(s) {
        addresses_of(cidr_base(s), cidr_prefix_len(s))
    } else {
        Seq::empty()
    }
}

/// An IPv4 literal's value is a 32-bit value.
pub proof fn lemma_ipv4_value_bound(s: Seq<char>)
    requires
        is_ipv4_literal(s),
    ensures
        0 <= ipv4_value(s) < 0x100000000,
{
    let (p1, p2, p3) = choose|p1: int, p2: int, p3: int|
        crate::ipv4::ipv4_dots_at(s, p1, p2, p3);
    lemma_dec_val_small(s.subrange(0, p1));
    lemma_dec_val_small(s.subrange(p1 + 1, p2));
    lemma_dec_val_small(s.subrange(p2 + 1, p3));
    lemma_dec_val_small(s.subrange(p3 + 1, s.len() as int));
}

/// The block around a 32-bit base stays within the 32-bit space.
proof fn lemma_network_bound(base: int, prefix: int)
    requires
        0 <= base < 0x100000000,
        0 <= prefix <= 32,
    ensures
        0 <= network_of(base, prefix),
        network_of(base, prefix) <= base,
        network_of(base, prefix) + pow2(32 - prefix) <= 0x100000000,
{
    let c = pow2(32 - prefix);
    lemma_pow2_pos_le(0, 32 - prefix);
    lemma_pow2_adds(32 - prefix, prefix);
    lemma_pow2_pos_le(0, prefix);
    lemma_pow2_32();
    let q = base / c;
    assert(0 <= q && q * c <= base && base < (q + 1) * c) by (nonlinear_arith)
        requires
            0 <= base,
            1 <= c,
            q == base / c,
    ;
    assert((q + 1) * c <= 0x100000000) by (nonlinear_arith)
        requires
            0 <= q,
            1 <= c,
            q * c <= base,
            base < 0x100000000,
            base < (q + 1) * c,
            c * pow2(prefix) == 0x100000000,
            1 <= pow2(prefix),
    ;
    assert((q + 1) * c == q * c + c) by (nonlinear_arith);
    assert(network_of(base, prefix) == q * c);
}

/// `pow2(32)` written out.
pub proof fn lemma_pow2_32()
    ensures
        pow2(32) == 0x100000000,
{
    reveal_with_fuel(pow2, 33);
}

/// Parses the prefix-length part `v[from..]` of a CIDR block.
fn parse_prefix(v: &Vec<char>, from: usize) -> (r: Option<u8>)
    requires
        from <= v@.len(),
    ensures
        match r {
            Some(p) => is_prefix_str(v@.subrange(from as int, v@.len() as int)) && p as int
                == dec_val(v@.subrange(from as int, v@.len() as int)),
            None => !is_prefix_str(v@.subrange(from as int, v@.len() as int)),
        },
{
    let ghost seg = v@.subrange(from as int, v@.len() as int);
    let n = v.len();
    if n - from < 1 || n - from > 3 {
        return None;
    }
    let mut val: u32 = 0;
    let mut i: usize = from;
    while i < n
        invariant
            from <= i <= n,
            n == v@.len(),
            n - from <= 3,
            seg == v@.subrange(from as int, v@.len() as int),
            all_digits(v@.subrange(from as int, i as int)),
            val as int == dec_val(v@.subrange(from as int, i as int)),
        decreases n - i,
    {
        proof {
            lemma_dec_val_small(v@.subrange(from as int, i as int));
        }
        let c = v[i];
        if !ex_is_digit(c) {
            proof {
                assert(seg[i - from] == c);
            }
            return None;
        }
        let d: u32 = (c as u32) - 48;
        proof {
            let prev = v@.subrange(from as int, i as int);
            let next = v@.subrange(from as int, i as int + 1);
            assert(next.drop_last() =~= prev);
            assert(next.last() == c);
        }
        val = val * 10 + d;
        i += 1;
    }
    proof {
        assert(v@.subrange(from as int, i as int) == seg);
    }
    if val > 32 {
        return None;
    }
    Some(val as u8)
}

/// Parses a CIDR block, returning its written address value and prefix
/// length.
pub fn parse_ipv4_cidr(v: &Vec<char>) -> (r: Option<(u32, u8)>)
    ensures
        match r {
            Some(bp) => {
                &&& is_ipv4_cidr(v@)
                &&& bp.0 as int == cidr_base(v@)
                &&& bp.1 as int == cidr_prefix_len(v@)
                &&& bp.1 <= 32
            },
            None => !is_ipv4_cidr(v@),
        },
{
    let n = v.len();
    let mut k: usize = 0;
    while k < n && v[k] != '/'
        invariant
            k <= n,
            n == v@.len(),
            forall|j: int| 0 <= j < k ==> v@[j] != '/',
        decreases n - k,
    {
        k += 1;
    }
    if k == n {
        proof {
            if is_ipv4_cidr(v@) {
                let w = choose|w: int| cidr_slash_at(v@, w);
                assert(v@[w] == '/');
                assert(false);
            }
        }
        return None;
    }
    let left = crate::chars::sub_vec(v, 0, k);
    let base = parse_ipv4(&left);
    let prefix = parse_prefix(v, k + 1);
    proof {
        assert(left@ == v@.subrange(0, k as int));
        assert(v@.subrange(k as int + 1, v@.len() as int) == v@.subrange(
            k as int + 1,
            v@.len() as int,
        ));
    }
    match (base, prefix) {
        (Some(b), Some(p)) => {
            proof {
                assert(cidr_slash_at(v@, k as int));
                let w = cidr_slash(v@);
                lemma_cidr_slash_unique(v@, w, k as int);
            }
            Some((b, p))
        },
        _ => {
            proof {
                if is_ipv4_cidr(v@) {
                    let w = choose|w: int| cidr_slash_at(v@, w);
                    if w < k {
                        assert(v@[w] == '/');
                        assert(false);
                    } else if w > k {
                        lemma_ipv4_no_slash(v@.subrange(0, w));
                        assert(v@.subrange(0, w)[k as int] == v@[k as int]);
                        assert(false);
                    }
                    assert(w == k);
                    assert(false);
                }
            }
            None
        },
    }
}

/// The addresses of the block with the given written address and prefix
/// length, formatted in ascending order.
pub fn expand_cidr(base: u32, prefix: u8) -> (r: Vec<String>)
    requires
        prefix <= 32,
    ensures
        r.deep_view() == addresses_of(base as int, prefix as int),
{
    proof {
        lemma_network_bound(base as int, prefix as int);
    }
    let mut count: u64 = 1;
    let mut j: u8 = 0;
    let width: u8 = 32 - prefix;
    while j < width
        invariant
            j <= width,
            width == 32 - prefix,
            count as int == pow2(j as int),
            count <= 0x100000000u64,
        decreases width - j,
    {
        proof {
            lemma_pow2_pos_le(j as int + 1, 32);
            lemma_pow2_32();
        }
        count = count * 2;
        j += 1;
    }
    proof {
        lemma_pow2_pos_le(0, 32 - prefix as int);
        assert(count >= 1);
    }
    let net: u64 = (base as u64) / count * count;
    proof {
        assert(net as int == network_of(base as int, prefix as int));
    }
    let mut out: Vec<String> = Vec::new();
    let mut i: u64 = 0;
    while i < count
        invariant
            i <= count,
            count as int == pow2(32 - prefix as int),
            net as int == network_of(base as int, prefix as int),
            net + count <= 0x100000000,
            out.deep_view() =~= addresses_of(base as int, prefix as int).subrange(0, i as int),
        decreases count - i,
    {
        let addr: u32 = (net + i) as u32;
        proof {
            assert(addr as int == net as int + i as int);
        }
        let ghost prev = out.deep_view();
        let text = format_ipv4(addr);
        proof {
            assert(text@ == ipv4_string(net as int + i as int));
        }
        out.push(text);
        i += 1;
        proof {
            assert(out@.len() == prev.len() + 1);
            assert(out.deep_view() =~= prev.push(text@));
            assert(out.deep_view() =~= addresses_of(base as int, prefix as int).subrange(
                0,
                i as int,
            ));
        }
    }
    proof {
        assert(out.deep_view() =~= addresses_of(base as int, prefix as int));
    }
    out
}

/// Enumerates the addresses of a CIDR block; an input that is not a CIDR
/// block yields nothing.
pub fn generate_ipv4_ips_from_cidr(cidr: &str) -> (r: Vec<String>)
    ensures
        r.deep_view() == cidr_expansion(cidr@),
{
    let v = str_chars(cidr);
    match parse_ipv4_cidr(&v) {
        Some((base, prefix)) => expand_cidr(base, prefix),
        None => {
            proof {
                assert(cidr_expansion(cidr@) =~= Seq::<Seq<char>>::empty());
            }
            Vec::new()
        },
    }
}

/// The expansion of a CIDR block of prefix length `p` holds exactly
/// `2^(32-p)` pairwise distinct addresses, each a valid IPv4 literal.
pub proof fn lemma_cidr_expansion_exact(s: Seq<char>)
    requires
        is_ipv4_cidr(s),
    ensures
        cidr_expansion(s).len() == pow2(32 - cidr_prefix_len(s)),
        forall|i: int|
            0 <= i < cidr_expansion(s).len() ==> is_ipv4_literal(#[trigger] cidr_expansion(s)[i]),
        cidr_expansion(s).no_duplicates(),
{
    let k = cidr_slash(s);
    assert(cidr_slash_at(s, k));
    let base = cidr_base(s);
    let prefix = cidr_prefix_len(s);
    lemma_ipv4_value_bound(s.subrange(0, k));
    lemma_dec_val_small(s.subrange(k + 1, s.len() as int));
    lemma_pow2_pos_le(0, 32 - prefix);
    lemma_network_bound(base, prefix);
    let net = network_of(base, prefix);
    let e = cidr_expansion(s);
    assert forall|i: int| 0 <= i < e.len() implies is_ipv4_literal(#[trigger] e[i]) by {
        lemma_ipv4_string_roundtrip(net + i);
    }
    assert forall|i: int, j: int| 0 <= i < e.len() && 0 <= j < e.len() && i != j implies e[i]
        != e[j] by {
        lemma_ipv4_string_roundtrip(net + i);
        lemma_ipv4_string_roundtrip(net + j);
        assert(ipv4_value(e[i]) == net + i);
        assert(ipv4_value(e[j]) == net + j);
    }
}

} // verus!
