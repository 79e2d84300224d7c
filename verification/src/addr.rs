//! Address classification and address-space expansion.
//!
//! Raw input lines are classified as IPv4 literals, IPv4 CIDR blocks or
//! domain names; CIDR blocks are expanded, and the whole input is flattened
//! into one deduplicated target list. Everything else — IPv6 in particular —
//! is silently dropped.

use vstd::prelude::*;

use crate::chars::{chars_to_string, ex_starts_with, starts_with, str_chars, trim};
use crate::cidr::{cidr_expansion, parse_ipv4_cidr};
use crate::error::CustomError;
use crate::ipv4::parse_ipv4;

verus! {

/// The classification of one raw address string.
#[derive(Clone, Copy, Debug, PartialEq, Eq, Structural)]
pub enum AddressKind {
    Ipv4,
    Ipv4Cidr,
    DomainName,
    Unsupported,
}

/// Whether the text parses as an absolute URL with a non-empty host.
///
/// The result of `url::Url::parse` depends on its argument alone, so it
/// can be named without being written out.
pub uninterp spec fn url_has_host(s: Seq<char>) -> bool;

/// Relies on `url::Url::parse` and `url::Url::host_str`: true exactly when
/// the text parses as a URL that carries a host.
#[verifier::external_body]
fn url_parses_with_host(s: &str) -> (r: bool)
    ensures
        r == url_has_host(s@),
{
    match url::Url::parse(s) {
        Ok(u) => u.host_str().is_some(),
        Err(_) => false,
    }
}

/// The text already carries an HTTP scheme.
pub open spec fn has_url_scheme(s: Seq<char>) -> bool {
    starts_with(s, "http://"@) || starts_with(s, "https://"@)
}

/// The string handed to the URL parser: the text itself when it carries a
/// scheme, otherwise the text behind `http://`.
pub open spec fn candidate_url(s: Seq<char>) -> Seq<char> {
    if has_url_scheme(s) {
        s
    } else {
        "http://"@ + s
    }
}

/// The classification of a raw address string: an IPv4 literal, an IPv4
/// CIDR block, a domain name (anything else that parses as a URL host), or
/// unsupported.
pub open spec fn address_kind(s: Seq<char>) -> AddressKind {
    if crate::ipv4::is_ipv4_literal(s) {
        AddressKind::Ipv4
    } else if crate::cidr::is_ipv4_cidr(s) {
        AddressKind::Ipv4Cidr
    } else if url_has_host(candidate_url(s)) {
        AddressKind::DomainName
    } else {
        AddressKind::Unsupported
    }
}

/// Classifies one raw address string.
pub fn determine_ipaddress_type(address: &str) -> (k: AddressKind)
    ensures
        k == address_kind(address@),
{
    let v = str_chars(address);
    if parse_ipv4(&v).is_some() {
        return AddressKind::Ipv4;
    }
    if parse_ipv4_cidr(&v).is_some() {
        return AddressKind::Ipv4Cidr;
    }
    let http = str_chars("http://");
    let https = str_chars("https://");
    let has_scheme = ex_starts_with(&v, &http) || ex_starts_with(&v, &https);
    let with_host = if has_scheme {
        url_parses_with_host(address)
    } else {
        let candidate = String::from_str("http://").concat(address);
        url_parses_with_host(candidate.as_str())
    };
    if with_host {
        AddressKind::DomainName
    } else {
        AddressKind::Unsupported
    }
}

/// What one input line contributes to the target list: nothing when blank
/// or unsupported, itself when an IPv4 literal or domain name, the block's
/// addresses when a CIDR block.
pub open spec fn expanded_of_line(line: Seq<char>) -> Seq<Seq<char>> {
    let t = trim(line);
    if t.len() == 0 {
        Seq::empty()
    } else if address_kind(t) == AddressKind::Ipv4 || address_kind(t) == AddressKind::DomainName {
        seq![t]
    } else if address_kind(t) == AddressKind::Ipv4Cidr {
        cidr_expansion(t)
    } else {
        Seq::empty()
    }
}

/// The concatenated contributions of all input lines, in input order and
/// before deduplication.
pub open spec fn expanded_lines(lines: Seq<Seq<char>>) -> Seq<Seq<char>>
    decreases lines.len(),
{
    if lines.len() == 0 {
        Seq::empty()
    } else {
        expanded_lines(lines.drop_last()) + expanded_of_line(lines.last())
    }
}

/// Whether `v` holds the string `s`.
fn vec_contains_string(v: &Vec<String>, s: &String) -> (r: bool)
    ensures
        r == v.deep_view().contains(s@),
{
    let mut i: usize = 0;
    while i < v.len()
        invariant
            i <= v@.len(),
            forall|j: int| 0 <= j < i ==> v.deep_view()[j] != s@,
        decreases v@.len() - i,
    {
        if v[i].eq(s) {
            proof {
                assert(v.deep_view()[i as int] == s@);
            }
            return true;
        }
        i += 1;
    }
    proof {
        if v.deep_view().contains(s@) {
            let j = choose|j: int| 0 <= j < v.deep_view().len() && v.deep_view()[j] == s@;
            assert(false);
        }
    }
    false
}

/// A pushed element joins the sequence's set of elements.
proof fn lemma_push_to_set(s: Seq<Seq<char>>, x: Seq<char>)
    ensures
        s.push(x).to_set() =~= s.to_set().insert(x),
{
    assert forall|y: Seq<char>| s.push(x).to_set().contains(y) implies s.to_set().insert(
        x,
    ).contains(y) by {
        let i = choose|i: int| 0 <= i < s.push(x).len() && s.push(x)[i] == y;
        if i < s.len() {
            assert(s[i] == y);
        }
    }
    assert forall|y: Seq<char>| s.to_set().insert(x).contains(y) implies s.push(x).to_set().contains(
        y,
    ) by {
        if s.to_set().contains(y) {
            let i = choose|i: int| 0 <= i < s.len() && s[i] == y;
            assert(s.push(x)[i] == y);
        } else {
            assert(s.push(x)[s.len() as int] == y);
        }
    }
}

/// Pushing a fresh element keeps a sequence duplicate-free.
proof fn lemma_push_no_dup(s: Seq<Seq<char>>, x: Seq<char>)
    requires
        s.no_duplicates(),
        !s.contains(x),
    ensures
        s.push(x).no_duplicates(),
{
    assert forall|i: int, j: int|
        0 <= i < s.push(x).len() && 0 <= j < s.push(x).len() && i != j implies s.push(x)[i]
        != s.push(x)[j] by {
        if i < s.len() && j < s.len() {
        } else if i < s.len() {
            assert(s.push(x)[i] == s[i]);
            assert(s.contains(s[i]));
        } else if j < s.len() {
            assert(s.push(x)[j] == s[j]);
            assert(s.contains(s[j]));
        }
    }
}

/// The elements of a concatenation are the elements of its parts.
proof fn lemma_concat_to_set(a: Seq<Seq<char>>, b: Seq<Seq<char>>)
    ensures
        (a + b).to_set() =~= a.to_set() + b.to_set(),
{
    assert forall|y: Seq<char>| (a + b).to_set().contains(y) implies (a.to_set()
        + b.to_set()).contains(y) by {
        let i = choose|i: int| 0 <= i < (a + b).len() && (a + b)[i] == y;
        if i < a.len() {
            assert(a[i] == y);
        } else {
            assert(b[i - a.len()] == y);
        }
    }
    assert forall|y: Seq<char>| (a.to_set() + b.to_set()).contains(y) implies (a
        + b).to_set().contains(y) by {
        if a.to_set().contains(y) {
            let i = choose|i: int| 0 <= i < a.len() && a[i] == y;
            assert((a + b)[i] == y);
        } else {
            let i = choose|i: int| 0 <= i < b.len() && b[i] == y;
            assert((a + b)[a.len() + i] == y);
        }
    }
}

/// Appends every string of `add` that `out` does not yet hold.
fn push_new(out: &mut Vec<String>, add: &Vec<String>)
    requires
        old(out).deep_view().no_duplicates(),
    ensures
        final(out).deep_view().no_duplicates(),
        final(out).deep_view().to_set() == old(out).deep_view().to_set()
            + add.deep_view().to_set(),
{
    let mut j: usize = 0;
    while j < add.len()
        invariant
            j <= add@.len(),
            out.deep_view().no_duplicates(),
            out.deep_view().to_set() == old(out).deep_view().to_set() + add.deep_view().take(
                j as int,
            ).to_set(),
        decreases add@.len() - j,
    {
        let ghost prev = out.deep_view();
        let s = add[j].clone();
        proof {
            assert(s@ == add.deep_view()[j as int]);
        }
        if !vec_contains_string(out, &s) {
            out.push(s);
            proof {
                assert(out.deep_view() =~= prev.push(add.deep_view()[j as int]));
                lemma_push_no_dup(prev, add.deep_view()[j as int]);
                lemma_push_to_set(prev, add.deep_view()[j as int]);
            }
        } else {
            proof {
                assert(prev.to_set().contains(add.deep_view()[j as int]));
            }
        }
        j += 1;
        proof {
            let adv = add.deep_view();
            assert(adv.take(j as int).drop_last() =~= adv.take(j as int - 1));
            assert(adv.take(j as int) =~= adv.take(j as int - 1).push(adv[j as int - 1]));
            lemma_push_to_set(adv.take(j as int - 1), adv[j as int - 1]);
            assert(out.deep_view().to_set() =~= old(out).deep_view().to_set() + adv.take(
                j as int,
            ).to_set());
        }
    }
    proof {
        assert(add.deep_view().take(add@.len() as int) =~= add.deep_view());
    }
}

/// Expands, classifies and deduplicates raw input lines into the target
/// list. Blank lines and unsupported addresses are dropped; an input that
/// yields no target at all is an `InputError`.
pub fn expand_addresses(lines: &Vec<String>) -> (r: Result<Vec<String>, CustomError>)
    ensures
        match r {
            Ok(v) => {
                &&& v@.len() > 0
                &&& v.deep_view().no_duplicates()
                &&& v.deep_view().to_set() == expanded_lines(lines.deep_view()).to_set()
                &&& expanded_lines(lines.deep_view()).len() > 0
            },
            Err(e) => {
                &&& e == CustomError::InputError
                &&& expanded_lines(lines.deep_view()).len() == 0
            },
        },
{
    let ghost ldv = lines.deep_view();
    let mut out: Vec<String> = Vec::new();
    proof {
        assert(ldv.take(0) =~= Seq::<Seq<char>>::empty());
        assert(out.deep_view().to_set() =~= expanded_lines(ldv.take(0)).to_set());
    }
    let mut i: usize = 0;
    while i < lines.len()
        invariant
            i <= lines@.len(),
            ldv == lines.deep_view(),
            out.deep_view().no_duplicates(),
            out.deep_view().to_set() == expanded_lines(ldv.take(i as int)).to_set(),
        decreases lines@.len() - i,
    {
        let line_ref = &lines[i];
        let lv = str_chars(line_ref.as_str());
        let t = crate::chars::ex_trim(&lv);
        let ts = chars_to_string(&t);
        proof {
            assert(ts@ == trim(ldv[i as int]));
        }
        let mut additions: Vec<String> = Vec::new();
        if t.len() > 0 {
            let kind = determine_ipaddress_type(ts.as_str());
            match kind {
                AddressKind::Ipv4 => {
                    additions.push(ts);
                },
                AddressKind::DomainName => {
                    additions.push(ts);
                },
                AddressKind::Ipv4Cidr => {
                    additions = crate::cidr::generate_ipv4_ips_from_cidr(ts.as_str());
                },
                AddressKind::Unsupported => {},
            }
        }
        proof {
            assert(additions.deep_view() =~= expanded_of_line(ldv[i as int]));
        }
        push_new(&mut out, &additions);
        i += 1;
        proof {
            assert(ldv.take(i as int).drop_last() =~= ldv.take(i as int - 1));
            assert(ldv.take(i as int).last() == ldv[i as int - 1]);
            assert(expanded_lines(ldv.take(i as int)) == expanded_lines(ldv.take(i as int - 1))
                + expanded_of_line(ldv[i as int - 1]));
            lemma_concat_to_set(
                expanded_lines(ldv.take(i as int - 1)),
                expanded_of_line(ldv[i as int - 1]),
            );
            assert(out.deep_view().to_set() =~= expanded_lines(ldv.take(i as int)).to_set());
        }
    }
    proof {
        assert(ldv.take(ldv.len() as int) =~= ldv);
    }
    if out.len() == 0 {
        proof {
            let e = expanded_lines(ldv);
            if e.len() > 0 {
                assert(e.contains(e[0]));
                assert(e.to_set().contains(e[0]));
                assert(out.deep_view().to_set().contains(e[0]));
                let k = choose|k: int|
                    0 <= k < out.deep_view().len() && out.deep_view()[k] == e[0];
                assert(false);
            }
        }
        Err(CustomError::InputError)
    } else {
        proof {
            let e = expanded_lines(ldv);
            assert(out.deep_view().contains(out.deep_view()[0]));
            assert(e.to_set().contains(out.deep_view()[0]));
            if e.len() == 0 {
                let k = choose|k: int| 0 <= k < e.len() && e[k] == out.deep_view()[0];
                assert(false);
            }
        }
        Ok(out)
    }
}

} // verus!
