//! Extraction of signal fields from a raw HTTP HEAD response.
//!
//! The response text is split into lines; each line is lower-cased and
//! matched against the `Server`, `CF-RAY` and `Location` header names.
//! When a header occurs more than once the last occurrence wins. The
//! routing tag is the second dash-separated segment of the `CF-RAY` value,
//! upper-cased; the license-server flag says whether the `Location` value
//! mentions the license-authentication host.

use vstd::prelude::*;

use crate::chars::{
    all_digits, chars_to_string, contains_sub, dec_val, ex_contains_sub, ex_find_sub, ex_is_digit,
    ex_is_space, ex_map_lower, ex_map_upper, ex_starts_with, find_sub, is_space,
    lemma_dec_val_prefix_le, lemma_find_sub_is_match, map_lower, map_upper, starts_with,
    str_chars, sub_vec,
};

verus! {

/// A vector holding one given character.
fn char_vec1(c: char) -> (r: Vec<char>)
    ensures
        r@ == seq![c],
{
    let mut v: Vec<char> = Vec::new();
    v.push(c);
    proof {
        assert(v@ =~= seq![c]);
    }
    v
}

/// A vector holding two given characters.
fn char_vec2(a: char, b: char) -> (r: Vec<char>)
    ensures
        r@ == seq![a, b],
{
    let mut v: Vec<char> = Vec::new();
    v.push(a);
    v.push(b);
    proof {
        assert(v@ =~= seq![a, b]);
    }
    v
}

/// One trailing carriage return removed, as `str::lines` does.
pub open spec fn strip_cr(s: Seq<char>) -> Seq<char> {
    if s.len() > 0 && s.last() == '\r' {
        s.drop_last()
    } else {
        s
    }
}

/// The lines of a text: split at `'\n'`, one trailing `'\r'` removed from
/// each line, no line for a trailing newline.
pub open spec fn split_lines(s: Seq<char>) -> Seq<Seq<char>>
    decreases s.len(),
{
    if s.len() == 0 {
        Seq::empty()
    } else {
        let i = find_sub(s, seq!['\n'], 0);
        if 0 <= i < s.len() {
            seq![strip_cr(s.subrange(0, i))] + split_lines(s.subrange(i + 1, s.len() as int))
        } else {
            seq![strip_cr(s)]
        }
    }
}

/// The part of a header line after the first `": "`; empty when there is
/// none.
pub open spec fn after_sep(s: Seq<char>) -> Seq<char> {
    let i = find_sub(s, seq![':', ' '], 0);
    if i < 0 {
        Seq::empty()
    } else {
        s.subrange(i + 2, s.len() as int)
    }
}

/// The part of a value before its first space; the whole value when it
/// holds no space.
pub open spec fn first_token(s: Seq<char>) -> Seq<char> {
    let i = find_sub(s, seq![' '], 0);
    if i < 0 {
        s
    } else {
        s.subrange(0, i)
    }
}

/// The value reported for the `Server` header: the first token of the
/// last `server:` line, lower-cased; empty when the header is absent.
pub open spec fn scan_server(lines: Seq<Seq<char>>) -> Seq<char>
    decreases lines.len(),
{
    if lines.len() == 0 {
        Seq::empty()
    } else {
        let l = map_lower(lines.last());
        if starts_with(l, "server:"@) {
            first_token(after_sep(l))
        } else {
            scan_server(lines.drop_last())
        }
    }
}

/// The value reported for the `CF-RAY` header: the value of the last
/// `cf-ray:` line, lower-cased; empty when the header is absent.
pub open spec fn scan_cf_ray(lines: Seq<Seq<char>>) -> Seq<char>
    decreases lines.len(),
{
    if lines.len() == 0 {
        Seq::empty()
    } else {
        let l = map_lower(lines.last());
        if starts_with(l, "cf-ray:"@) {
            after_sep(l)
        } else {
            scan_cf_ray(lines.drop_last())
        }
    }
}

/// The license-server flag: `"true"` or `"false"` after the last
/// `location:` line, by whether its value mentions the
/// license-authentication host; empty when the header is absent.
pub open spec fn scan_license(lines: Seq<Seq<char>>) -> Seq<char>
    decreases lines.len(),
{
    if lines.len() == 0 {
        Seq::empty()
    } else {
        let l = map_lower(lines.last());
        if starts_with(l, "location:"@) {
            if contains_sub(after_sep(l), "account.jetbrains.com/fls-auth"@) {
                "true"@
            } else {
                "false"@
            }
        } else {
            scan_license(lines.drop_last())
        }
    }
}

/// The routing tag of a `CF-RAY` value: its second dash-separated
/// segment, upper-cased; empty when there is no dash.
pub open spec fn routing_tag_of(cf: Seq<char>) -> Seq<char> {
    let i = find_sub(cf, seq!['-'], 0);
    if i < 0 {
        Seq::empty()
    } else {
        let rest = cf.subrange(i + 1, cf.len() as int);
        let j = find_sub(rest, seq!['-'], 0);
        if j < 0 {
            map_upper(rest)
        } else {
            map_upper(rest.subrange(0, j))
        }
    }
}

/// First position at or after `from` holding a non-whitespace character;
/// the length when there is none.
pub open spec fn skip_ws(s: Seq<char>, from: int) -> int
    decreases s.len() - from + 1,
{
    if from < 0 || from >= s.len() {
        s.len() as int
    } else if is_space(s[from]) {
        skip_ws(s, from + 1)
    } else {
        from
    }
}

/// First position at or after `from` holding a whitespace character; the
/// length when there is none.
pub open spec fn skip_non_ws(s: Seq<char>, from: int) -> int
    decreases s.len() - from + 1,
{
    if from < 0 || from >= s.len() {
        s.len() as int
    } else if !is_space(s[from]) {
        skip_non_ws(s, from + 1)
    } else {
        from
    }
}

/// The second whitespace-delimited token of a line; empty when the line
/// has fewer than two tokens.
pub open spec fn second_token(s: Seq<char>) -> Seq<char> {
    let a = skip_ws(s, 0);
    let b = skip_non_ws(s, a);
    let c = skip_ws(s, b);
    let d = skip_non_ws(s, c);
    s.subrange(c, d)
}

/// The numeric reading of a status token: its value when it is all digits
/// and fits a `u16`, zero otherwise.
pub open spec fn parse_status(tok: Seq<char>) -> int {
    if tok.len() >= 1 && all_digits(tok) && dec_val(tok) <= 65535 {
        dec_val(tok)
    } else {
        0
    }
}

/// The HTTP status code of a raw response: the second token of its first
/// line, read as a number; zero when absent or malformed.
pub open spec fn status_code_of(stdout: Seq<char>) -> int {
    let lines = split_lines(stdout);
    if lines.len() == 0 {
        0
    } else {
        parse_status(second_token(lines[0]))
    }
}

/// One trailing carriage return removed.
fn ex_strip_cr(v: &Vec<char>) -> (r: Vec<char>)
    ensures
        r@ == strip_cr(v@),
{
    let n = v.len();
    if n > 0 && v[n - 1] == '\r' {
        sub_vec(v, 0, n - 1)
    } else {
        proof {
            assert(v@.subrange(0, v@.len() as int) =~= v@);
        }
        sub_vec(v, 0, n)
    }
}

/// The lines of a character vector.
pub fn ex_split_lines(v: &Vec<char>) -> (r: Vec<Vec<char>>)
    ensures
        r.deep_view() == split_lines(v@),
{
    let nl: Vec<char> = char_vec1('\n');
    let mut out: Vec<Vec<char>> = Vec::new();
    let mut rest: Vec<char> = sub_vec(v, 0, v.len());
    proof {
        assert(v@.subrange(0, v@.len() as int) =~= v@);
        assert(out.deep_view() =~= Seq::<Seq<char>>::empty());
        assert(split_lines(v@) =~= out.deep_view() + split_lines(rest@));
    }
    loop
        invariant
            nl@ == seq!['\n'],
            split_lines(v@) == out.deep_view() + split_lines(rest@),
        decreases rest@.len(),
    {
        if rest.len() == 0 {
            proof {
                assert(split_lines(rest@) =~= Seq::<Seq<char>>::empty());
                assert(out.deep_view() =~= split_lines(v@));
            }
            return out;
        }
        let ghost prev = out.deep_view();
        let ghost prev_rest = rest@;
        match ex_find_sub(&rest, &nl, 0) {
            Some(i) => {
                proof {
                    lemma_find_sub_is_match(prev_rest, seq!['\n'], 0);
                }
                let line = sub_vec(&rest, 0, i);
                let stripped = ex_strip_cr(&line);
                out.push(stripped);
                rest = sub_vec(&rest, i + 1, rest.len());
                proof {
                    assert(stripped@ == strip_cr(prev_rest.subrange(0, i as int)));
                    assert(out.deep_view() =~~= prev.push(strip_cr(prev_rest.subrange(0, i as int))));
                    assert(split_lines(prev_rest) == seq![
                        strip_cr(prev_rest.subrange(0, i as int)),
                    ] + split_lines(rest@));
                    assert(out.deep_view() + split_lines(rest@) =~= prev + split_lines(prev_rest));
                }
            },
            None => {
                let stripped = ex_strip_cr(&rest);
                out.push(stripped);
                rest = Vec::new();
                proof {
                    assert(stripped@ == strip_cr(prev_rest));
                    assert(out.deep_view() =~~= prev.push(strip_cr(prev_rest)));
                    assert(split_lines(prev_rest) == seq![strip_cr(prev_rest)]);
                    assert(split_lines(rest@) =~= Seq::<Seq<char>>::empty());
                    assert(out.deep_view() + split_lines(rest@) =~= prev + split_lines(prev_rest));
                }
            },
        }
    }
}

/// The part of a header line after the first `": "`.
fn ex_after_sep(v: &Vec<char>) -> (r: Vec<char>)
    ensures
        r@ == after_sep(v@),
{
    let sep: Vec<char> = char_vec2(':', ' ');
    let n = v.len();
    match ex_find_sub(v, &sep, 0) {
        Some(i) => {
            proof {
                lemma_find_sub_is_match(v@, seq![':', ' '], 0);
            }
            sub_vec(v, i + 2, n)
        },
        None => Vec::new(),
    }
}

/// The part of a value before its first space.
fn ex_first_token(v: &Vec<char>) -> (r: Vec<char>)
    ensures
        r@ == first_token(v@),
{
    let space: Vec<char> = char_vec1(' ');
    match ex_find_sub(v, &space, 0) {
        Some(i) => {
            proof {
                lemma_find_sub_is_match(v@, seq![' '], 0);
            }
            sub_vec(v, 0, i)
        },
        None => {
            proof {
                assert(v@.subrange(0, v@.len() as int) =~= v@);
            }
            sub_vec(v, 0, v.len())
        },
    }
}

/// The routing tag of a `CF-RAY` value.
pub fn ex_routing_tag(cf: &Vec<char>) -> (r: Vec<char>)
    ensures
        r@ == routing_tag_of(cf@),
{
    let dash: Vec<char> = char_vec1('-');
    let n = cf.len();
    match ex_find_sub(cf, &dash, 0) {
        Some(i) => {
            proof {
                lemma_find_sub_is_match(cf@, seq!['-'], 0);
            }
            let rest = sub_vec(cf, i + 1, n);
            match ex_find_sub(&rest, &dash, 0) {
                Some(j) => {
                    proof {
                        lemma_find_sub_is_match(rest@, seq!['-'], 0);
                    }
                    let seg = sub_vec(&rest, 0, j);
                    ex_map_upper(&seg)
                },
                None => ex_map_upper(&rest),
            }
        },
        None => Vec::new(),
    }
}

/// Extracts the `Server`, `CF-RAY` and license-server signals from a raw
/// response, in that order. The result always holds exactly three
/// strings; an absent header yields an empty string, and a repeated
/// header reports its last occurrence.
pub fn get_parameters_from_curl(headers: &str) -> (r: Vec<String>)
    ensures
        r@.len() == 3,
        r.deep_view() == seq![
            scan_server(split_lines(headers@)),
            scan_cf_ray(split_lines(headers@)),
            scan_license(split_lines(headers@)),
        ],
{
    let hv = str_chars(headers);
    let lines = ex_split_lines(&hv);
    let pat_server = str_chars("server:");
    let pat_cf_ray = str_chars("cf-ray:");
    let pat_location = str_chars("location:");
    let needle = str_chars("account.jetbrains.com/fls-auth");
    let mut server: Vec<char> = Vec::new();
    let mut cf_ray: Vec<char> = Vec::new();
    let mut license: Vec<char> = Vec::new();
    let ghost lsq = lines.deep_view();
    let mut i: usize = 0;
    while i < lines.len()
        invariant
            i <= lines@.len(),
            lsq == lines.deep_view(),
            pat_server@ == "server:"@,
            pat_cf_ray@ == "cf-ray:"@,
            pat_location@ == "location:"@,
            needle@ == "account.jetbrains.com/fls-auth"@,
            server@ == scan_server(lsq.take(i as int)),
            cf_ray@ == scan_cf_ray(lsq.take(i as int)),
            license@ == scan_license(lsq.take(i as int)),
        decreases lines@.len() - i,
    {
        let lower = ex_map_lower(&lines[i]);
        proof {
            assert(lower@ == map_lower(lsq[i as int]));
        }
        let is_server = ex_starts_with(&lower, &pat_server);
        let is_cf_ray = ex_starts_with(&lower, &pat_cf_ray);
        let is_location = ex_starts_with(&lower, &pat_location);
        if is_server {
            let value = ex_after_sep(&lower);
            server = ex_first_token(&value);
        }
        if is_cf_ray {
            cf_ray = ex_after_sep(&lower);
        }
        if is_location {
            let value = ex_after_sep(&lower);
            if ex_contains_sub(&value, &needle) {
                license = str_chars("true");
            } else {
                license = str_chars("false");
            }
        }
        i += 1;
        proof {
            assert(lsq.take(i as int).drop_last() =~= lsq.take(i as int - 1));
            assert(lsq.take(i as int).last() == lsq[i as int - 1]);
        }
    }
    proof {
        assert(lsq.take(lsq.len() as int) =~= lsq);
        assert(lsq == split_lines(headers@));
    }
    let mut out: Vec<String> = Vec::new();
    out.push(chars_to_string(&server));
    out.push(chars_to_string(&cf_ray));
    out.push(chars_to_string(&license));
    proof {
        assert(out.deep_view() =~= seq![
            scan_server(split_lines(headers@)),
            scan_cf_ray(split_lines(headers@)),
            scan_license(split_lines(headers@)),
        ]);
    }
    out
}

/// First non-whitespace position at or after `from`.
fn ex_skip_ws(v: &Vec<char>, from: usize) -> (r: usize)
    requires
        from <= v@.len(),
    ensures
        r as int == skip_ws(v@, from as int),
        from <= r <= v@.len(),
{
    let n = v.len();
    let mut i: usize = from;
    while i < n && ex_is_space(v[i])
        invariant
            from <= i <= n,
            n == v@.len(),
            skip_ws(v@, from as int) == skip_ws(v@, i as int),
        decreases n - i,
    {
        i += 1;
    }
    i
}

/// First whitespace position at or after `from`.
fn ex_skip_non_ws(v: &Vec<char>, from: usize) -> (r: usize)
    requires
        from <= v@.len(),
    ensures
        r as int == skip_non_ws(v@, from as int),
        from <= r <= v@.len(),
{
    let n = v.len();
    let mut i: usize = from;
    while i < n && !ex_is_space(v[i])
        invariant
            from <= i <= n,
            n == v@.len(),
            skip_non_ws(v@, from as int) == skip_non_ws(v@, i as int),
        decreases n - i,
    {
        i += 1;
    }
    i
}

/// The second whitespace-delimited token of a line.
fn ex_second_token(v: &Vec<char>) -> (r: Vec<char>)
    ensures
        r@ == second_token(v@),
{
    let a = ex_skip_ws(v, 0);
    let b = ex_skip_non_ws(v, a);
    let c = ex_skip_ws(v, b);
    let d = ex_skip_non_ws(v, c);
    sub_vec(v, c, d)
}

/// The numeric reading of a status token.
fn ex_parse_status(tok: &Vec<char>) -> (r: u16)
    ensures
        r as int == parse_status(tok@),
{
    let n = tok.len();
    if n == 0 {
        return 0;
    }
    let mut val: u64 = 0;
    let mut i: usize = 0;
    while i < n
        invariant
            i <= n,
            n == tok@.len(),
            all_digits(tok@.take(i as int)),
            val as int == dec_val(tok@.take(i as int)),
            val <= 65535,
        decreases n - i,
    {
        let c = tok[i];
        if !ex_is_digit(c) {
            proof {
                assert(tok@[i as int] == c);
            }
            return 0;
        }
        let d: u64 = (c as u64) - 48;
        proof {
            let prev = tok@.take(i as int);
            let next = tok@.take(i as int + 1);
            assert(next.drop_last() =~= prev);
            assert(next.last() == c);
        }
        val = val * 10 + d;
        i += 1;
        if val > 65535 {
            proof {
                assert(all_digits(tok@.take(i as int)));
                if tok@.len() >= 1 && all_digits(tok@) && dec_val(tok@) <= 65535 {
                    lemma_dec_val_prefix_le(tok@, i as int);
                }
            }
            return 0;
        }
    }
    proof {
        assert(tok@.take(n as int) =~= tok@);
    }
    val as u16
}

/// The HTTP status code of a raw response: the second token of its first
/// line, read as a number; zero when absent or malformed.
pub fn status_code_of_output(stdout: &str) -> (r: u16)
    ensures
        r as int == status_code_of(stdout@),
{
    let hv = str_chars(stdout);
    let lines = ex_split_lines(&hv);
    if lines.len() == 0 {
        return 0;
    }
    let tok = ex_second_token(&lines[0]);
    proof {
        assert(lines@[0].deep_view() =~= lines@[0]@);
        assert(lines@[0].deep_view() == lines.deep_view()[0]);
        assert(lines.deep_view()[0] == split_lines(stdout@)[0]);
        assert(tok@ == second_token(split_lines(stdout@)[0]));
    }
    ex_parse_status(&tok)
}

} // verus!
