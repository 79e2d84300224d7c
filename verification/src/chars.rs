//! Character-level utilities shared by the address expander, the header
//! classifier and the aggregation pipeline.
//!
//! Everything here is stated over `Seq<char>`, the view of `String` and
//! `&str`. Executable code works on `Vec<char>`, converting from `&str` at
//! the boundary; `chars_to_string` converts back.

use vstd::prelude::*;

verus! {

/// Decimal digit.
pub open spec fn is_digit(c: char) -> bool {
    '0' <= c && c <= '9'
}

/// Numeric value of a decimal digit.
pub open spec fn digit_val(c: char) -> int {
    c as int - '0' as int
}

/// The digit character for a value in `0..10`.
pub open spec fn digit_char(d: int) -> char {
    ((d + 48) as u32) as char
}

/// ASCII lower-casing of one character; everything else is unchanged.
pub open spec fn lower_char(c: char) -> char {
    if 'A' <= c && c <= 'Z' {
        ((c as u32) + 32) as char
    } else {
        c
    }
}

/// ASCII upper-casing of one character; everything else is unchanged.
pub open spec fn upper_char(c: char) -> char {
    if 'a' <= c && c <= 'z' {
        ((c as u32) - 32) as char
    } else {
        c
    }
}

/// Character-wise ASCII lower-casing.
pub open spec fn map_lower(s: Seq<char>) -> Seq<char> {
    Seq::new(s.len(), |i: int| lower_char(s[i]))
}

/// Character-wise ASCII upper-casing.
pub open spec fn map_upper(s: Seq<char>) -> Seq<char> {
    Seq::new(s.len(), |i: int| upper_char(s[i]))
}

/// ASCII whitespace, as trimmed from input lines.
pub open spec fn is_space(c: char) -> bool {
    c == ' ' || c == '\t' || c == '\n' || c == '\r' || c == '\u{b}' || c == '\u{c}'
}

/// The pattern `pat` occurs in `s` at position `i`.
pub open spec fn match_at(s: Seq<char>, pat: Seq<char>, i: int) -> bool {
    &&& 0 <= i
    &&& i + pat.len() <= s.len()
    &&& s.subrange(i, i + pat.len() as int) == pat
}

/// Position of the first occurrence of `pat` in `s` at or after `from`;
/// `-1` if there is none.
pub open spec fn find_sub(s: Seq<char>, pat: Seq<char>, from: int) -> int
    decreases s.len() - from + 1,
{
    if from < 0 || from + pat.len() > s.len() {
        -1
    } else if match_at(s, pat, from) {
        from
    } else {
        find_sub(s, pat, from + 1)
    }
}

/// `pat` occurs somewhere in `s`.
pub open spec fn contains_sub(s: Seq<char>, pat: Seq<char>) -> bool {
    find_sub(s, pat, 0) >= 0
}

/// `s` begins with `pat`.
pub open spec fn starts_with(s: Seq<char>, pat: Seq<char>) -> bool {
    match_at(s, pat, 0)
}

/// Leading whitespace removed.
pub open spec fn trim_start(s: Seq<char>) -> Seq<char>
    decreases s.len(),
{
    if s.len() > 0 && is_space(s[0]) {
        trim_start(s.drop_first())
    } else {
        s
    }
}

/// Trailing whitespace removed.
pub open spec fn trim_end(s: Seq<char>) -> Seq<char>
    decreases s.len(),
{
    if s.len() > 0 && is_space(s.last()) {
        trim_end(s.drop_last())
    } else {
        s
    }
}

/// Both ends trimmed, as `str::trim` does for ASCII whitespace.
pub open spec fn trim(s: Seq<char>) -> Seq<char> {
    trim_end(trim_start(s))
}

/// Value of a string of decimal digits, most significant first.
pub open spec fn dec_val(s: Seq<char>) -> int
    decreases s.len(),
{
    if s.len() == 0 {
        0
    } else {
        dec_val(s.drop_last()) * 10 + digit_val(s.last())
    }
}

/// All characters are decimal digits.
pub open spec fn all_digits(s: Seq<char>) -> bool {
    forall|i: int| 0 <= i < s.len() ==> is_digit(#[trigger] s[i])
}

/// Canonical decimal rendering of a non-negative integer (no leading
/// zeros; `0` renders as `"0"`).
pub open spec fn fmt_nat(n: int) -> Seq<char>
    decreases n,
{
    if n < 10 {
        seq![digit_char(n)]
    } else {
        fmt_nat(n / 10).push(digit_char(n % 10))
    }
}

/// The canonical rendering evaluates back to the number it was made from,
/// consists of digits only, and carries no leading zero.
pub proof fn lemma_fmt_nat_correct(n: int)
    requires
        0 <= n,
    ensures
        dec_val(fmt_nat(n)) == n,
        all_digits(fmt_nat(n)),
        1 <= fmt_nat(n).len(),
        fmt_nat(n).len() > 1 ==> fmt_nat(n)[0] != '0',
        n > 0 ==> fmt_nat(n)[0] != '0',
    decreases n,
{
    if n < 10 {
        let s = fmt_nat(n);
        assert(s == seq![digit_char(n)]);
        assert(s.len() == 1 && s.last() == digit_char(n) && s[0] == digit_char(n));
        assert(s.drop_last() =~= Seq::<char>::empty());
        assert(dec_val(s.drop_last()) == 0);
        assert(digit_char(n) as int == n + 48);
        assert(digit_val(digit_char(n)) == n);
        assert(is_digit(digit_char(n)));
        assert(n > 0 ==> s[0] != '0');
    } else {
        lemma_fmt_nat_correct(n / 10);
        let prefix = fmt_nat(n / 10);
        assert(fmt_nat(n) == prefix.push(digit_char(n % 10)));
        assert(fmt_nat(n).drop_last() =~= prefix);
        assert(fmt_nat(n).last() == digit_char(n % 10));
        assert(digit_char(n % 10) as int == n % 10 + 48);
        assert(digit_val(digit_char(n % 10)) == n % 10);
        assert(is_digit(digit_char(n % 10)));
        assert(dec_val(fmt_nat(n)) == (n / 10) * 10 + (n % 10));
        assert(fmt_nat(n)[0] == prefix[0]);
        assert forall|i: int| 0 <= i < fmt_nat(n).len() implies is_digit(#[trigger] fmt_nat(n)[i]) by {
            if i < prefix.len() {
                assert(fmt_nat(n)[i] == prefix[i]);
            }
        }
    }
}

/// A digit string of at most three characters evaluates below 1000, one
/// of at most two below 100, one of at most one below 10.
pub proof fn lemma_dec_val_small(s: Seq<char>)
    requires
        all_digits(s),
        s.len() <= 3,
    ensures
        0 <= dec_val(s),
        dec_val(s) <= 999,
        s.len() <= 2 ==> dec_val(s) <= 99,
        s.len() <= 1 ==> dec_val(s) <= 9,
    decreases s.len(),
{
    if s.len() > 0 {
        assert(is_digit(s.last()));
        assert(0 <= digit_val(s.last()) <= 9);
        assert(all_digits(s.drop_last())) by {
            assert(forall|i: int|
                0 <= i < s.len() - 1 ==> #[trigger] s.drop_last()[i] == s[i]);
        }
        lemma_dec_val_small(s.drop_last());
    }
}

/// A non-negative `find_sub` result is a match position at or after
/// `from`, and `-1` means there is no match at or after `from`.
pub proof fn lemma_find_sub_is_match(s: Seq<char>, pat: Seq<char>, from: int)
    requires
        0 <= from,
    ensures
        find_sub(s, pat, from) >= 0 ==> from <= find_sub(s, pat, from) && match_at(
            s,
            pat,
            find_sub(s, pat, from),
        ),
        find_sub(s, pat, from) == -1 ==> forall|i: int| from <= i ==> !match_at(s, pat, i),
    decreases s.len() - from + 1,
{
    if from + pat.len() > s.len() {
        assert forall|i: int| from <= i implies !match_at(s, pat, i) by {}
    } else if match_at(s, pat, from) {
    } else {
        lemma_find_sub_is_match(s, pat, from + 1);
    }
}

/// A digit string evaluates to a non-negative value.
pub proof fn lemma_dec_val_nonneg(s: Seq<char>)
    requires
        all_digits(s),
    ensures
        0 <= dec_val(s),
    decreases s.len(),
{
    if s.len() > 0 {
        assert(is_digit(s.last()));
        assert(all_digits(s.drop_last())) by {
            assert(forall|i: int|
                0 <= i < s.len() - 1 ==> #[trigger] s.drop_last()[i] == s[i]);
        }
        lemma_dec_val_nonneg(s.drop_last());
    }
}

/// A prefix of a digit string evaluates to at most the whole string.
pub proof fn lemma_dec_val_prefix_le(s: Seq<char>, i: int)
    requires
        all_digits(s),
        0 <= i <= s.len(),
    ensures
        dec_val(s.take(i)) <= dec_val(s),
    decreases s.len() - i,
{
    if i < s.len() {
        assert(all_digits(s.drop_last())) by {
            assert(forall|k: int|
                0 <= k < s.len() - 1 ==> #[trigger] s.drop_last()[k] == s[k]);
        }
        assert(s.drop_last().take(i) =~= s.take(i));
        lemma_dec_val_prefix_le(s.drop_last(), i);
        lemma_dec_val_nonneg(s.drop_last());
        assert(is_digit(s.last()));
        assert(dec_val(s) == dec_val(s.drop_last()) * 10 + digit_val(s.last()));
    } else {
        assert(s.take(i) =~= s);
    }
}

/// Converts a character vector into a `String` holding exactly those
/// characters.
///
/// Relies on `String`'s `FromIterator<char>` implementation: collecting
/// characters builds the string of those characters in order.
#[verifier::external_body]
pub fn chars_to_string(v: &Vec<char>) -> (r: String)
    ensures
        r@ == v@,
{
    v.iter().collect()
}

/// The characters of `s`, in order.
pub fn str_chars(s: &str) -> (v: Vec<char>)
    ensures
        v@ == s@,
{
    let n = s.unicode_len();
    let mut v: Vec<char> = Vec::new();
    let mut i: usize = 0;
    while i < n
        invariant
            n == s@.len(),
            i <= n,
            v@ =~= s@.subrange(0, i as int),
        decreases n - i,
    {
        v.push(s.get_char(i));
        i += 1;
        proof {
            assert(v@ =~= s@.subrange(0, i as int));
        }
    }
    proof {
        assert(v@ =~= s@);
    }
    v
}

/// Executable ASCII lower-casing of one character.
pub fn ex_lower_char(c: char) -> (r: char)
    ensures
        r == lower_char(c),
{
    if 'A' <= c && c <= 'Z' {
        ((c as u8) + 32) as char
    } else {
        c
    }
}

/// Executable ASCII upper-casing of one character.
pub fn ex_upper_char(c: char) -> (r: char)
    ensures
        r == upper_char(c),
{
    if 'a' <= c && c <= 'z' {
        ((c as u8) - 32) as char
    } else {
        c
    }
}

/// Executable character-wise lower-casing.
pub fn ex_map_lower(v: &Vec<char>) -> (r: Vec<char>)
    ensures
        r@ == map_lower(v@),
{
    let mut r: Vec<char> = Vec::new();
    let mut i: usize = 0;
    while i < v.len()
        invariant
            i <= v@.len(),
            r@ =~= map_lower(v@).subrange(0, i as int),
        decreases v@.len() - i,
    {
        r.push(ex_lower_char(v[i]));
        i += 1;
        proof {
            assert(r@ =~= map_lower(v@).subrange(0, i as int));
        }
    }
    proof {
        assert(r@ =~= map_lower(v@));
    }
    r
}

/// Executable character-wise upper-casing.
pub fn ex_map_upper(v: &Vec<char>) -> (r: Vec<char>)
    ensures
        r@ == map_upper(v@),
{
    let mut r: Vec<char> = Vec::new();
    let mut i: usize = 0;
    while i < v.len()
        invariant
            i <= v@.len(),
            r@ =~= map_upper(v@).subrange(0, i as int),
        decreases v@.len() - i,
    {
        r.push(ex_upper_char(v[i]));
        i += 1;
        proof {
            assert(r@ =~= map_upper(v@).subrange(0, i as int));
        }
    }
    proof {
        assert(r@ =~= map_upper(v@));
    }
    r
}

/// A copy of `v[from..to]`.
pub fn sub_vec(v: &Vec<char>, from: usize, to: usize) -> (r: Vec<char>)
    requires
        from <= to <= v@.len(),
    ensures
        r@ == v@.subrange(from as int, to as int),
{
    let mut r: Vec<char> = Vec::new();
    let mut i: usize = from;
    while i < to
        invariant
            from <= i <= to <= v@.len(),
            r@ =~= v@.subrange(from as int, i as int),
        decreases to - i,
    {
        r.push(v[i]);
        i += 1;
        proof {
            assert(r@ =~= v@.subrange(from as int, i as int));
        }
    }
    r
}

/// Whether `pat` occurs in `v` at position `i`.
pub fn ex_match_at(v: &Vec<char>, pat: &Vec<char>, i: usize) -> (r: bool)
    requires
        i + pat@.len() <= v@.len(),
    ensures
        r == match_at(v@, pat@, i as int),
{
    let plen = pat.len();
    let vlen = v.len();
    let mut j: usize = 0;
    while j < plen
        invariant
            plen == pat@.len(),
            vlen == v@.len(),
            i + plen <= vlen,
            j <= plen,
            forall|k: int| 0 <= k < j ==> v@[i + k] == pat@[k],
        decreases plen - j,
    {
        if v[i + j] != pat[j] {
            proof {
                assert(v@.subrange(i as int, i + pat@.len() as int)[j as int] != pat@[j as int]);
            }
            return false;
        }
        j += 1;
    }
    proof {
        assert(v@.subrange(i as int, i + pat@.len() as int) =~= pat@);
    }
    true
}

/// Position of the first occurrence of `pat` in `v` at or after `from`.
pub fn ex_find_sub(v: &Vec<char>, pat: &Vec<char>, from: usize) -> (r: Option<usize>)
    ensures
        match r {
            Some(i) => from <= i && i as int == find_sub(v@, pat@, from as int),
            None => find_sub(v@, pat@, from as int) == -1,
        },
{
    if pat.len() > v.len() || from > v.len() - pat.len() {
        proof {
            lemma_find_sub_none(v@, pat@, from as int);
        }
        return None;
    }
    let last_start: usize = v.len() - pat.len();
    let mut i: usize = from;
    loop
        invariant
            from <= i <= last_start,
            pat@.len() + last_start == v@.len(),
            find_sub(v@, pat@, from as int) == find_sub(v@, pat@, i as int),
        decreases last_start - i,
    {
        if ex_match_at(v, pat, i) {
            return Some(i);
        }
        if i == last_start {
            proof {
                assert(find_sub(v@, pat@, i as int + 1) == -1);
                assert(find_sub(v@, pat@, i as int) == -1);
            }
            return None;
        }
        i += 1;
    }
}

proof fn lemma_find_sub_none(s: Seq<char>, pat: Seq<char>, from: int)
    requires
        from + pat.len() > s.len(),
    ensures
        find_sub(s, pat, from) == -1,
{
}

/// Whether `pat` occurs anywhere in `v`.
pub fn ex_contains_sub(v: &Vec<char>, pat: &Vec<char>) -> (r: bool)
    ensures
        r == contains_sub(v@, pat@),
{
    proof {
        lemma_find_sub_from_zero(v@, pat@);
    }
    ex_find_sub(v, pat, 0).is_some()
}

proof fn lemma_find_sub_from_zero(s: Seq<char>, pat: Seq<char>)
    ensures
        contains_sub(s, pat) == (find_sub(s, pat, 0) >= 0),
{
}

/// Whether `v` begins with `pat`.
pub fn ex_starts_with(v: &Vec<char>, pat: &Vec<char>) -> (r: bool)
    ensures
        r == starts_with(v@, pat@),
{
    if pat.len() > v.len() {
        return false;
    }
    ex_match_at(v, pat, 0)
}

/// Executable whitespace test.
pub fn ex_is_space(c: char) -> (r: bool)
    ensures
        r == is_space(c),
{
    c == ' ' || c == '\t' || c == '\n' || c == '\r' || c == '\u{b}' || c == '\u{c}'
}

/// Both ends of `v` trimmed of ASCII whitespace.
pub fn ex_trim(v: &Vec<char>) -> (r: Vec<char>)
    ensures
        r@ == trim(v@),
{
    proof {
        assert(v@.subrange(0, v@.len() as int) =~= v@);
    }
    let mut start: usize = 0;
    while start < v.len() && ex_is_space(v[start])
        invariant
            start <= v@.len(),
            trim_start(v@) == trim_start(v@.subrange(start as int, v@.len() as int)),
        decreases v@.len() - start,
    {
        proof {
            let rest = v@.subrange(start as int, v@.len() as int);
            assert(rest.drop_first() =~= v@.subrange(start as int + 1, v@.len() as int));
        }
        start += 1;
    }
    proof {
        let rest = v@.subrange(start as int, v@.len() as int);
        assert(trim_start(rest) == rest);
    }
    let mut end: usize = v.len();
    while end > start && ex_is_space(v[end - 1])
        invariant
            start <= end <= v@.len(),
            trim_start(v@) == v@.subrange(start as int, v@.len() as int),
            trim_end(trim_start(v@)) == trim_end(v@.subrange(start as int, end as int)),
        decreases end,
    {
        proof {
            let cur = v@.subrange(start as int, end as int);
            assert(cur.last() == v@[end - 1]);
            assert(cur.drop_last() =~= v@.subrange(start as int, end as int - 1));
        }
        end -= 1;
    }
    proof {
        let cur = v@.subrange(start as int, end as int);
        assert(trim_end(cur) == cur);
    }
    sub_vec(v, start, end)
}

/// Executable digit test.
pub fn ex_is_digit(c: char) -> (r: bool)
    ensures
        r == is_digit(c),
{
    '0' <= c && c <= '9'
}

/// Appends the canonical decimal rendering of `n` to `out`.
pub fn push_decimal(n: u64, out: &mut Vec<char>)
    ensures
        final(out)@ == old(out)@ + fmt_nat(n as int),
    decreases n,
{
    if n < 10 {
        let c = (48u8 + (n as u8)) as char;
        proof {
            assert(c == digit_char(n as int));
            assert(fmt_nat(n as int) == seq![digit_char(n as int)]);
        }
        out.push(c);
        proof {
            assert(out@ =~= old(out)@ + fmt_nat(n as int));
        }
    } else {
        push_decimal(n / 10, out);
        let c = (48u8 + ((n % 10) as u8)) as char;
        proof {
            assert(c == digit_char(n as int % 10));
        }
        out.push(c);
        proof {
            assert(out@ =~= old(out)@ + fmt_nat(n as int));
        }
    }
}

/// The canonical decimal rendering of `n`, as a `String`.
pub fn fmt_u64(n: u64) -> (r: String)
    ensures
        r@ == fmt_nat(n as int),
{
    let mut out: Vec<char> = Vec::new();
    push_decimal(n, &mut out);
    chars_to_string(&out)
}

} // verus!
