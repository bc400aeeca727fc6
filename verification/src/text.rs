//! Character and string helpers shared by the protocol and MIME modules.
//!
//! Everything here is stated over `Seq<char>` views; the executable
//! functions mirror the spec functions exactly.

use vstd::prelude::*;
use vstd::string::StrSliceExecFns;
use vstd::string::StringExecFns;

verus! {

// ---------------------------------------------------------------------------
// Character classes
// ---------------------------------------------------------------------------

/// Whitespace as this library trims it around commands and addresses.
pub open spec fn is_ws_char(c: char) -> bool {
    c == ' ' || c == '\t' || c == '\r' || c == '\n'
}

pub open spec fn is_upper_alpha(c: char) -> bool {
    65 <= c as int && c as int <= 90
}

pub open spec fn is_lower_alpha(c: char) -> bool {
    97 <= c as int && c as int <= 122
}

/// ASCII-case-insensitive equality of two characters.
pub open spec fn chars_eq_ci(a: char, b: char) -> bool {
    a == b
    || (is_upper_alpha(a) && is_lower_alpha(b) && a as int + 32 == b as int)
    || (is_lower_alpha(a) && is_upper_alpha(b) && b as int + 32 == a as int)
}

/// ASCII-case-insensitive equality of two strings.
pub open spec fn seq_eq_ci(a: Seq<char>, b: Seq<char>) -> bool {
    a.len() == b.len() && forall|i: int| 0 <= i < a.len() ==> chars_eq_ci(a[i], b[i])
}

/// `s` begins with `p`, ASCII-case-insensitively.
pub open spec fn starts_with_ci_spec(s: Seq<char>, p: Seq<char>) -> bool {
    s.len() >= p.len() && seq_eq_ci(s.subrange(0, p.len() as int), p)
}

/// `s` begins with `p`, case-sensitively.
pub open spec fn starts_with_spec(s: Seq<char>, p: Seq<char>) -> bool {
    s.len() >= p.len() && s.subrange(0, p.len() as int) == p
}

/// `s` ends with `p`, case-sensitively.
pub open spec fn ends_with_spec(s: Seq<char>, p: Seq<char>) -> bool {
    s.len() >= p.len() && s.subrange(s.len() - p.len(), s.len() as int) == p
}

/// `p` occurs in `s` starting at position `i`.
pub open spec fn has_substring_at(s: Seq<char>, p: Seq<char>, i: int) -> bool {
    0 <= i && i + p.len() <= s.len() && s.subrange(i, i + p.len()) == p
}

/// `p` occurs somewhere in `s`.
pub open spec fn contains_spec(s: Seq<char>, p: Seq<char>) -> bool {
    exists|i: int| has_substring_at(s, p, i)
}

// ---------------------------------------------------------------------------
// First / last occurrence of a character
// ---------------------------------------------------------------------------

/// Index of the first occurrence of `c` in `s`, or -1.
pub open spec fn find_c(s: Seq<char>, c: char) -> int
    decreases s.len(),
{
    if s.len() == 0 {
        -1
    } else if s[0] == c {
        0
    } else if find_c(s.drop_first(), c) == -1 {
        -1
    } else {
        find_c(s.drop_first(), c) + 1
    }
}

/// Index of the last occurrence of `c` in `s`, or -1.
pub open spec fn rfind_c(s: Seq<char>, c: char) -> int
    decreases s.len(),
{
    if s.len() == 0 {
        -1
    } else if s.last() == c {
        s.len() - 1
    } else {
        rfind_c(s.drop_last(), c)
    }
}

pub proof fn lemma_find_c(s: Seq<char>, c: char)
    ensures
        find_c(s, c) == -1 ==> forall|j: int| 0 <= j < s.len() ==> s[j] != c,
        find_c(s, c) != -1 ==> 0 <= find_c(s, c) < s.len() && s[find_c(s, c)] == c
            && forall|j: int| 0 <= j < find_c(s, c) ==> s[j] != c,
    decreases s.len(),
{
    if s.len() > 0 && s[0] != c {
        let t = s.drop_first();
        lemma_find_c(t, c);
        if find_c(t, c) == -1 {
            assert forall|j: int| 0 <= j < s.len() implies s[j] != c by {
                if j > 0 {
                    assert(s[j] == t[j - 1]);
                }
            }
        } else {
            let i = find_c(t, c);
            assert(s[i + 1] == t[i]);
            assert forall|j: int| 0 <= j < i + 1 implies s[j] != c by {
                if j > 0 {
                    assert(s[j] == t[j - 1]);
                }
            }
        }
    }
}

pub proof fn lemma_rfind_c(s: Seq<char>, c: char)
    ensures
        rfind_c(s, c) == -1 ==> forall|j: int| 0 <= j < s.len() ==> s[j] != c,
        rfind_c(s, c) != -1 ==> 0 <= rfind_c(s, c) < s.len() && s[rfind_c(s, c)] == c
            && forall|j: int| rfind_c(s, c) < j < s.len() ==> s[j] != c,
    decreases s.len(),
{
    if s.len() > 0 && s.last() != c {
        let t = s.drop_last();
        lemma_rfind_c(t, c);
        assert(forall|j: int| 0 <= j < t.len() ==> t[j] == s[j]);
        if rfind_c(t, c) != -1 {
            let i = rfind_c(t, c);
            assert forall|j: int| i < j < s.len() implies s[j] != c by {
                if j < t.len() {
                    assert(s[j] == t[j]);
                }
            }
        }
    }
}

// ---------------------------------------------------------------------------
// Trimming
// ---------------------------------------------------------------------------

pub open spec fn trim_l(s: Seq<char>) -> Seq<char>
    decreases s.len(),
{
    if s.len() > 0 && is_ws_char(s[0]) {
        trim_l(s.drop_first())
    } else {
        s
    }
}

pub open spec fn trim_r(s: Seq<char>) -> Seq<char>
    decreases s.len(),
{
    if s.len() > 0 && is_ws_char(s.last()) {
        trim_r(s.drop_last())
    } else {
        s
    }
}

/// Whitespace removed from both ends.
pub open spec fn trim_spec(s: Seq<char>) -> Seq<char> {
    trim_r(trim_l(s))
}

proof fn lemma_trim_l_at(s: Seq<char>, k: int)
    requires
        0 <= k <= s.len(),
        forall|j: int| 0 <= j < k ==> is_ws_char(s[j]),
        k < s.len() ==> !is_ws_char(s[k]),
    ensures
        trim_l(s) =~= s.subrange(k, s.len() as int),
    decreases k,
{
    if k == 0 {
        if s.len() > 0 && is_ws_char(s[0]) {
            assert(false);
        }
    } else {
        let t = s.drop_first();
        assert(forall|j: int| 0 <= j < t.len() ==> t[j] == s[j + 1]);
        lemma_trim_l_at(t, k - 1);
        assert(t.subrange(k - 1, t.len() as int) =~= s.subrange(k, s.len() as int));
    }
}

proof fn lemma_trim_r_at(s: Seq<char>, k: int)
    requires
        0 <= k <= s.len(),
        forall|j: int| k <= j < s.len() ==> is_ws_char(s[j]),
        k > 0 ==> !is_ws_char(s[k - 1]),
    ensures
        trim_r(s) =~= s.subrange(0, k),
    decreases s.len() - k,
{
    if k == s.len() {
        if s.len() > 0 && is_ws_char(s.last()) {
            assert(false);
        }
        assert(trim_r(s) =~= s.subrange(0, k));
    } else {
        let t = s.drop_last();
        assert(forall|j: int| 0 <= j < t.len() ==> t[j] == s[j]);
        lemma_trim_r_at(t, k);
        assert(t.subrange(0, k) =~= s.subrange(0, k));
    }
}

fn is_ws(c: char) -> (r: bool)
    ensures
        r == is_ws_char(c),
{
    c == ' ' || c == '\t' || c == '\r' || c == '\n'
}

/// Whitespace trimmed from both ends of `s`.
pub fn trim_str<'a>(s: &'a str) -> (r: &'a str)
    ensures
        r@ == trim_spec(s@),
{
    let len = s.unicode_len();
    let mut start: usize = 0;
    while start < len && is_ws(s.get_char(start))
        invariant
            len == s@.len(),
            0 <= start <= len,
            forall|j: int| 0 <= j < start ==> is_ws_char(s@[j]),
        decreases len - start,
    {
        start += 1;
    }
    let mut end: usize = len;
    while end > start && is_ws(s.get_char(end - 1))
        invariant
            len == s@.len(),
            start <= end <= len,
            forall|j: int| end <= j < len ==> is_ws_char(s@[j]),
        decreases end,
    {
        end -= 1;
    }
    proof {
        lemma_trim_l_at(s@, start as int);
        let t = s@.subrange(start as int, s@.len() as int);
        assert(forall|j: int| end - start <= j < t.len() ==> is_ws_char(t[j]));
        lemma_trim_r_at(t, end - start);
        assert(t.subrange(0, end - start) =~= s@.subrange(start as int, end as int));
    }
    s.substring_char(start, end)
}

// ---------------------------------------------------------------------------
// Executable comparisons
// ---------------------------------------------------------------------------

pub fn char_eq_ci(a: char, b: char) -> (r: bool)
    ensures
        r == chars_eq_ci(a, b),
{
    if a == b {
        true
    } else {
        let au = a as u32;
        let bu = b as u32;
        (65 <= au && au <= 90 && 97 <= bu && bu <= 122 && au + 32 == bu)
            || (65 <= bu && bu <= 90 && 97 <= au && au <= 122 && bu + 32 == au)
    }
}

/// Case-sensitive string equality.
pub fn str_eq(a: &str, b: &str) -> (r: bool)
    ensures
        r == (a@ == b@),
{
    let alen = a.unicode_len();
    let blen = b.unicode_len();
    if alen != blen {
        return false;
    }
    let mut i: usize = 0;
    while i < alen
        invariant
            alen == a@.len(),
            alen == b@.len(),
            0 <= i <= alen,
            forall|j: int| 0 <= j < i ==> a@[j] == b@[j],
        decreases alen - i,
    {
        if a.get_char(i) != b.get_char(i) {
            return false;
        }
        i += 1;
    }
    proof {
        assert(a@ =~= b@);
    }
    true
}

/// ASCII-case-insensitive string equality.
pub fn str_eq_ci(a: &str, b: &str) -> (r: bool)
    ensures
        r == seq_eq_ci(a@, b@),
{
    let alen = a.unicode_len();
    let blen = b.unicode_len();
    if alen != blen {
        return false;
    }
    let mut i: usize = 0;
    while i < alen
        invariant
            alen == a@.len(),
            alen == b@.len(),
            0 <= i <= alen,
            forall|j: int| 0 <= j < i ==> chars_eq_ci(a@[j], b@[j]),
        decreases alen - i,
    {
        if !char_eq_ci(a.get_char(i), b.get_char(i)) {
            return false;
        }
        i += 1;
    }
    true
}

/// `s` begins with `p`, ASCII-case-insensitively.
pub fn starts_with_ci(s: &str, p: &str) -> (r: bool)
    ensures
        r == starts_with_ci_spec(s@, p@),
{
    let slen = s.unicode_len();
    let plen = p.unicode_len();
    if slen < plen {
        return false;
    }
    let mut i: usize = 0;
    while i < plen
        invariant
            slen == s@.len(),
            plen == p@.len(),
            slen >= plen,
            0 <= i <= plen,
            forall|j: int| 0 <= j < i ==> chars_eq_ci(s@[j], p@[j]),
        decreases plen - i,
    {
        if !char_eq_ci(s.get_char(i), p.get_char(i)) {
            proof {
                assert(s@.subrange(0, p@.len() as int)[i as int] == s@[i as int]);
            }
            return false;
        }
        i += 1;
    }
    proof {
        assert(forall|j: int| 0 <= j < p@.len()
            ==> s@.subrange(0, p@.len() as int)[j] == s@[j]);
    }
    true
}

/// `s` begins with `p`, case-sensitively.
pub fn starts_with(s: &str, p: &str) -> (r: bool)
    ensures
        r == starts_with_spec(s@, p@),
{
    let slen = s.unicode_len();
    let plen = p.unicode_len();
    if slen < plen {
        return false;
    }
    let mut i: usize = 0;
    while i < plen
        invariant
            slen == s@.len(),
            plen == p@.len(),
            slen >= plen,
            0 <= i <= plen,
            forall|j: int| 0 <= j < i ==> s@[j] == p@[j],
        decreases plen - i,
    {
        if s.get_char(i) != p.get_char(i) {
            proof {
                assert(s@.subrange(0, p@.len() as int)[i as int] == s@[i as int]);
            }
            return false;
        }
        i += 1;
    }
    proof {
        assert(s@.subrange(0, p@.len() as int) =~= p@);
    }
    true
}

/// `s` ends with `p`, case-sensitively.
pub fn ends_with(s: &str, p: &str) -> (r: bool)
    ensures
        r == ends_with_spec(s@, p@),
{
    let slen = s.unicode_len();
    let plen = p.unicode_len();
    if slen < plen {
        return false;
    }
    let off = slen - plen;
    let mut i: usize = 0;
    while i < plen
        invariant
            slen == s@.len(),
            plen == p@.len(),
            slen >= plen,
            off == slen - plen,
            0 <= i <= plen,
            forall|j: int| 0 <= j < i ==> s@[off + j] == p@[j],
        decreases plen - i,
    {
        if s.get_char(off + i) != p.get_char(i) {
            proof {
                assert(s@.subrange(s@.len() - p@.len(), s@.len() as int)[i as int]
                    == s@[off + i]);
            }
            return false;
        }
        i += 1;
    }
    proof {
        assert(s@.subrange(s@.len() - p@.len(), s@.len() as int) =~= p@);
    }
    true
}

/// First occurrence of `c` in `s`.
pub fn find_char(s: &str, c: char) -> (r: Option<usize>)
    ensures
        match r {
            Some(i) => i == find_c(s@, c) && i < s@.len() && s@[i as int] == c,
            None => find_c(s@, c) == -1,
        },
{
    let len = s.unicode_len();
    let mut i: usize = 0;
    while i < len
        invariant
            len == s@.len(),
            0 <= i <= len,
            forall|j: int| 0 <= j < i ==> s@[j] != c,
        decreases len - i,
    {
        if s.get_char(i) == c {
            proof {
                lemma_find_c(s@, c);
            }
            return Some(i);
        }
        i += 1;
    }
    proof {
        lemma_find_c(s@, c);
    }
    None
}

/// Last occurrence of `c` in `s`.
pub fn rfind_char(s: &str, c: char) -> (r: Option<usize>)
    ensures
        match r {
            Some(i) => i == rfind_c(s@, c) && i < s@.len() && s@[i as int] == c,
            None => rfind_c(s@, c) == -1,
        },
{
    let len = s.unicode_len();
    let mut i: usize = len;
    while i > 0
        invariant
            len == s@.len(),
            0 <= i <= len,
            forall|j: int| i <= j < len ==> s@[j] != c,
        decreases i,
    {
        i -= 1;
        if s.get_char(i) == c {
            proof {
                lemma_rfind_c(s@, c);
            }
            return Some(i);
        }
    }
    proof {
        lemma_rfind_c(s@, c);
    }
    None
}

/// `p` occurs somewhere in `s`, case-sensitively.
pub fn contains_str(s: &str, p: &str) -> (r: bool)
    ensures
        r == contains_spec(s@, p@),
{
    let slen = s.unicode_len();
    let plen = p.unicode_len();
    if plen > slen {
        proof {
            assert(forall|i: int| !has_substring_at(s@, p@, i));
        }
        return false;
    }
    if plen == 0 {
        proof {
            assert(s@.subrange(0, 0) =~= p@);
            assert(has_substring_at(s@, p@, 0));
        }
        return true;
    }
    let mut i: usize = 0;
    while i <= slen - plen
        invariant
            slen == s@.len(),
            plen == p@.len(),
            0 < plen <= slen,
            0 <= i <= slen - plen + 1,
            forall|k: int| 0 <= k < i ==> !has_substring_at(s@, p@, k),
        decreases slen - i,
    {
        let mut j: usize = 0;
        let mut matched = true;
        while j < plen
            invariant
                slen == s@.len(),
                plen == p@.len(),
                plen <= slen,
                0 <= i <= slen - plen,
                0 <= j <= plen,
                matched ==> forall|k: int| 0 <= k < j ==> s@[i + k] == p@[k],
                !matched ==> !has_substring_at(s@, p@, i as int),
            decreases plen - j,
        {
            if s.get_char(i + j) != p.get_char(j) {
                proof {
                    assert(s@.subrange(i as int, i + p@.len())[j as int] == s@[i + j]);
                }
                matched = false;
                j = plen;
            } else {
                j += 1;
            }
        }
        if matched {
            proof {
                assert(s@.subrange(i as int, i + p@.len()) =~= p@);
                assert(has_substring_at(s@, p@, i as int));
            }
            return true;
        }
        i += 1;
    }
    proof {
        assert(forall|k: int| has_substring_at(s@, p@, k) ==> 0 <= k <= s@.len() - p@.len());
    }
    false
}

// ---------------------------------------------------------------------------
// Decimal rendering
// ---------------------------------------------------------------------------

pub open spec fn dec_digit_char(d: nat) -> char {
    if d == 0 { '0' }
    else if d == 1 { '1' }
    else if d == 2 { '2' }
    else if d == 3 { '3' }
    else if d == 4 { '4' }
    else if d == 5 { '5' }
    else if d == 6 { '6' }
    else if d == 7 { '7' }
    else if d == 8 { '8' }
    else { '9' }
}

/// The usual decimal rendering of a natural number, most significant digit
/// first, no leading zeros (except for zero itself).
pub open spec fn dec_nat(n: nat) -> Seq<char>
    decreases n,
{
    if n < 10 {
        seq![dec_digit_char(n)]
    } else {
        dec_nat(n / 10) + seq![dec_digit_char(n % 10)]
    }
}

/// Decimal rendering of a (possibly negative) integer.
pub open spec fn dec_int(v: int) -> Seq<char> {
    if v >= 0 {
        dec_nat(v as nat)
    } else {
        seq!['-'] + dec_nat((-v) as nat)
    }
}

fn digit_str(d: u64) -> (r: &'static str)
    requires
        d < 10,
    ensures
        r@ =~= seq![dec_digit_char(d as nat)],
{
    if d == 0 { proof { reveal_strlit("0"); } "0" }
    else if d == 1 { proof { reveal_strlit("1"); } "1" }
    else if d == 2 { proof { reveal_strlit("2"); } "2" }
    else if d == 3 { proof { reveal_strlit("3"); } "3" }
    else if d == 4 { proof { reveal_strlit("4"); } "4" }
    else if d == 5 { proof { reveal_strlit("5"); } "5" }
    else if d == 6 { proof { reveal_strlit("6"); } "6" }
    else if d == 7 { proof { reveal_strlit("7"); } "7" }
    else if d == 8 { proof { reveal_strlit("8"); } "8" }
    else { proof { reveal_strlit("9"); } "9" }
}

fn push_dec_u64(n: u64, out: &mut String)
    ensures
        final(out)@ == old(out)@ + dec_nat(n as nat),
    decreases n,
{
    if n >= 10 {
        push_dec_u64(n / 10, out);
    }
    out.append(digit_str(n % 10));
    proof {
        if n >= 10 {
            assert(old(out)@ + dec_nat((n / 10) as nat) + seq![dec_digit_char((n % 10) as nat)]
                =~= old(out)@ + dec_nat(n as nat));
        } else {
            assert(old(out)@ + seq![dec_digit_char(n as nat)] =~= old(out)@ + dec_nat(n as nat));
        }
    }
}

/// Decimal rendering of `n`.
pub fn u64_to_string(n: u64) -> (r: String)
    ensures
        r@ == dec_nat(n as nat),
{
    let mut s = String::new();
    push_dec_u64(n, &mut s);
    proof {
        assert(s@ =~= dec_nat(n as nat));
    }
    s
}

/// Decimal rendering of `v`, with a leading `-` when negative.
pub fn i64_to_string(v: i64) -> (r: String)
    ensures
        r@ == dec_int(v as int),
{
    if v >= 0 {
        u64_to_string(v as u64)
    } else {
        let mut s = String::from_str("-");
        proof {
            reveal_strlit("-");
            assert(s@ =~= seq!['-']);
        }
        let m: u64 = ((-(v + 1)) as u64) + 1;
        push_dec_u64(m, &mut s);
        s
    }
}

} // verus!
