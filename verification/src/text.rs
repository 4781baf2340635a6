//! Character-level helpers on `str` and `String` used by the rest of the crate.

use vstd::prelude::*;
use vstd::string::*;

verus! {

/// Character-wise equality of two string slices.
pub fn str_equal(a: &str, b: &str) -> (r: bool)
    ensures
        r == (a@ == b@),
{
    let n = a.unicode_len();
    let m = b.unicode_len();
    if n != m {
        return false;
    }
    let mut i: usize = 0;
    while i < n
        invariant
            n == a@.len(),
            m == b@.len(),
            n == m,
            i <= n,
            forall|k: int| 0 <= k < i ==> a@[k] == b@[k],
        decreases n - i,
    {
        if a.get_char(i) != b.get_char(i) {
            return false;
        }
        i += 1;
    }
    assert(a@ =~= b@);
    true
}

/// A fresh `String` holding the characters of `s`.
pub fn to_owned_string(s: &str) -> (r: String)
    ensures
        r@ == s@,
{
    String::from_str(s)
}

/// The concatenation of two strings, as a new `String`.
pub fn concat2(a: &str, b: &str) -> (r: String)
    ensures
        r@ == a@ + b@,
{
    let mut r = String::from_str(a);
    r.append(b);
    r
}

/// The concatenation of three strings, as a new `String`.
pub fn concat3(a: &str, b: &str, c: &str) -> (r: String)
    ensures
        r@ == a@ + b@ + c@,
{
    let mut r = String::from_str(a);
    r.append(b);
    r.append(c);
    r
}

/// True when `p` is a prefix of `s`.
pub open spec fn is_prefix(p: Seq<char>, s: Seq<char>) -> bool {
    p.len() <= s.len() && s.subrange(0, p.len() as int) == p
}

/// Whether `s` starts with `p`, character by character.
pub fn starts_with(s: &str, p: &str) -> (r: bool)
    ensures
        r == is_prefix(p@, s@),
{
    let n = s.unicode_len();
    let m = p.unicode_len();
    if m > n {
        return false;
    }
    let mut i: usize = 0;
    while i < m
        invariant
            n == s@.len(),
            m == p@.len(),
            m <= n,
            i <= m,
            forall|k: int| 0 <= k < i ==> s@[k] == p@[k],
        decreases m - i,
    {
        if s.get_char(i) != p.get_char(i) {
            assert(s@.subrange(0, m as int)[i as int] != p@[i as int]);
            return false;
        }
        i += 1;
    }
    assert(s@.subrange(0, m as int) =~= p@);
    true
}

/// Index of the first occurrence of `c` in `s` at or after `from`, or `s.len()` when none.
pub open spec fn next_index_of(s: Seq<char>, c: char, from: int) -> int
    decreases s.len() - from,
{
    if from >= s.len() {
        s.len() as int
    } else if s[from] == c {
        from
    } else {
        next_index_of(s, c, from + 1)
    }
}

/// The pieces of `s[from..]` separated by `c`, as `str::split` yields them.
pub open spec fn split_from(s: Seq<char>, c: char, from: int) -> Seq<Seq<char>>
    recommends
        0 <= from <= s.len(),
    decreases s.len() - from,
{
    let j = next_index_of(s, c, from);
    if from < 0 || from > s.len() || j >= s.len() {
        seq![s.subrange(from, s.len() as int)]
    } else {
        proof {
            lemma_next_index_bounds(s, c, from);
        }
        seq![s.subrange(from, j)].add(split_from(s, c, j + 1))
    }
}

/// The pieces of `s` separated by `c` (never empty: `""` splits into `[""]`).
pub open spec fn split_on(s: Seq<char>, c: char) -> Seq<Seq<char>> {
    split_from(s, c, 0)
}

pub proof fn lemma_next_index_bounds(s: Seq<char>, c: char, from: int)
    requires
        0 <= from <= s.len(),
    ensures
        from <= next_index_of(s, c, from) <= s.len(),
        next_index_of(s, c, from) < s.len() ==> s[next_index_of(s, c, from)] == c,
        forall|k: int| from <= k < next_index_of(s, c, from) ==> s[k] != c,
    decreases s.len() - from,
{
    if from < s.len() && s[from] != c {
        lemma_next_index_bounds(s, c, from + 1);
    }
}

pub proof fn lemma_next_index_skip(s: Seq<char>, c: char, from: int, k: int)
    requires
        0 <= from <= k <= s.len(),
        forall|t: int| from <= t < k ==> s[t] != c,
    ensures
        next_index_of(s, c, from) == next_index_of(s, c, k),
    decreases k - from,
{
    if from < k {
        lemma_next_index_skip(s, c, from + 1, k);
    }
}

/// Split `s` at every occurrence of `c`, as `str::split(c)` does.
pub fn split_by_char(s: &str, c: char) -> (r: Vec<String>)
    ensures
        r@.map_values(|x: String| x@) == split_on(s@, c),
{
    let n = s.unicode_len();
    let mut out: Vec<String> = Vec::new();
    let mut start: usize = 0;
    let mut i: usize = 0;
    while i < n
        invariant
            n == s@.len(),
            start <= i <= n,
            forall|t: int| start <= t < i ==> s@[t] != c,
            out@.map_values(|x: String| x@) + split_from(s@, c, start as int) == split_on(s@, c),
        decreases n - i,
    {
        if s.get_char(i) == c {
            proof {
                lemma_next_index_skip(s@, c, start as int, i as int);
                lemma_next_index_bounds(s@, c, i as int);
                assert(next_index_of(s@, c, start as int) == i);
                assert(split_from(s@, c, start as int) == seq![s@.subrange(start as int, i as int)].add(
                    split_from(s@, c, i + 1),
                ));
            }
            let piece = String::from_str(s.substring_char(start, i));
            let ghost before = out@.map_values(|x: String| x@);
            out.push(piece);
            proof {
                assert(out@.map_values(|x: String| x@) =~= before.push(s@.subrange(start as int, i as int)));
                assert(out@.map_values(|x: String| x@) + split_from(s@, c, (i + 1) as int) =~= before
                    + split_from(s@, c, start as int));
            }
            start = i + 1;
        }
        i += 1;
    }
    proof {
        lemma_next_index_skip(s@, c, start as int, n as int);
        assert(split_from(s@, c, start as int) == seq![s@.subrange(start as int, n as int)]);
    }
    let piece = String::from_str(s.substring_char(start, n));
    let ghost before = out@.map_values(|x: String| x@);
    out.push(piece);
    proof {
        assert(out@.map_values(|x: String| x@) =~= before.push(s@.subrange(start as int, n as int)));
    }
    out
}

/// The decimal digits of `n`, most significant first.
pub open spec fn decimal(n: nat) -> Seq<char>
    decreases n,
{
    if n < 10 {
        seq![digit_char(n)]
    } else {
        decimal(n / 10) + seq![digit_char(n % 10)]
    }
}

/// The character of a decimal digit.
pub open spec fn digit_char(d: nat) -> char {
    if d == 0 { '0' }
    else if d == 1 { '1' }
    else if d == 2 { '2' }
    else if d == 3 { '3' }
    else if d == 4 { '4' }
    else if d == 5 { '5' }
    else if d == 6 { '6' }
    else if d == 7 { '7' }
    else if d == 8 { '8' }
    else { '9' }
}

fn digit_str(d: usize) -> (r: &'static str)
    requires
        d < 10,
    ensures
        r@ == seq![digit_char(d as nat)],
{
    let r = if d == 0 { "0" } else if d == 1 { "1" } else if d == 2 { "2" } else if d == 3 { "3" }
        else if d == 4 { "4" } else if d == 5 { "5" } else if d == 6 { "6" } else if d == 7 { "7" }
        else if d == 8 { "8" } else { "9" };
    proof {
        reveal_strlit("0");
        reveal_strlit("1");
        reveal_strlit("2");
        reveal_strlit("3");
        reveal_strlit("4");
        reveal_strlit("5");
        reveal_strlit("6");
        reveal_strlit("7");
        reveal_strlit("8");
        reveal_strlit("9");
    }
    assert(r@ =~= seq![digit_char(d as nat)]);
    r
}

/// The decimal representation of `n`, as `format!("{}", n)` writes it.
pub fn usize_to_decimal(n: usize) -> (r: String)
    ensures
        r@ == decimal(n as nat),
{
    u128_to_decimal(n as u128)
}

/// The decimal representation of `n`, as `format!("{}", n)` writes it.
pub fn u128_to_decimal(n: u128) -> (r: String)
    ensures
        r@ == decimal(n as nat),
    decreases n,
{
    if n < 10 {
        to_owned_string(digit_str(n as usize))
    } else {
        let mut r = u128_to_decimal(n / 10);
        r.append(digit_str((n % 10) as usize));
        r
    }
}

/// The lower-case hexadecimal digits of `n`, most significant first.
pub open spec fn hex(n: nat) -> Seq<char>
    decreases n,
{
    if n < 16 {
        seq![hex_digit_char(n)]
    } else {
        hex(n / 16) + seq![hex_digit_char(n % 16)]
    }
}

/// The character of a hexadecimal digit, lower case.
pub open spec fn hex_digit_char(d: nat) -> char {
    if d < 10 { digit_char(d) }
    else if d == 10 { 'a' }
    else if d == 11 { 'b' }
    else if d == 12 { 'c' }
    else if d == 13 { 'd' }
    else if d == 14 { 'e' }
    else { 'f' }
}

fn hex_digit_str(d: u64) -> (r: &'static str)
    requires
        d < 16,
    ensures
        r@ == seq![hex_digit_char(d as nat)],
{
    if d < 10 {
        return digit_str(d as usize);
    }
    let r = if d == 10 { "a" } else if d == 11 { "b" } else if d == 12 { "c" } else if d == 13 { "d" }
        else if d == 14 { "e" } else { "f" };
    proof {
        reveal_strlit("a");
        reveal_strlit("b");
        reveal_strlit("c");
        reveal_strlit("d");
        reveal_strlit("e");
        reveal_strlit("f");
    }
    assert(r@ =~= seq![hex_digit_char(d as nat)]);
    r
}

/// The hexadecimal representation of `n`, as `format!("{:x}", n)` writes it.
pub fn u64_to_hex(n: u64) -> (r: String)
    ensures
        r@ == hex(n as nat),
    decreases n,
{
    if n < 16 {
        to_owned_string(hex_digit_str(n))
    } else {
        let mut r = u64_to_hex(n / 16);
        r.append(hex_digit_str(n % 16));
        r
    }
}

} // verus!
