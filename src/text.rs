//! Character-level helpers: whitespace, trimming and searching.

use vstd::prelude::*;

verus! {

/// Unicode `White_Space`, the property that `char::is_whitespace` reports.
pub open spec fn is_ws(c: char) -> bool {
    let u = c as u32;
    ||| 0x09 <= u <= 0x0D
    ||| u == 0x20
    ||| u == 0x85
    ||| u == 0xA0
    ||| u == 0x1680
    ||| 0x2000 <= u <= 0x200A
    ||| u == 0x2028
    ||| u == 0x2029
    ||| u == 0x202F
    ||| u == 0x205F
    ||| u == 0x3000
}

/// Executable whitespace test.
pub fn is_whitespace(c: char) -> (r: bool)
    ensures
        r == is_ws(c),
{
    let u = c as u32;
    (0x09 <= u && u <= 0x0D) || u == 0x20 || u == 0x85 || u == 0xA0 || u == 0x1680
        || (0x2000 <= u && u <= 0x200A) || u == 0x2028 || u == 0x2029 || u == 0x202F
        || u == 0x205F || u == 0x3000
}

/// Index of the first non-whitespace character of `s` at or after `i`.
pub open spec fn ws_prefix_end(s: Seq<char>, i: int) -> int
    decreases s.len() - i,
{
    if 0 <= i < s.len() && is_ws(s[i]) {
        ws_prefix_end(s, i + 1)
    } else {
        i
    }
}

/// End of `s[lo..j]` once trailing whitespace is dropped.
pub open spec fn ws_suffix_start(s: Seq<char>, lo: int, j: int) -> int
    decreases j - lo,
{
    if lo < j && j <= s.len() && is_ws(s[j - 1]) {
        ws_suffix_start(s, lo, j - 1)
    } else {
        j
    }
}

/// `s` without its leading and trailing whitespace.
pub open spec fn trimmed(s: Seq<char>) -> Seq<char> {
    let a = ws_prefix_end(s, 0);
    s.subrange(a, ws_suffix_start(s, a, s.len() as int))
}

/// Removes leading and trailing whitespace.
pub fn trim(s: String) -> (r: String)
    ensures
        r@ == trimmed(s@),
{
    let s = s.as_str();
    let n = s.unicode_len();
    let mut a: usize = 0;
    while a < n && is_whitespace(s.get_char(a))
        invariant
            n == s@.len(),
            a <= n,
            ws_prefix_end(s@, 0) == ws_prefix_end(s@, a as int),
        decreases n - a,
    {
        a = a + 1;
    }
    let mut b: usize = n;
    while a < b && is_whitespace(s.get_char(b - 1))
        invariant
            n == s@.len(),
            a <= b <= n,
            a == ws_prefix_end(s@, 0),
            ws_suffix_start(s@, a as int, n as int) == ws_suffix_start(s@, a as int, b as int),
        decreases b - a,
    {
        b = b - 1;
    }
    String::from_str(s.substring_char(a, b))
}

/// Index of the first `c` in `s` at or after `i`, or the length of `s`.
pub open spec fn find_char(s: Seq<char>, c: char, i: int) -> int
    decreases s.len() - i,
{
    if 0 <= i < s.len() && s[i] != c {
        find_char(s, c, i + 1)
    } else {
        i
    }
}

/// Index of the first character other than `c` in `s` at or after `i`.
pub open spec fn run_end(s: Seq<char>, c: char, i: int) -> int
    decreases s.len() - i,
{
    if 0 <= i < s.len() && s[i] == c {
        run_end(s, c, i + 1)
    } else {
        i
    }
}

/// `run_end` stops at the first character other than `c`.
pub proof fn lemma_run_end_at(s: Seq<char>, c: char, i: int, k: int)
    requires
        0 <= i <= k <= s.len(),
        forall|j: int| i <= j < k ==> s[j] == c,
        k == s.len() || s[k] != c,
    ensures
        run_end(s, c, i) == k,
    decreases k - i,
{
    if i < k {
        lemma_run_end_at(s, c, i + 1, k);
    }
}

/// `find_char` stops at the first `c`.
pub proof fn lemma_find_char_at(s: Seq<char>, c: char, i: int, k: int)
    requires
        0 <= i <= k <= s.len(),
        forall|j: int| i <= j < k ==> s[j] != c,
        k == s.len() || s[k] == c,
    ensures
        find_char(s, c, i) == k,
    decreases k - i,
{
    if i < k {
        lemma_find_char_at(s, c, i + 1, k);
    }
}

/// A line that neither starts nor ends with whitespace is its own trim.
pub proof fn lemma_trimmed_unchanged(s: Seq<char>)
    requires
        s.len() > 0,
        !is_ws(s[0]),
        !is_ws(s.last()),
    ensures
        trimmed(s) == s,
{
    assert(ws_prefix_end(s, 0) == 0);
    assert(ws_suffix_start(s, 0, s.len() as int) == s.len());
    assert(s.subrange(0, s.len() as int) =~= s);
}

/// Executable `find_char`.
pub fn find_char_from(s: &str, c: char, i: usize) -> (r: usize)
    requires
        i <= s@.len(),
    ensures
        r as int == find_char(s@, c, i as int),
        i <= r <= s@.len(),
        forall|j: int| i <= j < r ==> s@[j] != c,
        r < s@.len() ==> s@[r as int] == c,
{
    let n = s.unicode_len();
    let mut k: usize = i;
    while k < n && s.get_char(k) != c
        invariant
            n == s@.len(),
            i <= k <= n,
            find_char(s@, c, i as int) == find_char(s@, c, k as int),
            forall|j: int| i <= j < k ==> s@[j] != c,
        decreases n - k,
    {
        k = k + 1;
    }
    k
}

/// Executable `run_end`.
pub fn run_end_from(s: &str, c: char, i: usize) -> (r: usize)
    requires
        i <= s@.len(),
    ensures
        r as int == run_end(s@, c, i as int),
        i <= r <= s@.len(),
        forall|j: int| i <= j < r ==> s@[j] == c,
        r < s@.len() ==> s@[r as int] != c,
{
    let n = s.unicode_len();
    let mut k: usize = i;
    while k < n && s.get_char(k) == c
        invariant
            n == s@.len(),
            i <= k <= n,
            run_end(s@, c, i as int) == run_end(s@, c, k as int),
            forall|j: int| i <= j < k ==> s@[j] == c,
        decreases n - k,
    {
        k = k + 1;
    }
    k
}

} // verus!
