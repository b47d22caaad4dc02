//! Character-level text helpers: stripping leading marker characters and
//! trimming surrounding whitespace.

use vstd::prelude::*;

verus! {

/// Whitespace as trimmed around comment text and skipped between tokens:
/// the characters with the Unicode `White_Space` property.
pub open spec fn is_space(c: char) -> bool {
    let u = c as u32;
    u == 0x20 || (0x09 <= u && u <= 0x0D) || u == 0x85 || u == 0xA0 || u == 0x1680 || (0x2000 <= u
        && u <= 0x200A) || u == 0x2028 || u == 0x2029 || u == 0x202F || u == 0x205F || u == 0x3000
}

/// Executable test for `is_space`.
pub fn is_space_char(c: char) -> (b: bool)
    ensures
        b == is_space(c),
{
    let u = c as u32;
    u == 0x20 || (0x09 <= u && u <= 0x0D) || u == 0x85 || u == 0xA0 || u == 0x1680 || (0x2000 <= u
        && u <= 0x200A) || u == 0x2028 || u == 0x2029 || u == 0x202F || u == 0x205F || u == 0x3000
}

/// `s` with every leading occurrence of `c` removed.
pub open spec fn strip_leading(s: Seq<char>, c: char) -> Seq<char>
    decreases s,
{
    if s.len() > 0 && s[0] == c {
        strip_leading(s.drop_first(), c)
    } else {
        s
    }
}

/// `s` with leading whitespace removed.
pub open spec fn trim_start(s: Seq<char>) -> Seq<char>
    decreases s,
{
    if s.len() > 0 && is_space(s[0]) {
        trim_start(s.drop_first())
    } else {
        s
    }
}

/// `s` with trailing whitespace removed.
pub open spec fn trim_end(s: Seq<char>) -> Seq<char>
    decreases s,
{
    if s.len() > 0 && is_space(s.last()) {
        trim_end(s.drop_last())
    } else {
        s
    }
}

/// `s` with whitespace removed at both ends.
pub open spec fn trim_spaces(s: Seq<char>) -> Seq<char> {
    trim_end(trim_start(s))
}

/// If the first `k` characters of `s` are `c` and the next one is not,
/// stripping leading `c` leaves exactly the tail from `k`.
proof fn lemma_strip_leading(s: Seq<char>, c: char, k: int)
    requires
        0 <= k <= s.len(),
        forall|i: int| 0 <= i < k ==> s[i] == c,
        k == s.len() || s[k] != c,
    ensures
        strip_leading(s, c) =~= s.subrange(k, s.len() as int),
    decreases s,
{
    if k == 0 {
        if s.len() == 0 || s[0] != c {
            assert(strip_leading(s, c) == s);
        }
    } else {
        lemma_strip_leading(s.drop_first(), c, k - 1);
    }
}

/// The same fact for leading whitespace.
proof fn lemma_trim_start(s: Seq<char>, k: int)
    requires
        0 <= k <= s.len(),
        forall|i: int| 0 <= i < k ==> is_space(#[trigger] s[i]),
        k == s.len() || !is_space(s[k]),
    ensures
        trim_start(s) =~= s.subrange(k, s.len() as int),
    decreases s,
{
    if k > 0 {
        lemma_trim_start(s.drop_first(), k - 1);
    }
}

/// If everything from `b` on is whitespace and the character before `b`
/// is not, trimming trailing whitespace leaves exactly the front up to `b`.
proof fn lemma_trim_end(s: Seq<char>, b: int)
    requires
        0 <= b <= s.len(),
        forall|i: int| b <= i < s.len() ==> is_space(#[trigger] s[i]),
        b == 0 || !is_space(s[b - 1]),
    ensures
        trim_end(s) =~= s.subrange(0, b),
    decreases s,
{
    if b < s.len() {
        lemma_trim_end(s.drop_last(), b);
    }
}

/// The number of leading occurrences of `c` in `s`.
fn count_leading(s: &str, c: char) -> (k: usize)
    ensures
        k <= s@.len(),
        forall|i: int| 0 <= i < k ==> s@[i] == c,
        k < s@.len() ==> s@[k as int] != c,
{
    let n = s.unicode_len();
    let mut k: usize = 0;
    while k < n
        invariant
            k <= n,
            n == s@.len(),
            forall|i: int| 0 <= i < k ==> s@[i] == c,
        decreases n - k,
    {
        if s.get_char(k) != c {
            return k;
        }
        k = k + 1;
    }
    k
}

/// `s` with every leading occurrence of `c` removed.
pub fn strip_leading_char<'a>(s: &'a str, c: char) -> (r: &'a str)
    ensures
        r@ == strip_leading(s@, c),
{
    let n = s.unicode_len();
    let k = count_leading(s, c);
    proof {
        lemma_strip_leading(s@, c, k as int);
    }
    s.substring_char(k, n)
}

/// The index after which only whitespace follows in `s`, at least `from`.
fn scan_back(s: &str, from: usize) -> (b: usize)
    requires
        from <= s@.len(),
    ensures
        from <= b <= s@.len(),
        forall|i: int| b <= i < s@.len() ==> is_space(#[trigger] s@[i]),
        b > from ==> !is_space(s@[b - 1]),
{
    let n = s.unicode_len();
    let mut b: usize = n;
    while b > from
        invariant
            from <= b <= n,
            n == s@.len(),
            forall|i: int| b <= i < s@.len() ==> is_space(#[trigger] s@[i]),
        decreases b,
    {
        let ch = s.get_char(b - 1);
        if !is_space_char(ch) {
            return b;
        }
        b = b - 1;
    }
    b
}

/// The index of the first non-whitespace character of `s`, or its length.
fn scan_front(s: &str) -> (a: usize)
    ensures
        a <= s@.len(),
        forall|i: int| 0 <= i < a ==> is_space(#[trigger] s@[i]),
        a < s@.len() ==> !is_space(s@[a as int]),
{
    let n = s.unicode_len();
    let mut a: usize = 0;
    while a < n
        invariant
            a <= n,
            n == s@.len(),
            forall|i: int| 0 <= i < a ==> is_space(#[trigger] s@[i]),
        decreases n - a,
    {
        let ch = s.get_char(a);
        if !is_space_char(ch) {
            return a;
        }
        a = a + 1;
    }
    a
}

/// `s` with whitespace removed at both ends.
pub fn trim_str<'a>(s: &'a str) -> (r: &'a str)
    ensures
        r@ == trim_spaces(s@),
{
    let n = s.unicode_len();
    let a = scan_front(s);
    proof {
        lemma_trim_start(s@, a as int);
    }
    let b = scan_back(s, a);
    proof {
        let t = s@.subrange(a as int, n as int);
        lemma_trim_end(t, b - a);
        assert(t.subrange(0, b - a) =~= s@.subrange(a as int, b as int));
    }
    s.substring_char(a, b)
}

} // verus!
