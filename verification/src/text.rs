//! Character-sequence scanning: first occurrence of a character,
//! splitting on a separator, and whitespace trimming.

use vstd::prelude::*;

verus! {

/// Whether `c` has the Unicode `White_Space` property, the set that
/// `str::trim` removes.
pub open spec fn is_space(c: char) -> bool {
    (9 <= c as u32 && c as u32 <= 13) || c as u32 == 32 || c as u32 == 0x85 || c as u32 == 0xA0
        || c as u32 == 0x1680 || (0x2000 <= c as u32 && c as u32 <= 0x200A) || c as u32 == 0x2028
        || c as u32 == 0x2029 || c as u32 == 0x202F || c as u32 == 0x205F || c as u32 == 0x3000
}

/// The least index `>= i` at which `c` occurs in `s`, or `s.len()`.
pub open spec fn find_from(s: Seq<char>, c: char, i: int) -> int
    decreases s.len() - i when 0 <= i <= s.len()
{
    if i >= s.len() {
        s.len() as int
    } else if s[i] == c {
        i
    } else {
        find_from(s, c, i + 1)
    }
}

/// `find_from` stays within `[i, s.len()]`, misses nothing before its
/// result, and hits `c` when it lands inside `s`.
pub proof fn lemma_find_from(s: Seq<char>, c: char, i: int)
    requires
        0 <= i <= s.len(),
    ensures
        i <= find_from(s, c, i) <= s.len(),
        forall|j: int| i <= j < find_from(s, c, i) ==> s[j] != c,
        find_from(s, c, i) < s.len() ==> s[find_from(s, c, i)] == c,
    decreases s.len() - i,
{
    if i < s.len() && s[i] != c {
        lemma_find_from(s, c, i + 1);
    }
}

/// Searching from `q` in `s` is searching from `q - p` in `s.skip(p)`.
pub proof fn lemma_find_from_skip(s: Seq<char>, c: char, p: int, q: int)
    requires
        0 <= p <= q <= s.len(),
    ensures
        find_from(s, c, q) == p + find_from(s.skip(p), c, q - p),
    decreases s.len() - q,
{
    if q >= s.len() {
    } else {
        assert(s.skip(p)[q - p] == s[q]);
        if s[q] != c {
            lemma_find_from_skip(s, c, p, q + 1);
        }
    }
}

/// A sequence without `c` is searched to its end.
pub proof fn lemma_find_none(s: Seq<char>, c: char)
    requires
        forall|i: int| 0 <= i < s.len() ==> s[i] != c,
    ensures
        find_from(s, c, 0) == s.len(),
{
    lemma_find_from(s, c, 0);
    if find_from(s, c, 0) < s.len() {
        assert(s[find_from(s, c, 0)] == c);
    }
}

/// When `a` holds no `c`, the first `c` of `a + b` lies in `b`.
pub proof fn lemma_find_append_miss(a: Seq<char>, b: Seq<char>, c: char)
    requires
        find_from(a, c, 0) == a.len(),
    ensures
        find_from(a + b, c, 0) == a.len() + find_from(b, c, 0),
    decreases a.len(),
{
    if a.len() == 0 {
        assert(a + b =~= b);
    } else {
        lemma_find_from(a, c, 0);
        assert(a[0] != c);
        let a1 = a.skip(1);
        lemma_find_from_skip(a, c, 1, 1);
        assert(find_from(a1, c, 0) == a1.len());
        lemma_find_append_miss(a1, b, c);
        assert(a1 + b =~= (a + b).skip(1));
        assert((a + b)[0] == a[0]);
        lemma_find_from_skip(a + b, c, 1, 1);
    }
}

/// When `a` holds a `c`, the first `c` of `a + b` is the first `c` of
/// `a`.
pub proof fn lemma_find_append_hit(a: Seq<char>, b: Seq<char>, c: char)
    requires
        find_from(a, c, 0) < a.len(),
    ensures
        find_from(a + b, c, 0) == find_from(a, c, 0),
    decreases a.len(),
{
    lemma_find_from(a, c, 0);
    if a[0] == c {
        assert((a + b)[0] == a[0]);
    } else {
        let a1 = a.skip(1);
        lemma_find_from_skip(a, c, 1, 1);
        lemma_find_append_hit(a1, b, c);
        assert(a1 + b =~= (a + b).skip(1));
        assert((a + b)[0] == a[0]);
        lemma_find_from_skip(a + b, c, 1, 1);
    }
}

/// The segments of `s` between occurrences of `c`. A trailing separator
/// yields a final empty segment; `s` without `c` yields one segment.
pub open spec fn split_on(s: Seq<char>, c: char) -> Seq<Seq<char>>
    decreases s.len(),
{
    let i = find_from(s, c, 0);
    if 0 <= i < s.len() {
        seq![s.take(i)] + split_on(s.skip(i + 1), c)
    } else {
        seq![s]
    }
}

/// `s` without its leading whitespace.
pub open spec fn trim_start(s: Seq<char>) -> Seq<char>
    decreases s.len(),
{
    if s.len() > 0 && is_space(s[0]) {
        trim_start(s.skip(1))
    } else {
        s
    }
}

/// `s` without its trailing whitespace.
pub open spec fn trim_end(s: Seq<char>) -> Seq<char>
    decreases s.len(),
{
    if s.len() > 0 && is_space(s[s.len() - 1]) {
        trim_end(s.take(s.len() - 1))
    } else {
        s
    }
}

/// `s` without leading and trailing whitespace.
pub open spec fn trim(s: Seq<char>) -> Seq<char> {
    trim_end(trim_start(s))
}

/// A sequence with neither leading nor trailing whitespace trims to
/// itself.
pub proof fn lemma_trim_of_trimmed(s: Seq<char>)
    requires
        s.len() > 0 ==> !is_space(s[0]),
        s.len() > 0 ==> !is_space(s[s.len() - 1]),
    ensures
        trim(s) == s,
{
}

/// Whether `c` is Unicode whitespace.
pub fn is_space_char(c: char) -> (r: bool)
    ensures
        r == is_space(c),
{
    let u = c as u32;
    (9 <= u && u <= 13) || u == 32 || u == 0x85 || u == 0xA0 || u == 0x1680
        || (0x2000 <= u && u <= 0x200A) || u == 0x2028 || u == 0x2029 || u == 0x202F
        || u == 0x205F || u == 0x3000
}

/// The least index `>= from` at which `c` occurs in `s`, or the length
/// of `s`.
pub fn find_char(s: &str, c: char, from: usize) -> (r: usize)
    requires
        from as int <= s@.len(),
    ensures
        from <= r,
        r as int <= s@.len(),
        r as int == find_from(s@, c, from as int),
{
    let n = s.unicode_len();
    let mut i = from;
    while i < n
        invariant
            from <= i <= n,
            n as int == s@.len(),
            find_from(s@, c, from as int) == find_from(s@, c, i as int),
        decreases n - i,
    {
        if s.get_char(i) == c {
            return i;
        }
        i = i + 1;
    }
    i
}

/// Whether two string slices hold the same characters.
pub fn str_eq(a: &str, b: &str) -> (r: bool)
    ensures
        r == (a@ == b@),
{
    let n = a.unicode_len();
    if n != b.unicode_len() {
        return false;
    }
    let mut i: usize = 0;
    while i < n
        invariant
            0 <= i <= n,
            n as int == a@.len(),
            a@.len() == b@.len(),
            forall|j: int| 0 <= j < i ==> a@[j] == b@[j],
        decreases n - i,
    {
        if a.get_char(i) != b.get_char(i) {
            return false;
        }
        i = i + 1;
    }
    proof {
        assert(a@ =~= b@);
    }
    true
}

/// The slice of `s` without leading and trailing whitespace.
pub fn trim_str<'a>(s: &'a str) -> (r: &'a str)
    ensures
        r@ == trim(s@),
{
    let n = s.unicode_len();
    let mut lo: usize = 0;
    proof {
        assert(s@.skip(0) =~= s@);
    }
    while lo < n && is_space_char(s.get_char(lo))
        invariant
            0 <= lo <= n,
            n as int == s@.len(),
            trim_start(s@) == trim_start(s@.skip(lo as int)),
        decreases n - lo,
    {
        proof {
            assert(s@.skip(lo as int)[0] == s@[lo as int]);
            assert(s@.skip(lo as int).skip(1) =~= s@.skip(lo as int + 1));
        }
        lo = lo + 1;
    }
    proof {
        if lo < n {
            assert(s@.skip(lo as int)[0] == s@[lo as int]);
        }
        assert(trim_start(s@) == s@.skip(lo as int));
    }
    let mut hi: usize = n;
    proof {
        assert(s@.subrange(lo as int, n as int) =~= s@.skip(lo as int));
    }
    while hi > lo && is_space_char(s.get_char(hi - 1))
        invariant
            lo <= hi <= n,
            n as int == s@.len(),
            trim_start(s@) == s@.skip(lo as int),
            trim_end(s@.skip(lo as int)) == trim_end(s@.subrange(lo as int, hi as int)),
        decreases hi,
    {
        proof {
            let sub = s@.subrange(lo as int, hi as int);
            assert(sub[sub.len() - 1] == s@[hi - 1]);
            assert(sub.take(sub.len() - 1) =~= s@.subrange(lo as int, hi as int - 1));
        }
        hi = hi - 1;
    }
    proof {
        let sub = s@.subrange(lo as int, hi as int);
        if hi > lo {
            assert(sub[sub.len() - 1] == s@[hi as int - 1]);
        }
        assert(trim_end(sub) == sub);
    }
    s.substring_char(lo, hi)
}

} // verus!
