//! Character-level helpers shared by the search engines.
use vstd::prelude::*;

verus! {

/// Copies the characters of `s` into a vector.
pub fn chars_of(s: &str) -> (r: Vec<char>)
    ensures
        r@ == s@,
{
    let n = s.unicode_len();
    let mut r: Vec<char> = Vec::new();
    let mut i: usize = 0;
    while i < n
        invariant
            n == s@.len(),
            i <= n,
            r@ == s@.subrange(0, i as int),
        decreases n - i,
    {
        r.push(s.get_char(i));
        i = i + 1;
        assert(r@ == s@.subrange(0, i as int));
    }
    assert(r@ == s@);
    r
}

/// Whether two character sequences are equal.
pub fn same_chars(a: &Vec<char>, b: &Vec<char>) -> (r: bool)
    ensures
        r == (a@ == b@),
{
    if a.len() != b.len() {
        return false;
    }
    let mut i: usize = 0;
    while i < a.len()
        invariant
            a@.len() == b@.len(),
            i <= a@.len(),
            forall|j: int| 0 <= j < i ==> a@[j] == b@[j],
        decreases a@.len() - i,
    {
        if a[i] != b[i] {
            return false;
        }
        i = i + 1;
    }
    assert(a@ == b@);
    true
}

/// Whether `s` spells exactly the text `t`.
pub fn spells(s: &str, t: &str) -> (r: bool)
    ensures
        r == (s@ == t@),
{
    let a = chars_of(s);
    let b = chars_of(t);
    same_chars(&a, &b)
}

/// The code of `c` with ASCII upper-case letters folded to lower case.
pub open spec fn fold_code(c: char) -> u32 {
    if 'A' <= c && c <= 'Z' {
        (c as u32 + 32) as u32
    } else {
        c as u32
    }
}

/// Whether `q` occurs in `s` at position `i`, ignoring ASCII case.
pub open spec fn folded_match_at(s: Seq<char>, q: Seq<char>, i: int) -> bool {
    &&& 0 <= i
    &&& i + q.len() <= s.len()
    &&& forall|j: int| 0 <= j < q.len() ==> fold_code(#[trigger] s[i + j]) == fold_code(q[j])
}

/// Whether `q` is a substring of `s`, ignoring ASCII case.
pub open spec fn folded_contains(s: Seq<char>, q: Seq<char>) -> bool {
    exists|i: int| folded_match_at(s, q, i)
}

/// Whether `s` and `q` are equal, ignoring ASCII case.
pub open spec fn folded_equal(s: Seq<char>, q: Seq<char>) -> bool {
    s.len() == q.len() && folded_match_at(s, q, 0)
}

/// Whether `q` occurs in `s` at position `i`.
pub open spec fn match_at(s: Seq<char>, q: Seq<char>, i: int) -> bool {
    &&& 0 <= i
    &&& i + q.len() <= s.len()
    &&& s.subrange(i, i + q.len()) == q
}

/// Whether `q` is a substring of `s`.
pub open spec fn contains(s: Seq<char>, q: Seq<char>) -> bool {
    exists|i: int| match_at(s, q, i)
}

/// Whether `s` begins with `q`.
pub open spec fn starts_with(s: Seq<char>, q: Seq<char>) -> bool {
    match_at(s, q, 0)
}

fn fold(c: char) -> (r: u32)
    ensures
        r == fold_code(c),
{
    if 'A' <= c && c <= 'Z' {
        c as u32 + 32
    } else {
        c as u32
    }
}

/// Whether `q` occurs in `s` at position `i`, ignoring ASCII case.
pub fn folded_match_at_exec(s: &Vec<char>, q: &Vec<char>, i: usize) -> (r: bool)
    ensures
        r == folded_match_at(s@, q@, i as int),
{
    if q.len() > s.len() || i > s.len() - q.len() {
        return false;
    }
    let n = s.len();
    let mut j: usize = 0;
    while j < q.len()
        invariant
            n == s@.len(),
            i + q@.len() <= s@.len(),
            j <= q@.len(),
            forall|k: int| 0 <= k < j ==> fold_code(#[trigger] s@[i + k]) == fold_code(q@[k]),
        decreases q@.len() - j,
    {
        if fold(s[i + j]) != fold(q[j]) {
            return false;
        }
        j = j + 1;
    }
    true
}

/// Whether `q` is a substring of `s`, ignoring ASCII case.
pub fn folded_contains_exec(s: &Vec<char>, q: &Vec<char>) -> (r: bool)
    ensures
        r == folded_contains(s@, q@),
{
    if q.len() > s.len() {
        return false;
    }
    let last = s.len() - q.len();
    let mut i: usize = 0;
    loop
        invariant
            last == s@.len() - q@.len(),
            i <= last,
            forall|k: int| 0 <= k < i ==> !folded_match_at(s@, q@, k),
        decreases last - i,
    {
        if folded_match_at_exec(s, q, i) {
            return true;
        }
        if i == last {
            return false;
        }
        i = i + 1;
    }
}

/// Whether `s` and `q` are equal, ignoring ASCII case.
pub fn folded_equal_exec(s: &Vec<char>, q: &Vec<char>) -> (r: bool)
    ensures
        r == folded_equal(s@, q@),
{
    s.len() == q.len() && folded_match_at_exec(s, q, 0)
}

/// Whether `q` occurs in `s` at position `i`.
pub fn match_at_exec(s: &Vec<char>, q: &Vec<char>, i: usize) -> (r: bool)
    ensures
        r == match_at(s@, q@, i as int),
{
    if q.len() > s.len() || i > s.len() - q.len() {
        return false;
    }
    let n = s.len();
    let mut j: usize = 0;
    while j < q.len()
        invariant
            n == s@.len(),
            i + q@.len() <= s@.len(),
            j <= q@.len(),
            forall|k: int| 0 <= k < j ==> s@[i + k] == q@[k],
        decreases q@.len() - j,
    {
        if s[i + j] != q[j] {
            assert(s@.subrange(i as int, i + q@.len())[j as int] != q@[j as int]);
            return false;
        }
        j = j + 1;
    }
    assert(s@.subrange(i as int, i + q@.len()) == q@);
    true
}

/// Whether `q` is a substring of `s`.
pub fn contains_exec(s: &Vec<char>, q: &Vec<char>) -> (r: bool)
    ensures
        r == contains(s@, q@),
{
    if q.len() > s.len() {
        return false;
    }
    let last = s.len() - q.len();
    let mut i: usize = 0;
    loop
        invariant
            last == s@.len() - q@.len(),
            i <= last,
            forall|k: int| 0 <= k < i ==> !match_at(s@, q@, k),
        decreases last - i,
    {
        if match_at_exec(s, q, i) {
            return true;
        }
        if i == last {
            return false;
        }
        i = i + 1;
    }
}

/// Whether `s` begins with `q`.
pub fn starts_with_exec(s: &Vec<char>, q: &Vec<char>) -> (r: bool)
    ensures
        r == starts_with(s@, q@),
{
    match_at_exec(s, q, 0)
}

/// Whether `c` is white space as `char::is_whitespace` defines it: the
/// characters with the Unicode `White_Space` property.
pub open spec fn is_white(c: char) -> bool {
    let u = c as u32;
    ||| 0x9 <= u <= 0xD
    ||| u == 0x20
    ||| u == 0x85
    ||| u == 0xA0
    ||| u == 0x1680
    ||| 0x2000 <= u <= 0x200A
    ||| u == 0x2028
    ||| u == 0x2029
    ||| u == 0x202F
    ||| u == 0x205F
    ||| u == 0x3000
}

/// Whether `c` is white space.
pub fn is_white_exec(c: char) -> (r: bool)
    ensures
        r == is_white(c),
{
    let u = c as u32;
    (0x9 <= u && u <= 0xD) || u == 0x20 || u == 0x85 || u == 0xA0 || u == 0x1680 || (0x2000 <= u
        && u <= 0x200A) || u == 0x2028 || u == 0x2029 || u == 0x202F || u == 0x205F || u == 0x3000
}

/// `s` without its leading white space.
pub open spec fn trim_start(s: Seq<char>) -> Seq<char>
    decreases s.len(),
{
    if s.len() > 0 && is_white(s[0]) {
        trim_start(s.drop_first())
    } else {
        s
    }
}

/// `s` without its trailing white space.
pub open spec fn trim_end(s: Seq<char>) -> Seq<char>
    decreases s.len(),
{
    if s.len() > 0 && is_white(s.last()) {
        trim_end(s.drop_last())
    } else {
        s
    }
}

/// `s` without its leading and trailing white space: the part from its first
/// to its last character that is not white space, empty when there is none.
pub open spec fn trimmed(s: Seq<char>) -> Seq<char> {
    trim_end(trim_start(s))
}

/// `s` without its leading and trailing white space.
pub fn trim_exec(s: &Vec<char>) -> (r: Vec<char>)
    ensures
        r@ == trimmed(s@),
{
    let n = s.len();
    let mut lo: usize = 0;
    assert(s@.skip(0) == s@);
    while lo < n && is_white_exec(s[lo])
        invariant
            n == s@.len(),
            lo <= n,
            trim_start(s@) == trim_start(s@.skip(lo as int)),
        decreases n - lo,
    {
        assert(s@.skip(lo as int).drop_first() == s@.skip(lo + 1));
        lo = lo + 1;
    }
    assert(s@.skip(lo as int) == s@.subrange(lo as int, n as int));
    let mut hi: usize = n;
    while hi > lo && is_white_exec(s[hi - 1])
        invariant
            n == s@.len(),
            lo <= hi <= n,
            trimmed(s@) == trim_end(s@.subrange(lo as int, hi as int)),
        decreases hi - lo,
    {
        assert(s@.subrange(lo as int, hi as int).drop_last() == s@.subrange(lo as int, hi - 1));
        hi = hi - 1;
    }
    let mut r: Vec<char> = Vec::new();
    let mut i: usize = lo;
    while i < hi
        invariant
            lo <= i <= hi,
            hi <= s@.len(),
            r@ == s@.subrange(lo as int, i as int),
        decreases hi - i,
    {
        r.push(s[i]);
        i = i + 1;
        assert(r@ == s@.subrange(lo as int, i as int));
    }
    r
}

} // verus!
