use vstd::prelude::*;
use vstd::string::{is_ascii, is_ascii_spec_bytes, StringSliceAdditionalSpecFns};

verus! {

/// CR LF, which ends a line.
pub open spec fn crlf() -> Seq<u8> {
    seq![13u8, 10u8]
}

/// The bytes of the separators that requests are split on.
pub proof fn lemma_separators()
    ensures
        "\r\n".spec_bytes() == crlf(),
        " ".spec_bytes() == seq![32u8],
        ": ".spec_bytes() == seq![58u8, 32u8],
        ",".spec_bytes() == seq![44u8],
{
    broadcast use is_ascii_spec_bytes;

    reveal_strlit("\r\n");
    reveal_strlit(" ");
    reveal_strlit(": ");
    reveal_strlit(",");
    assert(is_ascii("\r\n"));
    assert(is_ascii(" "));
    assert(is_ascii(": "));
    assert(is_ascii(","));
    assert("\r\n".spec_bytes() =~= crlf());
    assert(" ".spec_bytes() =~= seq![32u8]);
    assert(": ".spec_bytes() =~= seq![58u8, 32u8]);
    assert(",".spec_bytes() =~= seq![44u8]);
}

/// Whether `pat` occurs in `s` starting at index `i`.
pub open spec fn occurs_at(s: Seq<u8>, pat: Seq<u8>, i: int) -> bool {
    0 <= i && i + pat.len() <= s.len() && s.subrange(i, i + pat.len()) == pat
}

/// The index of the first occurrence of `pat` in `s` at or after `i`, or -1.
pub open spec fn find_from(s: Seq<u8>, pat: Seq<u8>, i: int) -> int
    decreases s.len() + 1 - i,
{
    if i < 0 || i + pat.len() > s.len() {
        -1
    } else if occurs_at(s, pat, i) {
        i
    } else {
        find_from(s, pat, i + 1)
    }
}

pub proof fn lemma_find_from(s: Seq<u8>, pat: Seq<u8>, i: int)
    requires
        0 <= i,
    ensures
        find_from(s, pat, i) == -1 || (i <= find_from(s, pat, i) && occurs_at(
            s,
            pat,
            find_from(s, pat, i),
        )),
        find_from(s, pat, i) == -1 ==> forall|j: int| i <= j ==> !occurs_at(s, pat, j),
        find_from(s, pat, i) != -1 ==> forall|j: int|
            i <= j < find_from(s, pat, i) ==> !occurs_at(s, pat, j),
    decreases s.len() + 1 - i,
{
    if i + pat.len() > s.len() {
    } else if !occurs_at(s, pat, i) {
        lemma_find_from(s, pat, i + 1);
    }
}

/// The first occurrence at or after `i` is at `j` when `pat` occurs at `j` and nowhere
/// between `i` and `j`.
pub proof fn lemma_find_first(s: Seq<u8>, pat: Seq<u8>, i: int, j: int)
    requires
        0 <= i <= j,
        occurs_at(s, pat, j),
        forall|k: int| i <= k < j ==> !occurs_at(s, pat, k),
    ensures
        find_from(s, pat, i) == j,
    decreases j - i,
{
    if i < j {
        lemma_find_first(s, pat, i + 1, j);
    }
}

/// Whether `s` begins with `pat`.
pub open spec fn has_prefix(s: Seq<u8>, pat: Seq<u8>) -> bool {
    occurs_at(s, pat, 0)
}

/// Whether `pat` occurs in `s` at index `i`.
pub fn matches_at(s: &[u8], pat: &[u8], i: usize) -> (r: bool)
    ensures
        r == occurs_at(s@, pat@, i as int),
{
    if i > s.len() || pat.len() > s.len() - i {
        return false;
    }
    let mut k: usize = 0;
    while k < pat.len()
        invariant
            i + pat.len() <= s.len(),
            k <= pat.len(),
            forall|j: int| 0 <= j < k ==> s@[i + j] == pat@[j],
        decreases pat.len() - k,
    {
        if s[i + k] != pat[k] {
            assert(s@.subrange(i as int, i + pat.len())[k as int] != pat@[k as int]);
            return false;
        }
        k += 1;
    }
    assert(s@.subrange(i as int, i + pat.len()) =~= pat@);
    true
}

/// Whether two byte strings are equal.
pub fn bytes_eq(a: &[u8], b: &[u8]) -> (r: bool)
    ensures
        r == (a@ == b@),
{
    if a.len() != b.len() {
        return false;
    }
    assert(a@ =~= a@.subrange(0, b@.len() as int));
    matches_at(a, b, 0)
}

/// The index of the first occurrence of `pat` in `s` at or after `start`.
pub fn find(s: &[u8], pat: &[u8], start: usize) -> (r: Option<usize>)
    requires
        pat@.len() > 0,
    ensures
        match r {
            Some(k) => find_from(s@, pat@, start as int) == k as int,
            None => find_from(s@, pat@, start as int) == -1,
        },
{
    let mut i: usize = start;
    if pat.len() > s.len() {
        return None;
    }
    while i <= s.len() - pat.len()
        invariant
            pat@.len() > 0,
            pat.len() <= s.len(),
            start <= i,
            find_from(s@, pat@, start as int) == find_from(s@, pat@, i as int),
        decreases s.len() + 1 - i,
    {
        if matches_at(s, pat, i) {
            return Some(i);
        }
        i += 1;
    }
    None
}

/// The decimal digits of `n`, in ASCII.
pub open spec fn decimal(n: nat) -> Seq<u8>
    decreases n,
{
    if n < 10 {
        seq![(48 + n) as u8]
    } else {
        decimal(n / 10).push((48 + n % 10) as u8)
    }
}

/// Appends the decimal digits of `n` to `out`.
pub fn push_decimal(out: &mut Vec<u8>, n: usize)
    ensures
        final(out)@ == old(out)@ + decimal(n as nat),
    decreases n,
{
    if n >= 10 {
        push_decimal(out, n / 10);
    }
    let d: u8 = (n % 10) as u8;
    out.push(48 + d);
    assert(final(out)@ =~= old(out)@ + decimal(n as nat));
}

/// Appends all of `src` to `out`.
pub fn push_all(out: &mut Vec<u8>, src: &[u8])
    ensures
        final(out)@ == old(out)@ + src@,
{
    let mut i: usize = 0;
    while i < src.len()
        invariant
            i <= src.len(),
            out@ == old(out)@ + src@.subrange(0, i as int),
        decreases src.len() - i,
    {
        out.push(src[i]);
        i += 1;
        assert(out@ =~= old(out)@ + src@.subrange(0, i as int));
    }
    assert(src@.subrange(0, i as int) =~= src@);
}

/// A copy of `s[a..b]`.
pub fn copy_range(s: &[u8], a: usize, b: usize) -> (r: Vec<u8>)
    requires
        a <= b <= s.len(),
    ensures
        r@ == s@.subrange(a as int, b as int),
{
    let mut r: Vec<u8> = Vec::new();
    let mut i: usize = a;
    while i < b
        invariant
            a <= i <= b <= s.len(),
            r@ == s@.subrange(a as int, i as int),
        decreases b - i,
    {
        r.push(s[i]);
        i += 1;
        assert(r@ =~= s@.subrange(a as int, i as int));
    }
    r
}

/// `s` without its leading NUL bytes.
pub open spec fn trim_nul_start(s: Seq<u8>) -> Seq<u8>
    decreases s.len(),
{
    if s.len() > 0 && s[0] == 0 {
        trim_nul_start(s.drop_first())
    } else {
        s
    }
}

/// `s` without its trailing NUL bytes.
pub open spec fn trim_nul_end(s: Seq<u8>) -> Seq<u8>
    decreases s.len(),
{
    if s.len() > 0 && s.last() == 0 {
        trim_nul_end(s.drop_last())
    } else {
        s
    }
}

/// `s` without NUL bytes at either end.
pub open spec fn trim_nul(s: Seq<u8>) -> Seq<u8> {
    trim_nul_end(trim_nul_start(s))
}

/// The bounds `(a, b)` of `s` without NUL bytes at either end.
pub fn trim_nul_bounds(s: &[u8]) -> (r: (usize, usize))
    ensures
        r.0 <= r.1 <= s.len(),
        s@.subrange(r.0 as int, r.1 as int) == trim_nul(s@),
{
    let n = s.len();
    let mut a: usize = 0;
    assert(s@.subrange(0, n as int) =~= s@);
    while a < n && s[a] == 0
        invariant
            n == s.len(),
            a <= n,
            trim_nul_start(s@) == trim_nul_start(s@.subrange(a as int, n as int)),
        decreases n - a,
    {
        assert(s@.subrange(a as int, n as int).drop_first() =~= s@.subrange(a + 1, n as int));
        a += 1;
    }
    let mut b: usize = n;
    while b > a && s[b - 1] == 0
        invariant
            n == s.len(),
            a <= b <= n,
            trim_nul_start(s@) == s@.subrange(a as int, n as int),
            trim_nul(s@) == trim_nul_end(s@.subrange(a as int, b as int)),
        decreases b - a,
    {
        assert(s@.subrange(a as int, b as int).drop_last() =~= s@.subrange(a as int, b - 1));
        b -= 1;
    }
    (a, b)
}

/// Whether `c` is the UTF-8 encoding of a white-space character (Unicode `White_Space`).
pub open spec fn is_space_char(c: Seq<u8>) -> bool {
    ||| c.len() == 1 && ((9 <= c[0] && c[0] <= 13) || c[0] == 32)
    ||| c.len() == 2 && c[0] == 0xC2 && (c[1] == 0x85 || c[1] == 0xA0)
    ||| c.len() == 3 && c[0] == 0xE1 && c[1] == 0x9A && c[2] == 0x80
    ||| c.len() == 3 && c[0] == 0xE2 && c[1] == 0x80 && ((0x80 <= c[2] && c[2] <= 0x8A) || c[2]
        == 0xA8 || c[2] == 0xA9 || c[2] == 0xAF)
    ||| c.len() == 3 && c[0] == 0xE2 && c[1] == 0x81 && c[2] == 0x9F
    ||| c.len() == 3 && c[0] == 0xE3 && c[1] == 0x80 && c[2] == 0x80
}

/// The length of the white-space character that `s` starts with, or 0.
pub open spec fn space_at_start(s: Seq<u8>) -> int {
    if s.len() >= 1 && is_space_char(s.take(1)) {
        1
    } else if s.len() >= 2 && is_space_char(s.take(2)) {
        2
    } else if s.len() >= 3 && is_space_char(s.take(3)) {
        3
    } else {
        0
    }
}

/// The length of the white-space character that `s` ends with, or 0.
pub open spec fn space_at_end(s: Seq<u8>) -> int {
    if s.len() >= 1 && is_space_char(s.skip(s.len() - 1)) {
        1
    } else if s.len() >= 2 && is_space_char(s.skip(s.len() - 2)) {
        2
    } else if s.len() >= 3 && is_space_char(s.skip(s.len() - 3)) {
        3
    } else {
        0
    }
}

/// `s` without its leading white space.
pub open spec fn trim_space_start(s: Seq<u8>) -> Seq<u8>
    decreases s.len(),
{
    if 0 < space_at_start(s) {
        trim_space_start(s.skip(space_at_start(s)))
    } else {
        s
    }
}

/// `s` without its trailing white space.
pub open spec fn trim_space_end(s: Seq<u8>) -> Seq<u8>
    decreases s.len(),
{
    if 0 < space_at_end(s) {
        trim_space_end(s.take(s.len() - space_at_end(s)))
    } else {
        s
    }
}

/// `s` without white space at either end.
pub open spec fn trim_space(s: Seq<u8>) -> Seq<u8> {
    trim_space_end(trim_space_start(s))
}

/// Whether `c[0..3]` encodes a three-byte white-space character.
fn is_space3(c0: u8, c1: u8, c2: u8) -> (r: bool)
    ensures
        r == is_space_char(seq![c0, c1, c2]),
{
    (c0 == 0xE1 && c1 == 0x9A && c2 == 0x80) || (c0 == 0xE2 && c1 == 0x80 && ((0x80 <= c2 && c2
        <= 0x8A) || c2 == 0xA8 || c2 == 0xA9 || c2 == 0xAF)) || (c0 == 0xE2 && c1 == 0x81 && c2
        == 0x9F) || (c0 == 0xE3 && c1 == 0x80 && c2 == 0x80)
}

/// The length of the white-space character that `s[a..b]` starts with, or 0.
fn space_len_at_start(s: &[u8], a: usize, b: usize) -> (r: usize)
    requires
        a <= b <= s.len(),
    ensures
        r == space_at_start(s@.subrange(a as int, b as int)),
{
    let ghost t = s@.subrange(a as int, b as int);
    let n = b - a;
    if n >= 1 {
        assert(t.take(1) =~= seq![s[a as int]]);
    }
    if n >= 2 {
        assert(t.take(2) =~= seq![s[a as int], s[a + 1]]);
    }
    if n >= 3 {
        assert(t.take(3) =~= seq![s[a as int], s[a + 1], s[a + 2]]);
    }
    if n >= 1 && ((9 <= s[a] && s[a] <= 13) || s[a] == 32) {
        1
    } else if n >= 2 && s[a] == 0xC2 && (s[a + 1] == 0x85 || s[a + 1] == 0xA0) {
        2
    } else if n >= 3 && is_space3(s[a], s[a + 1], s[a + 2]) {
        3
    } else {
        0
    }
}

/// The length of the white-space character that `s[a..b]` ends with, or 0.
fn space_len_at_end(s: &[u8], a: usize, b: usize) -> (r: usize)
    requires
        a <= b <= s.len(),
    ensures
        r == space_at_end(s@.subrange(a as int, b as int)),
{
    let ghost t = s@.subrange(a as int, b as int);
    let n = b - a;
    if n >= 1 {
        assert(t.skip(t.len() - 1) =~= seq![s[b - 1]]);
    }
    if n >= 2 {
        assert(t.skip(t.len() - 2) =~= seq![s[b - 2], s[b - 1]]);
    }
    if n >= 3 {
        assert(t.skip(t.len() - 3) =~= seq![s[b - 3], s[b - 2], s[b - 1]]);
    }
    if n >= 1 && ((9 <= s[b - 1] && s[b - 1] <= 13) || s[b - 1] == 32) {
        1
    } else if n >= 2 && s[b - 2] == 0xC2 && (s[b - 1] == 0x85 || s[b - 1] == 0xA0) {
        2
    } else if n >= 3 && is_space3(s[b - 3], s[b - 2], s[b - 1]) {
        3
    } else {
        0
    }
}

/// The bounds `(a, b)` of `s` without white space at either end.
pub fn trim_space_bounds(s: &[u8]) -> (r: (usize, usize))
    ensures
        r.0 <= r.1 <= s.len(),
        s@.subrange(r.0 as int, r.1 as int) == trim_space(s@),
{
    let n = s.len();
    let mut a: usize = 0;
    assert(s@.subrange(0, n as int) =~= s@);
    loop
        invariant
            n == s.len(),
            a <= n,
            trim_space_start(s@) == trim_space_start(s@.subrange(a as int, n as int)),
        ensures
            a <= n,
            trim_space_start(s@) == s@.subrange(a as int, n as int),
        decreases n - a,
    {
        let k = space_len_at_start(s, a, n);
        if k == 0 {
            break ;
        }
        assert(s@.subrange(a as int, n as int).skip(k as int) =~= s@.subrange(a + k, n as int));
        a += k;
    }
    let mut b: usize = n;
    loop
        invariant
            n == s.len(),
            a <= b <= n,
            trim_space_start(s@) == s@.subrange(a as int, n as int),
            trim_space(s@) == trim_space_end(s@.subrange(a as int, b as int)),
        ensures
            a <= b <= n,
            trim_space(s@) == s@.subrange(a as int, b as int),
        decreases b - a,
    {
        let k = space_len_at_end(s, a, b);
        if k == 0 {
            break ;
        }
        assert(s@.subrange(a as int, b as int).take(b - a - k) =~= s@.subrange(
            a as int,
            b - k,
        ));
        b -= k;
    }
    (a, b)
}

} // verus!
