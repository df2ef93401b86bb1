//! Paths as byte strings: prefixes, trailing separators, `.git`
//! components and the byte-wise order used to break ties.

use std::cmp::Ordering;
use vstd::prelude::*;

verus! {

/// The path separator, `/`.
pub const SLASH: u8 = 47;

/// The bytes of the name `.git`.
pub const DOT: u8 = 46;
pub const LOWER_G: u8 = 103;
pub const LOWER_I: u8 = 105;
pub const LOWER_T: u8 = 116;

/// `s` with every trailing separator removed.
pub open spec fn trim_end_slashes(s: Seq<u8>) -> Seq<u8>
    decreases s.len(),
{
    if s.len() > 0 && s.last() == SLASH {
        trim_end_slashes(s.drop_last())
    } else {
        s
    }
}

/// `a`, one separator, then `b`.
pub open spec fn joined(a: Seq<u8>, b: Seq<u8>) -> Seq<u8> {
    a + seq![SLASH] + b
}

/// A component named `.git` starts at index `i` of `s`.
pub open spec fn git_component_at(s: Seq<u8>, i: int) -> bool {
    &&& 0 <= i
    &&& i + 4 <= s.len()
    &&& (i == 0 || s[i - 1] == SLASH)
    &&& s[i] == DOT
    &&& s[i + 1] == LOWER_G
    &&& s[i + 2] == LOWER_I
    &&& s[i + 3] == LOWER_T
    &&& (i + 4 == s.len() || s[i + 4] == SLASH)
}

/// Some component of `s` is named `.git`.
pub open spec fn has_git_component(s: Seq<u8>) -> bool {
    exists|i: int| git_component_at(s, i)
}

/// Byte-wise lexicographic order: `a` comes no later than `b`.
pub open spec fn bytes_le(a: Seq<u8>, b: Seq<u8>) -> bool
    decreases a.len(),
{
    if a.len() == 0 {
        true
    } else if b.len() == 0 {
        false
    } else if a[0] != b[0] {
        a[0] < b[0]
    } else {
        bytes_le(a.drop_first(), b.drop_first())
    }
}

pub proof fn lemma_bytes_le_reflexive(a: Seq<u8>)
    ensures
        bytes_le(a, a),
    decreases a.len(),
{
    if a.len() > 0 {
        lemma_bytes_le_reflexive(a.drop_first());
    }
}

pub proof fn lemma_bytes_le_antisymmetric(a: Seq<u8>, b: Seq<u8>)
    requires
        bytes_le(a, b),
        bytes_le(b, a),
    ensures
        a == b,
    decreases a.len(),
{
    if a.len() > 0 && b.len() > 0 {
        lemma_bytes_le_antisymmetric(a.drop_first(), b.drop_first());
        assert(a =~= seq![a[0]] + a.drop_first());
        assert(b =~= seq![b[0]] + b.drop_first());
    } else {
        assert(a =~= b);
    }
}

pub proof fn lemma_bytes_le_transitive(a: Seq<u8>, b: Seq<u8>, c: Seq<u8>)
    requires
        bytes_le(a, b),
        bytes_le(b, c),
    ensures
        bytes_le(a, c),
    decreases a.len(),
{
    if a.len() > 0 && b.len() > 0 && c.len() > 0 && a[0] == b[0] && b[0] == c[0] {
        lemma_bytes_le_transitive(a.drop_first(), b.drop_first(), c.drop_first());
    }
}

pub proof fn lemma_bytes_le_total(a: Seq<u8>, b: Seq<u8>)
    ensures
        bytes_le(a, b) || bytes_le(b, a),
    decreases a.len(),
{
    if a.len() > 0 && b.len() > 0 && a[0] == b[0] {
        lemma_bytes_le_total(a.drop_first(), b.drop_first());
    }
}

/// Whether `p` is a prefix of `s`.
pub fn starts_with(s: &Vec<u8>, p: &Vec<u8>) -> (r: bool)
    ensures
        r == p@.is_prefix_of(s@),
{
    if p.len() > s.len() {
        return false;
    }
    let mut i: usize = 0;
    while i < p.len()
        invariant
            p@.len() <= s@.len(),
            i <= p@.len(),
            forall|j: int| 0 <= j < i ==> s@[j] == p@[j],
        decreases p@.len() - i,
    {
        if s[i] != p[i] {
            return false;
        }
        i += 1;
    }
    assert(p@ =~= s@.subrange(0, p@.len() as int));
    true
}

/// Compares two paths byte by byte.
pub fn compare_bytes(a: &Vec<u8>, b: &Vec<u8>) -> (r: Ordering)
    ensures
        (r == Ordering::Equal) == (a@ == b@),
        (r == Ordering::Less) == (bytes_le(a@, b@) && a@ != b@),
        (r == Ordering::Greater) == !bytes_le(a@, b@),
{
    let mut i: usize = 0;
    assert(a@.skip(0) =~= a@);
    assert(b@.skip(0) =~= b@);
    while i < a.len() && i < b.len() && a[i] == b[i]
        invariant
            i <= a@.len(),
            i <= b@.len(),
            a@.take(i as int) == b@.take(i as int),
            bytes_le(a@, b@) == bytes_le(a@.skip(i as int), b@.skip(i as int)),
        decreases a@.len() - i,
    {
        assert(a@.skip(i as int).drop_first() =~= a@.skip(i + 1));
        assert(b@.skip(i as int).drop_first() =~= b@.skip(i + 1));
        assert(a@.take(i + 1) =~= a@.take(i as int).push(a@[i as int]));
        assert(b@.take(i + 1) =~= b@.take(i as int).push(b@[i as int]));
        i += 1;
    }
    if i < a.len() && i < b.len() {
        assert(a@[i as int] == a@.skip(i as int)[0]);
        assert(b@[i as int] == b@.skip(i as int)[0]);
        if a[i] < b[i] {
            Ordering::Less
        } else {
            Ordering::Greater
        }
    } else if i == a.len() && i == b.len() {
        assert(a@ =~= a@.take(i as int));
        assert(b@ =~= b@.take(i as int));
        proof {
            lemma_bytes_le_reflexive(a@);
        }
        Ordering::Equal
    } else if i == a.len() {
        assert(a@.skip(i as int).len() == 0);
        Ordering::Less
    } else {
        assert(b@.skip(i as int).len() == 0);
        assert(a@.skip(i as int).len() > 0);
        Ordering::Greater
    }
}


pub proof fn lemma_trim_end_slashes_idempotent(s: Seq<u8>)
    ensures
        trim_end_slashes(trim_end_slashes(s)) == trim_end_slashes(s),
        trim_end_slashes(s).len() <= s.len(),
    decreases s.len(),
{
    if s.len() > 0 && s.last() == SLASH {
        lemma_trim_end_slashes_idempotent(s.drop_last());
    }
}

/// A `.git` component of the part of `s` after a separator at index `k` is
/// a `.git` component of `s` itself.
pub proof fn lemma_git_component_of_suffix(s: Seq<u8>, k: int)
    requires
        0 <= k < s.len(),
        s[k] == SLASH,
        has_git_component(s.subrange(k + 1, s.len() as int)),
    ensures
        has_git_component(s),
{
    let t = s.subrange(k + 1, s.len() as int);
    let j = choose|j: int| git_component_at(t, j);
    assert(git_component_at(s, j + k + 1));
}

/// Appends the bytes of `src` to `dst`.
pub fn push_all(dst: &mut Vec<u8>, src: &Vec<u8>)
    ensures
        final(dst)@ == old(dst)@ + src@,
{
    let mut i: usize = 0;
    while i < src.len()
        invariant
            i <= src@.len(),
            dst@ == old(dst)@ + src@.take(i as int),
        decreases src@.len() - i,
    {
        dst.push(src[i]);
        i += 1;
        assert(src@.take(i as int) =~= src@.take(i - 1).push(src@[i - 1]));
    }
    assert(src@.take(i as int) =~= src@);
}

/// The first `n` bytes of `s`.
pub fn prefix_of(s: &Vec<u8>, n: usize) -> (r: Vec<u8>)
    requires
        n <= s@.len(),
    ensures
        r@ == s@.take(n as int),
{
    let mut r: Vec<u8> = Vec::new();
    let mut i: usize = 0;
    while i < n
        invariant
            n <= s@.len(),
            i <= n,
            r@ == s@.take(i as int),
        decreases n - i,
    {
        r.push(s[i]);
        i += 1;
        assert(s@.take(i as int) =~= s@.take(i - 1).push(s@[i - 1]));
    }
    r
}

/// The bytes of `s` from index `n` on.
pub fn suffix_of(s: &Vec<u8>, n: usize) -> (r: Vec<u8>)
    requires
        n <= s@.len(),
    ensures
        r@ == s@.subrange(n as int, s@.len() as int),
{
    let mut r: Vec<u8> = Vec::new();
    let mut i: usize = n;
    while i < s.len()
        invariant
            n <= i <= s@.len(),
            r@ == s@.subrange(n as int, i as int),
        decreases s@.len() - i,
    {
        r.push(s[i]);
        i += 1;
        assert(s@.subrange(n as int, i as int) =~= s@.subrange(n as int, i - 1).push(s@[i - 1]));
    }
    r
}

/// `s` without its trailing separators.
pub fn trim_trailing_slashes(s: &Vec<u8>) -> (r: Vec<u8>)
    ensures
        r@ == trim_end_slashes(s@),
{
    let mut end: usize = s.len();
    assert(s@.take(end as int) =~= s@);
    while end > 0 && s[end - 1] == SLASH
        invariant
            end <= s@.len(),
            trim_end_slashes(s@.take(end as int)) == trim_end_slashes(s@),
        decreases end,
    {
        assert(s@.take(end as int).drop_last() =~= s@.take(end - 1));
        end -= 1;
    }
    prefix_of(s, end)
}

/// `a`, one separator, then `b`.
pub fn join(a: &Vec<u8>, b: &Vec<u8>) -> (r: Vec<u8>)
    ensures
        r@ == joined(a@, b@),
{
    let mut r: Vec<u8> = Vec::new();
    push_all(&mut r, a);
    r.push(SLASH);
    push_all(&mut r, b);
    assert(r@ =~= joined(a@, b@));
    r
}

/// Whether some component of `s` is named `.git`.
pub fn contains_git_component(s: &Vec<u8>) -> (r: bool)
    ensures
        r == has_git_component(s@),
{
    let n = s.len();
    if n < 4 {
        return false;
    }
    let mut i: usize = 0;
    while i <= n - 4
        invariant
            n == s@.len(),
            4 <= n,
            i <= n - 3,
            forall|j: int| 0 <= j < i ==> !git_component_at(s@, j),
        decreases n - i,
    {
        let starts = i == 0 || s[i - 1] == SLASH;
        let ends = i + 4 == n || s[i + 4] == SLASH;
        if starts && ends && s[i] == DOT && s[i + 1] == LOWER_G && s[i + 2] == LOWER_I
            && s[i + 3] == LOWER_T {
            assert(git_component_at(s@, i as int));
            return true;
        }
        i += 1;
    }
    assert forall|j: int| !git_component_at(s@, j) by {
        if 0 <= j < i {
        }
    }
    false
}

} // verus!
