use vstd::prelude::*;

verus! {

/// ASCII whitespace, as the engine's line output may carry it around a word.
pub open spec fn is_space(b: u8) -> bool {
    b == 9 || b == 10 || b == 13 || b == 32
}

/// `w` is `s` with every leading and trailing whitespace byte removed.
pub open spec fn trims_to(s: Seq<u8>, w: Seq<u8>) -> bool {
    &&& exists|a: int, b: int|
        {
            &&& 0 <= a <= b <= s.len()
            &&& w =~= s.subrange(a, b)
            &&& forall|i: int| 0 <= i < a ==> is_space(#[trigger] s[i])
            &&& forall|i: int| b <= i < s.len() ==> is_space(#[trigger] s[i])
        }
    &&& w.len() > 0 ==> !is_space(w[0]) && !is_space(w[w.len() - 1])
}

/// Two byte strings that both qualify as the trimmed form of `s` are equal.
pub proof fn lemma_trims_to_unique(s: Seq<u8>, w1: Seq<u8>, w2: Seq<u8>)
    requires
        trims_to(s, w1),
        trims_to(s, w2),
    ensures
        w1 == w2,
{
    let (a1, b1) = choose|a: int, b: int|
        {
            &&& 0 <= a <= b <= s.len()
            &&& w1 =~= s.subrange(a, b)
            &&& forall|i: int| 0 <= i < a ==> is_space(#[trigger] s[i])
            &&& forall|i: int| b <= i < s.len() ==> is_space(#[trigger] s[i])
        };
    let (a2, b2) = choose|a: int, b: int|
        {
            &&& 0 <= a <= b <= s.len()
            &&& w2 =~= s.subrange(a, b)
            &&& forall|i: int| 0 <= i < a ==> is_space(#[trigger] s[i])
            &&& forall|i: int| b <= i < s.len() ==> is_space(#[trigger] s[i])
        };
    if w1.len() == 0 {
        if w2.len() != 0 {
            assert(!is_space(s[a2]));
            assert(false);
        }
        assert(w1 =~= w2);
    } else if w2.len() == 0 {
        assert(!is_space(s[a1]));
        assert(false);
    } else {
        assert(w1[0] == s[a1] && !is_space(s[a1]));
        assert(w2[0] == s[a2] && !is_space(s[a2]));
        assert(w1[w1.len() - 1] == s[b1 - 1] && !is_space(s[b1 - 1]));
        assert(w2[w2.len() - 1] == s[b2 - 1] && !is_space(s[b2 - 1]));
        assert(a1 == a2);
        assert(b1 == b2);
        assert(w1 =~= w2);
    }
}

/// True when `a` and `b` hold the same bytes.
pub fn bytes_eq(a: &[u8], b: &[u8]) -> (r: bool)
    ensures
        r == (a@ == b@),
{
    if a.len() != b.len() {
        return false;
    }
    let mut i: usize = 0;
    while i < a.len()
        invariant
            0 <= i <= a@.len(),
            a@.len() == b@.len(),
            forall|t: int| 0 <= t < i ==> a@[t] == b@[t],
        decreases a@.len() - i,
    {
        if a[i] != b[i] {
            return false;
        }
        i += 1;
    }
    proof {
        assert(a@ =~= b@);
    }
    true
}

/// True when `a` begins with the bytes of `prefix`.
pub fn bytes_starts_with(a: &[u8], prefix: &[u8]) -> (r: bool)
    ensures
        r == (a@.len() >= prefix@.len() && a@.subrange(0, prefix@.len() as int) =~= prefix@),
{
    if a.len() < prefix.len() {
        return false;
    }
    let mut i: usize = 0;
    while i < prefix.len()
        invariant
            0 <= i <= prefix@.len(),
            prefix@.len() <= a@.len(),
            forall|t: int| 0 <= t < i ==> a@[t] == prefix@[t],
        decreases prefix@.len() - i,
    {
        if a[i] != prefix[i] {
            assert(a@.subrange(0, prefix@.len() as int)[i as int] != prefix@[i as int]);
            return false;
        }
        i += 1;
    }
    proof {
        assert(a@.subrange(0, prefix@.len() as int) =~= prefix@);
    }
    true
}

/// Appends every byte of `s` to `v`.
pub fn push_bytes(v: &mut Vec<u8>, s: &[u8])
    ensures
        final(v)@ == old(v)@ + s@,
{
    let mut i: usize = 0;
    while i < s.len()
        invariant
            0 <= i <= s@.len(),
            v@ == old(v)@ + s@.subrange(0, i as int),
        decreases s@.len() - i,
    {
        let b = s[i];
        v.push(b);
        proof {
            assert(old(v)@ + s@.subrange(0, i + 1) =~= (old(v)@ + s@.subrange(0, i as int)).push(
                s@[i as int],
            ));
        }
        i += 1;
    }
    proof {
        assert(s@.subrange(0, s@.len() as int) =~= s@);
    }
}

/// The trimmed core of `line`: the same bytes with surrounding whitespace removed.
pub fn trim_ascii(line: &[u8]) -> (r: &[u8])
    ensures
        trims_to(line@, r@),
{
    let mut lo: usize = 0;
    let mut hi: usize = line.len();
    while lo < hi && is_space_byte(line[lo])
        invariant
            0 <= lo <= hi <= line@.len(),
            forall|i: int| 0 <= i < lo ==> is_space(#[trigger] line@[i]),
            hi == line@.len(),
        decreases hi - lo,
    {
        lo += 1;
    }
    while hi > lo && is_space_byte(line[hi - 1])
        invariant
            0 <= lo <= hi <= line@.len(),
            forall|i: int| 0 <= i < lo ==> is_space(#[trigger] line@[i]),
            forall|i: int| hi <= i < line@.len() ==> is_space(#[trigger] line@[i]),
        decreases hi,
    {
        hi -= 1;
    }
    let r = vstd::slice::slice_subrange(line, lo, hi);
    proof {
        if r@.len() > 0 {
            assert(r@[0] == line@[lo as int]);
            assert(r@[r@.len() - 1] == line@[hi - 1]);
        }
    }
    r
}

/// Whether a byte is ASCII whitespace; the executable twin of `is_space`.
pub fn is_space_byte(b: u8) -> (r: bool)
    ensures
        r == is_space(b),
{
    b == 9 || b == 10 || b == 13 || b == 32
}

} // verus!
